use lim::node::Node;
use lim::token::Token;

#[test]
fn start_of_classifies_characters() {
    assert_eq!(Token::start_of('='), Some(Token::Equal));
    assert_eq!(Token::start_of('+'), Some(Token::Plus));
    assert_eq!(Token::start_of(':'), Some(Token::Colon));
    assert_eq!(Token::start_of('\n'), Some(Token::NewLine));
    assert_eq!(
        Token::start_of('7'),
        Some(Token::Number(String::from("7")))
    );
    assert_eq!(
        Token::start_of('a'),
        Some(Token::Identifier(String::from("a")))
    );
    assert_eq!(
        Token::start_of('"'),
        Some(Token::Literal(String::from("\""), '"'))
    );
    assert_eq!(Token::start_of(' '), None);
}

#[test]
fn continues_and_append_grow_lexemes() {
    let t = Token::Identifier(String::from("ab"));
    assert_eq!(t.continues('c'), Some(true));
    assert_eq!(t.continues(' '), Some(false));
    assert_eq!(t.append('c'), Token::Identifier(String::from("abc")));

    let n = Token::Number(String::from("1.2"));
    assert_eq!(n.continues('3'), Some(true));
    assert_eq!(n.continues('.'), None);

    let p = Token::Period;
    assert_eq!(p.continues('4'), Some(true));
    assert_eq!(p.continues('x'), Some(false));
    assert_eq!(p.append('4'), Token::Number(String::from(".4")));
}

#[test]
fn is_complete_validates_tokens() {
    assert!(Token::Number(String::from("4")).is_complete());
    assert!(Token::Number(String::from("4.")).is_complete());
    assert!(!Token::Period.is_complete());
    assert!(!Token::Literal(String::from("\"ab"), '"').is_complete());
    assert!(Token::Literal(String::from("\"ab\""), '"').is_complete());
    assert!(Token::Equal.is_complete());
}

#[test]
fn clean_strips_delimiters_and_escapes() {
    let t = Token::Literal(String::from("\"f\\\"o\""), '"');
    assert_eq!(t.clean(), Token::Literal(String::from("f\"o"), '"'));
    assert_eq!(Token::Plus.clean(), Token::Plus);
}

#[test]
fn node_start_of_recognises_keywords() {
    assert_eq!(
        Node::start_of(Token::Identifier(String::from("enum"))),
        Some(Node::UnnamedEnumDefinition)
    );
    assert_eq!(
        Node::start_of(Token::Identifier(String::from("class"))),
        Some(Node::UnnamedClassDefinition)
    );
    assert_eq!(
        Node::start_of(Token::Identifier(String::from("x"))),
        Some(Node::Identifier(String::from("x")))
    );
    assert_eq!(Node::start_of(Token::SemiColon), Some(Node::Empty));
    assert_eq!(Node::start_of(Token::Equal), None);
}

#[test]
fn node_continues_delegates_to_open_child() {
    let n = Node::Identifier(String::from("x"));
    assert_eq!(n.continues(&Token::Equal), Some(true));
    assert_eq!(n.continues(&Token::CloseBrace), Some(false));

    let add = Node::Addition(
        Box::new(Node::Number(String::from("1"))),
        Box::new(Node::Empty),
    );
    assert_eq!(add.continues(&Token::Number(String::from("2"))), Some(true));

    let pm = Node::PartialMember(Box::new(Node::Identifier(String::from("x"))));
    assert_eq!(pm.continues(&Token::Identifier(String::from("y"))), Some(true));
    assert_eq!(pm.continues(&Token::Plus), None);
}

#[test]
fn node_append_builds_operations() {
    let n = Node::Identifier(String::from("x"));
    assert_eq!(
        n.append(Token::Equal),
        Some(Node::Assignment(
            Box::new(Node::Identifier(String::from("x"))),
            Box::new(Node::Empty),
        ))
    );
    let n = Node::Number(String::from("2"));
    assert_eq!(
        n.append(Token::Plus),
        Some(Node::Addition(
            Box::new(Node::Number(String::from("2"))),
            Box::new(Node::Empty),
        ))
    );
}

#[test]
fn node_is_a_accepts_everything() {
    let n = Node::Empty;
    assert!(n.is_a(Node::Identifier(String::from("x"))));
}
