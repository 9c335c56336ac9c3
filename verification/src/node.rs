use vstd::prelude::*;
use crate::token::{Token, TokenView};

verus! {

/// One construct of the abstract syntax tree, produced by the parser.
///
/// The `Partial`, `Unopened`, `Unnamed`, `Named` and `MatchArmWithoutColon`
/// variants, together with `Empty`, are transient states of grammar
/// constructs still under construction; a finished tree handed to the
/// interpreter is built of the remaining variants.
#[derive(Debug, PartialEq)]
pub enum Node {
    Program(Vec<Node>),
    Assignment(Box<Node>, Box<Node>),
    Addition(Box<Node>, Box<Node>),
    Substraction(Box<Node>, Box<Node>),
    Multiplication(Box<Node>, Box<Node>),
    Division(Box<Node>, Box<Node>),
    Modulus(Box<Node>, Box<Node>),
    Number(String),
    Identifier(String),
    Literal(String, char),
    Call(Box<Node>, Vec<Node>),
    PartialCall(Box<Node>, Vec<Node>),
    Parenthesized(Box<Node>),
    Member(Box<Node>, String),
    PartialMember(Box<Node>),
    PartialParenthesized(Box<Node>),
    FunctionArgs(Vec<Node>),
    PartialFunctionDefinition(Vec<Node>, Vec<Node>),
    FunctionDefinition(Vec<Node>, Vec<Node>),
    UnnamedEnumDefinition,
    NamedEnumDefinition(Box<Node>),
    PartialEnumDefinition(Box<Node>, Vec<Node>),
    EnumDefinition(Box<Node>, Vec<Node>),
    UnnamedClassDefinition,
    NamedClassDefinition(Box<Node>),
    PartialClassDefinition(Box<Node>, Box<Node>),
    ClassDefinition(Box<Node>, Box<Node>),
    PartialMatch(Box<Node>, Vec<Node>),
    UnopenedMatch(Box<Node>),
    UnopenedMatchArm(Box<Node>),
    MatchArmWithoutColon(Box<Node>),
    PartialMatchArm(Box<Node>, Box<Node>),
    MatchArm(Box<Node>, Box<Node>),
    Match(Box<Node>, Vec<Node>),
    Empty,
}

/// The mathematical model of a `Node`: the same tree with text abstracted
/// to character sequences and children to sequences.
pub enum NodeView {
    Program(Seq<NodeView>),
    Assignment(Box<NodeView>, Box<NodeView>),
    Addition(Box<NodeView>, Box<NodeView>),
    Substraction(Box<NodeView>, Box<NodeView>),
    Multiplication(Box<NodeView>, Box<NodeView>),
    Division(Box<NodeView>, Box<NodeView>),
    Modulus(Box<NodeView>, Box<NodeView>),
    Number(Seq<char>),
    Identifier(Seq<char>),
    Literal(Seq<char>, char),
    Call(Box<NodeView>, Seq<NodeView>),
    PartialCall(Box<NodeView>, Seq<NodeView>),
    Parenthesized(Box<NodeView>),
    Member(Box<NodeView>, Seq<char>),
    PartialMember(Box<NodeView>),
    PartialParenthesized(Box<NodeView>),
    FunctionArgs(Seq<NodeView>),
    PartialFunctionDefinition(Seq<NodeView>, Seq<NodeView>),
    FunctionDefinition(Seq<NodeView>, Seq<NodeView>),
    UnnamedEnumDefinition,
    NamedEnumDefinition(Box<NodeView>),
    PartialEnumDefinition(Box<NodeView>, Seq<NodeView>),
    EnumDefinition(Box<NodeView>, Seq<NodeView>),
    UnnamedClassDefinition,
    NamedClassDefinition(Box<NodeView>),
    PartialClassDefinition(Box<NodeView>, Box<NodeView>),
    ClassDefinition(Box<NodeView>, Box<NodeView>),
    PartialMatch(Box<NodeView>, Seq<NodeView>),
    UnopenedMatch(Box<NodeView>),
    UnopenedMatchArm(Box<NodeView>),
    MatchArmWithoutColon(Box<NodeView>),
    PartialMatchArm(Box<NodeView>, Box<NodeView>),
    MatchArm(Box<NodeView>, Box<NodeView>),
    Match(Box<NodeView>, Seq<NodeView>),
    Empty,
}

/// The view of one node.
pub open spec fn view_node(n: Node) -> NodeView
    decreases n,
{
    match n {
        Node::Program(ns) => NodeView::Program(view_nodes(ns@)),
        Node::Assignment(l, r) => NodeView::Assignment(
            Box::new(view_node(*l)),
            Box::new(view_node(*r)),
        ),
        Node::Addition(l, r) => NodeView::Addition(
            Box::new(view_node(*l)),
            Box::new(view_node(*r)),
        ),
        Node::Substraction(l, r) => NodeView::Substraction(
            Box::new(view_node(*l)),
            Box::new(view_node(*r)),
        ),
        Node::Multiplication(l, r) => NodeView::Multiplication(
            Box::new(view_node(*l)),
            Box::new(view_node(*r)),
        ),
        Node::Division(l, r) => NodeView::Division(
            Box::new(view_node(*l)),
            Box::new(view_node(*r)),
        ),
        Node::Modulus(l, r) => NodeView::Modulus(Box::new(view_node(*l)), Box::new(view_node(*r))),
        Node::Number(s) => NodeView::Number(s@),
        Node::Identifier(s) => NodeView::Identifier(s@),
        Node::Literal(s, d) => NodeView::Literal(s@, d),
        Node::Call(f, args) => NodeView::Call(Box::new(view_node(*f)), view_nodes(args@)),
        Node::PartialCall(f, args) => NodeView::PartialCall(
            Box::new(view_node(*f)),
            view_nodes(args@),
        ),
        Node::Parenthesized(inner) => NodeView::Parenthesized(Box::new(view_node(*inner))),
        Node::Member(obj, name) => NodeView::Member(Box::new(view_node(*obj)), name@),
        Node::PartialMember(obj) => NodeView::PartialMember(Box::new(view_node(*obj))),
        Node::PartialParenthesized(inner) => NodeView::PartialParenthesized(
            Box::new(view_node(*inner)),
        ),
        Node::FunctionArgs(ns) => NodeView::FunctionArgs(view_nodes(ns@)),
        Node::PartialFunctionDefinition(args, body) => NodeView::PartialFunctionDefinition(
            view_nodes(args@),
            view_nodes(body@),
        ),
        Node::FunctionDefinition(args, body) => NodeView::FunctionDefinition(
            view_nodes(args@),
            view_nodes(body@),
        ),
        Node::UnnamedEnumDefinition => NodeView::UnnamedEnumDefinition,
        Node::NamedEnumDefinition(name) => NodeView::NamedEnumDefinition(
            Box::new(view_node(*name)),
        ),
        Node::PartialEnumDefinition(name, vs) => NodeView::PartialEnumDefinition(
            Box::new(view_node(*name)),
            view_nodes(vs@),
        ),
        Node::EnumDefinition(name, vs) => NodeView::EnumDefinition(
            Box::new(view_node(*name)),
            view_nodes(vs@),
        ),
        Node::UnnamedClassDefinition => NodeView::UnnamedClassDefinition,
        Node::NamedClassDefinition(name) => NodeView::NamedClassDefinition(
            Box::new(view_node(*name)),
        ),
        Node::PartialClassDefinition(name, code) => NodeView::PartialClassDefinition(
            Box::new(view_node(*name)),
            Box::new(view_node(*code)),
        ),
        Node::ClassDefinition(name, code) => NodeView::ClassDefinition(
            Box::new(view_node(*name)),
            Box::new(view_node(*code)),
        ),
        Node::PartialMatch(subject, arms) => NodeView::PartialMatch(
            Box::new(view_node(*subject)),
            view_nodes(arms@),
        ),
        Node::UnopenedMatch(subject) => NodeView::UnopenedMatch(Box::new(view_node(*subject))),
        Node::UnopenedMatchArm(m) => NodeView::UnopenedMatchArm(Box::new(view_node(*m))),
        Node::MatchArmWithoutColon(m) => NodeView::MatchArmWithoutColon(Box::new(view_node(*m))),
        Node::PartialMatchArm(m, body) => NodeView::PartialMatchArm(
            Box::new(view_node(*m)),
            Box::new(view_node(*body)),
        ),
        Node::MatchArm(m, body) => NodeView::MatchArm(
            Box::new(view_node(*m)),
            Box::new(view_node(*body)),
        ),
        Node::Match(subject, arms) => NodeView::Match(
            Box::new(view_node(*subject)),
            view_nodes(arms@),
        ),
        Node::Empty => NodeView::Empty,
    }
}

/// The views of a sequence of nodes, element by element.
pub open spec fn view_nodes(s: Seq<Node>) -> Seq<NodeView>
    decreases s,
{
    if s.len() == 0 {
        Seq::empty()
    } else {
        view_nodes(s.drop_last()).push(view_node(s.last()))
    }
}

impl DeepView for Node {
    type V = NodeView;

    open spec fn deep_view(&self) -> NodeView {
        view_node(*self)
    }
}

pub broadcast proof fn lemma_view_nodes_len(s: Seq<Node>)
    ensures
        (#[trigger] view_nodes(s)).len() == s.len(),
    decreases s,
{
    if s.len() > 0 {
        lemma_view_nodes_len(s.drop_last());
    }
}

pub broadcast proof fn lemma_view_nodes_index(s: Seq<Node>, i: int)
    requires
        0 <= i < s.len(),
    ensures
        #[trigger] view_nodes(s)[i] == view_node(s[i]),
    decreases s,
{
    lemma_view_nodes_len(s);
    if s.len() > 0 {
        if i < s.len() - 1 {
            lemma_view_nodes_index(s.drop_last(), i);
        }
    }
}

pub proof fn lemma_view_nodes_push(s: Seq<Node>, n: Node)
    ensures
        view_nodes(s.push(n)) == view_nodes(s).push(view_node(n)),
{
    assert(s.push(n).drop_last() =~= s);
    assert(s.push(n).last() == n);
}

pub proof fn lemma_view_nodes_drop_last(s: Seq<Node>)
    requires
        s.len() > 0,
    ensures
        view_nodes(s.drop_last()) == view_nodes(s).drop_last(),
        view_nodes(s).last() == view_node(s.last()),
{
    lemma_view_nodes_len(s);
    assert(view_nodes(s).drop_last() =~= view_nodes(s.drop_last()));
}

/// What `Node::start_of` returns: the node, if any, that the token `t`
/// begins. The identifiers `enum` and `class` begin definitions, a
/// newline or semicolon begins an `Empty` statement placeholder.
pub open spec fn node_start_of(t: TokenView) -> Option<NodeView> {
    match t {
        TokenView::Identifier(s) => if s == "enum"@ {
            Some(NodeView::UnnamedEnumDefinition)
        } else if s == "class"@ {
            Some(NodeView::UnnamedClassDefinition)
        } else {
            Some(NodeView::Identifier(s))
        },
        TokenView::Literal(s, d) => Some(NodeView::Literal(s, d)),
        TokenView::Number(s) => Some(NodeView::Number(s)),
        TokenView::OpenParenthesis => Some(
            NodeView::PartialParenthesized(Box::new(NodeView::Empty)),
        ),
        TokenView::NewLine => Some(NodeView::Empty),
        TokenView::SemiColon => Some(NodeView::Empty),
        _ => None,
    }
}

/// What `Node::continues` returns: `Some(true)` when the token extends
/// this node (for composite nodes, by delegation to the right-most open
/// child), `Some(false)` when the node is done, `None` on an
/// unrecoverable parse error.
pub open spec fn node_continues(n: NodeView, t: TokenView) -> Option<bool>
    decreases n,
{
    match n {
        NodeView::Member(_obj, _name) => match t {
            TokenView::OpenParenthesis => Some(true),
            TokenView::Equal => Some(true),
            _ => Some(false),
        },
        NodeView::Program(nodes) => if nodes.len() > 0 {
            match node_continues(nodes.last(), t) {
                None => None,
                Some(true) => Some(true),
                Some(false) => match t {
                    TokenView::Identifier(_) => Some(true),
                    _ => Some(false),
                },
            }
        } else {
            match t {
                TokenView::Identifier(_) => Some(true),
                _ => Some(false),
            }
        },
        NodeView::PartialMember(_) => match t {
            TokenView::Identifier(_) => Some(true),
            _ => None,
        },
        NodeView::UnnamedEnumDefinition => match t {
            TokenView::Identifier(_) => Some(true),
            _ => None,
        },
        NodeView::UnnamedClassDefinition => match t {
            TokenView::Identifier(_) => Some(true),
            _ => None,
        },
        NodeView::NamedEnumDefinition(_) => match t {
            TokenView::OpenBrace => Some(true),
            _ => None,
        },
        NodeView::NamedClassDefinition(_) => match t {
            TokenView::OpenBrace => Some(true),
            _ => None,
        },
        NodeView::PartialEnumDefinition(_, _) => match t {
            TokenView::CloseBrace => Some(true),
            TokenView::Identifier(_) => Some(true),
            TokenView::NewLine => Some(true),
            _ => None,
        },
        NodeView::PartialClassDefinition(_, code) => match node_continues(*code, t) {
            None => None,
            Some(true) => Some(true),
            Some(false) => match t {
                TokenView::CloseBrace => Some(true),
                TokenView::NewLine => Some(true),
                _ => None,
            },
        },
        NodeView::UnopenedMatch(_) => match t {
            TokenView::OpenBrace => Some(true),
            _ => None,
        },
        NodeView::Identifier(_) => match t {
            TokenView::Equal => Some(true),
            TokenView::Plus => Some(true),
            TokenView::Minus => Some(true),
            TokenView::Times => Some(true),
            TokenView::Division => Some(true),
            TokenView::Period => Some(true),
            TokenView::Modulus => Some(true),
            TokenView::OpenParenthesis => Some(true),
            TokenView::Colon => Some(true),
            _ => Some(false),
        },
        NodeView::Number(_) => match t {
            TokenView::Plus => Some(true),
            TokenView::Minus => Some(true),
            TokenView::Times => Some(true),
            TokenView::Division => Some(true),
            TokenView::Period => Some(true),
            TokenView::Modulus => Some(true),
            TokenView::OpenParenthesis => Some(true),
            _ => Some(false),
        },
        NodeView::Parenthesized(_) => match t {
            TokenView::Plus => Some(true),
            TokenView::Minus => Some(true),
            TokenView::Times => Some(true),
            TokenView::Division => Some(true),
            TokenView::Period => Some(true),
            TokenView::Modulus => Some(true),
            TokenView::OpenParenthesis => Some(true),
            TokenView::OpenBrace => Some(true),
            _ => Some(false),
        },
        NodeView::PartialMatch(_subject, arms) => if t is NewLine {
            Some(true)
        } else if arms.len() > 0 {
            match arms.last() {
                NodeView::PartialMatchArm(_m, body) => match node_continues(*body, t) {
                    None => None,
                    Some(true) => Some(true),
                    Some(false) => match t {
                        TokenView::CloseBrace => Some(true),
                        _ => Some(false),
                    },
                },
                _ => match t {
                    TokenView::Identifier(_) => Some(true),
                    TokenView::CloseBrace => Some(true),
                    TokenView::Colon => Some(true),
                    TokenView::OpenBrace => Some(true),
                    TokenView::Period => Some(true),
                    _ => None,
                },
            }
        } else {
            match t {
                TokenView::Identifier(_) => Some(true),
                TokenView::CloseBrace => Some(true),
                TokenView::Colon => Some(true),
                TokenView::OpenBrace => Some(true),
                TokenView::Period => Some(true),
                _ => None,
            }
        },
        NodeView::PartialMatchArm(_m, body) => match node_continues(*body, t) {
            Some(true) => Some(true),
            _ => match t {
                TokenView::CloseBrace => Some(true),
                _ => None,
            },
        },
        NodeView::Addition(_l, r) => node_continues(*r, t),
        NodeView::Substraction(_l, r) => node_continues(*r, t),
        NodeView::Multiplication(_l, r) => node_continues(*r, t),
        NodeView::Division(_l, r) => node_continues(*r, t),
        NodeView::Modulus(_l, r) => node_continues(*r, t),
        NodeView::Assignment(_l, r) => node_continues(*r, t),
        NodeView::PartialFunctionDefinition(_args, body) => if body.len() == 0 {
            None
        } else {
            match node_continues(body.last(), t) {
                None => None,
                Some(true) => Some(true),
                Some(false) => match t {
                    TokenView::CloseBrace => Some(true),
                    TokenView::NewLine => Some(true),
                    TokenView::SemiColon => Some(true),
                    _ => Some(false),
                },
            }
        },
        NodeView::PartialParenthesized(inner) => match node_continues(*inner, t) {
            None => None,
            Some(true) => Some(true),
            Some(false) => match t {
                TokenView::CloseParenthesis => Some(true),
                _ => Some(false),
            },
        },
        NodeView::Call(_f, _args) => Some(false),
        NodeView::PartialCall(_f, args) => match t {
            TokenView::Comma => Some(true),
            TokenView::CloseParenthesis => Some(true),
            _ => if args.len() == 0 {
                Some(true)
            } else {
                node_continues(args.last(), t)
            },
        },
        NodeView::Empty => match t {
            TokenView::CloseBrace => Some(false),
            TokenView::CloseParenthesis => Some(false),
            _ => Some(true),
        },
        _ => Some(false),
    }
}

/// The `PartialMatchArm` delegation inside a `PartialMatch`: what
/// `node_continues` consults for the last arm.
///
/// What `Node::append` returns: the node after absorbing the token, the
/// actual grammar transition. `None` is an unrecoverable parse error.
pub open spec fn node_append(n: NodeView, t: TokenView) -> Option<NodeView>
    decreases n,
{
    match n {
        NodeView::Identifier(_) | NodeView::Number(_) => match t {
            TokenView::Equal => Some(
                NodeView::Assignment(Box::new(n), Box::new(NodeView::Empty)),
            ),
            TokenView::Plus => Some(NodeView::Addition(Box::new(n), Box::new(NodeView::Empty))),
            TokenView::Minus => Some(
                NodeView::Substraction(Box::new(n), Box::new(NodeView::Empty)),
            ),
            TokenView::Times => Some(
                NodeView::Multiplication(Box::new(n), Box::new(NodeView::Empty)),
            ),
            TokenView::Division => Some(
                NodeView::Division(Box::new(n), Box::new(NodeView::Empty)),
            ),
            TokenView::Modulus => Some(NodeView::Modulus(Box::new(n), Box::new(NodeView::Empty))),
            TokenView::OpenParenthesis => Some(NodeView::PartialCall(Box::new(n), Seq::empty())),
            TokenView::Period => Some(NodeView::PartialMember(Box::new(n))),
            TokenView::Colon => Some(NodeView::UnopenedMatch(Box::new(n))),
            _ => Some(n),
        },
        NodeView::Parenthesized(inner) => match t {
            TokenView::Times => Some(
                NodeView::Multiplication(Box::new(n), Box::new(NodeView::Empty)),
            ),
            TokenView::OpenBrace => {
                let args: Seq<NodeView> = if *inner == NodeView::Empty {
                    Seq::empty()
                } else {
                    seq![*inner]
                };
                Some(NodeView::PartialFunctionDefinition(args, seq![NodeView::Empty]))
            },
            _ => None,
        },
        NodeView::Addition(_l, r) => match t {
            TokenView::Plus => Some(NodeView::Addition(Box::new(n), Box::new(NodeView::Empty))),
            _ => match node_append(*r, t) {
                Some(r2) => Some(NodeView::Addition(_l, Box::new(r2))),
                None => None,
            },
        },
        NodeView::Substraction(_l, r) => match t {
            TokenView::Plus => Some(NodeView::Addition(Box::new(n), Box::new(NodeView::Empty))),
            _ => match node_append(*r, t) {
                Some(r2) => Some(NodeView::Substraction(_l, Box::new(r2))),
                None => None,
            },
        },
        NodeView::Modulus(_l, r) => match t {
            TokenView::Plus => Some(NodeView::Addition(Box::new(n), Box::new(NodeView::Empty))),
            _ => match node_append(*r, t) {
                Some(r2) => Some(NodeView::Modulus(_l, Box::new(r2))),
                None => None,
            },
        },
        NodeView::Multiplication(_l, r) => match t {
            TokenView::Times => Some(
                NodeView::Multiplication(Box::new(n), Box::new(NodeView::Empty)),
            ),
            TokenView::Plus => Some(NodeView::Addition(Box::new(n), Box::new(NodeView::Empty))),
            _ => match node_append(*r, t) {
                Some(r2) => Some(NodeView::Multiplication(_l, Box::new(r2))),
                None => None,
            },
        },
        NodeView::Division(_l, r) => match t {
            TokenView::Times => Some(
                NodeView::Multiplication(Box::new(n), Box::new(NodeView::Empty)),
            ),
            TokenView::Plus => Some(NodeView::Addition(Box::new(n), Box::new(NodeView::Empty))),
            _ => match node_append(*r, t) {
                Some(r2) => Some(NodeView::Division(_l, Box::new(r2))),
                None => None,
            },
        },
        NodeView::PartialParenthesized(inner) => match node_continues(*inner, t) {
            None => None,
            Some(true) => match node_append(*inner, t) {
                Some(inner2) => Some(NodeView::PartialParenthesized(Box::new(inner2))),
                None => None,
            },
            Some(false) => if t is CloseParenthesis {
                Some(NodeView::Parenthesized(inner))
            } else {
                Some(n)
            },
        },
        NodeView::PartialFunctionDefinition(args, body) => if body.len() == 0 {
            None
        } else {
            match node_continues(body.last(), t) {
                None => None,
                Some(true) => match node_append(body.last(), t) {
                    Some(last2) => Some(
                        NodeView::PartialFunctionDefinition(args, body.drop_last().push(last2)),
                    ),
                    None => None,
                },
                Some(false) => match t {
                    TokenView::CloseBrace => {
                        let trimmed = if body.last() == NodeView::Empty {
                            body.drop_last()
                        } else {
                            body
                        };
                        Some(NodeView::FunctionDefinition(args, trimmed))
                    },
                    TokenView::NewLine => Some(
                        NodeView::PartialFunctionDefinition(args, body.push(NodeView::Empty)),
                    ),
                    _ => Some(n),
                },
            }
        },
        NodeView::UnnamedClassDefinition => match t {
            TokenView::Identifier(s) => Some(
                NodeView::NamedClassDefinition(Box::new(NodeView::Identifier(s))),
            ),
            _ => Some(n),
        },
        NodeView::UnnamedEnumDefinition => match t {
            TokenView::Identifier(s) => Some(
                NodeView::NamedEnumDefinition(Box::new(NodeView::Identifier(s))),
            ),
            _ => Some(n),
        },
        NodeView::NamedEnumDefinition(name) => match t {
            TokenView::OpenBrace => Some(NodeView::PartialEnumDefinition(name, Seq::empty())),
            _ => Some(n),
        },
        NodeView::NamedClassDefinition(name) => match t {
            TokenView::OpenBrace => Some(
                NodeView::PartialClassDefinition(name, Box::new(NodeView::Program(Seq::empty()))),
            ),
            _ => Some(n),
        },
        NodeView::PartialClassDefinition(name, code) => match node_continues(*code, t) {
            None => None,
            Some(true) => match node_append(*code, t) {
                Some(code2) => Some(NodeView::PartialClassDefinition(name, Box::new(code2))),
                None => None,
            },
            Some(false) => match t {
                TokenView::CloseBrace => Some(NodeView::ClassDefinition(name, code)),
                _ => Some(n),
            },
        },
        NodeView::PartialEnumDefinition(name, variations) => match t {
            TokenView::CloseBrace => Some(NodeView::EnumDefinition(name, variations)),
            TokenView::Identifier(s) => Some(
                NodeView::PartialEnumDefinition(name, variations.push(NodeView::Identifier(s))),
            ),
            _ => Some(n),
        },
        NodeView::PartialCall(callee, args) => match t {
            TokenView::CloseParenthesis => if args.len() > 0 {
                match node_continues(args.last(), t) {
                    None => None,
                    Some(true) => match node_append(args.last(), t) {
                        Some(last2) => Some(
                            NodeView::PartialCall(callee, args.drop_last().push(last2)),
                        ),
                        None => None,
                    },
                    Some(false) => Some(NodeView::Call(callee, args)),
                }
            } else {
                Some(NodeView::Call(callee, args))
            },
            TokenView::Comma => if args.len() == 0 {
                None
            } else {
                match node_continues(args.last(), t) {
                    None => None,
                    Some(true) => match node_append(args.last(), t) {
                        Some(last2) => Some(
                            NodeView::PartialCall(callee, args.drop_last().push(last2)),
                        ),
                        None => None,
                    },
                    Some(false) => Some(
                        NodeView::PartialCall(callee, args.push(NodeView::Empty)),
                    ),
                }
            },
            _ => if args.len() == 0 {
                match node_start_of(t) {
                    Some(n2) => Some(NodeView::PartialCall(callee, seq![n2])),
                    None => None,
                }
            } else {
                match node_append(args.last(), t) {
                    Some(last2) => Some(
                        NodeView::PartialCall(callee, args.drop_last().push(last2)),
                    ),
                    None => None,
                }
            },
        },
        NodeView::Assignment(_l, r) => match node_append(*r, t) {
            Some(r2) => Some(NodeView::Assignment(_l, Box::new(r2))),
            None => None,
        },
        NodeView::Empty => node_start_of(t),
        NodeView::UnopenedMatch(subject) => Some(NodeView::PartialMatch(subject, Seq::empty())),
        NodeView::Program(nodes) => if nodes.len() > 0 {
            match node_continues(nodes.last(), t) {
                None => None,
                Some(true) => match node_append(nodes.last(), t) {
                    Some(last2) => Some(NodeView::Program(nodes.drop_last().push(last2))),
                    None => None,
                },
                Some(false) => match node_start_of(t) {
                    Some(n2) => Some(NodeView::Program(nodes.push(n2))),
                    None => None,
                },
            }
        } else {
            match node_start_of(t) {
                Some(n2) => Some(NodeView::Program(nodes.push(n2))),
                None => None,
            }
        },
        NodeView::PartialMatch(subject, arms) => if arms.len() > 0 {
            match arms.last() {
                NodeView::PartialMatchArm(matcher, body) => match node_continues(*body, t) {
                    None => None,
                    Some(true) => match node_append(*body, t) {
                        Some(body2) => Some(
                            NodeView::PartialMatch(
                                subject,
                                arms.drop_last().push(
                                    NodeView::PartialMatchArm(matcher, Box::new(body2)),
                                ),
                            ),
                        ),
                        None => None,
                    },
                    Some(false) => match t {
                        TokenView::CloseBrace => Some(
                            NodeView::PartialMatch(
                                subject,
                                arms.drop_last().push(NodeView::MatchArm(matcher, body)),
                            ),
                        ),
                        _ => Some(n),
                    },
                },
                NodeView::MatchArmWithoutColon(matcher) => match t {
                    TokenView::Colon => Some(
                        NodeView::PartialMatch(
                            subject,
                            arms.drop_last().push(NodeView::UnopenedMatchArm(matcher)),
                        ),
                    ),
                    _ => match node_continues(*matcher, t) {
                        None => None,
                        Some(true) => match node_append(*matcher, t) {
                            Some(m2) => Some(
                                NodeView::PartialMatch(
                                    subject,
                                    arms.drop_last().push(
                                        NodeView::MatchArmWithoutColon(Box::new(m2)),
                                    ),
                                ),
                            ),
                            None => None,
                        },
                        Some(false) => Some(n),
                    },
                },
                NodeView::UnopenedMatchArm(matcher) => if t is OpenBrace {
                    Some(
                        NodeView::PartialMatch(
                            subject,
                            arms.drop_last().push(
                                NodeView::PartialMatchArm(
                                    matcher,
                                    Box::new(NodeView::Program(Seq::empty())),
                                ),
                            ),
                        ),
                    )
                } else {
                    None
                },
                NodeView::MatchArm(_m, _b) => match t {
                    TokenView::CloseBrace => Some(NodeView::Match(subject, arms)),
                    TokenView::Identifier(s) => Some(
                        NodeView::PartialMatch(
                            subject,
                            arms.push(
                                NodeView::MatchArmWithoutColon(Box::new(NodeView::Identifier(s))),
                            ),
                        ),
                    ),
                    _ => Some(n),
                },
                _ => Some(n),
            }
        } else {
            match t {
                TokenView::CloseBrace => Some(NodeView::Match(subject, arms)),
                TokenView::Identifier(s) => Some(
                    NodeView::PartialMatch(
                        subject,
                        arms.push(
                            NodeView::MatchArmWithoutColon(Box::new(NodeView::Identifier(s))),
                        ),
                    ),
                ),
                _ => Some(n),
            }
        },
        NodeView::PartialMember(obj) => match t {
            TokenView::Identifier(s) => Some(NodeView::Member(obj, s)),
            _ => None,
        },
        NodeView::Member(_obj, _name) => match t {
            TokenView::OpenParenthesis => Some(NodeView::PartialCall(Box::new(n), Seq::empty())),
            TokenView::Equal => Some(NodeView::Assignment(Box::new(n), Box::new(NodeView::Empty))),
            _ => None,
        },
        _ => Some(n),
    }
}

fn string_is(s: &String, t: &str) -> (r: bool)
    ensures
        r == (s@ == t@),
{
    let owned = t.to_owned();
    *s == owned
}

impl Node {
    /// Reports whether this node fits the given shape; every node does.
    pub fn is_a(&self, node: Node) -> (r: bool)
        ensures
            r,
    {
        let _ = node;
        true
    }

    /// Decides whether `token` can begin a new node and, if so, which:
    /// identifiers, numbers and literals begin leaves (with `enum` and
    /// `class` beginning definitions), an open parenthesis begins a
    /// parenthesized or call node, and a newline or semicolon begins an
    /// `Empty` statement placeholder.
    #[verifier::rlimit(50)]
    pub fn start_of(token: Token) -> (r: Option<Node>)
        ensures
            match r {
                Some(n) => node_start_of(token.deep_view()) == Some(n.deep_view()),
                None => node_start_of(token.deep_view()) is None,
            },
    {
        match token {
            Token::Identifier(string) => {
                if string_is(&string, "enum") {
                    proof {
                        assert(node_start_of(TokenView::Identifier(string@)) == Some(
                            NodeView::UnnamedEnumDefinition,
                        ));
                    }
                    Some(Node::UnnamedEnumDefinition)
                } else if string_is(&string, "class") {
                    proof {
                        assert(node_start_of(TokenView::Identifier(string@)) == Some(
                            NodeView::UnnamedClassDefinition,
                        ));
                    }
                    Some(Node::UnnamedClassDefinition)
                } else {
                    proof {
                        assert(node_start_of(TokenView::Identifier(string@)) == Some(
                            NodeView::Identifier(string@),
                        ));
                        assert(view_node(Node::Identifier(string)) == NodeView::Identifier(
                            string@,
                        ));
                    }
                    Some(Node::Identifier(string))
                }
            },
            Token::Literal(string, delimiter) => {
                proof {
                    assert(view_node(Node::Literal(string, delimiter)) == NodeView::Literal(
                        string@,
                        delimiter,
                    ));
                }
                Some(Node::Literal(string, delimiter))
            },
            Token::Number(string) => {
                proof {
                    assert(view_node(Node::Number(string)) == NodeView::Number(string@));
                }
                Some(Node::Number(string))
            },
            Token::OpenParenthesis => {
                proof {
                    reveal_with_fuel(view_node, 2);
                    assert(view_node(Node::PartialParenthesized(Box::new(Node::Empty)))
                        == NodeView::PartialParenthesized(Box::new(NodeView::Empty)));
                }
                Some(Node::PartialParenthesized(Box::new(Node::Empty)))
            },
            Token::NewLine => Some(Node::Empty),
            Token::SemiColon => Some(Node::Empty),
            _ => None,
        }
    }

    /// Decides whether `token` extends this node (`Some(true)`), ends it
    /// cleanly (`Some(false)`), or is an unrecoverable parse error
    /// (`None`). Composite nodes delegate to their right-most open child
    /// first.
    pub fn continues(&self, token: &Token) -> (r: Option<bool>)
        ensures
            r == node_continues(self.deep_view(), token.deep_view()),
        decreases *self,
    {
        broadcast use lemma_view_nodes_len, lemma_view_nodes_index;

        match self {
            Node::Member(_obj, _name) => match token {
                Token::OpenParenthesis => Some(true),
                Token::Equal => Some(true),
                _ => Some(false),
            },
            Node::Program(nodes) => {
                if nodes.len() > 0 {
                    let last = &nodes[nodes.len() - 1];
                    proof {
                        lemma_view_nodes_drop_last(nodes@);
                        assert(view_nodes(nodes@).last() == view_node(nodes@[nodes@.len() - 1]));
                    }
                    match last.continues(token) {
                        None => None,
                        Some(true) => Some(true),
                        Some(false) => match token {
                            Token::Identifier(_) => Some(true),
                            _ => Some(false),
                        },
                    }
                } else {
                    match token {
                        Token::Identifier(_) => Some(true),
                        _ => Some(false),
                    }
                }
            },
            Node::PartialMember(_obj) => match token {
                Token::Identifier(_) => Some(true),
                _ => None,
            },
            Node::UnnamedEnumDefinition => match token {
                Token::Identifier(_) => Some(true),
                _ => None,
            },
            Node::UnnamedClassDefinition => match token {
                Token::Identifier(_) => Some(true),
                _ => None,
            },
            Node::NamedEnumDefinition(_name) => match token {
                Token::OpenBrace => Some(true),
                _ => None,
            },
            Node::NamedClassDefinition(_name) => match token {
                Token::OpenBrace => Some(true),
                _ => None,
            },
            Node::PartialEnumDefinition(_name, _vs) => match token {
                Token::CloseBrace => Some(true),
                Token::Identifier(_) => Some(true),
                Token::NewLine => Some(true),
                _ => None,
            },
            Node::PartialClassDefinition(_name, code) => match code.continues(token) {
                None => None,
                Some(true) => Some(true),
                Some(false) => match token {
                    Token::CloseBrace => Some(true),
                    Token::NewLine => Some(true),
                    _ => None,
                },
            },
            Node::UnopenedMatch(_subject) => match token {
                Token::OpenBrace => Some(true),
                _ => None,
            },
            Node::Identifier(_s) => match token {
                Token::Equal | Token::Plus | Token::Minus | Token::Times | Token::Division
                | Token::Period | Token::Modulus | Token::OpenParenthesis | Token::Colon => Some(
                    true,
                ),
                _ => Some(false),
            },
            Node::Number(_s) => match token {
                Token::Plus | Token::Minus | Token::Times | Token::Division | Token::Period
                | Token::Modulus | Token::OpenParenthesis => Some(true),
                _ => Some(false),
            },
            Node::Parenthesized(_inner) => match token {
                Token::Plus | Token::Minus | Token::Times | Token::Division | Token::Period
                | Token::Modulus | Token::OpenParenthesis | Token::OpenBrace => Some(true),
                _ => Some(false),
            },
            Node::PartialMatch(_subject, arms) => {
                if let Token::NewLine = token {
                    return Some(true);
                }
                if arms.len() > 0 {
                    let last = &arms[arms.len() - 1];
                    proof {
                        lemma_view_nodes_drop_last(arms@);
                        assert(view_nodes(arms@).last() == view_node(arms@[arms@.len() - 1]));
                    }
                    if let Node::PartialMatchArm(_m, body) = last {
                        match body.continues(token) {
                            None => None,
                            Some(true) => Some(true),
                            Some(false) => match token {
                                Token::CloseBrace => Some(true),
                                _ => Some(false),
                            },
                        }
                    } else {
                        match token {
                            Token::Identifier(_) | Token::CloseBrace | Token::Colon
                            | Token::OpenBrace | Token::Period => Some(true),
                            _ => None,
                        }
                    }
                } else {
                    match token {
                        Token::Identifier(_) | Token::CloseBrace | Token::Colon
                        | Token::OpenBrace | Token::Period => Some(true),
                        _ => None,
                    }
                }
            },
            Node::PartialMatchArm(_m, body) => match body.continues(token) {
                Some(true) => Some(true),
                _ => match token {
                    Token::CloseBrace => Some(true),
                    _ => None,
                },
            },
            Node::Addition(_l, r) => r.continues(token),
            Node::Substraction(_l, r) => r.continues(token),
            Node::Multiplication(_l, r) => r.continues(token),
            Node::Division(_l, r) => r.continues(token),
            Node::Modulus(_l, r) => r.continues(token),
            Node::Assignment(_l, r) => r.continues(token),
            Node::PartialFunctionDefinition(_args, body) => {
                if body.len() == 0 {
                    None
                } else {
                    let last = &body[body.len() - 1];
                    proof {
                        lemma_view_nodes_drop_last(body@);
                        assert(view_nodes(body@).last() == view_node(body@[body@.len() - 1]));
                    }
                    match last.continues(token) {
                        None => None,
                        Some(true) => Some(true),
                        Some(false) => match token {
                            Token::CloseBrace | Token::NewLine | Token::SemiColon => Some(true),
                            _ => Some(false),
                        },
                    }
                }
            },
            Node::PartialParenthesized(inner) => match inner.continues(token) {
                None => None,
                Some(true) => Some(true),
                Some(false) => match token {
                    Token::CloseParenthesis => Some(true),
                    _ => Some(false),
                },
            },
            Node::Call(_f, _args) => Some(false),
            Node::PartialCall(_f, args) => match token {
                Token::Comma => Some(true),
                Token::CloseParenthesis => Some(true),
                _ => {
                    if args.len() == 0 {
                        Some(true)
                    } else {
                        let last = &args[args.len() - 1];
                        proof {
                            lemma_view_nodes_drop_last(args@);
                            assert(view_nodes(args@).last() == view_node(args@[args@.len() - 1]));
                        }
                        last.continues(token)
                    }
                },
            },
            Node::Empty => match token {
                Token::CloseBrace | Token::CloseParenthesis => Some(false),
                _ => Some(true),
            },
            _ => Some(false),
        }
    }
}

/// Two node sequences whose elements have the same views have the same
/// views as sequences.
pub proof fn lemma_view_nodes_congruence(a: Seq<Node>, b: Seq<Node>)
    requires
        a.len() == b.len(),
        forall|i: int| 0 <= i < a.len() ==> (#[trigger] a[i]).deep_view() == b[i].deep_view(),
    ensures
        view_nodes(a) == view_nodes(b),
{
    broadcast use lemma_view_nodes_len, lemma_view_nodes_index;

    assert(view_nodes(a) =~= view_nodes(b));
}

/// A copy of each node in the vector, exact up to the view.
pub fn clone_nodes(v: &Vec<Node>) -> (r: Vec<Node>)
    ensures
        r@.len() == v@.len(),
        view_nodes(r@) == view_nodes(v@),
    decreases v@,
{
    let mut out: Vec<Node> = Vec::new();
    let mut i: usize = 0;
    let n = v.len();
    while i < n
        invariant
            0 <= i <= n,
            n == v@.len(),
            out@.len() == i,
            forall|k: int|
                0 <= k < i ==> (#[trigger] out@[k]).deep_view() == v@[k].deep_view(),
        decreases n - i,
    {
        proof {
            assert(decreases_to!(v@ => v@[i as int]));
        }
        let c = v[i].clone();
        out.push(c);
        i = i + 1;
    }
    proof {
        lemma_view_nodes_congruence(out@, v@);
    }
    out
}

impl Clone for Node {
    /// A copy whose view equals the original's.
    fn clone(&self) -> (res: Node)
        ensures
            res.deep_view() == self.deep_view(),
        decreases *self,
    {
        match self {
            Node::Program(ns) => Node::Program(clone_nodes(ns)),
            Node::Assignment(l, r) => Node::Assignment(
                Box::new((**l).clone()),
                Box::new((**r).clone()),
            ),
            Node::Addition(l, r) => Node::Addition(
                Box::new((**l).clone()),
                Box::new((**r).clone()),
            ),
            Node::Substraction(l, r) => Node::Substraction(
                Box::new((**l).clone()),
                Box::new((**r).clone()),
            ),
            Node::Multiplication(l, r) => Node::Multiplication(
                Box::new((**l).clone()),
                Box::new((**r).clone()),
            ),
            Node::Division(l, r) => Node::Division(
                Box::new((**l).clone()),
                Box::new((**r).clone()),
            ),
            Node::Modulus(l, r) => Node::Modulus(
                Box::new((**l).clone()),
                Box::new((**r).clone()),
            ),
            Node::Number(s) => Node::Number(s.clone()),
            Node::Identifier(s) => Node::Identifier(s.clone()),
            Node::Literal(s, d) => Node::Literal(s.clone(), *d),
            Node::Call(f, args) => Node::Call(Box::new((**f).clone()), clone_nodes(args)),
            Node::PartialCall(f, args) => Node::PartialCall(
                Box::new((**f).clone()),
                clone_nodes(args),
            ),
            Node::Parenthesized(inner) => Node::Parenthesized(Box::new((**inner).clone())),
            Node::Member(obj, name) => Node::Member(Box::new((**obj).clone()), name.clone()),
            Node::PartialMember(obj) => Node::PartialMember(Box::new((**obj).clone())),
            Node::PartialParenthesized(inner) => Node::PartialParenthesized(
                Box::new((**inner).clone()),
            ),
            Node::FunctionArgs(ns) => Node::FunctionArgs(clone_nodes(ns)),
            Node::PartialFunctionDefinition(args, body) => Node::PartialFunctionDefinition(
                clone_nodes(args),
                clone_nodes(body),
            ),
            Node::FunctionDefinition(args, body) => Node::FunctionDefinition(
                clone_nodes(args),
                clone_nodes(body),
            ),
            Node::UnnamedEnumDefinition => Node::UnnamedEnumDefinition,
            Node::NamedEnumDefinition(name) => Node::NamedEnumDefinition(
                Box::new((**name).clone()),
            ),
            Node::PartialEnumDefinition(name, vs) => Node::PartialEnumDefinition(
                Box::new((**name).clone()),
                clone_nodes(vs),
            ),
            Node::EnumDefinition(name, vs) => Node::EnumDefinition(
                Box::new((**name).clone()),
                clone_nodes(vs),
            ),
            Node::UnnamedClassDefinition => Node::UnnamedClassDefinition,
            Node::NamedClassDefinition(name) => Node::NamedClassDefinition(
                Box::new((**name).clone()),
            ),
            Node::PartialClassDefinition(name, code) => Node::PartialClassDefinition(
                Box::new((**name).clone()),
                Box::new((**code).clone()),
            ),
            Node::ClassDefinition(name, code) => Node::ClassDefinition(
                Box::new((**name).clone()),
                Box::new((**code).clone()),
            ),
            Node::PartialMatch(subject, arms) => Node::PartialMatch(
                Box::new((**subject).clone()),
                clone_nodes(arms),
            ),
            Node::UnopenedMatch(subject) => Node::UnopenedMatch(Box::new((**subject).clone())),
            Node::UnopenedMatchArm(m) => Node::UnopenedMatchArm(Box::new((**m).clone())),
            Node::MatchArmWithoutColon(m) => Node::MatchArmWithoutColon(
                Box::new((**m).clone()),
            ),
            Node::PartialMatchArm(m, body) => Node::PartialMatchArm(
                Box::new((**m).clone()),
                Box::new((**body).clone()),
            ),
            Node::MatchArm(m, body) => Node::MatchArm(
                Box::new((**m).clone()),
                Box::new((**body).clone()),
            ),
            Node::Match(subject, arms) => Node::Match(
                Box::new((**subject).clone()),
                clone_nodes(arms),
            ),
            Node::Empty => Node::Empty,
        }
    }
}

pub(crate) fn is_empty_node(n: &Node) -> (r: bool)
    ensures
        r == (n.deep_view() == NodeView::Empty),
{
    match n {
        Node::Empty => true,
        Node::Program(_) => false,
        Node::Assignment(_, _) => false,
        Node::Addition(_, _) => false,
        Node::Substraction(_, _) => false,
        Node::Multiplication(_, _) => false,
        Node::Division(_, _) => false,
        Node::Modulus(_, _) => false,
        Node::Number(_) => false,
        Node::Identifier(_) => false,
        Node::Literal(_, _) => false,
        Node::Call(_, _) => false,
        Node::PartialCall(_, _) => false,
        Node::Parenthesized(_) => false,
        Node::Member(_, _) => false,
        Node::PartialMember(_) => false,
        Node::PartialParenthesized(_) => false,
        Node::FunctionArgs(_) => false,
        Node::PartialFunctionDefinition(_, _) => false,
        Node::FunctionDefinition(_, _) => false,
        Node::UnnamedEnumDefinition => false,
        Node::NamedEnumDefinition(_) => false,
        Node::PartialEnumDefinition(_, _) => false,
        Node::EnumDefinition(_, _) => false,
        Node::UnnamedClassDefinition => false,
        Node::NamedClassDefinition(_) => false,
        Node::PartialClassDefinition(_, _) => false,
        Node::ClassDefinition(_, _) => false,
        Node::PartialMatch(_, _) => false,
        Node::UnopenedMatch(_) => false,
        Node::UnopenedMatchArm(_) => false,
        Node::MatchArmWithoutColon(_) => false,
        Node::PartialMatchArm(_, _) => false,
        Node::MatchArm(_, _) => false,
        Node::Match(_, _) => false,
    }
}

/// The grammar transition for a leaf identifier or number followed by
/// `token`: an equal sign begins an assignment, an arithmetic operator a
/// binary operation, an open parenthesis a call, a period a member access
/// and a colon a pattern match.
fn append_atom(n: Node, token: Token) -> (r: Option<Node>)
    requires
        n matches Node::Identifier(_s) || n matches Node::Number(_s),
    ensures
        match r {
            Some(n2) => node_append(n.deep_view(), token.deep_view()) == Some(n2.deep_view()),
            None => node_append(n.deep_view(), token.deep_view()) is None,
        },
{
    proof {
        reveal_with_fuel(view_node, 2);
    }
    match token {
        Token::Equal => Some(Node::Assignment(Box::new(n), Box::new(Node::Empty))),
        Token::Plus => Some(Node::Addition(Box::new(n), Box::new(Node::Empty))),
        Token::Minus => Some(Node::Substraction(Box::new(n), Box::new(Node::Empty))),
        Token::Times => Some(Node::Multiplication(Box::new(n), Box::new(Node::Empty))),
        Token::Division => Some(Node::Division(Box::new(n), Box::new(Node::Empty))),
        Token::Modulus => Some(Node::Modulus(Box::new(n), Box::new(Node::Empty))),
        Token::OpenParenthesis => {
            let r = Node::PartialCall(Box::new(n), Vec::new());
            proof {
                assert(view_nodes(Seq::<Node>::empty()) =~= Seq::<NodeView>::empty());
            }
            Some(r)
        },
        Token::Period => Some(Node::PartialMember(Box::new(n))),
        Token::Colon => Some(Node::UnopenedMatch(Box::new(n))),
        _ => Some(n),
    }
}

impl Node {
    /// Absorbs `token` into this node, performing the actual grammar
    /// transition; `None` is an unrecoverable parse error. Composite
    /// nodes delegate to their right-most open child, and a
    /// lower-precedence operator makes the node so far the left operand
    /// of a new operation.
    pub fn append(self, token: Token) -> (r: Option<Node>)
        ensures
            match r {
                Some(n2) => node_append(self.deep_view(), token.deep_view()) == Some(
                    n2.deep_view(),
                ),
                None => node_append(self.deep_view(), token.deep_view()) is None,
            },
        decreases self,
    {
        broadcast use lemma_view_nodes_len, lemma_view_nodes_index;

        let ghost self0 = self;
        match self {
            Node::Identifier(s) => append_atom(Node::Identifier(s), token),
            Node::Number(s) => append_atom(Node::Number(s), token),
            Node::Parenthesized(inner) => match token {
                Token::Times => {
                    proof {
                        reveal_with_fuel(view_node, 2);
                    }
                    Some(
                        Node::Multiplication(
                            Box::new(Node::Parenthesized(inner)),
                            Box::new(Node::Empty),
                        ),
                    )
                },
                Token::OpenBrace => {
                    proof {
                        reveal_with_fuel(view_node, 3);
                        assert(view_nodes(Seq::<Node>::empty()) =~= Seq::<NodeView>::empty());
                    }
                    let mut args: Vec<Node> = Vec::new();
                    if !is_empty_node(&inner) {
                        args.push(*inner);
                        proof {
                            lemma_view_nodes_push(Seq::<Node>::empty(), args@[0]);
                            assert(view_nodes(args@) =~= seq![view_node(args@[0])]);
                        }
                    }
                    let mut body: Vec<Node> = Vec::new();
                    body.push(Node::Empty);
                    proof {
                        lemma_view_nodes_push(Seq::<Node>::empty(), Node::Empty);
                        assert(view_nodes(body@) =~= seq![NodeView::Empty]);
                    }
                    Some(Node::PartialFunctionDefinition(args, body))
                },
                _ => None,
            },
            Node::Addition(l, r) => match token {
                Token::Plus => {
                    proof {
                        reveal_with_fuel(view_node, 2);
                    }
                    Some(
                        Node::Addition(Box::new(Node::Addition(l, r)), Box::new(Node::Empty)),
                    )
                },
                _ => {
                    proof {
                        assert(decreases_to!(self0 => *r));
                    }
                    match (*r).append(token) {
                        Some(r2) => Some(Node::Addition(l, Box::new(r2))),
                        None => None,
                    }
                },
            },
            Node::Substraction(l, r) => match token {
                Token::Plus => {
                    proof {
                        reveal_with_fuel(view_node, 2);
                    }
                    Some(
                        Node::Addition(Box::new(Node::Substraction(l, r)), Box::new(Node::Empty)),
                    )
                },
                _ => {
                    proof {
                        assert(decreases_to!(self0 => *r));
                    }
                    match (*r).append(token) {
                        Some(r2) => Some(Node::Substraction(l, Box::new(r2))),
                        None => None,
                    }
                },
            },
            Node::Modulus(l, r) => match token {
                Token::Plus => {
                    proof {
                        reveal_with_fuel(view_node, 2);
                    }
                    Some(
                        Node::Addition(Box::new(Node::Modulus(l, r)), Box::new(Node::Empty)),
                    )
                },
                _ => {
                    proof {
                        assert(decreases_to!(self0 => *r));
                    }
                    match (*r).append(token) {
                        Some(r2) => Some(Node::Modulus(l, Box::new(r2))),
                        None => None,
                    }
                },
            },
            Node::Multiplication(l, r) => match token {
                Token::Times => {
                    proof {
                        reveal_with_fuel(view_node, 2);
                    }
                    Some(
                        Node::Multiplication(
                            Box::new(Node::Multiplication(l, r)),
                            Box::new(Node::Empty),
                        ),
                    )
                },
                Token::Plus => {
                    proof {
                        reveal_with_fuel(view_node, 2);
                    }
                    Some(
                        Node::Addition(
                            Box::new(Node::Multiplication(l, r)),
                            Box::new(Node::Empty),
                        ),
                    )
                },
                _ => {
                    proof {
                        assert(decreases_to!(self0 => *r));
                    }
                    match (*r).append(token) {
                        Some(r2) => Some(Node::Multiplication(l, Box::new(r2))),
                        None => None,
                    }
                },
            },
            Node::Division(l, r) => match token {
                Token::Times => {
                    proof {
                        reveal_with_fuel(view_node, 2);
                    }
                    Some(
                        Node::Multiplication(
                            Box::new(Node::Division(l, r)),
                            Box::new(Node::Empty),
                        ),
                    )
                },
                Token::Plus => {
                    proof {
                        reveal_with_fuel(view_node, 2);
                    }
                    Some(
                        Node::Addition(Box::new(Node::Division(l, r)), Box::new(Node::Empty)),
                    )
                },
                _ => {
                    proof {
                        assert(decreases_to!(self0 => *r));
                    }
                    match (*r).append(token) {
                        Some(r2) => Some(Node::Division(l, Box::new(r2))),
                        None => None,
                    }
                },
            },
            Node::PartialParenthesized(inner) => match inner.continues(&token) {
                None => None,
                Some(true) => {
                    proof {
                        assert(decreases_to!(self0 => *inner));
                    }
                    match (*inner).append(token) {
                        Some(inner2) => Some(Node::PartialParenthesized(Box::new(inner2))),
                        None => None,
                    }
                },
                Some(false) => match token {
                    Token::CloseParenthesis => Some(Node::Parenthesized(inner)),
                    _ => Some(Node::PartialParenthesized(inner)),
                },
            },
            Node::PartialFunctionDefinition(args, mut body) => {
                if body.len() == 0 {
                    None
                } else {
                    let ghost body0 = body@;
                    proof {
                        lemma_view_nodes_drop_last(body@);
                        assert(view_nodes(body@).last() == view_node(body@[body@.len() - 1]));
                    }
                    match body[body.len() - 1].continues(&token) {
                        None => None,
                        Some(true) => {
                            let last = body.pop().unwrap();
                            proof {
                                assert(decreases_to!(self0 => last));
                            }
                            match last.append(token) {
                                Some(last2) => {
                                    body.push(last2);
                                    proof {
                                        lemma_view_nodes_push(body0.drop_last(), last2);
                                    }
                                    Some(Node::PartialFunctionDefinition(args, body))
                                },
                                None => None,
                            }
                        },
                        Some(false) => match token {
                            Token::CloseBrace => {
                                if is_empty_node(&body[body.len() - 1]) {
                                    let _ = body.pop();
                                    proof {
                                        assert(view_nodes(body@) == view_nodes(body0).drop_last());
                                    }
                                    Some(Node::FunctionDefinition(args, body))
                                } else {
                                    Some(Node::FunctionDefinition(args, body))
                                }
                            },
                            Token::NewLine => {
                                body.push(Node::Empty);
                                proof {
                                    lemma_view_nodes_push(body0, Node::Empty);
                                }
                                Some(Node::PartialFunctionDefinition(args, body))
                            },
                            _ => Some(Node::PartialFunctionDefinition(args, body)),
                        },
                    }
                }
            },
            Node::UnnamedClassDefinition => match token {
                Token::Identifier(s) => {
                    proof {
                        reveal_with_fuel(view_node, 2);
                    }
                    Some(Node::NamedClassDefinition(Box::new(Node::Identifier(s))))
                },
                _ => Some(Node::UnnamedClassDefinition),
            },
            Node::UnnamedEnumDefinition => match token {
                Token::Identifier(s) => {
                    proof {
                        reveal_with_fuel(view_node, 2);
                    }
                    Some(Node::NamedEnumDefinition(Box::new(Node::Identifier(s))))
                },
                _ => Some(Node::UnnamedEnumDefinition),
            },
            Node::NamedEnumDefinition(name) => match token {
                Token::OpenBrace => {
                    proof {
                        assert(view_nodes(Seq::<Node>::empty()) =~= Seq::<NodeView>::empty());
                    }
                    Some(Node::PartialEnumDefinition(name, Vec::new()))
                },
                _ => Some(Node::NamedEnumDefinition(name)),
            },
            Node::NamedClassDefinition(name) => match token {
                Token::OpenBrace => {
                    proof {
                        reveal_with_fuel(view_node, 2);
                        assert(view_nodes(Seq::<Node>::empty()) =~= Seq::<NodeView>::empty());
                    }
                    Some(
                        Node::PartialClassDefinition(
                            name,
                            Box::new(Node::Program(Vec::new())),
                        ),
                    )
                },
                _ => Some(Node::NamedClassDefinition(name)),
            },
            Node::PartialClassDefinition(name, code) => match code.continues(&token) {
                None => None,
                Some(true) => {
                    proof {
                        assert(decreases_to!(self0 => *code));
                    }
                    match (*code).append(token) {
                        Some(code2) => Some(
                            Node::PartialClassDefinition(name, Box::new(code2)),
                        ),
                        None => None,
                    }
                },
                Some(false) => match token {
                    Token::CloseBrace => Some(Node::ClassDefinition(name, code)),
                    _ => Some(Node::PartialClassDefinition(name, code)),
                },
            },
            Node::PartialEnumDefinition(name, mut variations) => match token {
                Token::CloseBrace => Some(Node::EnumDefinition(name, variations)),
                Token::Identifier(s) => {
                    let ghost vars0 = variations@;
                    variations.push(Node::Identifier(s));
                    proof {
                        lemma_view_nodes_push(vars0, variations@[vars0.len() as int]);
                    }
                    Some(Node::PartialEnumDefinition(name, variations))
                },
                _ => Some(Node::PartialEnumDefinition(name, variations)),
            },
            Node::PartialCall(callee, mut args) => match token {
                Token::CloseParenthesis => {
                    if args.len() > 0 {
                        let ghost args0 = args@;
                        proof {
                            lemma_view_nodes_drop_last(args@);
                            assert(view_nodes(args@).last() == view_node(args@[args@.len() - 1]));
                        }
                        match args[args.len() - 1].continues(&token) {
                            None => None,
                            Some(true) => {
                                let last = args.pop().unwrap();
                                proof {
                                    assert(decreases_to!(self0 => last));
                                }
                                match last.append(token) {
                                    Some(last2) => {
                                        args.push(last2);
                                        proof {
                                            lemma_view_nodes_push(args0.drop_last(), last2);
                                        }
                                        Some(Node::PartialCall(callee, args))
                                    },
                                    None => None,
                                }
                            },
                            Some(false) => Some(Node::Call(callee, args)),
                        }
                    } else {
                        Some(Node::Call(callee, args))
                    }
                },
                Token::Comma => {
                    if args.len() == 0 {
                        None
                    } else {
                        let ghost args0 = args@;
                        proof {
                            lemma_view_nodes_drop_last(args@);
                            assert(view_nodes(args@).last() == view_node(args@[args@.len() - 1]));
                        }
                        match args[args.len() - 1].continues(&token) {
                            None => None,
                            Some(true) => {
                                let last = args.pop().unwrap();
                                proof {
                                    assert(decreases_to!(self0 => last));
                                }
                                match last.append(token) {
                                    Some(last2) => {
                                        args.push(last2);
                                        proof {
                                            lemma_view_nodes_push(args0.drop_last(), last2);
                                        }
                                        Some(Node::PartialCall(callee, args))
                                    },
                                    None => None,
                                }
                            },
                            Some(false) => {
                                args.push(Node::Empty);
                                proof {
                                    lemma_view_nodes_push(args0, Node::Empty);
                                }
                                Some(Node::PartialCall(callee, args))
                            },
                        }
                    }
                },
                _ => {
                    if args.len() == 0 {
                        match Node::start_of(token) {
                            Some(n2) => {
                                args.push(n2);
                                proof {
                                    lemma_view_nodes_push(Seq::<Node>::empty(), args@[0]);
                                    assert(view_nodes(args@) =~= seq![view_node(args@[0])]);
                                }
                                Some(Node::PartialCall(callee, args))
                            },
                            None => None,
                        }
                    } else {
                        let ghost args0 = args@;
                        proof {
                            lemma_view_nodes_drop_last(args@);
                            assert(view_nodes(args@).last() == view_node(args@[args@.len() - 1]));
                        }
                        let last = args.pop().unwrap();
                        proof {
                            assert(decreases_to!(self0 => last));
                        }
                        match last.append(token) {
                            Some(last2) => {
                                args.push(last2);
                                proof {
                                    lemma_view_nodes_push(args0.drop_last(), last2);
                                }
                                Some(Node::PartialCall(callee, args))
                            },
                            None => None,
                        }
                    }
                },
            },
            Node::Assignment(l, r) => {
                proof {
                    assert(decreases_to!(self0 => *r));
                }
                match (*r).append(token) {
                    Some(r2) => Some(Node::Assignment(l, Box::new(r2))),
                    None => None,
                }
            },
            Node::Empty => Node::start_of(token),
            Node::UnopenedMatch(subject) => {
                proof {
                    assert(view_nodes(Seq::<Node>::empty()) =~= Seq::<NodeView>::empty());
                }
                Some(Node::PartialMatch(subject, Vec::new()))
            },
            Node::Program(mut nodes) => {
                if nodes.len() > 0 {
                    let ghost nodes0 = nodes@;
                    proof {
                        lemma_view_nodes_drop_last(nodes@);
                        assert(view_nodes(nodes@).last() == view_node(nodes@[nodes@.len() - 1]));
                    }
                    match nodes[nodes.len() - 1].continues(&token) {
                        None => None,
                        Some(true) => {
                            let last = nodes.pop().unwrap();
                            proof {
                                assert(decreases_to!(self0 => last));
                            }
                            match last.append(token) {
                                Some(last2) => {
                                    nodes.push(last2);
                                    proof {
                                        lemma_view_nodes_push(nodes0.drop_last(), last2);
                                    }
                                    Some(Node::Program(nodes))
                                },
                                None => None,
                            }
                        },
                        Some(false) => match Node::start_of(token) {
                            Some(n2) => {
                                nodes.push(n2);
                                proof {
                                    lemma_view_nodes_push(nodes0, nodes@[nodes0.len() as int]);
                                }
                                Some(Node::Program(nodes))
                            },
                            None => None,
                        },
                    }
                } else {
                    match Node::start_of(token) {
                        Some(n2) => {
                            nodes.push(n2);
                            proof {
                                lemma_view_nodes_push(Seq::<Node>::empty(), nodes@[0]);
                                assert(view_nodes(nodes@) =~= seq![view_node(nodes@[0])]);
                            }
                            Some(Node::Program(nodes))
                        },
                        None => None,
                    }
                }
            },
            Node::PartialMatch(subject, mut arms) => {
                if arms.len() > 0 {
                    let ghost arms0 = arms@;
                    proof {
                        lemma_view_nodes_drop_last(arms@);
                        assert(view_nodes(arms@).last() == view_node(arms@[arms@.len() - 1]));
                    }
                    let last_arm = arms.pop().unwrap();
                    proof {
                        assert(decreases_to!(self0 => last_arm));
                    }
                    match last_arm {
                        Node::PartialMatchArm(matcher, body_box) => match body_box.continues(
                            &token,
                        ) {
                            None => None,
                            Some(true) => {
                                proof {
                                    assert(decreases_to!(last_arm => *body_box));
                                }
                                match (*body_box).append(token) {
                                    Some(body2) => {
                                        arms.push(Node::PartialMatchArm(matcher, Box::new(body2)));
                                        proof {
                                            reveal_with_fuel(view_node, 2);
                                            lemma_view_nodes_push(
                                                arms0.drop_last(),
                                                arms@[arms0.len() - 1],
                                            );
                                        }
                                        Some(Node::PartialMatch(subject, arms))
                                    },
                                    None => None,
                                }
                            },
                            Some(false) => match token {
                                Token::CloseBrace => {
                                    arms.push(Node::MatchArm(matcher, body_box));
                                    proof {
                                        reveal_with_fuel(view_node, 2);
                                        lemma_view_nodes_push(
                                            arms0.drop_last(),
                                            arms@[arms0.len() - 1],
                                        );
                                    }
                                    Some(Node::PartialMatch(subject, arms))
                                },
                                _ => {
                                    arms.push(Node::PartialMatchArm(matcher, body_box));
                                    proof {
                                        reveal_with_fuel(view_node, 2);
                                        lemma_view_nodes_push(
                                            arms0.drop_last(),
                                            arms@[arms0.len() - 1],
                                        );
                                        assert(view_nodes(arms@) =~= view_nodes(arms0));
                                    }
                                    Some(Node::PartialMatch(subject, arms))
                                },
                            },
                        },
                        Node::MatchArmWithoutColon(matcher) => match token {
                            Token::Colon => {
                                arms.push(Node::UnopenedMatchArm(matcher));
                                proof {
                                    reveal_with_fuel(view_node, 2);
                                    lemma_view_nodes_push(
                                        arms0.drop_last(),
                                        arms@[arms0.len() - 1],
                                    );
                                }
                                Some(Node::PartialMatch(subject, arms))
                            },
                            _ => match matcher.continues(&token) {
                                None => None,
                                Some(true) => {
                                    proof {
                                        assert(decreases_to!(last_arm => *matcher));
                                    }
                                    match (*matcher).append(token) {
                                        Some(m2) => {
                                            arms.push(Node::MatchArmWithoutColon(Box::new(m2)));
                                            proof {
                                                reveal_with_fuel(view_node, 2);
                                                lemma_view_nodes_push(
                                                    arms0.drop_last(),
                                                    arms@[arms0.len() - 1],
                                                );
                                            }
                                            Some(Node::PartialMatch(subject, arms))
                                        },
                                        None => None,
                                    }
                                },
                                Some(false) => {
                                    arms.push(Node::MatchArmWithoutColon(matcher));
                                    proof {
                                        reveal_with_fuel(view_node, 2);
                                        lemma_view_nodes_push(
                                            arms0.drop_last(),
                                            arms@[arms0.len() - 1],
                                        );
                                        assert(view_nodes(arms@) =~= view_nodes(arms0));
                                    }
                                    Some(Node::PartialMatch(subject, arms))
                                },
                            },
                        },
                        Node::UnopenedMatchArm(matcher) => match token {
                            Token::OpenBrace => {
                                arms.push(
                                    Node::PartialMatchArm(
                                        matcher,
                                        Box::new(Node::Program(Vec::new())),
                                    ),
                                );
                                proof {
                                    reveal_with_fuel(view_node, 3);
                                    assert(view_nodes(Seq::<Node>::empty())
                                        =~= Seq::<NodeView>::empty());
                                    lemma_view_nodes_push(
                                        arms0.drop_last(),
                                        arms@[arms0.len() - 1],
                                    );
                                }
                                Some(Node::PartialMatch(subject, arms))
                            },
                            _ => None,
                        },
                        Node::MatchArm(m, b) => match token {
                            Token::CloseBrace => {
                                arms.push(Node::MatchArm(m, b));
                                proof {
                                    reveal_with_fuel(view_node, 2);
                                    lemma_view_nodes_push(
                                        arms0.drop_last(),
                                        arms@[arms0.len() - 1],
                                    );
                                    assert(view_nodes(arms@) =~= view_nodes(arms0));
                                }
                                Some(Node::Match(subject, arms))
                            },
                            Token::Identifier(s) => {
                                arms.push(Node::MatchArm(m, b));
                                proof {
                                    reveal_with_fuel(view_node, 2);
                                    lemma_view_nodes_push(
                                        arms0.drop_last(),
                                        arms@[arms0.len() - 1],
                                    );
                                    assert(view_nodes(arms@) =~= view_nodes(arms0));
                                }
                                let ghost arms1 = arms@;
                                arms.push(Node::MatchArmWithoutColon(Box::new(Node::Identifier(s))));
                                proof {
                                    reveal_with_fuel(view_node, 3);
                                    lemma_view_nodes_push(arms1, arms@[arms1.len() as int]);
                                }
                                Some(Node::PartialMatch(subject, arms))
                            },
                            _ => {
                                arms.push(Node::MatchArm(m, b));
                                proof {
                                    reveal_with_fuel(view_node, 2);
                                    lemma_view_nodes_push(
                                        arms0.drop_last(),
                                        arms@[arms0.len() - 1],
                                    );
                                    assert(view_nodes(arms@) =~= view_nodes(arms0));
                                }
                                Some(Node::PartialMatch(subject, arms))
                            },
                        },
                        other => {
                            arms.push(other);
                            proof {
                                lemma_view_nodes_push(arms0.drop_last(), arms@[arms0.len() - 1]);
                                assert(view_nodes(arms@) =~= view_nodes(arms0));
                            }
                            Some(Node::PartialMatch(subject, arms))
                        },
                    }
                } else {
                    match token {
                        Token::CloseBrace => Some(Node::Match(subject, arms)),
                        Token::Identifier(s) => {
                            arms.push(Node::MatchArmWithoutColon(Box::new(Node::Identifier(s))));
                            proof {
                                reveal_with_fuel(view_node, 3);
                                lemma_view_nodes_push(Seq::<Node>::empty(), arms@[0]);
                                assert(view_nodes(arms@) =~= seq![view_node(arms@[0])]);
                            }
                            Some(Node::PartialMatch(subject, arms))
                        },
                        _ => Some(Node::PartialMatch(subject, arms)),
                    }
                }
            },
            Node::PartialMember(obj) => match token {
                Token::Identifier(s) => Some(Node::Member(obj, s)),
                _ => None,
            },
            Node::Member(obj, name) => match token {
                Token::OpenParenthesis => {
                    proof {
                        reveal_with_fuel(view_node, 2);
                        assert(view_nodes(Seq::<Node>::empty()) =~= Seq::<NodeView>::empty());
                    }
                    Some(Node::PartialCall(Box::new(Node::Member(obj, name)), Vec::new()))
                },
                Token::Equal => {
                    proof {
                        reveal_with_fuel(view_node, 2);
                    }
                    Some(
                        Node::Assignment(
                            Box::new(Node::Member(obj, name)),
                            Box::new(Node::Empty),
                        ),
                    )
                },
                _ => None,
            },
            other => Some(other),
        }
    }
}

} // verus!
