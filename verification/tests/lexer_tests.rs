use lim::lexer::lex;
use lim::token::Token;

#[test]
fn float_with_multiple_periods() {
    assert_eq!(lex("3.3."), None,);
}

#[test]
fn basic_assignation() {
    assert_eq!(
        lex("x = 4"),
        Some(vec![
            Token::Identifier(String::from("x")),
            Token::Equal,
            Token::Number(String::from("4")),
        ])
    );
}

#[test]
fn long_variable_name() {
    assert_eq!(
        lex("foobarbaz = 4"),
        Some(vec![
            Token::Identifier(String::from("foobarbaz")),
            Token::Equal,
            Token::Number(String::from("4")),
        ])
    );
}

#[test]
fn long_integer_number() {
    assert_eq!(
        lex("x = 123456789"),
        Some(vec![
            Token::Identifier(String::from("x")),
            Token::Equal,
            Token::Number(String::from("123456789")),
        ])
    );
}

#[test]
fn underscore_in_variable() {
    assert_eq!(
        lex("foo_bar = 4"),
        Some(vec![
            Token::Identifier(String::from("foo_bar")),
            Token::Equal,
            Token::Number(String::from("4")),
        ])
    );
}

#[test]
fn variable_starting_with_underscore() {
    assert_eq!(
        lex("_x = 4"),
        Some(vec![
            Token::Identifier(String::from("_x")),
            Token::Equal,
            Token::Number(String::from("4")),
        ])
    );
}

#[test]
fn number_in_variable() {
    assert_eq!(
        lex("foo4 = 4"),
        Some(vec![
            Token::Identifier(String::from("foo4")),
            Token::Equal,
            Token::Number(String::from("4")),
        ])
    );
}

#[test]
fn camel_case_variable() {
    assert_eq!(
        lex("fooBar = 4"),
        Some(vec![
            Token::Identifier(String::from("fooBar")),
            Token::Equal,
            Token::Number(String::from("4")),
        ])
    );
}

#[test]
fn float_assignation() {
    assert_eq!(
        lex("x = 4.2"),
        Some(vec![
            Token::Identifier(String::from("x")),
            Token::Equal,
            Token::Number(String::from("4.2")),
        ])
    );
}

#[test]
fn float_starting_with_period() {
    assert_eq!(
        lex("x = .2"),
        Some(vec![
            Token::Identifier(String::from("x")),
            Token::Equal,
            Token::Number(String::from(".2")),
        ])
    );
}

#[test]
fn variable_assigned_to_variable() {
    assert_eq!(
        lex("x = y"),
        Some(vec![
            Token::Identifier(String::from("x")),
            Token::Equal,
            Token::Identifier(String::from("y")),
        ])
    );
}

#[test]
fn addition() {
    assert_eq!(
        lex("2 + 4"),
        Some(vec![
            Token::Number(String::from("2")),
            Token::Plus,
            Token::Number(String::from("4")),
        ])
    );
}

#[test]
fn float_addition() {
    assert_eq!(
        lex(".2 + 4.0"),
        Some(vec![
            Token::Number(String::from(".2")),
            Token::Plus,
            Token::Number(String::from("4.0")),
        ])
    );
}

#[test]
fn multiple_addition() {
    assert_eq!(
        lex(".2 + 4.0 + 4 + 2"),
        Some(vec![
            Token::Number(String::from(".2")),
            Token::Plus,
            Token::Number(String::from("4.0")),
            Token::Plus,
            Token::Number(String::from("4")),
            Token::Plus,
            Token::Number(String::from("2")),
        ])
    );
}

#[test]
fn addition_assignation() {
    assert_eq!(
        lex("x = .2 + 4.0"),
        Some(vec![
            Token::Identifier(String::from("x")),
            Token::Equal,
            Token::Number(String::from(".2")),
            Token::Plus,
            Token::Number(String::from("4.0")),
        ])
    );
}

#[test]
fn all_minus() {
    assert_eq!(
        lex("x = .2 - 4.0 - 3 + 1"),
        Some(vec![
            Token::Identifier(String::from("x")),
            Token::Equal,
            Token::Number(String::from(".2")),
            Token::Minus,
            Token::Number(String::from("4.0")),
            Token::Minus,
            Token::Number(String::from("3")),
            Token::Plus,
            Token::Number(String::from("1")),
        ])
    );
}

#[test]
fn float_without_digits() {
    assert_eq!(lex("2 + ."), None,);
}

#[test]
fn arithmetic_without_parenthesis() {
    assert_eq!(
        lex("1 + 2 - 3 * .4 / 5.0 % 6"),
        Some(vec![
            Token::Number(String::from("1")),
            Token::Plus,
            Token::Number(String::from("2")),
            Token::Minus,
            Token::Number(String::from("3")),
            Token::Times,
            Token::Number(String::from(".4")),
            Token::Division,
            Token::Number(String::from("5.0")),
            Token::Modulus,
            Token::Number(String::from("6")),
        ])
    );
}

#[test]
fn arithmetic_with_single_parenthesis() {
    assert_eq!(
        lex("1 + (1 + 1)"),
        Some(vec![
            Token::Number(String::from("1")),
            Token::Plus,
            Token::OpenParenthesis,
            Token::Number(String::from("1")),
            Token::Plus,
            Token::Number(String::from("1")),
            Token::CloseParenthesis,
        ])
    );
}

#[test]
fn arithmetic_with_multiple_parenthesis() {
    assert_eq!(
        lex("1 + (1 + (1 + 1)) + (1 + 1)"),
        Some(vec![
            Token::Number(String::from("1")),
            Token::Plus,
            Token::OpenParenthesis,
            Token::Number(String::from("1")),
            Token::Plus,
            Token::OpenParenthesis,
            Token::Number(String::from("1")),
            Token::Plus,
            Token::Number(String::from("1")),
            Token::CloseParenthesis,
            Token::CloseParenthesis,
            Token::Plus,
            Token::OpenParenthesis,
            Token::Number(String::from("1")),
            Token::Plus,
            Token::Number(String::from("1")),
            Token::CloseParenthesis,
        ])
    );
}

#[test]
fn function_call_without_arguments() {
    assert_eq!(
        lex("foo()"),
        Some(vec![
            Token::Identifier(String::from("foo")),
            Token::OpenParenthesis,
            Token::CloseParenthesis,
        ])
    );
}

#[test]
fn function_call_single_variable_argument() {
    assert_eq!(
        lex("foo(bar)"),
        Some(vec![
            Token::Identifier(String::from("foo")),
            Token::OpenParenthesis,
            Token::Identifier(String::from("bar")),
            Token::CloseParenthesis,
        ])
    );
}

#[test]
fn function_call_multiple_variable_argument() {
    assert_eq!(
        lex("foo(bar, baz)"),
        Some(vec![
            Token::Identifier(String::from("foo")),
            Token::OpenParenthesis,
            Token::Identifier(String::from("bar")),
            Token::Comma,
            Token::Identifier(String::from("baz")),
            Token::CloseParenthesis,
        ])
    );
}

#[test]
fn function_call_of_call() {
    assert_eq!(
        lex("foo(bar(2), baz)"),
        Some(vec![
            Token::Identifier(String::from("foo")),
            Token::OpenParenthesis,
            Token::Identifier(String::from("bar")),
            Token::OpenParenthesis,
            Token::Number(String::from("2")),
            Token::CloseParenthesis,
            Token::Comma,
            Token::Identifier(String::from("baz")),
            Token::CloseParenthesis,
        ])
    );
}

#[test]
fn statement_ending_in_semicolon() {
    assert_eq!(
        lex("x = 2+2;"),
        Some(vec![
            Token::Identifier(String::from("x")),
            Token::Equal,
            Token::Number(String::from("2")),
            Token::Plus,
            Token::Number(String::from("2")),
            Token::SemiColon,
        ])
    );
}

#[test]
fn multiple_statements_separated_by_semicolon() {
    assert_eq!(
        lex("x = 2+2;y=5"),
        Some(vec![
            Token::Identifier(String::from("x")),
            Token::Equal,
            Token::Number(String::from("2")),
            Token::Plus,
            Token::Number(String::from("2")),
            Token::SemiColon,
            Token::Identifier(String::from("y")),
            Token::Equal,
            Token::Number(String::from("5")),
        ])
    );
}

#[test]
fn multiple_statements_separated_by_newline() {
    assert_eq!(
        lex("x = 2+2\ny=5"),
        Some(vec![
            Token::Identifier(String::from("x")),
            Token::Equal,
            Token::Number(String::from("2")),
            Token::Plus,
            Token::Number(String::from("2")),
            Token::NewLine,
            Token::Identifier(String::from("y")),
            Token::Equal,
            Token::Number(String::from("5")),
        ])
    );
}

#[test]
fn string_literal_double_quotes() {
    assert_eq!(
        lex("\"foo\""),
        Some(vec![Token::Literal(
            String::from("foo"),
            '"'
        ),])
    );
}

#[test]
fn string_literal_single_quotes() {
    assert_eq!(
        lex("'foo'"),
        Some(vec![Token::Literal(
            String::from("foo"),
            '\''
        ),])
    );
}

#[test]
fn string_literal_with_escaped_single_quotes() {
    assert_eq!(
        lex("'f\\\'o\\\'o'"),
        Some(vec![Token::Literal(
            String::from("f'o'o"),
            '\''
        ),])
    );
}

#[test]
fn string_literal_with_escaped_double_quotes() {
    assert_eq!(
        lex("\"f\\\"o\\\"o\""),
        Some(vec![Token::Literal(
            String::from("f\"o\"o"),
            '"'
        ),])
    );
}
