use lim::interpreter::Env;
use lim::lexer::lex;
use lim::node::Node;
use lim::object::{Fatal, FloatAns, FloatOp, FloatTable, Object};
use lim::parser::parse;
use lim::scope::Scope;
use lim::{lex_parse, run, run_with_floats};

use lim::token::Token;

fn id(s: &str) -> Token {
    Token::Identifier(String::from(s))
}

fn num(s: &str) -> Token {
    Token::Number(String::from(s))
}

fn run_tokens(tokens: Vec<Token>) -> lim::interpreter::RunOutcome {
    lim::interpreter::interpret(parse(tokens).unwrap())
}


#[test]
fn round_trip_assignment() {
    let tokens = lex("x = 4").unwrap();
    assert_eq!(
        tokens,
        vec![
            lim::token::Token::Identifier(String::from("x")),
            lim::token::Token::Equal,
            lim::token::Token::Number(String::from("4")),
        ]
    );
    let ast = parse(tokens).unwrap();
    assert_eq!(
        ast,
        Node::Program(vec![Node::Assignment(
            Box::new(Node::Identifier(String::from("x"))),
            Box::new(Node::Number(String::from("4"))),
        )])
    );
}

#[test]
fn precedence_product_binds_tighter_on_right() {
    let out = run("2 + 2 * 2").unwrap();
    assert_eq!(out.result, Ok(Object::Integer(6)));
}

#[test]
fn precedence_product_binds_tighter_on_left() {
    let out = run("2 * 2 + 2").unwrap();
    assert_eq!(out.result, Ok(Object::Integer(6)));
}

#[test]
fn integer_addition_stays_integer() {
    let out = run("2 + 2").unwrap();
    assert_eq!(out.result, Ok(Object::Integer(4)));
}

#[test]
fn numeric_promotion_integer_plus_float() {
    let two = 2.0f64.to_bits();
    let four = 4.0f64.to_bits();
    let mut floats = FloatTable::new();
    floats.push(FloatOp::Parse(String::from("2.0")), FloatAns::Bits(two));
    floats.push(FloatOp::FromInt(2), FloatAns::Bits(two));
    floats.push(FloatOp::Add(two, two), FloatAns::Bits(four));
    let out = run_with_floats("2 + 2.0", floats).unwrap();
    assert_eq!(out.result, Ok(Object::Float(four)));
}

#[test]
fn float_plus_float() {
    let a = 0.5f64.to_bits();
    let b = 4.25f64.to_bits();
    let sum = (0.5f64 + 4.25f64).to_bits();
    let mut floats = FloatTable::new();
    floats.push(FloatOp::Parse(String::from(".5")), FloatAns::Bits(a));
    floats.push(FloatOp::Parse(String::from("4.25")), FloatAns::Bits(b));
    floats.push(FloatOp::Add(a, b), FloatAns::Bits(sum));
    let out = run_with_floats(".5 + 4.25", floats).unwrap();
    assert_eq!(out.result, Ok(Object::Float(sum)));
}

#[test]
fn unterminated_string_literal_fails_lex() {
    assert_eq!(lex("\"abc"), None);
}

#[test]
fn unknown_identifier_is_fatal() {
    let out = run("undefined_var").unwrap();
    assert_eq!(
        out.result,
        Err(Fatal::UnknownIdentifier(String::from("undefined_var")))
    );
}

#[test]
fn extra_call_arguments_are_ignored() {
    let out = run("f = (){\n7\n}\nx = f(1, 2)\nx").unwrap();
    assert_eq!(out.result, Ok(Object::Integer(7)));
}

#[test]
fn missing_call_arguments_bind_none() {
    let out = run("g = (a){\na\n}\ny = g()\ny").unwrap();
    assert_eq!(out.result, Ok(Object::Nil));
}

#[test]
fn call_argument_binds_by_position() {
    let out = run("g = (a){\na + 1\n}\ng(41)").unwrap();
    assert_eq!(out.result, Ok(Object::Integer(42)));
}

fn match_program(subject_variant: &str) -> Vec<Token> {
    vec![
        id("enum"), id("Color"), Token::OpenBrace, id("Red"), Token::NewLine, id("Blue"),
        Token::CloseBrace, Token::NewLine,
        id("c"), Token::Equal, id("Color"), Token::NewLine,
        id("m"), Token::Equal, id("c"), Token::Period, id(subject_variant), Token::NewLine,
        id("m"), Token::Colon, Token::OpenBrace, Token::NewLine,
        id("c"), Token::Period, id("Red"), Token::Colon, Token::OpenBrace, Token::NewLine,
        id("print"), Token::OpenParenthesis, Token::Literal(String::from("hit"), '\''),
        Token::CloseParenthesis, Token::NewLine,
        Token::CloseBrace, Token::NewLine,
        Token::CloseBrace,
    ]
}

#[test]
fn pattern_match_red_arm_runs() {
    let out = run_tokens(match_program("Red"));
    assert_eq!(out.result, Ok(Object::Nil));
    assert_eq!(out.output, vec![String::from("hit")]);
}

#[test]
fn pattern_match_blue_subject_does_not_match_red_arm() {
    let out = run_tokens(match_program("Blue"));
    assert_eq!(out.result, Ok(Object::Nil));
    assert_eq!(out.output, Vec::<String>::new());
}

#[test]
fn literal_round_trip_through_clean() {
    let tokens = lex("'f\\'o\\'o'").unwrap();
    assert_eq!(
        tokens,
        vec![lim::token::Token::Literal(String::from("f'o'o"), '\'')]
    );
    let out = run("'f\\'o\\'o'").unwrap();
    assert_eq!(out.result, Ok(Object::Str(String::from("f'o'o"))));
}

#[test]
fn enum_member_lookup_gives_variant() {
    let out = run_tokens(vec![
        id("enum"), id("Color"), Token::OpenBrace, id("Red"), Token::NewLine, id("Blue"),
        Token::CloseBrace, Token::NewLine,
        id("Color"), Token::Period, id("Red"),
    ]);
    assert_eq!(
        out.result,
        Ok(Object::EnumVariant(String::from("Color"), String::from("Red")))
    );
}

#[test]
fn enum_unknown_variant_gives_error_value() {
    let out = run_tokens(vec![
        id("enum"), id("Color"), Token::OpenBrace, id("Red"), Token::CloseBrace, Token::NewLine,
        id("Color"), Token::Period, id("Green"),
    ]);
    assert_eq!(
        out.result,
        Ok(Object::Error(String::from(
            "Variant Green does not exist for enum Color"
        )))
    );
}

fn class_with_field() -> Vec<Token> {
    vec![
        id("class"), id("A"), Token::OpenBrace, Token::NewLine,
        id("self"), Token::Period, id("x"), Token::Equal, num("1"), Token::NewLine,
        Token::CloseBrace, Token::NewLine,
    ]
}

#[test]
fn class_instance_field_through_prototype() {
    let mut tokens = class_with_field();
    tokens.extend(vec![
        id("a"), Token::Equal, id("A"), Token::OpenParenthesis, Token::CloseParenthesis,
        Token::NewLine,
        id("a"), Token::Period, id("x"),
    ]);
    let out = run_tokens(tokens);
    assert_eq!(out.result, Ok(Object::Integer(1)));
}

#[test]
fn instance_field_mutation_is_seen_through_aliases() {
    let mut tokens = class_with_field();
    tokens.extend(vec![
        id("a"), Token::Equal, id("A"), Token::OpenParenthesis, Token::CloseParenthesis,
        Token::NewLine,
        id("b"), Token::Equal, id("a"), Token::NewLine,
        id("b"), Token::Period, id("x"), Token::Equal, num("2"), Token::NewLine,
        id("a"), Token::Period, id("x"),
    ]);
    let out = run_tokens(tokens);
    assert_eq!(out.result, Ok(Object::Integer(2)));
}

#[test]
fn separate_instances_do_not_share_fields() {
    let mut tokens = class_with_field();
    tokens.extend(vec![
        id("a"), Token::Equal, id("A"), Token::OpenParenthesis, Token::CloseParenthesis,
        Token::NewLine,
        id("b"), Token::Equal, id("A"), Token::OpenParenthesis, Token::CloseParenthesis,
        Token::NewLine,
        id("a"), Token::Period, id("x"), Token::Equal, num("5"), Token::NewLine,
        id("b"), Token::Period, id("x"),
    ]);
    let out = run_tokens(tokens);
    assert_eq!(out.result, Ok(Object::Integer(1)));
}

#[test]
fn print_collects_rendered_lines() {
    let out = run("print(42)\nprint('hi')\nprint(0 - 5)").unwrap();
    assert_eq!(out.result, Ok(Object::Nil));
    assert_eq!(
        out.output,
        vec![String::from("42"), String::from("hi"), String::from("-5")]
    );
}

#[test]
fn print_renders_enum_and_none() {
    let out = run_tokens(vec![
        id("enum"), id("E"), Token::OpenBrace, id("A"), Token::NewLine, id("B"),
        Token::CloseBrace, Token::NewLine,
        id("print"), Token::OpenParenthesis, id("E"), Token::CloseParenthesis, Token::NewLine,
        id("print"), Token::OpenParenthesis, id("E"), Token::Period, id("A"),
        Token::CloseParenthesis, Token::NewLine,
        id("x"), Token::Equal, Token::OpenParenthesis, Token::CloseParenthesis, Token::OpenBrace,
        Token::CloseBrace, Token::NewLine,
        id("print"), Token::OpenParenthesis, id("x"), Token::OpenParenthesis,
        Token::CloseParenthesis, Token::CloseParenthesis,
    ]);
    assert_eq!(
        out.output,
        vec![
            String::from("E[A, B]"),
            String::from("E.A"),
            String::from("None")
        ]
    );
}

#[test]
fn print_renders_float_from_table() {
    let b = 2.5f64.to_bits();
    let mut floats = FloatTable::new();
    floats.push(FloatOp::Parse(String::from("2.5")), FloatAns::Bits(b));
    floats.push(FloatOp::Print(b), FloatAns::Text(format!("{}", 2.5f64)));
    let out = run_with_floats("print(2.5)", floats).unwrap();
    assert_eq!(out.output, vec![String::from("2.5")]);
}

#[test]
fn bad_number_literal_is_fatal() {
    let ast = Node::Program(vec![Node::Number(String::from("99999999999999999999"))]);
    let out = lim::interpreter::interpret(ast);
    assert_eq!(
        out.result,
        Err(Fatal::BadNumberLiteral(String::from("99999999999999999999")))
    );
}

#[test]
fn non_numeric_operand_is_fatal() {
    let out = run("1 + 'a'").unwrap();
    assert_eq!(out.result, Err(Fatal::NotNumeric));
}

#[test]
fn calling_an_integer_is_fatal() {
    let out = run("x = 4\nx()").unwrap();
    assert_eq!(out.result, Err(Fatal::NotCallable));
}

#[test]
fn assignment_to_number_is_fatal() {
    let ast = Node::Program(vec![Node::Assignment(
        Box::new(Node::Number(String::from("1"))),
        Box::new(Node::Number(String::from("2"))),
    )]);
    let out = lim::interpreter::interpret(ast);
    assert_eq!(out.result, Err(Fatal::BadAssignmentTarget));
}

#[test]
fn non_identifier_parameter_is_fatal() {
    let ast = Node::Program(vec![Node::Call(
        Box::new(Node::FunctionDefinition(
            vec![Node::Number(String::from("1"))],
            vec![],
        )),
        vec![],
    )]);
    let out = lim::interpreter::interpret(ast);
    assert_eq!(out.result, Err(Fatal::BadParameter));
}

#[test]
fn missing_instance_field_is_fatal() {
    let mut tokens = class_with_field();
    tokens.extend(vec![
        id("a"), Token::Equal, id("A"), Token::OpenParenthesis, Token::CloseParenthesis,
        Token::NewLine,
        id("a"), Token::Period, id("missing"),
    ]);
    let out = run_tokens(tokens);
    assert_eq!(out.result, Err(Fatal::UnknownField(String::from("missing"))));
}

#[test]
fn member_access_on_integer_is_fatal() {
    let out = run_tokens(vec![
        id("x"), Token::Equal, num("4"), Token::NewLine,
        id("x"), Token::Period, id("y"),
    ]);
    assert_eq!(out.result, Err(Fatal::BadMemberAccess));
}

#[test]
fn unknown_native_symbol_is_fatal() {
    let mut env = Env::new();
    let mut scope = Scope::new();
    scope.insert("f", lim::interpreter::build_native_function("test"));
    let call = Node::Call(Box::new(Node::Identifier(String::from("f"))), vec![]);
    let r = env.interpret(&call, &mut scope, 1000);
    assert_eq!(
        r,
        Err(Fatal::NoSuchNative(
            String::from("../std/target/release/libstd.so"),
            String::from("test")
        ))
    );
}

#[test]
fn empty_node_is_unevaluable() {
    let out = lim::interpreter::interpret(Node::Empty);
    assert_eq!(out.result, Err(Fatal::Unevaluable));
}

#[test]
fn integer_overflow_is_fatal() {
    let out = run("9223372036854775807 + 1").unwrap();
    assert_eq!(out.result, Err(Fatal::ArithmeticOverflow));
}

#[test]
fn division_by_zero_is_fatal() {
    let out = run("1 / 0").unwrap();
    assert_eq!(out.result, Err(Fatal::DivisionByZero));
}

#[test]
fn integer_division_truncates() {
    let out = run("7 / 2").unwrap();
    assert_eq!(out.result, Ok(Object::Integer(3)));
    let out = run("7 % 2").unwrap();
    assert_eq!(out.result, Ok(Object::Integer(1)));
    let out = run("7 - 2").unwrap();
    assert_eq!(out.result, Ok(Object::Integer(5)));
}

#[test]
fn out_of_fuel_is_fatal() {
    let mut env = Env::new();
    let mut scope = Scope::new();
    let call = Node::Call(
        Box::new(Node::FunctionDefinition(vec![], vec![])),
        vec![],
    );
    let r = env.interpret(&call, &mut scope, 0);
    assert_eq!(r, Err(Fatal::OutOfFuel));
}

#[test]
fn float_without_recorded_answer_is_fatal() {
    let out = run("1.5").unwrap();
    assert_eq!(
        out.result,
        Err(Fatal::FloatUnavailable(FloatOp::Parse(String::from("1.5"))))
    );
}

#[test]
fn unparsable_text_runs_to_nothing() {
    assert!(run("foo(").is_none());
    assert!(lex_parse("foo(").is_none());
}

#[test]
fn program_result_is_last_statement() {
    let out = run("x = 1\ny = 2\nx + y").unwrap();
    assert_eq!(out.result, Ok(Object::Integer(3)));
}

#[test]
fn empty_program_results_in_none() {
    let out = run("").unwrap();
    assert_eq!(out.result, Ok(Object::Nil));
}

#[test]
fn method_call_binds_self() {
    let out = run_tokens(vec![
        id("class"), id("A"), Token::OpenBrace, Token::NewLine,
        id("y"), Token::Equal, num("41"), Token::NewLine,
        id("get"), Token::Equal, Token::OpenParenthesis, Token::CloseParenthesis,
        Token::OpenBrace, Token::NewLine,
        id("self"), Token::Period, id("y"), Token::NewLine,
        Token::CloseBrace, Token::NewLine,
        Token::CloseBrace, Token::NewLine,
        id("A"), Token::Period, id("get"), Token::OpenParenthesis, Token::CloseParenthesis,
    ]);
    assert_eq!(out.result, Ok(Object::Integer(41)));
}

#[test]
fn scope_insert_and_get() {
    let mut scope = Scope::new();
    assert_eq!(scope.get("x"), None);
    scope.insert("x", Object::Integer(1));
    scope.insert("x", Object::Integer(2));
    assert_eq!(scope.get("x"), Some(Object::Integer(2)));
    assert_eq!(scope.len(), 2);
}

#[test]
fn object_to_string_forms() {
    let floats = FloatTable::new();
    assert_eq!(
        Object::Integer(42).to_string(&floats),
        Ok(String::from("42"))
    );
    assert_eq!(
        Object::Integer(-7).to_string(&floats),
        Ok(String::from("-7"))
    );
    assert_eq!(Object::Nil.to_string(&floats), Ok(String::from("None")));
    assert_eq!(
        Object::Str(String::from("raw")).to_string(&floats),
        Ok(String::from("raw"))
    );
    assert_eq!(
        Object::Error(String::from("boom")).to_string(&floats),
        Ok(String::from("Error: boom"))
    );
    assert_eq!(
        Object::Function(vec![], vec![]).to_string(&floats),
        Ok(String::from("function"))
    );
    assert_eq!(
        lim::interpreter::build_native_function("print").to_string(&floats),
        Ok(String::from("[native code]"))
    );
}

#[test]
fn object_is_native() {
    assert!(lim::interpreter::build_native_function("print").is_native());
    assert!(!Object::Integer(1).is_native());
}

#[test]
fn env_builders() {
    let env = Env::new();
    assert_eq!(env.build_integer(5), Object::Integer(5));
    assert_eq!(env.build_float(7), Object::Float(7));
    assert_eq!(
        env.build_function(vec![], vec![]),
        Object::Function(vec![], vec![])
    );
    assert_eq!(
        env.get_obj("print", &Scope::new()),
        Ok(lim::interpreter::build_native_function("print"))
    );
    assert_eq!(
        env.get_obj("zap", &Scope::new()),
        Err(Fatal::UnknownIdentifier(String::from("zap")))
    );
}

#[test]
fn float_table_lookup_finds_first_match() {
    let mut t = FloatTable::new();
    assert_eq!(t.lookup(&FloatOp::FromInt(1)), None);
    t.push(FloatOp::FromInt(1), FloatAns::Bits(10));
    t.push(FloatOp::FromInt(2), FloatAns::Bits(20));
    assert_eq!(t.lookup(&FloatOp::FromInt(2)), Some(FloatAns::Bits(20)));
    assert_eq!(t.lookup(&FloatOp::FromInt(1)), Some(FloatAns::Bits(10)));
    assert_eq!(t.lookup(&FloatOp::FromInt(3)), None);
}

#[test]
fn parenthesized_expression_evaluates_inner() {
    let out = run("(1 + 2) * 3").unwrap();
    assert_eq!(out.result, Ok(Object::Integer(9)));
}

#[test]
fn statement_separators_are_discarded() {
    let out = run("x = 1\n\nx\n").unwrap();
    assert_eq!(out.result, Ok(Object::Integer(1)));
    let out = run("x = 2;x").unwrap();
    assert_eq!(out.result, Ok(Object::Integer(2)));
}

#[test]
fn object_get_resolves_members() {
    let env = Env::new();
    let e = Object::Enum(String::from("Color"), vec![String::from("Red")]);
    assert_eq!(
        e.get(&env, &String::from("Red")),
        Ok(Object::EnumVariant(String::from("Color"), String::from("Red")))
    );
    assert_eq!(
        Object::Integer(3).get(&env, &String::from("x")),
        Err(Fatal::BadMemberAccess)
    );
}

#[test]
fn number_with_trailing_period_lexes_and_needs_float() {
    let tokens = lex("2.").unwrap();
    assert_eq!(tokens, vec![lim::token::Token::Number(String::from("2."))]);
    let out = run("2.").unwrap();
    assert_eq!(
        out.result,
        Err(Fatal::FloatUnavailable(FloatOp::Parse(String::from("2."))))
    );
}

#[test]
fn modulus_and_multiplication_chain() {
    let out = run("1 + 2 * 3 % 2").unwrap();
    assert_eq!(out.result, Ok(Object::Integer(3)));
}
