//! A small scripting language front end and interpreter: a lexer turns
//! source text into tokens, an incremental parser grows an abstract
//! syntax tree through a continues/append absorption protocol, and a
//! tree-walking interpreter evaluates the tree against a mutable scope,
//! collecting printed output. Each stage is specified against a
//! mathematical model of the same pipeline; floating-point values are
//! carried as opaque bit patterns whose arithmetic is answered from a
//! table recorded by the caller.

pub mod interpreter;
pub mod lexer;
pub mod node;
pub mod object;
pub mod parser;
pub mod scope;
pub mod token;

use vstd::prelude::*;

use crate::interpreter::{
    eval_node, fresh_env_view, interpret, interpret_with_floats, res_view, RunOutcome,
};
use crate::lexer::{lex, lex_spec};
use crate::node::{Node, NodeView};
use crate::object::FloatTable;
use crate::parser::{parse, parse_spec};

verus! {

/// The syntax tree of source text: its lexing, when that succeeds,
/// handed to the parser.
pub open spec fn lex_parse_spec(s: Seq<char>) -> Option<NodeView> {
    match lex_spec(s) {
        Some(ts) => parse_spec(ts),
        None => None,
    }
}

/// Lexes and parses source text into a finished syntax tree, or `None`
/// when either stage fails.
pub fn lex_parse(string: &str) -> (r: Option<Node>)
    ensures
        match r {
            Some(n) => lex_parse_spec(string@) == Some(n.deep_view()),
            None => lex_parse_spec(string@) is None,
        },
{
    match lex(string) {
        Some(tokens) => parse(tokens),
        None => None,
    }
}

/// Runs source text from scratch: lexing, parsing, and interpretation in
/// a fresh environment, with the given recorded floating-point answers.
/// `None` means the text did not lex or parse.
pub fn run_with_floats(string: &str, floats: FloatTable) -> (r: Option<RunOutcome>)
    ensures
        match r {
            Some(out) => ({
                &&& lex_parse_spec(string@) is Some
                &&& {
                    let ev = eval_node(
                        u64::MAX as nat,
                        lex_parse_spec(string@)->0,
                        fresh_env_view(floats@),
                        Seq::empty(),
                    );
                    res_view(out.result) == ev.res && out.output.deep_view() == ev.env.output
                }
            }),
            None => lex_parse_spec(string@) is None,
        },
{
    match lex_parse(string) {
        Some(ast) => Some(interpret_with_floats(ast, floats)),
        None => None,
    }
}

/// Runs source text from scratch with no recorded floating-point
/// answers: a program that touches no floats never needs any.
pub fn run(string: &str) -> (r: Option<RunOutcome>)
    ensures
        match r {
            Some(out) => ({
                &&& lex_parse_spec(string@) is Some
                &&& {
                    let ev = eval_node(
                        u64::MAX as nat,
                        lex_parse_spec(string@)->0,
                        fresh_env_view(Seq::empty()),
                        Seq::empty(),
                    );
                    res_view(out.result) == ev.res && out.output.deep_view() == ev.env.output
                }
            }),
            None => lex_parse_spec(string@) is None,
        },
{
    match lex_parse(string) {
        Some(ast) => Some(interpret(ast)),
        None => None,
    }
}

} // verus!
