use vstd::prelude::*;
use crate::node::{
    is_empty_node, node_append, node_continues, node_start_of, Node, NodeView,
};
use crate::token::{Token, TokenView};

verus! {

/// Whether `n` is a construct still under construction: such a node left
/// unresolved at the top level makes the whole parse fail, and an `Empty`
/// placeholder left by a statement separator is discarded.
pub open spec fn node_unfinished(n: NodeView) -> bool {
    match n {
        NodeView::PartialCall(_, _) => true,
        NodeView::PartialMember(_) => true,
        NodeView::PartialParenthesized(_) => true,
        NodeView::PartialFunctionDefinition(_, _) => true,
        NodeView::PartialEnumDefinition(_, _) => true,
        NodeView::PartialClassDefinition(_, _) => true,
        NodeView::PartialMatch(_, _) => true,
        NodeView::PartialMatchArm(_, _) => true,
        NodeView::UnnamedEnumDefinition => true,
        NodeView::NamedEnumDefinition(_) => true,
        NodeView::UnnamedClassDefinition => true,
        NodeView::NamedClassDefinition(_) => true,
        NodeView::UnopenedMatch(_) => true,
        NodeView::UnopenedMatchArm(_) => true,
        NodeView::MatchArmWithoutColon(_) => true,
        NodeView::FunctionArgs(_) => true,
        NodeView::Empty => true,
        _ => false,
    }
}

/// Grows the node `n` with tokens from `ts` for as long as
/// `node_continues` allows: the result is the grown node and the
/// unconsumed remainder, or `None` on a parse error.
pub open spec fn parse_grow(n: NodeView, ts: Seq<TokenView>) -> Option<(NodeView, Seq<TokenView>)>
    decreases ts.len(),
{
    if ts.len() == 0 {
        Some((n, ts))
    } else {
        match node_continues(n, ts[0]) {
            None => None,
            Some(true) => match node_append(n, ts[0]) {
                Some(n2) => parse_grow(n2, ts.drop_first()),
                None => None,
            },
            Some(false) => Some((n, ts)),
        }
    }
}

/// Growing a node never hands back more tokens than it was given.
pub proof fn lemma_parse_grow_len(n: NodeView, ts: Seq<TokenView>)
    ensures
        parse_grow(n, ts) matches Some(p) ==> p.1.len() <= ts.len(),
    decreases ts.len(),
{
    if ts.len() > 0 {
        if node_continues(n, ts[0]) == Some(true) {
            match node_append(n, ts[0]) {
                Some(n2) => {
                    lemma_parse_grow_len(n2, ts.drop_first());
                },
                None => {},
            }
        }
    }
}

/// The top-level statements parsed from `ts`: tokens that start nothing
/// are skipped, every other token starts a node that is grown to
/// completion; an `Empty` placeholder left by a trailing separator is
/// discarded, and any node still under construction when it stops growing
/// makes the whole parse fail.
pub open spec fn parse_loop(ts: Seq<TokenView>) -> Option<Seq<NodeView>>
    decreases ts.len(),
    via parse_loop_decreases
{
    if ts.len() == 0 {
        Some(Seq::empty())
    } else {
        match node_start_of(ts[0]) {
            None => parse_loop(ts.drop_first()),
            Some(n) => match parse_grow(n, ts.drop_first()) {
                None => None,
                Some((node, rest)) => if node == NodeView::Empty {
                    parse_loop(rest)
                } else if node_unfinished(node) {
                    None
                } else {
                    match parse_loop(rest) {
                        Some(ns) => Some(seq![node] + ns),
                        None => None,
                    }
                },
            },
        }
    }
}

#[via_fn]
proof fn parse_loop_decreases(ts: Seq<TokenView>) {
    if ts.len() > 0 {
        match node_start_of(ts[0]) {
            Some(n) => {
                lemma_parse_grow_len(n, ts.drop_first());
            },
            None => {},
        }
    }
}

/// The parse of `ts`: a `Program` holding the top-level statements, or
/// `None` on any parse error.
pub open spec fn parse_spec(ts: Seq<TokenView>) -> Option<NodeView> {
    match parse_loop(ts) {
        Some(ns) => Some(NodeView::Program(ns)),
        None => None,
    }
}

fn is_unfinished_node(n: &Node) -> (r: bool)
    ensures
        r == node_unfinished(n.deep_view()),
{
    match n {
        Node::PartialCall(_, _) => true,
        Node::PartialMember(_) => true,
        Node::PartialParenthesized(_) => true,
        Node::PartialFunctionDefinition(_, _) => true,
        Node::PartialEnumDefinition(_, _) => true,
        Node::PartialClassDefinition(_, _) => true,
        Node::PartialMatch(_, _) => true,
        Node::PartialMatchArm(_, _) => true,
        Node::UnnamedEnumDefinition => true,
        Node::NamedEnumDefinition(_) => true,
        Node::UnnamedClassDefinition => true,
        Node::NamedClassDefinition(_) => true,
        Node::UnopenedMatch(_) => true,
        Node::UnopenedMatchArm(_) => true,
        Node::MatchArmWithoutColon(_) => true,
        Node::FunctionArgs(_) => true,
        Node::Empty => true,
        _ => false,
    }
}

/// Prepends already-parsed statements to a pending result: an error stays
/// an error.
pub open spec fn opt_prepend_nodes(pre: Seq<NodeView>, r: Option<Seq<NodeView>>) -> Option<
    Seq<NodeView>,
> {
    match r {
        Some(ns) => Some(pre + ns),
        None => None,
    }
}

/// Converts a token sequence into an abstract syntax tree rooted at a
/// `Program` node, or `None` when the tokens leave a construct
/// unresolved or trigger an unrecoverable grammar error. Newline and
/// semicolon separators between statements are absorbed and discarded.
pub fn parse(tokens: Vec<Token>) -> (r: Option<Node>)
    ensures
        match r {
            Some(n) => parse_spec(tokens.deep_view()) == Some(n.deep_view()),
            None => parse_spec(tokens.deep_view()) is None,
        },
{
    let ghost ts0 = tokens.deep_view();
    let n = tokens.len();
    let mut nodes: Vec<Node> = Vec::new();
    proof {
        assert(ts0.skip(0) =~= ts0);
        assert(crate::node::view_nodes(nodes@) =~= Seq::<NodeView>::empty());
    }
    let mut idx: usize = 0;
    while idx < n
        invariant
            0 <= idx <= n,
            n == tokens@.len(),
            tokens.deep_view() == ts0,
            parse_loop(ts0) == opt_prepend_nodes(
                crate::node::view_nodes(nodes@),
                parse_loop(ts0.skip(idx as int)),
            ),
        decreases n - idx,
    {
        let ghost before = ts0.skip(idx as int);
        proof {
            assert(before[0] == ts0[idx as int]);
            assert(ts0[idx as int] == tokens@[idx as int].deep_view());
            assert(before.drop_first() =~= ts0.skip(idx as int + 1));
        }
        let token = read_token(&tokens, idx);
        match Node::start_of(token) {
            None => {
                idx = idx + 1;
            },
            Some(started) => {
                let ghost nv0 = started.deep_view();
                let mut node = started;
                let mut j: usize = idx + 1;
                let mut failed = false;
                loop
                    invariant_except_break
                        !failed,
                        parse_grow(nv0, ts0.skip(idx as int + 1)) == parse_grow(
                            node.deep_view(),
                            ts0.skip(j as int),
                        ),
                    invariant
                        idx < j <= n,
                        n == tokens@.len(),
                        tokens.deep_view() == ts0,
                    ensures
                        idx < j <= n,
                        tokens.deep_view() == ts0,
                        if failed {
                            parse_grow(nv0, ts0.skip(idx as int + 1)) is None
                        } else {
                            parse_grow(nv0, ts0.skip(idx as int + 1)) == Some(
                                (node.deep_view(), ts0.skip(j as int)),
                            )
                        },
                    decreases n - j,
                {
                    if j >= n {
                        proof {
                            assert(ts0.skip(j as int) =~= Seq::<TokenView>::empty());
                        }
                        break ;
                    }
                    let ghost rest = ts0.skip(j as int);
                    proof {
                        assert(rest[0] == ts0[j as int]);
                        assert(ts0[j as int] == tokens@[j as int].deep_view());
                        assert(rest.drop_first() =~= ts0.skip(j as int + 1));
                    }
                    let cont = {
                        let tj = &tokens[j];
                        node.continues(tj)
                    };
                    match cont {
                        None => {
                            failed = true;
                            break ;
                        },
                        Some(false) => {
                            break ;
                        },
                        Some(true) => {
                            let tj = read_token(&tokens, j);
                            let ghost node_before = node.deep_view();
                            match node.append(tj) {
                                Some(n2) => {
                                    node = n2;
                                    j = j + 1;
                                },
                                None => {
                                    failed = true;
                                    node = Node::Empty;
                                    proof {
                                        assert(node_append(node_before, rest[0]) is None);
                                        assert(parse_grow(nv0, ts0.skip(idx as int + 1)) is None);
                                    }
                                    break ;
                                },
                            }
                        },
                    }
                }
                if failed {
                    proof {
                        assert(parse_loop(ts0.skip(idx as int)) is None);
                    }
                    return None;
                }
                if is_empty_node(&node) {
                    idx = j;
                } else if is_unfinished_node(&node) {
                    proof {
                        assert(parse_loop(ts0.skip(idx as int)) is None);
                    }
                    return None;
                } else {
                    let ghost nodes0 = nodes@;
                    nodes.push(node);
                    proof {
                        crate::node::lemma_view_nodes_push(nodes0, nodes@[nodes0.len() as int]);
                        match parse_loop(ts0.skip(j as int)) {
                            Some(ns) => {
                                assert(crate::node::view_nodes(nodes0) + (seq![node.deep_view()]
                                    + ns) =~= crate::node::view_nodes(nodes0).push(node.deep_view())
                                    + ns);
                            },
                            None => {},
                        }
                    }
                    idx = j;
                }
            },
        }
    }
    proof {
        assert(ts0.skip(n as int) =~= Seq::<TokenView>::empty());
        assert(crate::node::view_nodes(nodes@) + Seq::<NodeView>::empty() =~= crate::node::view_nodes(
            nodes@,
        ));
    }
    Some(Node::Program(nodes))
}

/// Takes the token at `i` out of the vector by cloning its text; tokens
/// are plain data, so the copy is exact.
fn read_token(tokens: &Vec<Token>, i: usize) -> (r: Token)
    requires
        i < tokens@.len(),
    ensures
        r.deep_view() == tokens@[i as int].deep_view(),
{
    let t = &tokens[i];
    match t {
        Token::Identifier(s) => Token::Identifier(clone_string(s)),
        Token::Number(s) => Token::Number(clone_string(s)),
        Token::Literal(s, d) => Token::Literal(clone_string(s), *d),
        Token::Equal => Token::Equal,
        Token::Plus => Token::Plus,
        Token::Minus => Token::Minus,
        Token::Times => Token::Times,
        Token::Division => Token::Division,
        Token::Modulus => Token::Modulus,
        Token::Comma => Token::Comma,
        Token::Period => Token::Period,
        Token::Colon => Token::Colon,
        Token::SemiColon => Token::SemiColon,
        Token::NewLine => Token::NewLine,
        Token::OpenParenthesis => Token::OpenParenthesis,
        Token::CloseParenthesis => Token::CloseParenthesis,
        Token::OpenBrace => Token::OpenBrace,
        Token::CloseBrace => Token::CloseBrace,
        Token::OpenBracket => Token::OpenBracket,
        Token::CloseBracket => Token::CloseBracket,
    }
}

fn clone_string(s: &String) -> (r: String)
    ensures
        r@ == s@,
{
    s.clone()
}

} // verus!
