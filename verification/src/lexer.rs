use vstd::prelude::*;
use crate::token::{
    is_ascii_letter, is_digit_char, lemma_lit_balance_bounds, lit_balance, token_append,
    token_clean, token_complete, token_continues, token_growable, token_start_of, unescape, Token,
    TokenView,
};

verus! {

/// Grows the token `t` with characters from `s` for as long as
/// `token_continues` allows: the result is the grown token and the
/// unconsumed remainder of `s`, or `None` when a character makes the token
/// invalid.
pub open spec fn lex_grow(t: TokenView, s: Seq<char>) -> Option<(TokenView, Seq<char>)>
    decreases s.len(),
{
    if s.len() == 0 {
        Some((t, s))
    } else {
        match token_continues(t, s[0]) {
            None => None,
            Some(true) => lex_grow(token_append(t, s[0]), s.drop_first()),
            Some(false) => Some((t, s)),
        }
    }
}

/// Growing a token never hands back more characters than it was given.
pub proof fn lemma_lex_grow_len(t: TokenView, s: Seq<char>)
    ensures
        lex_grow(t, s) matches Some(p) ==> p.1.len() <= s.len(),
    decreases s.len(),
{
    if s.len() > 0 {
        if token_continues(t, s[0]) == Some(true) {
            lemma_lex_grow_len(token_append(t, s[0]), s.drop_first());
        }
    }
}

/// The lexing of `s`: characters that start nothing are skipped, every
/// other character starts a token that is grown, required complete and
/// cleaned; any invalid token makes the whole result `None`.
pub open spec fn lex_spec(s: Seq<char>) -> Option<Seq<TokenView>>
    decreases s.len(),
    via lex_spec_decreases
{
    if s.len() == 0 {
        Some(Seq::empty())
    } else {
        match token_start_of(s[0]) {
            None => lex_spec(s.drop_first()),
            Some(t) => match lex_grow(t, s.drop_first()) {
                None => None,
                Some((tok, rest)) => if token_complete(tok) {
                    match lex_spec(rest) {
                        None => None,
                        Some(ts) => Some(seq![token_clean(tok)] + ts),
                    }
                } else {
                    None
                },
            },
        }
    }
}

#[via_fn]
proof fn lex_spec_decreases(s: Seq<char>) {
    if s.len() > 0 {
        match token_start_of(s[0]) {
            Some(t) => {
                lemma_lex_grow_len(t, s.drop_first());
            },
            None => {},
        }
    }
}

/// A token that some character extends is one of the growable kinds.
proof fn lemma_continues_true_growable(t: TokenView, c: char)
    ensures
        token_continues(t, c) == Some(true) ==> token_growable(t),
{
}

/// A complete literal token holds at least its two delimiters.
proof fn lemma_complete_literal_len(t: TokenView)
    ensures
        t matches TokenView::Literal(s, d) ==> (token_complete(t) ==> s.len() >= 2),
{
    if let TokenView::Literal(s, d) = t {
        lemma_lit_balance_bounds(s, d);
    }
}

fn chars_of(code: &str) -> (r: Vec<char>)
    ensures
        r@ == code@,
{
    let n = code.unicode_len();
    let mut v: Vec<char> = Vec::new();
    let mut i: usize = 0;
    while i < n
        invariant
            0 <= i <= n,
            n == code@.len(),
            v@ == code@.take(i as int),
        decreases n - i,
    {
        let c = code.get_char(i);
        v.push(c);
        proof {
            assert(code@.take(i as int + 1) =~= code@.take(i as int).push(code@[i as int]));
        }
        i = i + 1;
    }
    proof {
        assert(code@.take(n as int) =~= code@);
    }
    v
}

/// Prepends the already-lexed tokens to a pending result: an error stays
/// an error.
pub open spec fn opt_prepend(pre: Seq<TokenView>, r: Option<Seq<TokenView>>) -> Option<
    Seq<TokenView>,
> {
    match r {
        Some(ts) => Some(pre + ts),
        None => None,
    }
}

/// Converts source text into its sequence of tokens, scanning left to
/// right; whitespace other than newline separates tokens silently. Returns
/// `None` when any lexeme is invalid: a number with two periods, a bare
/// period with no digits, or an unterminated string literal.
pub fn lex(code: &str) -> (r: Option<Vec<Token>>)
    ensures
        match r {
            Some(v) => lex_spec(code@) == Some(v.deep_view()),
            None => lex_spec(code@) is None,
        },
{
    let chars = chars_of(code);
    let n = chars.len();
    let mut tokens: Vec<Token> = Vec::new();
    let mut i: usize = 0;
    proof {
        assert(code@.skip(0) =~= code@);
        assert(tokens.deep_view() =~~= Seq::<TokenView>::empty());
    }
    while i < n
        invariant
            0 <= i <= n,
            n == chars@.len(),
            chars@ == code@,
            lex_spec(code@) == opt_prepend(tokens.deep_view(), lex_spec(code@.skip(i as int))),
        decreases n - i,
    {
        let ghost before = code@.skip(i as int);
        let c = chars[i];
        proof {
            assert(before[0] == c);
            assert(before.drop_first() =~= code@.skip(i as int + 1));
        }
        if let Some(started) = Token::start_of(c) {
            let ghost t0 = started.deep_view();
            let mut token = started;
            let mut j: usize = i + 1;
            let mut failed = false;
            loop
                invariant_except_break
                    !failed,
                invariant
                    i < j <= n,
                    n == chars@.len(),
                    chars@ == code@,
                    lex_grow(t0, code@.skip(i as int + 1)) == lex_grow(
                        token.deep_view(),
                        code@.skip(j as int),
                    ),
                ensures
                    i < j <= n,
                    if failed {
                        lex_grow(t0, code@.skip(i as int + 1)) is None
                    } else {
                        lex_grow(t0, code@.skip(i as int + 1)) == Some(
                            (token.deep_view(), code@.skip(j as int)),
                        )
                    },
                decreases n - j,
            {
                if j >= n {
                    proof {
                        assert(code@.skip(j as int) =~= Seq::<char>::empty());
                    }
                    break ;
                }
                let cj = chars[j];
                let ghost rest = code@.skip(j as int);
                proof {
                    assert(rest[0] == cj);
                    assert(rest.drop_first() =~= code@.skip(j as int + 1));
                }
                match token.continues(cj) {
                    None => {
                        failed = true;
                        break ;
                    },
                    Some(false) => {
                        break ;
                    },
                    Some(true) => {
                        proof {
                            lemma_continues_true_growable(token.deep_view(), cj);
                        }
                        token = token.append(cj);
                        j = j + 1;
                    },
                }
            }
            if failed {
                proof {
                    assert(lex_spec(code@.skip(i as int)) is None);
                }
                return None;
            }
            if token.is_complete() {
                proof {
                    lemma_complete_literal_len(token.deep_view());
                }
                let cleaned = token.clean();
                let ghost tokens_before = tokens.deep_view();
                tokens.push(cleaned);
                proof {
                    assert(tokens.deep_view() =~~= tokens_before.push(cleaned.deep_view()));
                    match lex_spec(code@.skip(j as int)) {
                        Some(ts) => {
                            assert(tokens_before + (seq![cleaned.deep_view()] + ts) =~~= tokens_before.push(
                                cleaned.deep_view(),
                            ) + ts);
                        },
                        None => {},
                    }
                }
                i = j;
            } else {
                proof {
                    assert(lex_spec(code@.skip(i as int)) is None);
                }
                return None;
            }
        } else {
            i = i + 1;
        }
    }
    proof {
        assert(code@.skip(n as int) =~= Seq::<char>::empty());
        assert(tokens.deep_view() + Seq::<TokenView>::empty() =~~= tokens.deep_view());
    }
    Some(tokens)
}

/// Growing a number token absorbs any run of digits, whether or not the
/// token already holds a period.
proof fn lemma_grow_digits(t: Seq<char>, s: Seq<char>, tail: Seq<char>)
    requires
        forall|i: int| 0 <= i < s.len() ==> is_digit_char(s[i]),
    ensures
        lex_grow(TokenView::Number(t), s + tail) == lex_grow(TokenView::Number(t + s), tail),
    decreases s.len(),
{
    if s.len() == 0 {
        assert(s + tail =~= tail);
        assert(t + s =~= t);
    } else {
        let c = s[0];
        assert((s + tail)[0] == c);
        assert(token_continues(TokenView::Number(t), c) == Some(true));
        assert((s + tail).drop_first() =~= s.drop_first() + tail);
        lemma_grow_digits(t.push(c), s.drop_first(), tail);
        assert(t.push(c) + s.drop_first() =~= t + s);
    }
}

/// Growing an identifier token absorbs any run of identifier characters,
/// to the end of the input.
proof fn lemma_grow_identifier(t: Seq<char>, s: Seq<char>)
    requires
        forall|i: int|
            0 <= i < s.len() ==> is_ascii_letter(s[i]) || is_digit_char(s[i]) || s[i] == '_',
    ensures
        lex_grow(TokenView::Identifier(t), s) == Some(
            (TokenView::Identifier(t + s), Seq::<char>::empty()),
        ),
    decreases s.len(),
{
    if s.len() == 0 {
        assert(s =~= Seq::<char>::empty());
        assert(t + s =~= t);
    } else {
        let c = s[0];
        assert(token_continues(TokenView::Identifier(t), c) == Some(true));
        lemma_grow_identifier(t.push(c), s.drop_first());
        assert(t.push(c) + s.drop_first() =~= t + s);
    }
}

/// Law: for every identifier-like run (an ASCII letter or underscore
/// followed by ASCII letters, digits and underscores), lexing yields a
/// single identifier token holding exactly that text.
pub proof fn lemma_lex_identifier_run(s: Seq<char>)
    requires
        s.len() > 0,
        is_ascii_letter(s[0]) || s[0] == '_',
        forall|i: int|
            0 <= i < s.len() ==> is_ascii_letter(s[i]) || is_digit_char(s[i]) || s[i] == '_',
    ensures
        lex_spec(s) == Some(seq![TokenView::Identifier(s)]),
{
    let c = s[0];
    assert(token_start_of(c) == Some(TokenView::Identifier(seq![c])));
    lemma_grow_identifier(seq![c], s.drop_first());
    assert(seq![c] + s.drop_first() =~= s);
    assert(lex_spec(Seq::<char>::empty()) == Some(Seq::<TokenView>::empty()));
    assert(seq![TokenView::Identifier(s)] + Seq::<TokenView>::empty() =~= seq![
        TokenView::Identifier(s),
    ]);
}

/// A run of digits never holds a period.
proof fn lemma_digits_no_period(d1: Seq<char>)
    requires
        forall|i: int| 0 <= i < d1.len() ==> is_digit_char(d1[i]),
    ensures
        !d1.contains('.'),
{
    assert forall|i: int| 0 <= i < d1.len() implies d1[i] != '.' by {
        assert(is_digit_char(d1[i]));
    }
}

/// Law: for every valid number literal holding exactly one period with
/// digits on at least one side, lexing yields a single number token
/// preserving the literal text.
pub proof fn lemma_lex_number_literal(d1: Seq<char>, d2: Seq<char>)
    requires
        forall|i: int| 0 <= i < d1.len() ==> is_digit_char(d1[i]),
        forall|i: int| 0 <= i < d2.len() ==> is_digit_char(d2[i]),
        d1.len() + d2.len() >= 1,
    ensures
        lex_spec(d1 + seq!['.'] + d2) == Some(seq![TokenView::Number(d1 + seq!['.'] + d2)]),
{
    let s = d1 + seq!['.'] + d2;
    assert(lex_spec(Seq::<char>::empty()) == Some(Seq::<TokenView>::empty()));
    if d1.len() == 0 {
        assert(s =~= seq!['.'] + d2);
        assert(s[0] == '.');
        assert(token_start_of('.') == Some(TokenView::Period));
        assert(s.drop_first() =~= d2);
        let c0 = d2[0];
        assert(token_continues(TokenView::Period, c0) == Some(true));
        assert(token_append(TokenView::Period, c0) == TokenView::Number(seq!['.', c0]));
        assert(d2.drop_first() + Seq::<char>::empty() =~= d2.drop_first());
        lemma_grow_digits(seq!['.', c0], d2.drop_first(), Seq::<char>::empty());
        assert(seq!['.', c0] + d2.drop_first() =~= s);
        assert(lex_grow(TokenView::Number(s), Seq::<char>::empty()) == Some(
            (TokenView::Number(s), Seq::<char>::empty()),
        ));
        assert(s.len() > 1);
        assert(token_complete(TokenView::Number(s)));
        assert(seq![TokenView::Number(s)] + Seq::<TokenView>::empty() =~= seq![
            TokenView::Number(s),
        ]);
    } else {
        let c0 = d1[0];
        assert(s[0] == c0);
        assert(is_digit_char(c0));
        assert(token_start_of(c0) == Some(TokenView::Number(seq![c0])));
        assert(s.drop_first() =~= d1.drop_first() + (seq!['.'] + d2));
        lemma_grow_digits(seq![c0], d1.drop_first(), seq!['.'] + d2);
        assert(seq![c0] + d1.drop_first() =~= d1);
        lemma_digits_no_period(d1);
        assert((seq!['.'] + d2)[0] == '.');
        assert(token_continues(TokenView::Number(d1), '.') == Some(true));
        assert((seq!['.'] + d2).drop_first() =~= d2);
        assert(d2 + Seq::<char>::empty() =~= d2);
        lemma_grow_digits(d1.push('.'), d2, Seq::<char>::empty());
        assert(d1.push('.') + d2 =~= s);
        assert(lex_grow(TokenView::Number(s), Seq::<char>::empty()) == Some(
            (TokenView::Number(s), Seq::<char>::empty()),
        ));
        assert(s.len() > 1);
        assert(token_complete(TokenView::Number(s)));
        assert(seq![TokenView::Number(s)] + Seq::<TokenView>::empty() =~= seq![
            TokenView::Number(s),
        ]);
    }
}

/// Law: a second period in the same numeric run makes lexing fail for the
/// whole input, whatever text follows.
pub proof fn lemma_lex_number_two_periods(d1: Seq<char>, d2: Seq<char>, tail: Seq<char>)
    requires
        forall|i: int| 0 <= i < d1.len() ==> is_digit_char(d1[i]),
        forall|i: int| 0 <= i < d2.len() ==> is_digit_char(d2[i]),
    ensures
        lex_spec(d1 + seq!['.'] + d2 + seq!['.'] + tail) is None,
{
    let s = d1 + seq!['.'] + d2 + seq!['.'] + tail;
    if d1.len() == 0 && d2.len() == 0 {
        assert(s[0] == '.');
        assert(token_start_of('.') == Some(TokenView::Period));
        assert(s.drop_first() =~= seq!['.'] + tail);
        assert(s.drop_first()[0] == '.');
        assert(token_continues(TokenView::Period, '.') == Some(false));
        assert(lex_grow(TokenView::Period, s.drop_first()) == Some(
            (TokenView::Period, s.drop_first()),
        ));
        assert(!token_complete(TokenView::Period));
    } else if d1.len() == 0 {
        assert(s[0] == '.');
        assert(token_start_of('.') == Some(TokenView::Period));
        assert(s.drop_first() =~= d2 + (seq!['.'] + tail));
        let c0 = d2[0];
        assert((d2 + (seq!['.'] + tail))[0] == c0);
        assert(token_continues(TokenView::Period, c0) == Some(true));
        assert(token_append(TokenView::Period, c0) == TokenView::Number(seq!['.', c0]));
        assert((d2 + (seq!['.'] + tail)).drop_first() =~= d2.drop_first() + (seq!['.'] + tail));
        lemma_grow_digits(seq!['.', c0], d2.drop_first(), seq!['.'] + tail);
        let t = seq!['.', c0] + d2.drop_first();
        assert(t =~= seq!['.'] + d2);
        assert((seq!['.'] + tail)[0] == '.');
        assert(t.contains('.')) by {
            assert(t[0] == '.');
        }
        assert(token_continues(TokenView::Number(t), '.') is None);
        assert(lex_grow(TokenView::Number(t), seq!['.'] + tail) is None);
    } else {
        let c0 = d1[0];
        assert(s[0] == c0);
        assert(token_start_of(c0) == Some(TokenView::Number(seq![c0])));
        assert(s.drop_first() =~= d1.drop_first() + (seq!['.'] + (d2 + (seq!['.'] + tail))));
        lemma_grow_digits(seq![c0], d1.drop_first(), seq!['.'] + (d2 + (seq!['.'] + tail)));
        assert(seq![c0] + d1.drop_first() =~= d1);
        lemma_digits_no_period(d1);
        assert((seq!['.'] + (d2 + (seq!['.'] + tail)))[0] == '.');
        assert(token_continues(TokenView::Number(d1), '.') == Some(true));
        assert((seq!['.'] + (d2 + (seq!['.'] + tail))).drop_first() =~= d2 + (seq!['.'] + tail));
        lemma_grow_digits(d1.push('.'), d2, seq!['.'] + tail);
        assert(d2 + (seq!['.'] + tail) =~= d2 + seq!['.'] + tail);
        let t = d1.push('.') + d2;
        assert((seq!['.'] + tail)[0] == '.');
        assert(t.contains('.')) by {
            assert(t[d1.len() as int] == '.');
        }
        assert(token_continues(TokenView::Number(t), '.') is None);
        assert(lex_grow(TokenView::Number(t), seq!['.'] + tail) is None);
    }
}

/// `s` with every delimiter character `d` escaped by a backslash: the
/// printed form of a literal's content.
pub open spec fn escape(s: Seq<char>, d: char) -> Seq<char>
    decreases s.len(),
{
    if s.len() == 0 {
        Seq::empty()
    } else if s[0] == d {
        seq!['\\', d] + escape(s.drop_first(), d)
    } else {
        seq![s[0]] + escape(s.drop_first(), d)
    }
}

/// Pushing one character changes the unescaped-delimiter count by one
/// exactly when the character is an unescaped delimiter.
proof fn lemma_balance_push(t: Seq<char>, c: char, d: char)
    ensures
        lit_balance(t.push(c), d) == lit_balance(t, d) + if c == d && !(t.len() >= 1 && t.last()
            == '\\') {
            1int
        } else {
            0int
        },
{
    assert(t.push(c).drop_last() =~= t);
    assert(t.push(c).last() == c);
}

/// Growing a literal token through the escaped form of `s` absorbs all of
/// it and leaves the unescaped-delimiter count at one.
proof fn lemma_grow_escape(t: Seq<char>, s: Seq<char>, d: char, tail: Seq<char>)
    requires
        lit_balance(t, d) == 1,
        d != '\\',
    ensures
        lex_grow(TokenView::Literal(t, d), escape(s, d) + tail) == lex_grow(
            TokenView::Literal(t + escape(s, d), d),
            tail,
        ),
        lit_balance(t + escape(s, d), d) == 1,
    decreases s.len(),
{
    if s.len() == 0 {
        assert(escape(s, d) + tail =~= tail);
        assert(t + escape(s, d) =~= t);
    } else {
        let c = s[0];
        if c == d {
            let w = escape(s, d) + tail;
            assert(w[0] == '\\');
            assert(token_continues(TokenView::Literal(t, d), '\\') == Some(true));
            lemma_balance_push(t, '\\', d);
            let t1 = t.push('\\');
            assert(lit_balance(t1, d) == 1);
            assert(lex_grow(TokenView::Literal(t, d), w) == lex_grow(
                TokenView::Literal(t1, d),
                w.drop_first(),
            ));
            assert(w.drop_first() =~= (seq![d] + escape(s.drop_first(), d)) + tail);
            assert(w.drop_first()[0] == d);
            assert(token_continues(TokenView::Literal(t1, d), d) == Some(true));
            lemma_balance_push(t1, d, d);
            let t2 = t1.push(d);
            assert(lit_balance(t2, d) == 1);
            assert(lex_grow(TokenView::Literal(t1, d), w.drop_first()) == lex_grow(
                TokenView::Literal(t2, d),
                w.drop_first().drop_first(),
            ));
            assert(w.drop_first().drop_first() =~= escape(s.drop_first(), d) + tail);
            lemma_grow_escape(t2, s.drop_first(), d, tail);
            assert(t2 + escape(s.drop_first(), d) =~= t + escape(s, d));
        } else {
            let w = escape(s, d) + tail;
            assert(w[0] == c);
            assert(token_continues(TokenView::Literal(t, d), c) == Some(true));
            lemma_balance_push(t, c, d);
            let t1 = t.push(c);
            assert(lit_balance(t1, d) == 1);
            assert(lex_grow(TokenView::Literal(t, d), w) == lex_grow(
                TokenView::Literal(t1, d),
                w.drop_first(),
            ));
            assert(w.drop_first() =~= escape(s.drop_first(), d) + tail);
            lemma_grow_escape(t1, s.drop_first(), d, tail);
            assert(t1 + escape(s.drop_first(), d) =~= t + escape(s, d));
        }
    }
}

/// Unescaping the escaped form of any content gives the content back.
proof fn lemma_unescape_escape(s: Seq<char>, d: char)
    requires
        d != '\\',
    ensures
        unescape(escape(s, d), d) == s,
    decreases s.len(),
{
    if s.len() == 0 {
    } else {
        let c = s[0];
        let e = escape(s, d);
        if c == d {
            assert(e[0] == '\\' && e[1] == d);
            assert(e.skip(2) =~= escape(s.drop_first(), d));
            lemma_unescape_escape(s.drop_first(), d);
            assert(seq![d] + s.drop_first() =~= s);
        } else {
            let rest = escape(s.drop_first(), d);
            assert(e =~= seq![c] + rest);
            assert(e[0] == c);
            if e.len() >= 2 {
                assert(e[1] == rest[0]);
                assert(rest.len() > 0);
                assert(s.drop_first().len() > 0);
                if s.drop_first()[0] == d {
                    assert(rest[0] == '\\');
                } else {
                    assert(rest[0] == s.drop_first()[0]);
                }
                assert(rest[0] != d);
            }
            assert(!(e.len() >= 2 && e[0] == '\\' && e[1] == d));
            assert(e.skip(1) =~= rest);
            lemma_unescape_escape(s.drop_first(), d);
            assert(seq![c] + s.drop_first() =~= s);
        }
    }
}

/// The escaped form of content that does not end in a backslash does not
/// end in a backslash either.
proof fn lemma_escape_last(s: Seq<char>, d: char)
    requires
        s.len() > 0,
        s.last() != '\\',
        d != '\\',
    ensures
        escape(s, d).len() > 0,
        escape(s, d).last() != '\\',
    decreases s.len(),
{
    let c = s[0];
    if s.len() == 1 {
        if c == d {
            assert(escape(s, d) =~= seq!['\\', d]);
        } else {
            assert(s.drop_first().len() == 0);
            assert(escape(s, d) =~= seq![c]);
            assert(c == s.last());
        }
    } else {
        assert(s.drop_first().last() == s.last());
        lemma_escape_last(s.drop_first(), d);
        let e = escape(s, d);
        let rest = escape(s.drop_first(), d);
        if c == d {
            assert(e =~= seq!['\\', d] + rest);
        } else {
            assert(e =~= seq![c] + rest);
        }
        assert(e.last() == rest.last());
    }
}

/// Law: lexing the printed form of a literal (delimiter, escaped content,
/// delimiter) reproduces the original content exactly, including any
/// delimiter characters that had to be escaped. Content that ends in a
/// backslash has no printed form of this shape, since the trailing
/// backslash would escape the closing delimiter.
pub proof fn lemma_literal_round_trip(s: Seq<char>, d: char)
    requires
        d == '"' || d == '\'',
        s.len() == 0 || s.last() != '\\',
    ensures
        lex_spec(seq![d] + escape(s, d) + seq![d]) == Some(seq![TokenView::Literal(s, d)]),
{
    let w = seq![d] + escape(s, d) + seq![d];
    assert(w[0] == d);
    assert(token_start_of(d) == Some(TokenView::Literal(seq![d], d)));
    assert(lit_balance(seq![d], d) == 1) by {
        lemma_balance_push(Seq::empty(), d, d);
        assert(Seq::<char>::empty().push(d) =~= seq![d]);
    }
    assert(w.drop_first() =~= escape(s, d) + seq![d]);
    lemma_grow_escape(seq![d], s, d, seq![d]);
    let t1 = seq![d] + escape(s, d);
    assert(lit_balance(t1, d) == 1);
    assert(token_continues(TokenView::Literal(t1, d), d) == Some(true));
    if s.len() > 0 {
        lemma_escape_last(s, d);
        assert(t1.last() != '\\');
    } else {
        assert(t1 =~= seq![d]);
        assert(t1.last() == d);
    }
    lemma_balance_push(t1, d, d);
    let t2 = t1.push(d);
    assert(lit_balance(t2, d) == 2);
    assert((seq![d] + Seq::<char>::empty())[0] == d);
    assert(seq![d].drop_first() =~= Seq::<char>::empty());
    assert(lex_grow(TokenView::Literal(t2, d), Seq::<char>::empty()) == Some(
        (TokenView::Literal(t2, d), Seq::<char>::empty()),
    ));
    assert(token_complete(TokenView::Literal(t2, d)));
    assert(t2.subrange(1, t2.len() - 1) =~= escape(s, d));
    lemma_unescape_escape(s, d);
    assert(token_clean(TokenView::Literal(t2, d)) == TokenView::Literal(s, d));
    assert(lex_spec(Seq::<char>::empty()) == Some(Seq::<TokenView>::empty()));
    assert(seq![TokenView::Literal(s, d)] + Seq::<TokenView>::empty() =~= seq![
        TokenView::Literal(s, d),
    ]);
}

} // verus!
