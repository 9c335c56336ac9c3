use vstd::prelude::*;

verus! {

/// The lexical unit produced by the lexer.
///
/// `Identifier` and `Number` carry the exact text of the lexeme; `Literal`
/// carries the text (while lexing: including the surrounding delimiters,
/// until `clean` strips them) together with the delimiter character that
/// opened it. The remaining variants are fixed operator and punctuation
/// tokens.
#[derive(Debug, PartialEq)]
pub enum Token {
    Identifier(String),
    Number(String),
    Literal(String, char),
    Equal,
    Plus,
    Minus,
    Times,
    Division,
    Modulus,
    Comma,
    Period,
    Colon,
    SemiColon,
    NewLine,
    OpenParenthesis,
    CloseParenthesis,
    OpenBrace,
    CloseBrace,
    OpenBracket,
    CloseBracket,
}

/// The mathematical model of a `Token`: the same tags, with each piece of
/// text abstracted to its sequence of characters.
pub enum TokenView {
    Identifier(Seq<char>),
    Number(Seq<char>),
    Literal(Seq<char>, char),
    Equal,
    Plus,
    Minus,
    Times,
    Division,
    Modulus,
    Comma,
    Period,
    Colon,
    SemiColon,
    NewLine,
    OpenParenthesis,
    CloseParenthesis,
    OpenBrace,
    CloseBrace,
    OpenBracket,
    CloseBracket,
}

impl DeepView for Token {
    type V = TokenView;

    open spec fn deep_view(&self) -> TokenView {
        match self {
            Token::Identifier(s) => TokenView::Identifier(s@),
            Token::Number(s) => TokenView::Number(s@),
            Token::Literal(s, d) => TokenView::Literal(s@, *d),
            Token::Equal => TokenView::Equal,
            Token::Plus => TokenView::Plus,
            Token::Minus => TokenView::Minus,
            Token::Times => TokenView::Times,
            Token::Division => TokenView::Division,
            Token::Modulus => TokenView::Modulus,
            Token::Comma => TokenView::Comma,
            Token::Period => TokenView::Period,
            Token::Colon => TokenView::Colon,
            Token::SemiColon => TokenView::SemiColon,
            Token::NewLine => TokenView::NewLine,
            Token::OpenParenthesis => TokenView::OpenParenthesis,
            Token::CloseParenthesis => TokenView::CloseParenthesis,
            Token::OpenBrace => TokenView::OpenBrace,
            Token::CloseBrace => TokenView::CloseBrace,
            Token::OpenBracket => TokenView::OpenBracket,
            Token::CloseBracket => TokenView::CloseBracket,
        }
    }
}

/// Whether `c` is a decimal digit.
pub open spec fn is_digit_char(c: char) -> bool {
    '0' <= c && c <= '9'
}

/// Whether `c` is an ASCII letter.
pub open spec fn is_ascii_letter(c: char) -> bool {
    ('a' <= c && c <= 'z') || ('A' <= c && c <= 'Z')
}

/// Whether a character above the ASCII range has the Unicode `Alphabetic`
/// property.
pub uninterp spec fn unicode_alphabetic(c: char) -> bool;

/// Whether `c` counts as alphabetic: among ASCII characters exactly the
/// letters, and above the ASCII range whatever the Unicode `Alphabetic`
/// property says.
pub open spec fn is_alphabetic_char(c: char) -> bool {
    if (c as u32) < 128 {
        is_ascii_letter(c)
    } else {
        unicode_alphabetic(c)
    }
}

/// Relies on `char::is_alphabetic`: whether the character has the Unicode
/// `Alphabetic` property, a function of the character alone. Its
/// documentation states that the ASCII alphabetic characters are exactly
/// the ASCII letters.
pub assume_specification[ char::is_alphabetic ](c: char) -> (r: bool)
    ensures
        r == is_alphabetic_char(c),
        (c as u32) >= 128 ==> r == unicode_alphabetic(c),
;

/// The number of unescaped occurrences of the delimiter `d` in `s`: every
/// occurrence counts except those immediately preceded by a backslash.
pub open spec fn lit_balance(s: Seq<char>, d: char) -> int
    decreases s.len(),
{
    if s.len() == 0 {
        0
    } else {
        lit_balance(s.drop_last(), d) + if s.last() == d && !(s.len() >= 2 && s[s.len() - 2]
            == '\\') {
            1int
        } else {
            0int
        }
    }
}

/// The unescaped-delimiter count is never negative and never exceeds the
/// length of the text.
pub proof fn lemma_lit_balance_bounds(s: Seq<char>, d: char)
    ensures
        0 <= lit_balance(s, d) <= s.len(),
    decreases s.len(),
{
    if s.len() > 0 {
        lemma_lit_balance_bounds(s.drop_last(), d);
    }
}

/// `s` with each escaped delimiter `\d` replaced by the bare delimiter `d`,
/// scanning left to right.
pub open spec fn unescape(s: Seq<char>, d: char) -> Seq<char>
    decreases s.len(),
{
    if s.len() == 0 {
        Seq::empty()
    } else if s.len() >= 2 && s[0] == '\\' && s[1] == d {
        seq![d] + unescape(s.skip(2), d)
    } else {
        seq![s[0]] + unescape(s.skip(1), d)
    }
}

/// What `Token::start_of` returns: the token, if any, that the character
/// `c` begins.
pub open spec fn token_start_of(c: char) -> Option<TokenView> {
    if c == '=' {
        Some(TokenView::Equal)
    } else if c == '+' {
        Some(TokenView::Plus)
    } else if c == '-' {
        Some(TokenView::Minus)
    } else if c == '*' {
        Some(TokenView::Times)
    } else if c == '/' {
        Some(TokenView::Division)
    } else if c == '%' {
        Some(TokenView::Modulus)
    } else if c == ',' {
        Some(TokenView::Comma)
    } else if c == '.' {
        Some(TokenView::Period)
    } else if c == ':' {
        Some(TokenView::Colon)
    } else if c == ';' {
        Some(TokenView::SemiColon)
    } else if c == '\n' {
        Some(TokenView::NewLine)
    } else if c == '(' {
        Some(TokenView::OpenParenthesis)
    } else if c == ')' {
        Some(TokenView::CloseParenthesis)
    } else if c == '{' {
        Some(TokenView::OpenBrace)
    } else if c == '}' {
        Some(TokenView::CloseBrace)
    } else if c == '[' {
        Some(TokenView::OpenBracket)
    } else if c == ']' {
        Some(TokenView::CloseBracket)
    } else if c == '"' || c == '\'' {
        Some(TokenView::Literal(seq![c], c))
    } else if is_digit_char(c) {
        Some(TokenView::Number(seq![c]))
    } else if is_alphabetic_char(c) || c == '_' {
        Some(TokenView::Identifier(seq![c]))
    } else {
        None
    }
}

/// What `Token::continues` returns: `Some(true)` when `c` extends the
/// token, `Some(false)` when it ends it cleanly, `None` when it makes the
/// whole lex invalid.
pub open spec fn token_continues(t: TokenView, c: char) -> Option<bool> {
    match t {
        TokenView::Period => Some(is_digit_char(c)),
        TokenView::Identifier(_) => Some(
            is_alphabetic_char(c) || is_digit_char(c) || c == '_',
        ),
        TokenView::Literal(s, d) => Some(lit_balance(s, d) != 2),
        TokenView::Number(s) => if is_digit_char(c) {
            Some(true)
        } else if s.contains('.') {
            if c == '.' || s.len() == 1 {
                None
            } else {
                Some(false)
            }
        } else {
            Some(c == '.')
        },
        _ => Some(false),
    }
}

/// Whether `t` is a token that can absorb further characters.
pub open spec fn token_growable(t: TokenView) -> bool {
    match t {
        TokenView::Identifier(_) => true,
        TokenView::Number(_) => true,
        TokenView::Literal(_, _) => true,
        TokenView::Period => true,
        _ => false,
    }
}

/// What `Token::append` returns: the token with `c` absorbed. A bare
/// period upgrades to a number once a digit follows it.
pub open spec fn token_append(t: TokenView, c: char) -> TokenView {
    match t {
        TokenView::Identifier(s) => TokenView::Identifier(s.push(c)),
        TokenView::Number(s) => TokenView::Number(s.push(c)),
        TokenView::Literal(s, d) => TokenView::Literal(s.push(c), d),
        TokenView::Period => TokenView::Number(seq!['.', c]),
        _ => t,
    }
}

/// What `Token::is_complete` returns: a number must hold more than a bare
/// period, a literal must hold exactly two unescaped delimiters, and a
/// lone period (a number that never received its digits) is never
/// complete.
pub open spec fn token_complete(t: TokenView) -> bool {
    match t {
        TokenView::Number(s) => s.len() > 1 || (s.len() == 1 && s[0] != '.'),
        TokenView::Literal(s, d) => lit_balance(s, d) == 2,
        TokenView::Period => false,
        _ => true,
    }
}

/// What `Token::clean` returns: a literal loses its surrounding delimiters
/// and its escape sequences; every other token is unchanged.
pub open spec fn token_clean(t: TokenView) -> TokenView {
    match t {
        TokenView::Literal(s, d) => TokenView::Literal(
            unescape(s.subrange(1, s.len() - 1), d),
            d,
        ),
        _ => t,
    }
}

/// Appends one character. Relies on `String::push`: the string afterwards
/// holds exactly the old characters followed by `c`.
#[verifier::external_body]
pub(crate) fn push_char(s: &mut String, c: char)
    ensures
        final(s)@ == old(s)@.push(c),
{
    s.push(c);
}

fn single_char_string(c: char) -> (r: String)
    ensures
        r@ == seq![c],
{
    let mut s = String::new();
    push_char(&mut s, c);
    proof {
        assert(s@ =~= seq![c]);
    }
    s
}

fn is_digit(c: char) -> (r: bool)
    ensures
        r == is_digit_char(c),
{
    '0' <= c && c <= '9'
}

/// `lit_balance` of the prefix `s@.take(i + 1)` differs from that of
/// `s@.take(i)` exactly by the contribution of the character `s@[i]`.
proof fn lemma_lit_balance_step(s: Seq<char>, d: char, i: int)
    requires
        0 <= i < s.len(),
    ensures
        lit_balance(s.take(i + 1), d) == lit_balance(s.take(i), d) + if s[i] == d && !(i >= 1
            && s[i - 1] == '\\') {
            1int
        } else {
            0int
        },
{
    let p = s.take(i + 1);
    assert(p.drop_last() =~= s.take(i));
    assert(p.last() == s[i]);
}

/// Counts the unescaped occurrences of `d` in `s`, capping the count at 3
/// since no caller distinguishes larger values.
fn count_unescaped(s: &String, d: char) -> (r: usize)
    ensures
        r == lit_balance(s@, d) || (r == 3 && lit_balance(s@, d) >= 3),
        r <= 3,
{
    let text = s.as_str();
    let n = text.unicode_len();
    let mut i: usize = 0;
    let mut count: usize = 0;
    let mut prev_backslash = false;
    proof {
        assert(s@.take(0) =~= Seq::<char>::empty());
    }
    while i < n
        invariant
            n == s@.len(),
            0 <= i <= n,
            text@ == s@,
            count == lit_balance(s@.take(i as int), d) || (count == 3 && lit_balance(
                s@.take(i as int),
                d,
            ) >= 3),
            count <= 3,
            prev_backslash == (i >= 1 && s@[i as int - 1] == '\\'),
        decreases n - i,
    {
        let c = text.get_char(i);
        proof {
            lemma_lit_balance_step(s@, d, i as int);
            assert(s@.take(i as int + 1).len() == i + 1);
        }
        if c == d && !prev_backslash {
            if count < 3 {
                count = count + 1;
            }
        }
        prev_backslash = c == '\\';
        i = i + 1;
    }
    proof {
        assert(s@.take(n as int) =~= s@);
    }
    count
}

pub(crate) fn string_contains_char(s: &String, d: char) -> (r: bool)
    ensures
        r == s@.contains(d),
{
    let text = s.as_str();
    let n = text.unicode_len();
    let mut i: usize = 0;
    while i < n
        invariant
            n == s@.len(),
            0 <= i <= n,
            text@ == s@,
            forall|j: int| 0 <= j < i ==> s@[j] != d,
        decreases n - i,
    {
        let c = text.get_char(i);
        if c == d {
            proof {
                assert(s@[i as int] == d);
            }
            return true;
        }
        i = i + 1;
    }
    false
}

impl Token {
    /// Decides whether `character` can begin a new lexeme and, if so, of
    /// what kind; characters that begin nothing (such as a plain space)
    /// yield `None` and are skipped by the lexer.
    pub fn start_of(character: char) -> (r: Option<Token>)
        ensures
            match r {
                Some(t) => token_start_of(character) == Some(t.deep_view()),
                None => token_start_of(character) is None,
            },
    {
        if character == '=' {
            Some(Token::Equal)
        } else if character == '+' {
            Some(Token::Plus)
        } else if character == '-' {
            Some(Token::Minus)
        } else if character == '*' {
            Some(Token::Times)
        } else if character == '/' {
            Some(Token::Division)
        } else if character == '%' {
            Some(Token::Modulus)
        } else if character == ',' {
            Some(Token::Comma)
        } else if character == '.' {
            Some(Token::Period)
        } else if character == ':' {
            Some(Token::Colon)
        } else if character == ';' {
            Some(Token::SemiColon)
        } else if character == '\n' {
            Some(Token::NewLine)
        } else if character == '(' {
            Some(Token::OpenParenthesis)
        } else if character == ')' {
            Some(Token::CloseParenthesis)
        } else if character == '{' {
            Some(Token::OpenBrace)
        } else if character == '}' {
            Some(Token::CloseBrace)
        } else if character == '[' {
            Some(Token::OpenBracket)
        } else if character == ']' {
            Some(Token::CloseBracket)
        } else if character == '"' || character == '\'' {
            Some(Token::Literal(single_char_string(character), character))
        } else if is_digit(character) {
            Some(Token::Number(single_char_string(character)))
        } else if character.is_alphabetic() || character == '_' {
            Some(Token::Identifier(single_char_string(character)))
        } else {
            None
        }
    }

    /// Decides whether the next character extends this token (`Some(true)`),
    /// ends it cleanly (`Some(false)`), or makes the whole lex invalid
    /// (`None`).
    pub fn continues(&self, character: char) -> (r: Option<bool>)
        ensures
            r == token_continues(self.deep_view(), character),
    {
        match self {
            Token::Period => Some(is_digit(character)),
            Token::Identifier(_) => Some(
                character.is_alphabetic() || is_digit(character) || character == '_',
            ),
            Token::Literal(string, delimiter) => {
                let balance = count_unescaped(string, *delimiter);
                Some(balance != 2)
            },
            Token::Number(string) => {
                if is_digit(character) {
                    Some(true)
                } else if string_contains_char(string, '.') {
                    if character == '.' || string.as_str().unicode_len() == 1 {
                        None
                    } else {
                        Some(false)
                    }
                } else {
                    Some(character == '.')
                }
            },
            _ => Some(false),
        }
    }

    /// Absorbs `character` into this token: text tokens grow by one
    /// character, and a bare period upgrades to a number once a digit
    /// follows it. Only growable tokens (identifiers, numbers, literals
    /// and the bare period) may absorb.
    pub fn append(self, character: char) -> (r: Token)
        requires
            token_growable(self.deep_view()),
        ensures
            r.deep_view() == token_append(self.deep_view(), character),
    {
        match self {
            Token::Identifier(mut string) => {
                push_char(&mut string, character);
                Token::Identifier(string)
            },
            Token::Number(mut string) => {
                push_char(&mut string, character);
                Token::Number(string)
            },
            Token::Literal(mut string, delimiter) => {
                push_char(&mut string, character);
                Token::Literal(string, delimiter)
            },
            Token::Period => {
                let mut string = single_char_string('.');
                push_char(&mut string, character);
                proof {
                    assert(string@ =~= seq!['.', character]);
                }
                Token::Number(string)
            },
            _ => self,
        }
    }

    /// Reports whether the token may stand as lexed: a number needs more
    /// than a bare period, a literal needs exactly two unescaped
    /// delimiters, and a lone period is never complete.
    pub fn is_complete(&self) -> (r: bool)
        ensures
            r == token_complete(self.deep_view()),
    {
        match self {
            Token::Number(string) => {
                let n = string.as_str().unicode_len();
                n > 1 || (n == 1 && string.as_str().get_char(0) != '.')
            },
            Token::Literal(string, delimiter) => {
                let balance = count_unescaped(string, *delimiter);
                balance == 2
            },
            Token::Period => false,
            _ => true,
        }
    }

    /// Final post-processing of a completed token: a literal loses its two
    /// surrounding delimiter characters and each escaped delimiter becomes
    /// the bare delimiter; every other token is unchanged.
    pub fn clean(self) -> (r: Token)
        requires
            self.deep_view() matches TokenView::Literal(s, _) ==> s.len() >= 2,
        ensures
            r.deep_view() == token_clean(self.deep_view()),
    {
        match self {
            Token::Literal(string, delimiter) => {
                let text = string.as_str();
                let n = text.unicode_len();
                let ghost mid = string@.subrange(1, string@.len() - 1);
                let mut out = String::new();
                let mut i: usize = 1;
                while i < n - 1
                    invariant
                        n == string@.len(),
                        n >= 2,
                        1 <= i <= n - 1,
                        text@ == string@,
                        mid == string@.subrange(1, string@.len() - 1),
                        unescape(mid, delimiter) == out@ + unescape(
                            string@.subrange(i as int, n as int - 1),
                            delimiter,
                        ),
                    decreases n - i,
                {
                    let ghost rest = string@.subrange(i as int, n as int - 1);
                    let c = text.get_char(i);
                    if c == '\\' && i + 1 < n - 1 && text.get_char(i + 1) == delimiter {
                        push_char(&mut out, delimiter);
                        proof {
                            assert(rest.len() >= 2 && rest[0] == '\\' && rest[1] == delimiter);
                            assert(rest.skip(2) =~= string@.subrange(i as int + 2, n as int - 1));
                            assert(out@ + unescape(string@.subrange(i as int + 2, n as int - 1), delimiter)
                                =~= (out@.drop_last() + (seq![delimiter] + unescape(rest.skip(2), delimiter))));
                        }
                        i = i + 2;
                    } else {
                        push_char(&mut out, c);
                        proof {
                            assert(rest.len() >= 1 && rest[0] == c);
                            assert(!(rest.len() >= 2 && rest[0] == '\\' && rest[1] == delimiter));
                            assert(rest.skip(1) =~= string@.subrange(i as int + 1, n as int - 1));
                            assert(out@ + unescape(string@.subrange(i as int + 1, n as int - 1), delimiter)
                                =~= (out@.drop_last() + (seq![c] + unescape(rest.skip(1), delimiter))));
                        }
                        i = i + 1;
                    }
                }
                proof {
                    assert(string@.subrange(n as int - 1, n as int - 1) =~= Seq::<char>::empty());
                    assert(out@ + Seq::<char>::empty() =~= out@);
                }
                Token::Literal(out, delimiter)
            },
            _ => self,
        }
    }
}

} // verus!
