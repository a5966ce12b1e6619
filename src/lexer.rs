use vstd::prelude::*;
use crate::ast::{TokenNode, TokenType};

verus! {

pub open spec fn is_word_char(c: char) -> bool {
    ('a' <= c <= 'z') || ('A' <= c <= 'Z') || ('0' <= c <= '9') || c == '_' || c == '.'
}

pub open spec fn is_operator_char(c: char) -> bool {
    c == '=' || c == '<' || c == '>' || c == '!' || c == '+' || c == '-' || c == '*' || c == '%'
}

/// A token of `line` sits inside it and holds exactly the text it spans.
pub open spec fn token_in(line: Seq<char>, t: TokenNode) -> bool {
    &&& t.start < t.end <= line.len()
    &&& t.data@ == line.subrange(t.start as int, t.end as int)
}

pub open spec fn is_blank(c: char) -> bool {
    c == ' ' || c == '\t' || c == '\r'
}

/// The one-character tokens and their kinds.
pub open spec fn single_kind(c: char) -> Option<TokenType> {
    if c == '(' {
        Some(TokenType::SubStart)
    } else if c == ')' {
        Some(TokenType::SubEnd)
    } else if c == '{' {
        Some(TokenType::JobStart)
    } else if c == '}' {
        Some(TokenType::JobEnd)
    } else if c == '[' {
        Some(TokenType::GetItemStart)
    } else if c == ']' {
        Some(TokenType::GetItemEnd)
    } else if c == '|' {
        Some(TokenType::Pipe)
    } else if c == ';' || c == '\n' {
        Some(TokenType::Separator)
    } else if c == ':' {
        Some(TokenType::Colon)
    } else if c == '/' {
        Some(TokenType::Slash)
    } else {
        None
    }
}

/// The kind of a token agrees with its text.
pub open spec fn kind_fits(t: TokenNode) -> bool {
    let d = t.data@;
    match t.token_type {
        TokenType::Label => forall|k: int| 0 <= k < d.len() ==> is_word_char(#[trigger] d[k]),
        TokenType::Field => d.len() >= 2 && d[0] == '^' && forall|k: int| 1 <= k < d.len() ==> is_word_char(#[trigger] d[k]),
        TokenType::Operator => forall|k: int| 0 <= k < d.len() ==> is_operator_char(#[trigger] d[k]),
        TokenType::Assign => d.len() == 1 && d[0] == '=',
        TokenType::QuotedString => d.len() >= 2 && d[0] == '"' && d.last() == '"',
        TokenType::QuotedFile => d.len() >= 2 && d[0] == '\'' && d.last() == '\'',
        TokenType::Unterminated => d.len() >= 1 && (d[0] == '"' || d[0] == '\''),
        TokenType::Unknown => d.len() >= 1,
        _ => d.len() == 1 && single_kind(d[0]) == Some(t.token_type),
    }
}

/// The end of the run of word characters that starts at `i`.
pub open spec fn word_end(s: Seq<char>, i: int) -> int
    decreases s.len() - i,
{
    if 0 <= i < s.len() && is_word_char(s[i]) {
        word_end(s, i + 1)
    } else {
        i
    }
}

/// The end of the run of operator characters that starts at `i`.
pub open spec fn operator_end(s: Seq<char>, i: int) -> int
    decreases s.len() - i,
{
    if 0 <= i < s.len() && is_operator_char(s[i]) {
        operator_end(s, i + 1)
    } else {
        i
    }
}

/// The index of the first `q` at or after `i`; the length of `s` if none.
pub open spec fn quote_close(s: Seq<char>, i: int, q: char) -> int
    decreases s.len() - i,
{
    if 0 <= i < s.len() && s[i] != q {
        quote_close(s, i + 1, q)
    } else {
        i
    }
}

/// The kind and end of the token that starts at the non-blank character `i`.
pub open spec fn token_at(s: Seq<char>, i: int) -> (TokenType, int) {
    let c = s[i];
    if is_word_char(c) {
        (TokenType::Label, word_end(s, i))
    } else if is_operator_char(c) {
        let e = operator_end(s, i);
        if e == i + 1 && c == '=' {
            (TokenType::Assign, e)
        } else {
            (TokenType::Operator, e)
        }
    } else if c == '^' {
        let e = word_end(s, i + 1);
        if e == i + 1 {
            (TokenType::Unknown, e)
        } else {
            (TokenType::Field, e)
        }
    } else if c == '"' || c == '\'' {
        let j = quote_close(s, i + 1, c);
        if j >= s.len() {
            (TokenType::Unterminated, s.len() as int)
        } else if c == '"' {
            (TokenType::QuotedString, j + 1)
        } else {
            (TokenType::QuotedFile, j + 1)
        }
    } else {
        match single_kind(c) {
            Some(t) => (t, i + 1),
            None => (TokenType::Unknown, i + 1),
        }
    }
}

/// The tokens of `s` from index `i` on, as kind, start and end: blanks are
/// skipped, and each token is as long as its kind allows.
pub open spec fn lex_from(s: Seq<char>, i: int) -> Seq<(TokenType, int, int)>
    decreases s.len() - i,
{
    if i < 0 || i >= s.len() {
        Seq::empty()
    } else if is_blank(s[i]) {
        lex_from(s, i + 1)
    } else {
        let (k, e) = token_at(s, i);
        let next = if i < e && e <= s.len() { e } else { i + 1 };
        seq![(k, i, e)] + lex_from(s, next)
    }
}

pub open spec fn lex(s: Seq<char>) -> Seq<(TokenType, int, int)> {
    lex_from(s, 0)
}

/// The kind, start and end of each token.
pub open spec fn token_views(ts: Seq<TokenNode>) -> Seq<(TokenType, int, int)> {
    ts.map_values(|t: TokenNode| (t.token_type, t.start as int, t.end as int))
}

/// Some token spans the character at `k`.
pub open spec fn covered(tokens: Seq<TokenNode>, k: int) -> bool {
    exists|i: int| 0 <= i < tokens.len() && (#[trigger] tokens[i]).start <= k < tokens[i].end
}

/// Tokens that sit inside `line`, in order, without overlapping.
pub open spec fn tokens_in(line: Seq<char>, tokens: Seq<TokenNode>) -> bool {
    &&& forall|i: int| 0 <= i < tokens.len() ==> token_in(line, #[trigger] tokens[i])
    &&& forall|i: int, j: int| 0 <= i < j < tokens.len() ==> #[trigger] tokens[i].end <= #[trigger] tokens[j].start
}

fn word_char(c: char) -> (r: bool)
    ensures
        r == is_word_char(c),
{
    ('a' <= c && c <= 'z') || ('A' <= c && c <= 'Z') || ('0' <= c && c <= '9') || c == '_' || c == '.'
}

fn operator_char(c: char) -> (r: bool)
    ensures
        r == is_operator_char(c),
{
    c == '=' || c == '<' || c == '>' || c == '!' || c == '+' || c == '-' || c == '*' || c == '%'
}

/// The end of the run of word characters (or, with `operators`, of operator
/// characters) that starts at `from`.
fn run_end(s: &str, n: usize, from: usize, operators: bool) -> (r: usize)
    requires
        n == s@.len(),
        from <= n,
    ensures
        from <= r <= n,
        forall|k: int| from <= k < r ==> (if operators { is_operator_char(s@[k]) } else { is_word_char(s@[k]) }),
        r < n ==> !(if operators { is_operator_char(s@[r as int]) } else { is_word_char(s@[r as int]) }),
        r == (if operators { operator_end(s@, from as int) } else { word_end(s@, from as int) }),
{
    let mut j = from;
    while j < n
        invariant
            n == s@.len(),
            from <= j <= n,
            forall|k: int| from <= k < j ==> (if operators { is_operator_char(s@[k]) } else { is_word_char(s@[k]) }),
            (if operators { operator_end(s@, from as int) } else { word_end(s@, from as int) }) == (if operators {
                operator_end(s@, j as int)
            } else {
                word_end(s@, j as int)
            }),
        decreases n - j,
    {
        let c = s.get_char(j);
        let more = if operators { operator_char(c) } else { word_char(c) };
        if !more {
            return j;
        }
        j = j + 1;
    }
    j
}

/// The end of a quoted token that opens at `from` with the quote `q`, and
/// whether its closing quote was found.
fn quote_end(s: &str, n: usize, from: usize, q: char) -> (r: (usize, bool))
    requires
        n == s@.len(),
        from < n,
    ensures
        from < r.0 <= n,
        r.1 ==> s@[r.0 - 1] == q && r.0 > from + 1,
        !r.1 ==> r.0 == n,
        r.1 == (quote_close(s@, from + 1, q) < n),
        r.1 ==> r.0 == quote_close(s@, from + 1, q) + 1,
{
    let mut j = from + 1;
    while j < n
        invariant
            n == s@.len(),
            from < j <= n,
            quote_close(s@, from + 1, q) == quote_close(s@, j as int, q),
        decreases n - j,
    {
        if s.get_char(j) == q {
            return (j + 1, true);
        }
        j = j + 1;
    }
    (n, false)
}

/// The kind of a token that is one character long, if `c` makes one.
fn single_token(c: char) -> (r: Option<TokenType>)
    ensures
        r == single_kind(c),
{
    if c == '(' {
        Some(TokenType::SubStart)
    } else if c == ')' {
        Some(TokenType::SubEnd)
    } else if c == '{' {
        Some(TokenType::JobStart)
    } else if c == '}' {
        Some(TokenType::JobEnd)
    } else if c == '[' {
        Some(TokenType::GetItemStart)
    } else if c == ']' {
        Some(TokenType::GetItemEnd)
    } else if c == '|' {
        Some(TokenType::Pipe)
    } else if c == ';' || c == '\n' {
        Some(TokenType::Separator)
    } else if c == ':' {
        Some(TokenType::Colon)
    } else if c == '/' {
        Some(TokenType::Slash)
    } else {
        None
    }
}

/// Splits a line into tokens. Blanks separate tokens and are dropped; a quote
/// that is never closed gives an `Unterminated` token running to the end of
/// the line, and a character of no token an `Unknown` token of its own.
pub fn tokenize(s: &str) -> (r: Vec<TokenNode>)
    ensures
        tokens_in(s@, r@),
        token_views(r@) == lex(s@),
        forall|i: int| 0 <= i < r@.len() ==> kind_fits(#[trigger] r@[i]),
        forall|k: int| 0 <= k < s@.len() && !is_blank(#[trigger] s@[k]) ==> covered(r@, k),
{
    let n = s.unicode_len();
    let mut res: Vec<TokenNode> = Vec::new();
    let mut i: usize = 0;
    while i < n
        invariant
            n == s@.len(),
            i <= n,
            tokens_in(s@, res@),
            forall|k: int| 0 <= k < res@.len() ==> #[trigger] res@[k].end <= i,
            forall|k: int| 0 <= k < res@.len() ==> kind_fits(#[trigger] res@[k]),
            token_views(res@) + lex_from(s@, i as int) == lex(s@),
            forall|k: int| 0 <= k < i && !is_blank(#[trigger] s@[k]) ==> covered(res@, k),
        decreases n - i,
    {
        let c = s.get_char(i);
        if c == ' ' || c == '\t' || c == '\r' {
            i = i + 1;
        } else {
            let (end, kind): (usize, TokenType) = if word_char(c) {
                (run_end(s, n, i, false), TokenType::Label)
            } else if operator_char(c) {
                let e = run_end(s, n, i, true);
                if e == i + 1 && c == '=' {
                    (e, TokenType::Assign)
                } else {
                    (e, TokenType::Operator)
                }
            } else if c == '^' {
                let e = run_end(s, n, i + 1, false);
                if e == i + 1 {
                    (e, TokenType::Unknown)
                } else {
                    (e, TokenType::Field)
                }
            } else if c == '"' || c == '\'' {
                let (e, done) = quote_end(s, n, i, c);
                if !done {
                    (e, TokenType::Unterminated)
                } else if c == '"' {
                    (e, TokenType::QuotedString)
                } else {
                    (e, TokenType::QuotedFile)
                }
            } else {
                match single_token(c) {
                    Some(t) => (i + 1, t),
                    None => (i + 1, TokenType::Unknown),
                }
            };
            let data = String::from_str(s.substring_char(i, end));
            let tok = TokenNode { token_type: kind, data, start: i, end };
            let ghost before = res@;
            assert(tok.data@[0] == c);
            assert(forall|k: int| 0 <= k < tok.data@.len() ==> #[trigger] tok.data@[k] == s@[i + k]);
            assert(tok.data@.last() == s@[end - 1]);
            assert(kind_fits(tok));
            proof {
                assert(token_at(s@, i as int) == (kind, end as int));
                assert(lex_from(s@, i as int) == seq![(kind, i as int, end as int)] + lex_from(s@, end as int));
            }
            res.push(tok);
            proof {
                assert(token_views(res@) =~= token_views(before).push((kind, i as int, end as int)));
                assert(token_views(res@) + lex_from(s@, end as int) =~= token_views(before) + (seq![
                    (kind, i as int, end as int),
                ] + lex_from(s@, end as int)));
                assert forall|k: int| 0 <= k < end && !is_blank(#[trigger] s@[k]) implies covered(res@, k) by {
                    if k < i {
                        let j = choose|j: int| 0 <= j < before.len() && (#[trigger] before[j]).start <= k < before[j].end;
                        assert(res@[j] == before[j]);
                    } else {
                        assert(res@[before.len() as int] == tok);
                    }
                }
            }
            i = end;
        }
    }
    res
}

} // verus!
