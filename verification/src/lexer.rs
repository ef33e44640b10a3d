//! Splitting condition text into tokens.

use vstd::prelude::*;
use crate::text::{is_space, is_whitespace, string_of};

verus! {

/// A token as a mathematical value.
pub enum Tok {
    And,
    Or,
    Not,
    LParen,
    RParen,
    Glob(Seq<char>),
    Regex(Seq<char>),
}

/// A token of the condition syntax.
#[derive(Debug)]
pub enum Token {
    And,
    Or,
    Not,
    LParen,
    RParen,
    Glob(String),
    Regex(String),
}

impl View for Token {
    type V = Tok;

    open spec fn view(&self) -> Tok {
        match self {
            Token::And => Tok::And,
            Token::Or => Tok::Or,
            Token::Not => Tok::Not,
            Token::LParen => Tok::LParen,
            Token::RParen => Tok::RParen,
            Token::Glob(p) => Tok::Glob(p@),
            Token::Regex(p) => Tok::Regex(p@),
        }
    }
}

/// The views of a list of tokens, in order.
pub open spec fn toks_of(ts: Seq<Token>) -> Seq<Tok> {
    Seq::new(ts.len(), |i: int| ts[i]@)
}

/// A character that ends a word: white space or a parenthesis.
pub open spec fn is_delim(c: char) -> bool {
    is_space(c) || c == '(' || c == ')'
}

/// Whether a word may end just before position `pos`.
pub open spec fn is_boundary(s: Seq<char>, pos: int) -> bool {
    pos >= s.len() || is_delim(s[pos])
}

/// Equality of a character to an upper-case ASCII letter, ignoring ASCII case.
pub open spec fn same_letter(c: char, upper: char) -> bool {
    c == upper || c as u32 == upper as u32 + 32
}

/// The keyword that starts at `i`, with its length. A keyword counts only if
/// a word boundary follows it.
pub open spec fn keyword_at(s: Seq<char>, i: int) -> Option<(Tok, int)> {
    if i + 3 <= s.len() && same_letter(s[i], 'A') && same_letter(s[i + 1], 'N') && same_letter(
        s[i + 2],
        'D',
    ) && is_boundary(s, i + 3) {
        Some((Tok::And, 3))
    } else if i + 3 <= s.len() && same_letter(s[i], 'N') && same_letter(s[i + 1], 'O')
        && same_letter(s[i + 2], 'T') && is_boundary(s, i + 3) {
        Some((Tok::Not, 3))
    } else if i + 2 <= s.len() && same_letter(s[i], 'O') && same_letter(s[i + 1], 'R')
        && is_boundary(s, i + 2) {
        Some((Tok::Or, 2))
    } else {
        None
    }
}

/// Where the body of a regex literal that starts at `i` ends: the position
/// of the next `/` that no backslash escapes, or the length of the text if
/// there is none.
pub open spec fn regex_end(s: Seq<char>, i: int) -> int
    decreases s.len() - i,
{
    if i < 0 || i >= s.len() {
        s.len() as int
    } else if s[i] == '/' {
        i
    } else if s[i] == '\\' && i + 1 < s.len() {
        regex_end(s, i + 2)
    } else {
        regex_end(s, i + 1)
    }
}

/// Where the word that starts at `i` ends: the next delimiter, or the end.
pub open spec fn glob_end(s: Seq<char>, i: int) -> int
    decreases s.len() - i,
{
    if i < 0 || i >= s.len() || is_delim(s[i]) {
        i
    } else {
        glob_end(s, i + 1)
    }
}

/// A token put in front of the tokens that follow, if there are any.
pub open spec fn cons(t: Tok, rest: Option<Seq<Tok>>) -> Option<Seq<Tok>> {
    match rest {
        Some(ts) => Some(seq![t] + ts),
        None => None,
    }
}

/// The tokens of the text from position `i` on, or `None` if a regex literal
/// is left open.
pub open spec fn lex(s: Seq<char>, i: int) -> Option<Seq<Tok>>
    decreases s.len() - i,
{
    if i < 0 || i >= s.len() {
        Some(Seq::empty())
    } else if is_space(s[i]) {
        lex(s, i + 1)
    } else if s[i] == '(' {
        cons(Tok::LParen, lex(s, i + 1))
    } else if s[i] == ')' {
        cons(Tok::RParen, lex(s, i + 1))
    } else if s[i] == '/' {
        let e = regex_end(s, i + 1);
        if i + 1 <= e < s.len() {
            cons(Tok::Regex(s.subrange(i + 1, e)), lex(s, e + 1))
        } else {
            None
        }
    } else {
        match keyword_at(s, i) {
            Some((t, n)) => cons(t, lex(s, i + n)),
            None => {
                let e = glob_end(s, i);
                if i < e <= s.len() {
                    cons(Tok::Glob(s.subrange(i, e)), lex(s, e))
                } else {
                    None
                }
            },
        }
    }
}

/// A word ends at or behind its start, and behind it if it has a character.
proof fn lemma_glob_end_bounds(s: Seq<char>, i: int)
    requires
        0 <= i <= s.len(),
    ensures
        i <= glob_end(s, i) <= s.len(),
        i < s.len() && !is_delim(s[i]) ==> i < glob_end(s, i),
    decreases s.len() - i,
{
    if i < s.len() && !is_delim(s[i]) {
        lemma_glob_end_bounds(s, i + 1);
    }
}

fn is_delimiter(c: char) -> (r: bool)
    ensures
        r == is_delim(c),
{
    is_whitespace(c) || c == '(' || c == ')'
}

fn is_word_boundary(chars: &[char], pos: usize) -> (r: bool)
    ensures
        r == is_boundary(chars@, pos as int),
{
    pos >= chars.len() || is_delimiter(chars[pos])
}

fn is_letter(c: char, upper: char) -> (r: bool)
    requires
        upper as u32 <= 90,
    ensures
        r == same_letter(c, upper),
{
    c == upper || c as u32 == upper as u32 + 32
}

/// The end of the regex body that starts at `start`.
fn scan_regex(chars: &[char], start: usize) -> (e: usize)
    requires
        start <= chars@.len(),
    ensures
        e as int == regex_end(chars@, start as int),
        start <= e <= chars@.len(),
{
    let n: usize = chars.len();
    let mut i: usize = start;
    while i < n && chars[i] != '/'
        invariant
            n == chars@.len(),
            start <= i <= n,
            regex_end(chars@, i as int) == regex_end(chars@, start as int),
        decreases n - i,
    {
        if chars[i] == '\\' && i + 1 < n {
            i = i + 2;
        } else {
            i = i + 1;
        }
    }
    i
}

/// The end of the word that starts at `start`.
fn scan_glob(chars: &[char], start: usize) -> (e: usize)
    requires
        start <= chars@.len(),
    ensures
        e as int == glob_end(chars@, start as int),
        start <= e <= chars@.len(),
{
    let n: usize = chars.len();
    let mut i: usize = start;
    while i < n && !is_delimiter(chars[i])
        invariant
            n == chars@.len(),
            start <= i <= n,
            glob_end(chars@, i as int) == glob_end(chars@, start as int),
        decreases n - i,
    {
        i = i + 1;
    }
    i
}

/// The keyword that starts at `i`, if one does, with its length.
fn scan_keyword(chars: &[char], i: usize) -> (k: Option<(Token, usize)>)
    requires
        i < chars@.len(),
    ensures
        match keyword_at(chars@, i as int) {
            Some((t, n)) => k matches Some(found) && found.0@ == t && found.1 == n && 2 <= n <= 3
                && i + n <= chars@.len(),
            None => k is None,
        },
{
    let n: usize = chars.len();
    if n - i >= 3 && is_letter(chars[i], 'A') && is_letter(chars[i + 1], 'N') && is_letter(
        chars[i + 2],
        'D',
    ) && is_word_boundary(chars, i + 3) {
        Some((Token::And, 3))
    } else if n - i >= 3 && is_letter(chars[i], 'N') && is_letter(chars[i + 1], 'O') && is_letter(
        chars[i + 2],
        'T',
    ) && is_word_boundary(chars, i + 3) {
        Some((Token::Not, 3))
    } else if n - i >= 2 && is_letter(chars[i], 'O') && is_letter(chars[i + 1], 'R')
        && is_word_boundary(chars, i + 2) {
        Some((Token::Or, 2))
    } else {
        None
    }
}

/// What is still to come, put behind what was already read.
pub open spec fn followed_by(done: Seq<Tok>, rest: Option<Seq<Tok>>) -> Option<Seq<Tok>> {
    match rest {
        Some(ts) => Some(done + ts),
        None => None,
    }
}

/// Split condition text into tokens. `None` if a regex literal has no
/// closing `/`.
pub fn tokenize(chars: &[char]) -> (r: Option<Vec<Token>>)
    ensures
        match lex(chars@, 0) {
            Some(ts) => r matches Some(v) && toks_of(v@) == ts,
            None => r is None,
        },
{
    let n: usize = chars.len();
    let mut tokens: Vec<Token> = Vec::new();
    let mut i: usize = 0;
    proof {
        assert(toks_of(tokens@) =~= Seq::<Tok>::empty());
        lemma_followed_by_empty(lex(chars@, 0));
    }
    while i < n
        invariant
            n == chars@.len(),
            i <= n,
            lex(chars@, 0) == followed_by(toks_of(tokens@), lex(chars@, i as int)),
        decreases n - i,
    {
        let ghost before = toks_of(tokens@);
        let c = chars[i];
        if is_whitespace(c) {
            i = i + 1;
        } else if c == '(' {
            tokens.push(Token::LParen);
            proof {
                lemma_push_token(before, toks_of(tokens@), Tok::LParen, lex(chars@, i + 1));
            }
            i = i + 1;
        } else if c == ')' {
            tokens.push(Token::RParen);
            proof {
                lemma_push_token(before, toks_of(tokens@), Tok::RParen, lex(chars@, i + 1));
            }
            i = i + 1;
        } else if c == '/' {
            let e = scan_regex(chars, i + 1);
            if e >= n {
                return None;
            }
            let body = string_of(chars, i + 1, e);
            tokens.push(Token::Regex(body));
            proof {
                lemma_push_token(
                    before,
                    toks_of(tokens@),
                    Tok::Regex(chars@.subrange(i + 1, e as int)),
                    lex(chars@, e + 1),
                );
            }
            i = e + 1;
        } else {
            match scan_keyword(chars, i) {
                Some((keyword, len)) => {
                    let ghost t = keyword@;
                    tokens.push(keyword);
                    proof {
                        lemma_push_token(before, toks_of(tokens@), t, lex(chars@, i + len));
                    }
                    i = i + len;
                },
                None => {
                    proof {
                        lemma_glob_end_bounds(chars@, i as int);
                    }
                    let e = scan_glob(chars, i);
                    let word = string_of(chars, i, e);
                    tokens.push(Token::Glob(word));
                    proof {
                        lemma_push_token(
                            before,
                            toks_of(tokens@),
                            Tok::Glob(chars@.subrange(i as int, e as int)),
                            lex(chars@, e as int),
                        );
                    }
                    i = e;
                },
            }
        }
    }
    proof {
        assert(toks_of(tokens@) + Seq::<Tok>::empty() =~= toks_of(tokens@));
    }
    Some(tokens)
}

proof fn lemma_followed_by_empty(rest: Option<Seq<Tok>>)
    ensures
        followed_by(Seq::empty(), rest) == rest,
{
    if let Some(ts) = rest {
        assert(Seq::<Tok>::empty() + ts =~= ts);
    }
}

/// Reading one more token moves it from what is to come to what was read.
proof fn lemma_push_token(before: Seq<Tok>, after: Seq<Tok>, t: Tok, rest: Option<Seq<Tok>>)
    requires
        after =~= before.push(t),
    ensures
        followed_by(before, cons(t, rest)) == followed_by(after, rest),
{
    if let Some(ts) = rest {
        assert(before + (seq![t] + ts) =~= before.push(t) + ts);
    }
}

} // verus!
