//! Recursive-descent parser for the condition syntax.
//!
//! ```text
//! expr     = or_expr
//! or_expr  = and_expr ("OR" and_expr)*
//! and_expr = not_expr ("AND" not_expr)*
//! not_expr = "NOT" not_expr | primary
//! primary  = "(" or_expr ")" | glob | "/" regex "/"
//! ```

use vstd::prelude::*;
use crate::config::{Cond, Condition, model, model_all};
use crate::lexer::{lex, tokenize, toks_of, Tok, Token};
use crate::text::chars_of;

verus! {

/// Why a text is not a condition, as a mathematical value.
pub enum ParseFault {
    UnterminatedRegex,
    UnexpectedEnd,
    MissingParen,
    UnexpectedToken(Tok),
}

/// Why a text is not a condition.
#[derive(Debug)]
pub enum ParseError {
    /// A regex literal has no closing `/`.
    UnterminatedRegex,
    /// The text ends where an operand is expected.
    UnexpectedEnd,
    /// A `(` has no matching `)`.
    MissingParen,
    /// A token stands where none of its kind may.
    UnexpectedToken(Token),
}

impl View for ParseError {
    type V = ParseFault;

    open spec fn view(&self) -> ParseFault {
        match self {
            ParseError::UnterminatedRegex => ParseFault::UnterminatedRegex,
            ParseError::UnexpectedEnd => ParseFault::UnexpectedEnd,
            ParseError::MissingParen => ParseFault::MissingParen,
            ParseError::UnexpectedToken(t) => ParseFault::UnexpectedToken(t@),
        }
    }
}

/// A parsed condition and the position of the first token after it.
pub type Parsed = Result<(Cond, int), ParseFault>;

/// The condition for the operands of an `and_expr`: the operand itself if
/// there is one only, else one `And` over all of them.
pub open spec fn join_and(parts: Seq<Cond>) -> Cond {
    if parts.len() == 1 {
        parts[0]
    } else {
        Cond::And(parts)
    }
}

/// The condition for the operands of an `or_expr`.
pub open spec fn join_or(parts: Seq<Cond>) -> Cond {
    if parts.len() == 1 {
        parts[0]
    } else {
        Cond::Or(parts)
    }
}

/// `primary = "(" or_expr ")" | glob | regex`. The word `*` alone stands
/// for `Always`.
pub open spec fn p_primary(ts: Seq<Tok>, i: int) -> Parsed
    decreases ts.len() - i, 0nat,
{
    if i < 0 || i >= ts.len() {
        Err(ParseFault::UnexpectedEnd)
    } else {
        match ts[i] {
            Tok::LParen => match p_or(ts, i + 1) {
                Ok((c, j)) => if 0 <= j < ts.len() && ts[j] == Tok::RParen {
                    Ok((c, j + 1))
                } else {
                    Err(ParseFault::MissingParen)
                },
                Err(e) => Err(e),
            },
            Tok::Glob(p) => if p == seq!['*'] {
                Ok((Cond::Always, i + 1))
            } else {
                Ok((Cond::Glob(p), i + 1))
            },
            Tok::Regex(p) => Ok((Cond::Regex(p), i + 1)),
            other => Err(ParseFault::UnexpectedToken(other)),
        }
    }
}

/// `not_expr = "NOT" not_expr | primary`.
pub open spec fn p_not(ts: Seq<Tok>, i: int) -> Parsed
    decreases ts.len() - i, 1nat,
{
    if i < 0 || i >= ts.len() {
        Err(ParseFault::UnexpectedEnd)
    } else if ts[i] == Tok::Not {
        match p_not(ts, i + 1) {
            Ok((c, j)) => Ok((Cond::Not(Box::new(c)), j)),
            Err(e) => Err(e),
        }
    } else {
        p_primary(ts, i)
    }
}

/// The rest of an `and_expr` after the operands `parts`: as long as `AND`
/// follows, one more operand. A chain becomes one node, not a nest.
pub open spec fn and_tail(ts: Seq<Tok>, parts: Seq<Cond>, j: int) -> Parsed
    decreases ts.len() - j, 2nat,
{
    if 0 <= j < ts.len() && ts[j] == Tok::And {
        match p_not(ts, j + 1) {
            Ok((c, k)) => if j < k <= ts.len() {
                and_tail(ts, parts.push(c), k)
            } else {
                Err(ParseFault::UnexpectedEnd)
            },
            Err(e) => Err(e),
        }
    } else {
        Ok((join_and(parts), j))
    }
}

/// `and_expr = not_expr ("AND" not_expr)*`.
pub open spec fn p_and(ts: Seq<Tok>, i: int) -> Parsed
    decreases ts.len() - i, 3nat,
{
    match p_not(ts, i) {
        Ok((c, j)) => if i < j <= ts.len() {
            and_tail(ts, seq![c], j)
        } else {
            Err(ParseFault::UnexpectedEnd)
        },
        Err(e) => Err(e),
    }
}

/// The rest of an `or_expr` after the operands `parts`.
pub open spec fn or_tail(ts: Seq<Tok>, parts: Seq<Cond>, j: int) -> Parsed
    decreases ts.len() - j, 4nat,
{
    if 0 <= j < ts.len() && ts[j] == Tok::Or {
        match p_and(ts, j + 1) {
            Ok((c, k)) => if j < k <= ts.len() {
                or_tail(ts, parts.push(c), k)
            } else {
                Err(ParseFault::UnexpectedEnd)
            },
            Err(e) => Err(e),
        }
    } else {
        Ok((join_or(parts), j))
    }
}

/// `or_expr = and_expr ("OR" and_expr)*`.
pub open spec fn p_or(ts: Seq<Tok>, i: int) -> Parsed
    decreases ts.len() - i, 5nat,
{
    match p_and(ts, i) {
        Ok((c, j)) => if i < j <= ts.len() {
            or_tail(ts, seq![c], j)
        } else {
            Err(ParseFault::UnexpectedEnd)
        },
        Err(e) => Err(e),
    }
}

/// The condition that a list of tokens stands for. No tokens at all stand
/// for `Always`; a token left over after the expression is an error.
pub open spec fn parse_tokens(ts: Seq<Tok>) -> Result<Cond, ParseFault> {
    if ts.len() == 0 {
        Ok(Cond::Always)
    } else {
        match p_or(ts, 0) {
            Ok((c, j)) => if 0 <= j < ts.len() {
                Err(ParseFault::UnexpectedToken(ts[j]))
            } else {
                Ok(c)
            },
            Err(e) => Err(e),
        }
    }
}

/// The condition that a text stands for. Text that holds nothing but white
/// space stands for `Always`.
pub open spec fn parse_text(s: Seq<char>) -> Result<Cond, ParseFault> {
    match lex(s, 0) {
        Some(ts) => parse_tokens(ts),
        None => Err(ParseFault::UnterminatedRegex),
    }
}

/// How an exec result stands for a spec result.
pub open spec fn agrees(r: Result<(Condition, usize), ParseError>, p: Parsed) -> bool {
    match p {
        Ok((c, j)) => r matches Ok(x) && x.0@ == c && x.1 as int == j,
        Err(e) => r matches Err(x) && x@ == e,
    }
}

fn copy_token(t: &Token) -> (r: Token)
    ensures
        r@ == t@,
{
    match t {
        Token::And => Token::And,
        Token::Or => Token::Or,
        Token::Not => Token::Not,
        Token::LParen => Token::LParen,
        Token::RParen => Token::RParen,
        Token::Glob(p) => Token::Glob(p.clone()),
        Token::Regex(p) => Token::Regex(p.clone()),
    }
}

fn is_star(p: &String) -> (r: bool)
    ensures
        r == (p@ == seq!['*']),
{
    let s = p.as_str();
    let n = s.unicode_len();
    if n == 1 {
        let c = s.get_char(0);
        proof {
            if c == '*' {
                assert(p@ =~= seq!['*']);
            } else {
                assert(seq!['*'][0] == '*');
            }
        }
        c == '*'
    } else {
        proof {
            assert(seq!['*'].len() == 1);
        }
        false
    }
}

fn parse_primary(tokens: &Vec<Token>, pos: usize) -> (r: Result<(Condition, usize), ParseError>)
    requires
        pos <= tokens@.len(),
    ensures
        agrees(r, p_primary(toks_of(tokens@), pos as int)),
        r matches Ok(x) ==> pos < x.1 <= tokens@.len(),
    decreases tokens@.len() - pos, 0nat,
{
    if pos >= tokens.len() {
        return Err(ParseError::UnexpectedEnd);
    }
    match &tokens[pos] {
        Token::LParen => {
            match parse_or(tokens, pos + 1) {
                Ok((cond, next)) => {
                    if next < tokens.len() && matches!(tokens[next], Token::RParen) {
                        Ok((cond, next + 1))
                    } else {
                        Err(ParseError::MissingParen)
                    }
                },
                Err(e) => Err(e),
            }
        },
        Token::Glob(pattern) => {
            if is_star(pattern) {
                Ok((Condition::Always, pos + 1))
            } else {
                Ok((Condition::Glob { pattern: pattern.clone() }, pos + 1))
            }
        },
        Token::Regex(pattern) => Ok((Condition::Regex { pattern: pattern.clone() }, pos + 1)),
        other => Err(ParseError::UnexpectedToken(copy_token(other))),
    }
}

fn parse_not(tokens: &Vec<Token>, pos: usize) -> (r: Result<(Condition, usize), ParseError>)
    requires
        pos <= tokens@.len(),
    ensures
        agrees(r, p_not(toks_of(tokens@), pos as int)),
        r matches Ok(x) ==> pos < x.1 <= tokens@.len(),
    decreases tokens@.len() - pos, 1nat,
{
    if pos >= tokens.len() {
        return Err(ParseError::UnexpectedEnd);
    }
    if matches!(tokens[pos], Token::Not) {
        match parse_not(tokens, pos + 1) {
            Ok((inner, next)) => Ok((Condition::Not { condition: Box::new(inner) }, next)),
            Err(e) => Err(e),
        }
    } else {
        parse_primary(tokens, pos)
    }
}

fn parse_and(tokens: &Vec<Token>, pos: usize) -> (r: Result<(Condition, usize), ParseError>)
    requires
        pos <= tokens@.len(),
    ensures
        agrees(r, p_and(toks_of(tokens@), pos as int)),
        r matches Ok(x) ==> pos < x.1 <= tokens@.len(),
    decreases tokens@.len() - pos, 3nat,
{
    let ghost ts = toks_of(tokens@);
    let (first, after) = match parse_not(tokens, pos) {
        Ok(x) => x,
        Err(e) => { return Err(e); },
    };
    let mut parts: Vec<Condition> = Vec::new();
    parts.push(first);
    let mut rest: usize = after;
    proof {
        assert(model_all(parts@) =~= seq![model(first)]);
    }
    while rest < tokens.len() && matches!(tokens[rest], Token::And)
        invariant
            ts == toks_of(tokens@),
            pos < rest <= tokens@.len(),
            parts@.len() >= 1,
            p_and(ts, pos as int) == and_tail(ts, model_all(parts@), rest as int),
        decreases tokens@.len() - rest,
    {
        let ghost before = model_all(parts@);
        match parse_not(tokens, rest + 1) {
            Ok((right, next)) => {
                parts.push(right);
                proof {
                    assert(model_all(parts@) =~= before.push(model(right)));
                }
                rest = next;
            },
            Err(e) => { return Err(e); },
        }
    }
    proof {
        assert(model_all(parts@).len() == parts@.len());
    }
    if parts.len() == 1 {
        let only = parts.remove(0);
        Ok((only, rest))
    } else {
        Ok((Condition::And { conditions: parts }, rest))
    }
}

fn parse_or(tokens: &Vec<Token>, pos: usize) -> (r: Result<(Condition, usize), ParseError>)
    requires
        pos <= tokens@.len(),
    ensures
        agrees(r, p_or(toks_of(tokens@), pos as int)),
        r matches Ok(x) ==> pos < x.1 <= tokens@.len(),
    decreases tokens@.len() - pos, 5nat,
{
    let ghost ts = toks_of(tokens@);
    let (first, after) = match parse_and(tokens, pos) {
        Ok(x) => x,
        Err(e) => { return Err(e); },
    };
    let mut parts: Vec<Condition> = Vec::new();
    parts.push(first);
    let mut rest: usize = after;
    proof {
        assert(model_all(parts@) =~= seq![model(first)]);
    }
    while rest < tokens.len() && matches!(tokens[rest], Token::Or)
        invariant
            ts == toks_of(tokens@),
            pos < rest <= tokens@.len(),
            parts@.len() >= 1,
            p_or(ts, pos as int) == or_tail(ts, model_all(parts@), rest as int),
        decreases tokens@.len() - rest,
    {
        let ghost before = model_all(parts@);
        match parse_and(tokens, rest + 1) {
            Ok((right, next)) => {
                parts.push(right);
                proof {
                    assert(model_all(parts@) =~= before.push(model(right)));
                }
                rest = next;
            },
            Err(e) => { return Err(e); },
        }
    }
    proof {
        assert(model_all(parts@).len() == parts@.len());
    }
    if parts.len() == 1 {
        let only = parts.remove(0);
        Ok((only, rest))
    } else {
        Ok((Condition::Or { conditions: parts }, rest))
    }
}

/// Parse the characters of a condition text.
pub fn parse_chars(chars: &[char]) -> (r: Result<Condition, ParseError>)
    ensures
        match parse_text(chars@) {
            Ok(c) => r matches Ok(x) && x@ == c,
            Err(e) => r matches Err(x) && x@ == e,
        },
{
    let tokens = match tokenize(chars) {
        Some(t) => t,
        None => { return Err(ParseError::UnterminatedRegex); },
    };
    if tokens.len() == 0 {
        return Ok(Condition::Always);
    }
    match parse_or(&tokens, 0) {
        Ok((cond, rest)) => {
            if rest < tokens.len() {
                Err(ParseError::UnexpectedToken(copy_token(&tokens[rest])))
            } else {
                Ok(cond)
            }
        },
        Err(e) => Err(e),
    }
}

} // verus!
