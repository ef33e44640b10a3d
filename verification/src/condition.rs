//! The pattern language: evaluation of a condition tree, the text syntax
//! that is parsed into one, and the text that one is written out as.

use vstd::prelude::*;
use crate::config::{Cond, Condition, model, model_all};
pub use crate::glob::{glob_match, glob_match_impl};
use crate::glob::glob_matches;
use crate::lexer::{Tok, Token};
use crate::parser::{parse_chars, parse_text, ParseError, ParseFault};
pub use crate::printer::to_text;
use crate::regexp::{compile, error_text, is_match, regex_matches, regex_valid};
use crate::text::{chars_of, debug_quoted, lowercase, quoted};

verus! {

/// Whether a name satisfies a condition tree. `And` holds when every child
/// does, `Or` when at least one does. A regular expression that does not
/// compile matches nothing.
pub open spec fn eval(c: Cond, name: Seq<char>) -> bool
    decreases c, 0nat,
{
    match c {
        Cond::Glob(p) => glob_matches(lowercase(p), lowercase(name)),
        Cond::Regex(p) => regex_valid(p) && regex_matches(p, name),
        Cond::And(cs) => eval_all(cs, name, cs.len()),
        Cond::Or(cs) => eval_any(cs, name, cs.len()),
        Cond::Not(inner) => !eval(*inner, name),
        Cond::Always => true,
    }
}

/// Whether each of the first `n` conditions holds of the name.
pub open spec fn eval_all(cs: Seq<Cond>, name: Seq<char>, n: nat) -> bool
    decreases cs, n,
{
    if n == 0 || n > cs.len() {
        true
    } else {
        eval_all(cs, name, (n - 1) as nat) && eval(cs[n - 1], name)
    }
}

/// Whether one of the first `n` conditions holds of the name.
pub open spec fn eval_any(cs: Seq<Cond>, name: Seq<char>, n: nat) -> bool
    decreases cs, n,
{
    if n == 0 || n > cs.len() {
        false
    } else {
        eval_any(cs, name, (n - 1) as nat) || eval(cs[n - 1], name)
    }
}

/// `eval_all` says that every one of the first `n` children holds.
pub proof fn lemma_eval_all(cs: Seq<Cond>, name: Seq<char>, n: nat)
    requires
        n <= cs.len(),
    ensures
        eval_all(cs, name, n) <==> forall|i: int| 0 <= i < n ==> eval(#[trigger] cs[i], name),
    decreases n,
{
    if n > 0 {
        lemma_eval_all(cs, name, (n - 1) as nat);
    }
}

/// `eval_any` says that one of the first `n` children holds.
pub proof fn lemma_eval_any(cs: Seq<Cond>, name: Seq<char>, n: nat)
    requires
        n <= cs.len(),
    ensures
        eval_any(cs, name, n) <==> exists|i: int| 0 <= i < n && eval(#[trigger] cs[i], name),
    decreases n,
{
    if n > 0 {
        lemma_eval_any(cs, name, (n - 1) as nat);
    }
}

/// Test whether a file name matches a condition tree.
pub fn evaluate(condition: &Condition, file_name: &str) -> (matched: bool)
    ensures
        matched == eval(condition@, file_name@),
    decreases condition,
{
    match condition {
        Condition::Glob { pattern } => glob_match(pattern.as_str(), file_name),
        Condition::Regex { pattern } => {
            match compile(pattern.as_str()) {
                Ok(p) => is_match(&p, file_name),
                Err(_) => false,
            }
        },
        Condition::And { conditions } => evaluate_all(conditions, file_name),
        Condition::Or { conditions } => evaluate_any(conditions, file_name),
        Condition::Not { condition } => !evaluate(condition, file_name),
        Condition::Always => true,
    }
}

/// Whether every condition of the list matches the name.
fn evaluate_all(conditions: &Vec<Condition>, file_name: &str) -> (matched: bool)
    ensures
        matched == eval(Cond::And(model_all(conditions@)), file_name@),
    decreases conditions,
{
    let ghost cs = model_all(conditions@);
    let mut i: usize = 0;
    while i < conditions.len()
        invariant
            i <= conditions.len(),
            cs == model_all(conditions@),
            cs.len() == conditions@.len(),
            eval_all(cs, file_name@, i as nat),
        decreases conditions.len() - i,
    {
        if !evaluate(&conditions[i], file_name) {
            proof {
                assert(!eval(cs[i as int], file_name@));
                lemma_eval_all(cs, file_name@, cs.len());
            }
            return false;
        }
        i = i + 1;
    }
    true
}

/// Whether some condition of the list matches the name.
fn evaluate_any(conditions: &Vec<Condition>, file_name: &str) -> (matched: bool)
    ensures
        matched == eval(Cond::Or(model_all(conditions@)), file_name@),
    decreases conditions,
{
    let ghost cs = model_all(conditions@);
    let mut i: usize = 0;
    while i < conditions.len()
        invariant
            i <= conditions.len(),
            cs == model_all(conditions@),
            cs.len() == conditions@.len(),
            !eval_any(cs, file_name@, i as nat),
        decreases conditions.len() - i,
    {
        if evaluate(&conditions[i], file_name) {
            proof {
                assert(eval(cs[i as int], file_name@));
                lemma_eval_any(cs, file_name@, cs.len());
            }
            return true;
        }
        i = i + 1;
    }
    false
}

/// How a token is named in a message.
pub open spec fn describe(t: Tok) -> Seq<char> {
    match t {
        Tok::And => "And"@,
        Tok::Or => "Or"@,
        Tok::Not => "Not"@,
        Tok::LParen => "LParen"@,
        Tok::RParen => "RParen"@,
        Tok::Glob(p) => "Glob("@ + debug_quoted(p) + ")"@,
        Tok::Regex(p) => "Regex("@ + debug_quoted(p) + ")"@,
    }
}

/// The message for each way in which a text fails to be a condition.
pub open spec fn message(e: ParseFault) -> Seq<char> {
    match e {
        ParseFault::UnterminatedRegex => "Unterminated regex: missing closing /"@,
        ParseFault::UnexpectedEnd => "Unexpected end of expression"@,
        ParseFault::MissingParen => "Missing closing parenthesis"@,
        ParseFault::UnexpectedToken(t) => "Unexpected token: "@ + describe(t),
    }
}

fn describe_token(t: &Token) -> (r: String)
    ensures
        r@ == describe(t@),
{
    match t {
        Token::And => String::from_str("And"),
        Token::Or => String::from_str("Or"),
        Token::Not => String::from_str("Not"),
        Token::LParen => String::from_str("LParen"),
        Token::RParen => String::from_str("RParen"),
        Token::Glob(p) => {
            let q = quoted(p.as_str());
            let mut out = String::from_str("Glob(");
            out.append(q.as_str());
            out.append(")");
            out
        },
        Token::Regex(p) => {
            let q = quoted(p.as_str());
            let mut out = String::from_str("Regex(");
            out.append(q.as_str());
            out.append(")");
            out
        },
    }
}

/// The message of a parse error.
pub fn error_message(e: &ParseError) -> (r: String)
    ensures
        r@ == message(e@),
{
    match e {
        ParseError::UnterminatedRegex => String::from_str("Unterminated regex: missing closing /"),
        ParseError::UnexpectedEnd => String::from_str("Unexpected end of expression"),
        ParseError::MissingParen => String::from_str("Missing closing parenthesis"),
        ParseError::UnexpectedToken(t) => {
            let d = describe_token(t);
            let mut out = String::from_str("Unexpected token: ");
            out.append(d.as_str());
            out
        },
    }
}

/// Parse a text-syntax string into a condition tree, or say in a message
/// why it is none. Empty text and `*` both give `Always`.
pub fn parse(input: &str) -> (r: Result<Condition, String>)
    ensures
        match parse_text(input@) {
            Ok(c) => r matches Ok(x) && x@ == c,
            Err(e) => r matches Err(m) && m@ == message(e),
        },
{
    let chars = chars_of(input);
    match parse_chars(chars.as_slice()) {
        Ok(c) => Ok(c),
        Err(e) => Err(error_message(&e)),
    }
}

/// Validate a condition text: `Ok` exactly when it parses.
pub fn validate_text(input: &str) -> (r: Result<(), String>)
    ensures
        match parse_text(input@) {
            Ok(c) => r is Ok,
            Err(e) => r matches Err(m) && m@ == message(e),
        },
{
    match parse(input) {
        Ok(_) => Ok(()),
        Err(m) => Err(m),
    }
}

/// The first regular expression of the tree, in reading order, that does
/// not compile.
pub open spec fn first_invalid(c: Cond) -> Option<Seq<char>>
    decreases c, 0nat,
{
    match c {
        Cond::Regex(p) => if regex_valid(p) {
            None
        } else {
            Some(p)
        },
        Cond::And(cs) => first_invalid_in(cs, cs.len()),
        Cond::Or(cs) => first_invalid_in(cs, cs.len()),
        Cond::Not(inner) => first_invalid(*inner),
        _ => None,
    }
}

/// `first_invalid` among the first `n` trees of a list.
pub open spec fn first_invalid_in(cs: Seq<Cond>, n: nat) -> Option<Seq<char>>
    decreases cs, n,
{
    if n == 0 || n > cs.len() {
        None
    } else {
        match first_invalid_in(cs, (n - 1) as nat) {
            Some(p) => Some(p),
            None => first_invalid(cs[n - 1]),
        }
    }
}

/// How every message about a regular expression begins.
pub open spec fn invalid_prefix() -> Seq<char> {
    "Invalid regex: "@
}

/// What `validate_condition` answers for a tree whose first regular
/// expression that does not compile is `bad`.
pub open spec fn verdict(r: Result<(), String>, bad: Option<Seq<char>>) -> bool {
    match bad {
        None => r is Ok,
        Some(p) => r matches Err(m) && m@.len() >= invalid_prefix().len() && m@.subrange(
            0,
            invalid_prefix().len() as int,
        ) == invalid_prefix(),
    }
}

/// Validate a condition tree: every regular expression in it must compile.
/// Fails on the first that does not, with a message that begins with
/// `Invalid regex: ` and goes on with what the compiler said.
pub fn validate_condition(cond: &Condition) -> (r: Result<(), String>)
    ensures
        verdict(r, first_invalid(cond@)),
    decreases cond,
{
    match cond {
        Condition::Regex { pattern } => {
            match compile(pattern.as_str()) {
                Ok(_) => Ok(()),
                Err(e) => {
                    let detail = error_text(&e);
                    let mut out = String::from_str("Invalid regex: ");
                    let ghost head = out@;
                    out.append(detail.as_str());
                    proof {
                        assert(out@.subrange(0, head.len() as int) =~= head);
                    }
                    Err(out)
                },
            }
        },
        Condition::And { conditions } => validate_all(conditions),
        Condition::Or { conditions } => validate_all(conditions),
        Condition::Not { condition } => validate_condition(condition),
        _ => Ok(()),
    }
}

fn validate_all(conditions: &Vec<Condition>) -> (r: Result<(), String>)
    ensures
        verdict(r, first_invalid_in(model_all(conditions@), conditions@.len())),
    decreases conditions,
{
    let ghost cs = model_all(conditions@);
    let mut i: usize = 0;
    while i < conditions.len()
        invariant
            i <= conditions.len(),
            cs == model_all(conditions@),
            cs.len() == conditions@.len(),
            first_invalid_in(cs, i as nat) is None,
        decreases conditions.len() - i,
    {
        let r = validate_condition(&conditions[i]);
        proof {
            assert(cs[i as int] == model(conditions@[i as int]));
        }
        if r.is_err() {
            proof {
                lemma_first_invalid_stays(cs, (i + 1) as nat, cs.len());
            }
            return r;
        }
        i = i + 1;
    }
    Ok(())
}

/// Once a tree that fails is found, later trees do not change the answer.
proof fn lemma_first_invalid_stays(cs: Seq<Cond>, n: nat, m: nat)
    requires
        n <= m <= cs.len(),
        first_invalid_in(cs, n) is Some,
    ensures
        first_invalid_in(cs, m) == first_invalid_in(cs, n),
    decreases m - n,
{
    if n < m {
        lemma_first_invalid_stays(cs, n, (m - 1) as nat);
    }
}

} // verus!
