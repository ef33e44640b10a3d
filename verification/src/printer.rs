//! Writing a condition tree out as text that the parser reads back.

use vstd::prelude::*;
use crate::config::{Cond, Condition, model, model_all};

verus! {

/// `NOT` and the space behind it.
pub open spec fn lit_not() -> Seq<char> {
    seq!['N', 'O', 'T', ' ']
}

/// `AND` between two spaces.
pub open spec fn lit_and() -> Seq<char> {
    seq![' ', 'A', 'N', 'D', ' ']
}

/// `OR` between two spaces.
pub open spec fn lit_or() -> Seq<char> {
    seq![' ', 'O', 'R', ' ']
}

/// A text between parentheses.
pub open spec fn wrapped(s: Seq<char>) -> Seq<char> {
    seq!['('] + s + seq![')']
}

/// The text of a condition. Parentheses stand exactly where leaving them
/// out would change the meaning: round an `Or` under an `And`, and round an
/// `And` or `Or` under a `Not`.
pub open spec fn text(c: Cond) -> Seq<char>
    decreases c, 0nat,
{
    match c {
        Cond::Always => seq!['*'],
        Cond::Glob(p) => p,
        Cond::Regex(p) => seq!['/'] + p + seq!['/'],
        Cond::Not(inner) => if *inner is And || *inner is Or {
            lit_not() + wrapped(text(*inner))
        } else {
            lit_not() + text(*inner)
        },
        Cond::And(cs) => and_text(cs, cs.len()),
        Cond::Or(cs) => or_text(cs, cs.len()),
    }
}

/// The text of the first `n` operands of an `And`, joined by ` AND `.
pub open spec fn and_text(cs: Seq<Cond>, n: nat) -> Seq<char>
    decreases cs, n,
{
    if n == 0 || n > cs.len() {
        Seq::empty()
    } else {
        let item = if cs[n - 1] is Or {
            wrapped(text(cs[n - 1]))
        } else {
            text(cs[n - 1])
        };
        if n == 1 {
            item
        } else {
            and_text(cs, (n - 1) as nat) + lit_and() + item
        }
    }
}

/// The text of the first `n` operands of an `Or`, joined by ` OR `.
pub open spec fn or_text(cs: Seq<Cond>, n: nat) -> Seq<char>
    decreases cs, n,
{
    if n == 0 || n > cs.len() {
        Seq::empty()
    } else if n == 1 {
        text(cs[0])
    } else {
        or_text(cs, (n - 1) as nat) + lit_or() + text(cs[n - 1])
    }
}

fn needs_parens(cond: &Condition) -> (r: bool)
    ensures
        r == (cond@ is And || cond@ is Or),
{
    matches!(cond, Condition::And { .. } | Condition::Or { .. })
}

fn in_parens(inner: &String) -> (r: String)
    ensures
        r@ == wrapped(inner@),
{
    let mut out = String::new();
    out.push('(');
    out.append(inner.as_str());
    out.push(')');
    proof {
        assert(out@ =~= wrapped(inner@));
    }
    out
}

/// Serialize a condition tree back to text syntax.
pub fn to_text(cond: &Condition) -> (r: String)
    ensures
        r@ == text(cond@),
    decreases cond,
{
    match cond {
        Condition::Always => {
            let mut out = String::new();
            out.push('*');
            proof {
                assert(out@ =~= seq!['*']);
            }
            out
        },
        Condition::Glob { pattern } => pattern.clone(),
        Condition::Regex { pattern } => {
            let mut out = String::new();
            out.push('/');
            out.append(pattern.as_str());
            out.push('/');
            proof {
                assert(out@ =~= seq!['/'] + pattern@ + seq!['/']);
            }
            out
        },
        Condition::Not { condition } => {
            let inner = to_text(condition);
            let mut out = String::new();
            out.push('N');
            out.push('O');
            out.push('T');
            out.push(' ');
            proof {
                assert(out@ =~= lit_not());
            }
            if needs_parens(condition) {
                let w = in_parens(&inner);
                out.append(w.as_str());
            } else {
                out.append(inner.as_str());
            }
            out
        },
        Condition::And { conditions } => to_text_and(conditions),
        Condition::Or { conditions } => to_text_or(conditions),
    }
}

fn to_text_and(conditions: &Vec<Condition>) -> (r: String)
    ensures
        r@ == text(Cond::And(model_all(conditions@))),
    decreases conditions,
{
    let ghost cs = model_all(conditions@);
    let mut out = String::new();
    let mut i: usize = 0;
    while i < conditions.len()
        invariant
            i <= conditions.len(),
            cs == model_all(conditions@),
            cs.len() == conditions@.len(),
            out@ == and_text(cs, i as nat),
        decreases conditions.len() - i,
    {
        let ghost before = out@;
        let inner = to_text(&conditions[i]);
        if i > 0 {
            out.push(' ');
            out.push('A');
            out.push('N');
            out.push('D');
            out.push(' ');
            proof {
                assert(out@ =~= before + lit_and());
            }
        } else {
            proof {
                assert(out@ =~= Seq::<char>::empty());
            }
        }
        let ghost mid = out@;
        if matches!(conditions[i], Condition::Or { .. }) {
            let w = in_parens(&inner);
            out.append(w.as_str());
        } else {
            out.append(inner.as_str());
        }
        proof {
            assert(cs[i as int] == model(conditions@[i as int]));
            if i == 0 {
                assert(out@ =~= and_text(cs, 1));
            } else {
                assert(out@ =~= and_text(cs, (i + 1) as nat));
            }
        }
        i = i + 1;
    }
    out
}

fn to_text_or(conditions: &Vec<Condition>) -> (r: String)
    ensures
        r@ == text(Cond::Or(model_all(conditions@))),
    decreases conditions,
{
    let ghost cs = model_all(conditions@);
    let mut out = String::new();
    let mut i: usize = 0;
    while i < conditions.len()
        invariant
            i <= conditions.len(),
            cs == model_all(conditions@),
            cs.len() == conditions@.len(),
            out@ == or_text(cs, i as nat),
        decreases conditions.len() - i,
    {
        let ghost before = out@;
        let inner = to_text(&conditions[i]);
        if i > 0 {
            out.push(' ');
            out.push('O');
            out.push('R');
            out.push(' ');
            proof {
                assert(out@ =~= before + lit_or());
            }
        } else {
            proof {
                assert(out@ =~= Seq::<char>::empty());
            }
        }
        out.append(inner.as_str());
        proof {
            assert(cs[i as int] == model(conditions@[i as int]));
            if i == 0 {
                assert(out@ =~= or_text(cs, 1));
            } else {
                assert(out@ =~= or_text(cs, (i + 1) as nat));
            }
        }
        i = i + 1;
    }
    out
}

} // verus!
