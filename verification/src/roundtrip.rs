//! Writing a condition out and reading it back gives a condition that
//! holds of the same names.

use vstd::prelude::*;
use crate::condition::{eval, eval_all, eval_any, lemma_eval_all, lemma_eval_any};
use crate::config::Cond;
use crate::lexer::{
    cons, followed_by, glob_end, is_boundary, is_delim, keyword_at, lex, regex_end, same_letter, Tok,
};
use crate::parser::{
    and_tail, join_and, join_or, or_tail, p_and, p_not, p_or, p_primary, parse_text, parse_tokens,
    ParseFault, Parsed,
};
use crate::printer::{and_text, lit_and, lit_not, lit_or, or_text, text, wrapped};
use crate::text::is_space;

verus! {

/// Whether a word is one of the keywords, in whatever case.
pub open spec fn is_keyword(p: Seq<char>) -> bool {
    ||| (p.len() == 3 && same_letter(p[0], 'A') && same_letter(p[1], 'N') && same_letter(p[2], 'D'))
    ||| (p.len() == 3 && same_letter(p[0], 'N') && same_letter(p[1], 'O') && same_letter(p[2], 'T'))
    ||| (p.len() == 2 && same_letter(p[0], 'O') && same_letter(p[1], 'R'))
}

/// A glob pattern that the text syntax can hold: one word that is not
/// empty, holds no white space and no parenthesis, does not begin a regex
/// literal, and is neither a keyword nor the lone `*` that stands for
/// `Always`.
pub open spec fn valid_word(p: Seq<char>) -> bool {
    &&& p.len() > 0
    &&& forall|k: int| 0 <= k < p.len() ==> !is_delim(#[trigger] p[k])
    &&& p[0] != '/'
    &&& !is_keyword(p)
    &&& p != seq!['*']
}

/// A regex pattern that the text syntax can hold: every `/` in it is
/// escaped, and it does not end in a backslash that would escape the
/// closing `/`.
pub open spec fn closed_body(p: Seq<char>) -> bool {
    regex_end(p.push('/'), 0) == p.len()
}

/// The conditions that the grammar can express: every `And` and `Or` has an
/// operand, and every pattern fits into one token.
pub open spec fn printable(c: Cond) -> bool
    decreases c, 0nat,
{
    match c {
        Cond::Glob(p) => valid_word(p),
        Cond::Regex(p) => closed_body(p),
        Cond::And(cs) => cs.len() >= 1 && all_printable(cs, cs.len()),
        Cond::Or(cs) => cs.len() >= 1 && all_printable(cs, cs.len()),
        Cond::Not(inner) => printable(*inner),
        Cond::Always => true,
    }
}

/// Whether the first `n` conditions of a list are printable.
pub open spec fn all_printable(cs: Seq<Cond>, n: nat) -> bool
    decreases cs, n,
{
    if n == 0 || n > cs.len() {
        true
    } else {
        all_printable(cs, (n - 1) as nat) && printable(cs[n - 1])
    }
}

/// Tokens between parentheses.
pub open spec fn in_parens(ts: Seq<Tok>) -> Seq<Tok> {
    seq![Tok::LParen] + ts + seq![Tok::RParen]
}

/// The tokens of the text of a condition.
pub open spec fn toks(c: Cond) -> Seq<Tok>
    decreases c, 0nat,
{
    match c {
        Cond::Always => seq![Tok::Glob(seq!['*'])],
        Cond::Glob(p) => seq![Tok::Glob(p)],
        Cond::Regex(p) => seq![Tok::Regex(p)],
        Cond::Not(inner) => if *inner is And || *inner is Or {
            seq![Tok::Not] + in_parens(toks(*inner))
        } else {
            seq![Tok::Not] + toks(*inner)
        },
        Cond::And(cs) => and_toks(cs, cs.len()),
        Cond::Or(cs) => or_toks(cs, cs.len()),
    }
}

/// The tokens of one operand of an `And`.
pub open spec fn and_item(c: Cond) -> Seq<Tok>
    decreases c, 1nat,
{
    if c is Or {
        in_parens(toks(c))
    } else {
        toks(c)
    }
}

/// The tokens of the first `n` operands of an `And`, with `AND` between.
pub open spec fn and_toks(cs: Seq<Cond>, n: nat) -> Seq<Tok>
    decreases cs, n,
{
    if n == 0 || n > cs.len() {
        Seq::empty()
    } else if n == 1 {
        and_item(cs[0])
    } else {
        and_toks(cs, (n - 1) as nat) + seq![Tok::And] + and_item(cs[n - 1])
    }
}

/// The tokens of the first `n` operands of an `Or`, with `OR` between.
pub open spec fn or_toks(cs: Seq<Cond>, n: nat) -> Seq<Tok>
    decreases cs, n,
{
    if n == 0 || n > cs.len() {
        Seq::empty()
    } else if n == 1 {
        toks(cs[0])
    } else {
        or_toks(cs, (n - 1) as nat) + seq![Tok::Or] + toks(cs[n - 1])
    }
}

/// Whether the text `t` stands in `s` from position `i` on.
pub open spec fn stands_at(s: Seq<char>, i: int, t: Seq<char>) -> bool {
    0 <= i && i + t.len() <= s.len() && s.subrange(i, i + t.len()) == t
}

proof fn lemma_stands_split(s: Seq<char>, i: int, a: Seq<char>, b: Seq<char>)
    requires
        stands_at(s, i, a + b),
    ensures
        stands_at(s, i, a),
        stands_at(s, i + a.len(), b),
{
    let whole = s.subrange(i, i + (a + b).len());
    assert(s.subrange(i, i + a.len()) =~= a) by {
        assert forall|k: int| 0 <= k < a.len() implies s.subrange(i, i + a.len())[k] == a[k] by {
            assert(whole[k] == (a + b)[k]);
        }
    }
    assert(s.subrange(i + a.len(), i + a.len() + b.len()) =~= b) by {
        assert forall|k: int| 0 <= k < b.len() implies s.subrange(
            i + a.len(),
            i + a.len() + b.len(),
        )[k] == b[k] by {
            assert(whole[a.len() + k] == (a + b)[a.len() + k]);
        }
    }
}

proof fn lemma_stands_char(s: Seq<char>, i: int, t: Seq<char>, k: int)
    requires
        stands_at(s, i, t),
        0 <= k < t.len(),
    ensures
        s[i + k] == t[k],
{
    assert(s.subrange(i, i + t.len())[k] == t[k]);
}

proof fn lemma_followed_assoc(a: Seq<Tok>, b: Seq<Tok>, r: Option<Seq<Tok>>)
    ensures
        followed_by(a, followed_by(b, r)) == followed_by(a + b, r),
{
    if let Some(ts) = r {
        assert(a + (b + ts) =~= (a + b) + ts);
    }
}

proof fn lemma_cons_is_followed(t: Tok, r: Option<Seq<Tok>>)
    ensures
        cons(t, r) == followed_by(seq![t], r),
{
}

/// A keyword letter is no delimiter.
proof fn lemma_letter_not_delim(c: char, upper: char)
    requires
        same_letter(c, upper),
        65 <= upper as u32 <= 90,
    ensures
        !is_delim(c),
        c != '/',
{
}

proof fn lemma_glob_end(s: Seq<char>, i: int, n: int)
    requires
        0 <= i,
        0 <= n,
        i + n <= s.len(),
        forall|k: int| i <= k < i + n ==> !is_delim(#[trigger] s[k]),
        is_boundary(s, i + n),
    ensures
        glob_end(s, i) == i + n,
    decreases n,
{
    if n > 0 {
        lemma_glob_end(s, i + 1, n - 1);
    }
}

/// A valid word that stands before a boundary is read as one glob token.
proof fn lemma_lex_word(s: Seq<char>, i: int, p: Seq<char>)
    requires
        p.len() > 0,
        forall|k: int| 0 <= k < p.len() ==> !is_delim(#[trigger] p[k]),
        p[0] != '/',
        !is_keyword(p),
        stands_at(s, i, p),
        is_boundary(s, i + p.len()),
    ensures
        lex(s, i) == cons(Tok::Glob(p), lex(s, i + p.len())),
{
    assert forall|k: int| i <= k < i + p.len() implies !is_delim(#[trigger] s[k]) by {
        lemma_stands_char(s, i, p, k - i);
    }
    lemma_stands_char(s, i, p, 0);
    lemma_glob_end(s, i, p.len() as int);
    // No keyword starts here: it would have to be the whole word.
    if i + 3 <= s.len() && is_boundary(s, i + 3) {
        if p.len() >= 3 {
            lemma_stands_char(s, i, p, 0);
            lemma_stands_char(s, i, p, 1);
            lemma_stands_char(s, i, p, 2);
            if p.len() > 3 {
                lemma_stands_char(s, i, p, 3);
            }
        } else if p.len() == 2 {
            lemma_stands_char(s, i, p, 1);
            if same_letter(s[i + 2], 'D') {
                lemma_letter_not_delim(s[i + 2], 'D');
            }
            if same_letter(s[i + 2], 'T') {
                lemma_letter_not_delim(s[i + 2], 'T');
            }
        } else {
            if same_letter(s[i + 1], 'N') {
                lemma_letter_not_delim(s[i + 1], 'N');
            }
            if same_letter(s[i + 1], 'O') {
                lemma_letter_not_delim(s[i + 1], 'O');
            }
        }
    }
    if i + 2 <= s.len() && is_boundary(s, i + 2) {
        if p.len() >= 2 {
            lemma_stands_char(s, i, p, 0);
            lemma_stands_char(s, i, p, 1);
            if p.len() > 2 {
                lemma_stands_char(s, i, p, 2);
            }
        } else {
            if same_letter(s[i + 1], 'R') {
                lemma_letter_not_delim(s[i + 1], 'R');
            }
        }
    }
    assert(keyword_at(s, i) is None);
    assert(s.subrange(i, i + p.len()) == p);
}

proof fn lemma_regex_end_shift(s: Seq<char>, i: int, p: Seq<char>, k: int)
    requires
        stands_at(s, i, p.push('/')),
        0 <= k <= p.len() + 1,
    ensures
        regex_end(s, i + k) == if regex_end(p.push('/'), k) <= p.len() {
            i + regex_end(p.push('/'), k)
        } else {
            regex_end(s, i + p.len() + 1)
        },
    decreases p.len() + 1 - k,
{
    let q = p.push('/');
    if k < q.len() {
        lemma_stands_char(s, i, q, k);
        if q[k] == '/' {
        } else if q[k] == '\\' && k + 1 < q.len() {
            lemma_regex_end_shift(s, i, p, k + 2);
        } else {
            if q[k] == '\\' {
                assert(k == p.len());
                assert(q[k] == '/');
            }
            lemma_regex_end_shift(s, i, p, k + 1);
        }
    }
}

/// A closed body between slashes is read as one regex token.
proof fn lemma_lex_regex(s: Seq<char>, i: int, p: Seq<char>)
    requires
        closed_body(p),
        stands_at(s, i, seq!['/'] + p + seq!['/']),
    ensures
        lex(s, i) == cons(Tok::Regex(p), lex(s, i + p.len() + 2)),
{
    let t = seq!['/'] + p + seq!['/'];
    assert(t =~= seq!['/'] + p.push('/'));
    lemma_stands_split(s, i, seq!['/'], p.push('/'));
    lemma_stands_char(s, i, seq!['/'], 0);
    lemma_regex_end_shift(s, i + 1, p, 0);
    let e = regex_end(s, i + 1);
    assert(e == i + 1 + p.len());
    assert(p.push('/') =~= p + seq!['/']);
    lemma_stands_split(s, i + 1, p, seq!['/']);
    assert(s.subrange(i + 1, e) == p);
}

proof fn lemma_lex_not(s: Seq<char>, i: int)
    requires
        stands_at(s, i, lit_not()),
    ensures
        lex(s, i) == cons(Tok::Not, lex(s, i + 4)),
{
    lemma_stands_char(s, i, lit_not(), 0);
    lemma_stands_char(s, i, lit_not(), 1);
    lemma_stands_char(s, i, lit_not(), 2);
    lemma_stands_char(s, i, lit_not(), 3);
    assert(is_space(' '));
    assert(keyword_at(s, i) == Some((Tok::Not, 3int)));
    assert(lex(s, i + 3) == lex(s, i + 4));
}

proof fn lemma_lex_and(s: Seq<char>, i: int)
    requires
        stands_at(s, i, lit_and()),
    ensures
        lex(s, i) == cons(Tok::And, lex(s, i + 5)),
{
    lemma_stands_char(s, i, lit_and(), 0);
    lemma_stands_char(s, i, lit_and(), 1);
    lemma_stands_char(s, i, lit_and(), 2);
    lemma_stands_char(s, i, lit_and(), 3);
    lemma_stands_char(s, i, lit_and(), 4);
    assert(is_space(' '));
    assert(lex(s, i) == lex(s, i + 1));
    assert(keyword_at(s, i + 1) == Some((Tok::And, 3int)));
    assert(lex(s, i + 4) == lex(s, i + 5));
}

proof fn lemma_lex_or(s: Seq<char>, i: int)
    requires
        stands_at(s, i, lit_or()),
    ensures
        lex(s, i) == cons(Tok::Or, lex(s, i + 4)),
{
    lemma_stands_char(s, i, lit_or(), 0);
    lemma_stands_char(s, i, lit_or(), 1);
    lemma_stands_char(s, i, lit_or(), 2);
    lemma_stands_char(s, i, lit_or(), 3);
    assert(is_space(' '));
    assert(lex(s, i) == lex(s, i + 1));
    assert(keyword_at(s, i + 1) == Some((Tok::Or, 2int)));
    assert(lex(s, i + 3) == lex(s, i + 4));
}

/// The text of one operand of an `And`.
pub open spec fn and_item_text(c: Cond) -> Seq<char> {
    if c is Or {
        wrapped(text(c))
    } else {
        text(c)
    }
}

proof fn lemma_lex_paren(s: Seq<char>, i: int)
    requires
        0 <= i < s.len(),
    ensures
        s[i] == '(' ==> lex(s, i) == cons(Tok::LParen, lex(s, i + 1)),
        s[i] == ')' ==> lex(s, i) == cons(Tok::RParen, lex(s, i + 1)),
{
}

/// The text of a printable condition between parentheses is read as its
/// tokens between parentheses.
proof fn lemma_lex_wrapped(s: Seq<char>, i: int, c: Cond)
    requires
        printable(c),
        stands_at(s, i, wrapped(text(c))),
    ensures
        lex(s, i) == followed_by(in_parens(toks(c)), lex(s, i + text(c).len() + 2)),
    decreases c, 3nat,
{
    let t = text(c);
    let n = t.len() as int;
    lemma_stands_split(s, i, seq!['('] + t, seq![')']);
    lemma_stands_split(s, i, seq!['('], t);
    lemma_stands_char(s, i, seq!['('], 0);
    lemma_stands_char(s, i + 1 + n, seq![')'], 0);
    lemma_lex_paren(s, i);
    lemma_lex_paren(s, i + 1 + n);
    lemma_lex_text(s, i + 1, c);
    let rest = lex(s, i + n + 2);
    lemma_cons_is_followed(Tok::LParen, lex(s, i + 1));
    lemma_cons_is_followed(Tok::RParen, rest);
    lemma_followed_assoc(toks(c), seq![Tok::RParen], rest);
    lemma_followed_assoc(seq![Tok::LParen], toks(c) + seq![Tok::RParen], rest);
    assert(seq![Tok::LParen] + (toks(c) + seq![Tok::RParen]) =~= in_parens(toks(c)));
}

/// The text of a printable condition is read as its tokens.
proof fn lemma_lex_text(s: Seq<char>, i: int, c: Cond)
    requires
        printable(c),
        stands_at(s, i, text(c)),
        is_boundary(s, i + text(c).len()),
    ensures
        lex(s, i) == followed_by(toks(c), lex(s, i + text(c).len())),
    decreases c, 2nat,
{
    match c {
        Cond::Always => {
            lemma_lex_word(s, i, seq!['*']);
            lemma_cons_is_followed(Tok::Glob(seq!['*']), lex(s, i + 1));
        },
        Cond::Glob(p) => {
            lemma_lex_word(s, i, p);
            lemma_cons_is_followed(Tok::Glob(p), lex(s, i + p.len()));
        },
        Cond::Regex(p) => {
            lemma_lex_regex(s, i, p);
            lemma_cons_is_followed(Tok::Regex(p), lex(s, i + p.len() + 2));
        },
        Cond::Not(inner) => {
            let x = *inner;
            let rest = lex(s, i + text(c).len());
            if x is And || x is Or {
                lemma_stands_split(s, i, lit_not(), wrapped(text(x)));
                lemma_lex_not(s, i);
                lemma_lex_wrapped(s, i + 4, x);
                lemma_cons_is_followed(Tok::Not, lex(s, i + 4));
                lemma_followed_assoc(seq![Tok::Not], in_parens(toks(x)), rest);
            } else {
                lemma_stands_split(s, i, lit_not(), text(x));
                lemma_lex_not(s, i);
                lemma_lex_text(s, i + 4, x);
                lemma_cons_is_followed(Tok::Not, lex(s, i + 4));
                lemma_followed_assoc(seq![Tok::Not], toks(x), rest);
            }
        },
        Cond::And(cs) => {
            lemma_lex_and_list(s, i, cs, cs.len());
        },
        Cond::Or(cs) => {
            lemma_lex_or_list(s, i, cs, cs.len());
        },
    }
}

proof fn lemma_lex_and_item(s: Seq<char>, i: int, c: Cond)
    requires
        printable(c),
        stands_at(s, i, and_item_text(c)),
        is_boundary(s, i + and_item_text(c).len()),
    ensures
        lex(s, i) == followed_by(and_item(c), lex(s, i + and_item_text(c).len())),
    decreases c, 4nat,
{
    if c is Or {
        lemma_lex_wrapped(s, i, c);
    } else {
        lemma_lex_text(s, i, c);
    }
}

proof fn lemma_lex_and_list(s: Seq<char>, i: int, cs: Seq<Cond>, n: nat)
    requires
        1 <= n <= cs.len(),
        all_printable(cs, n),
        stands_at(s, i, and_text(cs, n)),
        is_boundary(s, i + and_text(cs, n).len()),
    ensures
        lex(s, i) == followed_by(and_toks(cs, n), lex(s, i + and_text(cs, n).len())),
    decreases cs, n,
{
    let item = and_item_text(cs[n - 1]);
    if n == 1 {
        lemma_lex_and_item(s, i, cs[0]);
    } else {
        let head = and_text(cs, (n - 1) as nat);
        let rest = lex(s, i + and_text(cs, n).len());
        assert(and_text(cs, n) == head + lit_and() + item);
        lemma_stands_split(s, i, head + lit_and(), item);
        lemma_stands_split(s, i, head, lit_and());
        let j = i + head.len();
        lemma_stands_char(s, j, lit_and(), 0);
        assert(is_space(' '));
        lemma_lex_and_list(s, i, cs, (n - 1) as nat);
        lemma_lex_and(s, j);
        lemma_lex_and_item(s, j + 5, cs[n - 1]);
        lemma_cons_is_followed(Tok::And, lex(s, j + 5));
        lemma_followed_assoc(seq![Tok::And], and_item(cs[n - 1]), rest);
        lemma_followed_assoc(and_toks(cs, (n - 1) as nat), seq![Tok::And] + and_item(cs[n - 1]), rest);
        assert(and_toks(cs, (n - 1) as nat) + (seq![Tok::And] + and_item(cs[n - 1])) =~= and_toks(
            cs,
            n,
        ));
    }
}

proof fn lemma_lex_or_list(s: Seq<char>, i: int, cs: Seq<Cond>, n: nat)
    requires
        1 <= n <= cs.len(),
        all_printable(cs, n),
        stands_at(s, i, or_text(cs, n)),
        is_boundary(s, i + or_text(cs, n).len()),
    ensures
        lex(s, i) == followed_by(or_toks(cs, n), lex(s, i + or_text(cs, n).len())),
    decreases cs, n,
{
    if n == 1 {
        lemma_lex_text(s, i, cs[0]);
    } else {
        let item = text(cs[n - 1]);
        let head = or_text(cs, (n - 1) as nat);
        let rest = lex(s, i + or_text(cs, n).len());
        assert(or_text(cs, n) == head + lit_or() + item);
        lemma_stands_split(s, i, head + lit_or(), item);
        lemma_stands_split(s, i, head, lit_or());
        let j = i + head.len();
        lemma_stands_char(s, j, lit_or(), 0);
        assert(is_space(' '));
        lemma_lex_or_list(s, i, cs, (n - 1) as nat);
        lemma_lex_or(s, j);
        lemma_lex_text(s, j + 4, cs[n - 1]);
        lemma_cons_is_followed(Tok::Or, lex(s, j + 4));
        lemma_followed_assoc(seq![Tok::Or], toks(cs[n - 1]), rest);
        lemma_followed_assoc(or_toks(cs, (n - 1) as nat), seq![Tok::Or] + toks(cs[n - 1]), rest);
        assert(or_toks(cs, (n - 1) as nat) + (seq![Tok::Or] + toks(cs[n - 1])) =~= or_toks(cs, n));
    }
}

/// Reading the text of a printable condition gives its tokens.
pub proof fn lemma_lex_of_text(c: Cond)
    requires
        printable(c),
    ensures
        lex(text(c), 0) == Some(toks(c)),
{
    let s = text(c);
    assert(s.subrange(0, s.len() as int) =~= s);
    lemma_lex_text(s, 0, c);
    assert(lex(s, s.len() as int) == Some(Seq::<Tok>::empty()));
    assert(toks(c) + Seq::<Tok>::empty() =~= toks(c));
}

/// Whether the tokens `t` stand in `ts` from position `i` on.
pub open spec fn toks_at(ts: Seq<Tok>, i: int, t: Seq<Tok>) -> bool {
    0 <= i && i + t.len() <= ts.len() && ts.subrange(i, i + t.len()) == t
}

proof fn lemma_toks_split(ts: Seq<Tok>, i: int, a: Seq<Tok>, b: Seq<Tok>)
    requires
        toks_at(ts, i, a + b),
    ensures
        toks_at(ts, i, a),
        toks_at(ts, i + a.len(), b),
{
    let whole = ts.subrange(i, i + (a + b).len());
    assert(ts.subrange(i, i + a.len()) =~= a) by {
        assert forall|k: int| 0 <= k < a.len() implies ts.subrange(i, i + a.len())[k] == a[k] by {
            assert(whole[k] == (a + b)[k]);
        }
    }
    assert(ts.subrange(i + a.len(), i + a.len() + b.len()) =~= b) by {
        assert forall|k: int| 0 <= k < b.len() implies ts.subrange(
            i + a.len(),
            i + a.len() + b.len(),
        )[k] == b[k] by {
            assert(whole[a.len() + k] == (a + b)[a.len() + k]);
        }
    }
}

proof fn lemma_toks_first(ts: Seq<Tok>, i: int, t: Seq<Tok>)
    requires
        toks_at(ts, i, t),
        t.len() >= 1,
    ensures
        ts[i] == t[0],
{
    assert(ts.subrange(i, i + t.len())[0] == t[0]);
}

/// The text of a printable condition has at least one token.
proof fn lemma_toks_nonempty(c: Cond)
    requires
        printable(c),
    ensures
        toks(c).len() >= 1,
        and_item(c).len() >= 1,
    decreases c, 0nat,
{
    match c {
        Cond::And(cs) => {
            lemma_and_toks_nonempty(cs, cs.len());
        },
        Cond::Or(cs) => {
            lemma_or_toks_nonempty(cs, cs.len());
        },
        _ => {},
    }
}

proof fn lemma_and_toks_nonempty(cs: Seq<Cond>, n: nat)
    requires
        1 <= n <= cs.len(),
        all_printable(cs, n),
    ensures
        and_toks(cs, n).len() >= 1,
    decreases cs, n,
{
    lemma_toks_nonempty(cs[n - 1]);
}

proof fn lemma_or_toks_nonempty(cs: Seq<Cond>, n: nat)
    requires
        1 <= n <= cs.len(),
        all_printable(cs, n),
    ensures
        or_toks(cs, n).len() >= 1,
    decreases cs, n,
{
    lemma_toks_nonempty(cs[n - 1]);
}

/// `eval_all` of two lists put together.
proof fn lemma_eval_all_concat(a: Seq<Cond>, b: Seq<Cond>, name: Seq<char>)
    ensures
        eval_all(a + b, name, (a + b).len()) == (eval_all(a, name, a.len()) && eval_all(
            b,
            name,
            b.len(),
        )),
{
    let ab = a + b;
    lemma_eval_all(a, name, a.len());
    lemma_eval_all(b, name, b.len());
    lemma_eval_all(ab, name, ab.len());
    if eval_all(a, name, a.len()) && eval_all(b, name, b.len()) {
        assert forall|i: int| 0 <= i < ab.len() implies eval(#[trigger] ab[i], name) by {
            if i < a.len() {
                assert(ab[i] == a[i]);
            } else {
                assert(ab[i] == b[i - a.len()]);
            }
        }
    }
    if eval_all(ab, name, ab.len()) {
        assert forall|i: int| 0 <= i < a.len() implies eval(#[trigger] a[i], name) by {
            assert(ab[i] == a[i]);
        }
        assert forall|i: int| 0 <= i < b.len() implies eval(#[trigger] b[i], name) by {
            assert(ab[i + a.len()] == b[i]);
        }
    }
}

/// `eval_any` of two lists put together.
proof fn lemma_eval_any_concat(a: Seq<Cond>, b: Seq<Cond>, name: Seq<char>)
    ensures
        eval_any(a + b, name, (a + b).len()) == (eval_any(a, name, a.len()) || eval_any(
            b,
            name,
            b.len(),
        )),
{
    let ab = a + b;
    lemma_eval_any(a, name, a.len());
    lemma_eval_any(b, name, b.len());
    lemma_eval_any(ab, name, ab.len());
    if eval_any(a, name, a.len()) {
        let i = choose|i: int| 0 <= i < a.len() && eval(#[trigger] a[i], name);
        assert(ab[i] == a[i]);
    }
    if eval_any(b, name, b.len()) {
        let i = choose|i: int| 0 <= i < b.len() && eval(#[trigger] b[i], name);
        assert(ab[i + a.len()] == b[i]);
    }
    if eval_any(ab, name, ab.len()) {
        let i = choose|i: int| 0 <= i < ab.len() && eval(#[trigger] ab[i], name);
        if i < a.len() {
            assert(ab[i] == a[i]);
        } else {
            assert(ab[i] == b[i - a.len()]);
        }
    }
}

proof fn lemma_eval_single(c: Cond, name: Seq<char>)
    ensures
        eval_all(seq![c], name, 1) == eval(c, name),
        eval_any(seq![c], name, 1) == eval(c, name),
{
    assert(eval_all(seq![c], name, 0));
    assert(!eval_any(seq![c], name, 0));
    assert(seq![c][0] == c);
}

/// Joining operands keeps what they say together.
proof fn lemma_eval_join(parts: Seq<Cond>, name: Seq<char>)
    requires
        parts.len() >= 1,
    ensures
        eval(join_and(parts), name) == eval_all(parts, name, parts.len()),
        eval(join_or(parts), name) == eval_any(parts, name, parts.len()),
{
    if parts.len() == 1 {
        assert(parts =~= seq![parts[0]]);
        lemma_eval_single(parts[0], name);
    }
}

/// The conditions that the parser builds: printable ones in which every
/// `And` and every `Or` has at least two operands.
pub open spec fn normal(c: Cond) -> bool
    decreases c, 0nat,
{
    match c {
        Cond::Glob(p) => valid_word(p),
        Cond::Regex(p) => closed_body(p),
        Cond::And(cs) => cs.len() >= 2 && all_normal(cs, cs.len()),
        Cond::Or(cs) => cs.len() >= 2 && all_normal(cs, cs.len()),
        Cond::Not(inner) => normal(*inner),
        Cond::Always => true,
    }
}

/// Whether the first `n` conditions of a list are normal.
pub open spec fn all_normal(cs: Seq<Cond>, n: nat) -> bool
    decreases cs, n,
{
    if n == 0 || n > cs.len() {
        true
    } else {
        all_normal(cs, (n - 1) as nat) && normal(cs[n - 1])
    }
}

/// A normal condition is printable.
proof fn lemma_normal_printable(c: Cond)
    requires
        normal(c),
    ensures
        printable(c),
    decreases c, 0nat,
{
    match c {
        Cond::And(cs) => {
            lemma_all_normal_printable(cs, cs.len());
        },
        Cond::Or(cs) => {
            lemma_all_normal_printable(cs, cs.len());
        },
        Cond::Not(inner) => {
            lemma_normal_printable(*inner);
        },
        _ => {},
    }
}

proof fn lemma_all_normal_printable(cs: Seq<Cond>, n: nat)
    requires
        n <= cs.len(),
        all_normal(cs, n),
    ensures
        all_printable(cs, n),
    decreases cs, n,
{
    if n > 0 {
        lemma_all_normal_printable(cs, (n - 1) as nat);
        lemma_normal_printable(cs[n - 1]);
    }
}

/// No condition of the list is an `And`.
pub open spec fn no_and(cs: Seq<Cond>) -> bool {
    forall|k: int| 0 <= k < cs.len() ==> !(#[trigger] cs[k] is And)
}

/// No condition of the list is an `Or`.
pub open spec fn no_or(cs: Seq<Cond>) -> bool {
    forall|k: int| 0 <= k < cs.len() ==> !(#[trigger] cs[k] is Or)
}

proof fn lemma_and_text_prefix(a: Seq<Cond>, b: Seq<Cond>, n: nat)
    requires
        n <= a.len(),
        n <= b.len(),
        forall|k: int| 0 <= k < n ==> a[k] == b[k],
    ensures
        and_text(a, n) == and_text(b, n),
    decreases n,
{
    if n > 0 {
        lemma_and_text_prefix(a, b, (n - 1) as nat);
    }
}

proof fn lemma_or_text_prefix(a: Seq<Cond>, b: Seq<Cond>, n: nat)
    requires
        n <= a.len(),
        n <= b.len(),
        forall|k: int| 0 <= k < n ==> a[k] == b[k],
    ensures
        or_text(a, n) == or_text(b, n),
    decreases n,
{
    if n > 0 {
        lemma_or_text_prefix(a, b, (n - 1) as nat);
    }
}

/// The text of two lists of operands put together is their texts with
/// ` AND ` between.
proof fn lemma_and_text_concat(a: Seq<Cond>, b: Seq<Cond>, n: nat)
    requires
        a.len() >= 1,
        1 <= n <= b.len(),
    ensures
        and_text(a + b, a.len() + n) == and_text(a, a.len()) + lit_and() + and_text(b, n),
    decreases n,
{
    let ab = a + b;
    assert(ab[a.len() + n - 1] == b[n - 1]);
    if n == 1 {
        lemma_and_text_prefix(ab, a, a.len());
        assert(and_text(b, 1) == and_item_text(b[0]));
    } else {
        lemma_and_text_concat(a, b, (n - 1) as nat);
        assert(and_text(ab, a.len() + n) == and_text(ab, (a.len() + n - 1) as nat) + lit_and()
            + and_item_text(b[n - 1]));
        assert(and_text(b, n) == and_text(b, (n - 1) as nat) + lit_and() + and_item_text(b[n - 1]));
        assert(and_text(a, a.len()) + lit_and() + and_text(b, (n - 1) as nat) + lit_and()
            + and_item_text(b[n - 1]) =~= and_text(a, a.len()) + lit_and() + (and_text(
            b,
            (n - 1) as nat,
        ) + lit_and() + and_item_text(b[n - 1])));
    }
}

/// The same for ` OR `.
proof fn lemma_or_text_concat(a: Seq<Cond>, b: Seq<Cond>, n: nat)
    requires
        a.len() >= 1,
        1 <= n <= b.len(),
    ensures
        or_text(a + b, a.len() + n) == or_text(a, a.len()) + lit_or() + or_text(b, n),
    decreases n,
{
    let ab = a + b;
    assert(ab[a.len() + n - 1] == b[n - 1]);
    if n == 1 {
        lemma_or_text_prefix(ab, a, a.len());
    } else {
        lemma_or_text_concat(a, b, (n - 1) as nat);
        assert(or_text(ab, a.len() + n) == or_text(ab, (a.len() + n - 1) as nat) + lit_or() + text(
            b[n - 1],
        ));
        assert(or_text(a, a.len()) + lit_or() + or_text(b, (n - 1) as nat) + lit_or() + text(
            b[n - 1],
        ) =~= or_text(a, a.len()) + lit_or() + (or_text(b, (n - 1) as nat) + lit_or() + text(
            b[n - 1],
        )));
    }
}

/// One more operand of an `and_expr`: a `not_expr` from `start` on, then
/// the rest. `guard` is the position that the operand must end behind.
pub open spec fn and_chain(ts: Seq<Tok>, parts: Seq<Cond>, start: int, guard: int) -> Parsed {
    match p_not(ts, start) {
        Ok((c, k)) => if guard < k <= ts.len() {
            and_tail(ts, parts.push(c), k)
        } else {
            Err(ParseFault::UnexpectedEnd)
        },
        Err(e) => Err(e),
    }
}

/// One more operand of an `or_expr`.
pub open spec fn or_chain(ts: Seq<Tok>, parts: Seq<Cond>, start: int, guard: int) -> Parsed {
    match p_and(ts, start) {
        Ok((c, k)) => if guard < k <= ts.len() {
            or_tail(ts, parts.push(c), k)
        } else {
            Err(ParseFault::UnexpectedEnd)
        },
        Err(e) => Err(e),
    }
}

/// Whether the token at `j`, if there is one, is not `t`.
pub open spec fn next_is_not(ts: Seq<Tok>, j: int, t: Tok) -> bool {
    j >= ts.len() || ts[j] != t
}

/// A condition that is no `And` and no `Or` is read back as one `not_expr`.
proof fn lemma_parse_not(ts: Seq<Tok>, i: int, c: Cond, name: Seq<char>) -> (c2: Cond)
    requires
        printable(c),
        !(c is And),
        !(c is Or),
        toks_at(ts, i, toks(c)),
    ensures
        p_not(ts, i) == Ok::<(Cond, int), ParseFault>((c2, i + toks(c).len())),
        eval(c2, name) == eval(c, name),
        !(c2 is And),
        !(c2 is Or),
        normal(c) ==> text(c2) == text(c),
    decreases c, 0nat,
{
    lemma_toks_first(ts, i, toks(c));
    match c {
        Cond::Not(inner) => {
            let x = *inner;
            lemma_toks_nonempty(x);
            if x is And || x is Or {
                lemma_toks_split(ts, i, seq![Tok::Not], in_parens(toks(x)));
                lemma_toks_split(ts, i + 1, seq![Tok::LParen] + toks(x), seq![Tok::RParen]);
                lemma_toks_split(ts, i + 1, seq![Tok::LParen], toks(x));
                lemma_toks_first(ts, i + 1, seq![Tok::LParen]);
                let j = i + 2 + toks(x).len();
                lemma_toks_first(ts, j, seq![Tok::RParen]);
                let x2 = lemma_p_or(ts, i + 2, x, name);
                assert(p_primary(ts, i + 1) == Ok::<(Cond, int), ParseFault>((x2, j + 1)));
                assert(p_not(ts, i + 1) == p_primary(ts, i + 1));
                Cond::Not(Box::new(x2))
            } else {
                lemma_toks_split(ts, i, seq![Tok::Not], toks(x));
                let x2 = lemma_parse_not(ts, i + 1, x, name);
                Cond::Not(Box::new(x2))
            }
        },
        Cond::Glob(p) => c,
        Cond::Regex(p) => c,
        _ => {
            assert(c is Always);
            assert(p_primary(ts, i) == Ok::<(Cond, int), ParseFault>((Cond::Always, i + 1)));
            c
        },
    }
}

/// A condition that is no `Or` is read back as operands of an `and_expr`
/// that hold together exactly when it holds.
proof fn lemma_and_chain(
    ts: Seq<Tok>,
    i: int,
    c: Cond,
    parts: Seq<Cond>,
    guard: int,
    name: Seq<char>,
) -> (more: Seq<Cond>)
    requires
        printable(c),
        !(c is Or),
        toks_at(ts, i, toks(c)),
        guard <= i,
    ensures
        more.len() >= 1,
        and_chain(ts, parts, i, guard) == and_tail(ts, parts + more, i + toks(c).len()),
        eval_all(more, name, more.len()) == eval(c, name),
        normal(c) ==> {
            &&& and_text(more, more.len()) == text(c)
            &&& no_and(more)
            &&& c is And ==> more.len() >= 2
            &&& !(c is And) ==> more.len() == 1 && !(more[0] is Or)
        },
    decreases c, 1nat,
{
    lemma_toks_nonempty(c);
    match c {
        Cond::And(cs) => {
            let more = lemma_and_list(ts, i, cs, cs.len(), parts, guard, name);
            more
        },
        _ => {
            let c2 = lemma_parse_not(ts, i, c, name);
            lemma_eval_single(c2, name);
            assert(parts.push(c2) =~= parts + seq![c2]);
            assert(seq![c2][0] == c2);
            assert(and_text(seq![c2], 1) == text(c2));
            seq![c2]
        },
    }
}

/// One operand of an `And`, in parentheses if it is an `Or`.
proof fn lemma_and_item_chain(
    ts: Seq<Tok>,
    i: int,
    c: Cond,
    parts: Seq<Cond>,
    guard: int,
    name: Seq<char>,
) -> (more: Seq<Cond>)
    requires
        printable(c),
        toks_at(ts, i, and_item(c)),
        guard <= i,
    ensures
        more.len() >= 1,
        and_chain(ts, parts, i, guard) == and_tail(ts, parts + more, i + and_item(c).len()),
        eval_all(more, name, more.len()) == eval(c, name),
        normal(c) ==> and_text(more, more.len()) == and_item_text(c) && no_and(more),
    decreases c, 5nat,
{
    if c is Or {
        lemma_toks_nonempty(c);
        lemma_toks_split(ts, i, seq![Tok::LParen] + toks(c), seq![Tok::RParen]);
        lemma_toks_split(ts, i, seq![Tok::LParen], toks(c));
        lemma_toks_first(ts, i, seq![Tok::LParen]);
        let j = i + 1 + toks(c).len();
        lemma_toks_first(ts, j, seq![Tok::RParen]);
        let c2 = lemma_p_or(ts, i + 1, c, name);
        assert(p_primary(ts, i) == Ok::<(Cond, int), ParseFault>((c2, j + 1)));
        assert(p_not(ts, i) == p_primary(ts, i));
        lemma_eval_single(c2, name);
        assert(parts.push(c2) =~= parts + seq![c2]);
        assert(seq![c2][0] == c2);
        if normal(c) {
            assert(and_text(seq![c2], 1) == wrapped(text(c2)));
        }
        seq![c2]
    } else {
        lemma_and_chain(ts, i, c, parts, guard, name)
    }
}

proof fn lemma_and_list(
    ts: Seq<Tok>,
    i: int,
    cs: Seq<Cond>,
    n: nat,
    parts: Seq<Cond>,
    guard: int,
    name: Seq<char>,
) -> (more: Seq<Cond>)
    requires
        1 <= n <= cs.len(),
        all_printable(cs, n),
        toks_at(ts, i, and_toks(cs, n)),
        guard <= i,
    ensures
        more.len() >= 1,
        and_chain(ts, parts, i, guard) == and_tail(ts, parts + more, i + and_toks(cs, n).len()),
        eval_all(more, name, more.len()) == eval_all(cs, name, n),
        all_normal(cs, n) ==> {
            &&& and_text(more, more.len()) == and_text(cs, n)
            &&& no_and(more)
            &&& more.len() >= n
        },
    decreases cs, n,
{
    if n == 1 {
        let more = lemma_and_item_chain(ts, i, cs[0], parts, guard, name);
        assert(eval_all(cs, name, 0));
        more
    } else {
        let head = and_toks(cs, (n - 1) as nat);
        let item = and_item(cs[n - 1]);
        lemma_and_toks_nonempty(cs, (n - 1) as nat);
        lemma_toks_nonempty(cs[n - 1]);
        lemma_toks_split(ts, i, head + seq![Tok::And], item);
        lemma_toks_split(ts, i, head, seq![Tok::And]);
        let j = i + head.len();
        lemma_toks_first(ts, j, seq![Tok::And]);
        let first = lemma_and_list(ts, i, cs, (n - 1) as nat, parts, guard, name);
        let second = lemma_and_item_chain(ts, j + 1, cs[n - 1], parts + first, j, name);
        assert(and_tail(ts, parts + first, j) == and_chain(ts, parts + first, j + 1, j));
        assert((parts + first) + second =~= parts + (first + second));
        lemma_eval_all_concat(first, second, name);
        if all_normal(cs, n) {
            lemma_and_text_concat(first, second, second.len());
            assert(and_text(cs, n) == and_text(cs, (n - 1) as nat) + lit_and() + and_item_text(
                cs[n - 1],
            ));
            assert forall|k: int| 0 <= k < (first + second).len() implies !(#[trigger] (first
                + second)[k] is And) by {
                if k < first.len() {
                    assert((first + second)[k] == first[k]);
                } else {
                    assert((first + second)[k] == second[k - first.len()]);
                }
            }
        }
        first + second
    }
}

/// A condition that is no `Or` is read back as one `and_expr`, if no `AND`
/// follows it.
proof fn lemma_p_and(ts: Seq<Tok>, i: int, c: Cond, name: Seq<char>) -> (c2: Cond)
    requires
        printable(c),
        !(c is Or),
        toks_at(ts, i, toks(c)),
        next_is_not(ts, i + toks(c).len(), Tok::And),
    ensures
        p_and(ts, i) == Ok::<(Cond, int), ParseFault>((c2, i + toks(c).len())),
        eval(c2, name) == eval(c, name),
        normal(c) ==> text(c2) == text(c) && !(c2 is Or) && (c is And <==> c2 is And),
    decreases c, 2nat,
{
    lemma_toks_nonempty(c);
    let more = lemma_and_chain(ts, i, c, Seq::empty(), i, name);
    assert(Seq::<Cond>::empty() + more =~= more);
    assert(p_and(ts, i) == and_chain(ts, Seq::empty(), i, i)) by {
        match p_not(ts, i) {
            Ok((x, k)) => {
                assert(seq![x] =~= Seq::<Cond>::empty().push(x));
            },
            Err(e) => {},
        }
    }
    lemma_eval_join(more, name);
    if normal(c) && more.len() == 1 {
        assert(and_text(more, 1) == text(more[0]));
    }
    join_and(more)
}

/// A condition is read back as operands of an `or_expr` of which one holds
/// exactly when it holds, if no `AND` follows it.
proof fn lemma_or_chain(
    ts: Seq<Tok>,
    i: int,
    c: Cond,
    parts: Seq<Cond>,
    guard: int,
    name: Seq<char>,
) -> (more: Seq<Cond>)
    requires
        printable(c),
        toks_at(ts, i, toks(c)),
        next_is_not(ts, i + toks(c).len(), Tok::And),
        guard <= i,
    ensures
        more.len() >= 1,
        or_chain(ts, parts, i, guard) == or_tail(ts, parts + more, i + toks(c).len()),
        eval_any(more, name, more.len()) == eval(c, name),
        normal(c) ==> {
            &&& or_text(more, more.len()) == text(c)
            &&& no_or(more)
            &&& c is Or ==> more.len() >= 2
            &&& !(c is Or) ==> more.len() == 1 && (c is And <==> more[0] is And)
        },
    decreases c, 3nat,
{
    lemma_toks_nonempty(c);
    match c {
        Cond::Or(cs) => {
            let more = lemma_or_list(ts, i, cs, cs.len(), parts, guard, name);
            more
        },
        _ => {
            let c2 = lemma_p_and(ts, i, c, name);
            lemma_eval_single(c2, name);
            assert(parts.push(c2) =~= parts + seq![c2]);
            assert(seq![c2][0] == c2);
            assert(or_text(seq![c2], 1) == text(c2));
            seq![c2]
        },
    }
}

proof fn lemma_or_list(
    ts: Seq<Tok>,
    i: int,
    cs: Seq<Cond>,
    n: nat,
    parts: Seq<Cond>,
    guard: int,
    name: Seq<char>,
) -> (more: Seq<Cond>)
    requires
        1 <= n <= cs.len(),
        all_printable(cs, n),
        toks_at(ts, i, or_toks(cs, n)),
        next_is_not(ts, i + or_toks(cs, n).len(), Tok::And),
        guard <= i,
    ensures
        more.len() >= 1,
        or_chain(ts, parts, i, guard) == or_tail(ts, parts + more, i + or_toks(cs, n).len()),
        eval_any(more, name, more.len()) == eval_any(cs, name, n),
        all_normal(cs, n) ==> {
            &&& or_text(more, more.len()) == or_text(cs, n)
            &&& no_or(more)
            &&& more.len() >= n
        },
    decreases cs, n,
{
    if n == 1 {
        let more = lemma_or_chain(ts, i, cs[0], parts, guard, name);
        assert(!eval_any(cs, name, 0));
        more
    } else {
        let head = or_toks(cs, (n - 1) as nat);
        let item = toks(cs[n - 1]);
        lemma_or_toks_nonempty(cs, (n - 1) as nat);
        lemma_toks_nonempty(cs[n - 1]);
        lemma_toks_split(ts, i, head + seq![Tok::Or], item);
        lemma_toks_split(ts, i, head, seq![Tok::Or]);
        let j = i + head.len();
        lemma_toks_first(ts, j, seq![Tok::Or]);
        let first = lemma_or_list(ts, i, cs, (n - 1) as nat, parts, guard, name);
        let second = lemma_or_chain(ts, j + 1, cs[n - 1], parts + first, j, name);
        assert(or_tail(ts, parts + first, j) == or_chain(ts, parts + first, j + 1, j));
        assert((parts + first) + second =~= parts + (first + second));
        lemma_eval_any_concat(first, second, name);
        if all_normal(cs, n) {
            lemma_or_text_concat(first, second, second.len());
            assert(or_text(cs, n) == or_text(cs, (n - 1) as nat) + lit_or() + text(cs[n - 1]));
            assert forall|k: int| 0 <= k < (first + second).len() implies !(#[trigger] (first
                + second)[k] is Or) by {
                if k < first.len() {
                    assert((first + second)[k] == first[k]);
                } else {
                    assert((first + second)[k] == second[k - first.len()]);
                }
            }
        }
        first + second
    }
}

/// A condition is read back as one `or_expr`, if neither `AND` nor `OR`
/// follows it.
proof fn lemma_p_or(ts: Seq<Tok>, i: int, c: Cond, name: Seq<char>) -> (c2: Cond)
    requires
        printable(c),
        toks_at(ts, i, toks(c)),
        next_is_not(ts, i + toks(c).len(), Tok::And),
        next_is_not(ts, i + toks(c).len(), Tok::Or),
    ensures
        p_or(ts, i) == Ok::<(Cond, int), ParseFault>((c2, i + toks(c).len())),
        eval(c2, name) == eval(c, name),
        normal(c) ==> text(c2) == text(c) && (c is And <==> c2 is And) && (c is Or <==> c2 is Or),
    decreases c, 4nat,
{
    lemma_toks_nonempty(c);
    let more = lemma_or_chain(ts, i, c, Seq::empty(), i, name);
    assert(Seq::<Cond>::empty() + more =~= more);
    assert(p_or(ts, i) == or_chain(ts, Seq::empty(), i, i)) by {
        match p_and(ts, i) {
            Ok((x, k)) => {
                assert(seq![x] =~= Seq::<Cond>::empty().push(x));
            },
            Err(e) => {},
        }
    }
    lemma_eval_join(more, name);
    if normal(c) && more.len() == 1 {
        assert(or_text(more, 1) == text(more[0]));
    }
    join_or(more)
}

/// The empty text and the text `*` both stand for `Always`, which holds of
/// every name.
pub proof fn lemma_default_texts(name: Seq<char>)
    ensures
        parse_text(Seq::empty()) == Ok::<Cond, ParseFault>(Cond::Always),
        parse_text(seq!['*']) == Ok::<Cond, ParseFault>(Cond::Always),
        eval(Cond::Always, name),
{
    let star = seq!['*'];
    assert(lex(Seq::<char>::empty(), 0) == Some(Seq::<Tok>::empty()));
    assert(text(Cond::Always) == star);
    lemma_lex_of_text(Cond::Always);
    let ts = seq![Tok::Glob(star)];
    assert(p_primary(ts, 0) == Ok::<(Cond, int), ParseFault>((Cond::Always, 1int)));
    assert(p_not(ts, 0) == p_primary(ts, 0));
    assert(and_tail(ts, seq![Cond::Always], 1) == Ok::<(Cond, int), ParseFault>(
        (Cond::Always, 1int),
    ));
    assert(or_tail(ts, seq![Cond::Always], 1) == Ok::<(Cond, int), ParseFault>(
        (Cond::Always, 1int),
    ));
}

/// Round trip: the text of a condition that the grammar can express parses,
/// and what it parses to holds of a name exactly when the condition does.
pub proof fn lemma_round_trip(c: Cond, name: Seq<char>)
    requires
        printable(c),
    ensures
        parse_text(text(c)) matches Ok(c2) && eval(c2, name) == eval(c, name),
{
    lemma_lex_of_text(c);
    lemma_toks_nonempty(c);
    let ts = toks(c);
    assert(ts.subrange(0, ts.len() as int) =~= ts);
    let c2 = lemma_p_or(ts, 0, c, name);
    assert(parse_tokens(ts) == Ok::<Cond, ParseFault>(c2));
}

/// A token whose pattern the text syntax can hold.
pub open spec fn good_tok(t: Tok) -> bool {
    match t {
        Tok::Glob(p) => {
            &&& p.len() > 0
            &&& forall|k: int| 0 <= k < p.len() ==> !is_delim(#[trigger] p[k])
            &&& p[0] != '/'
            &&& !is_keyword(p)
        },
        Tok::Regex(p) => closed_body(p),
        _ => true,
    }
}

/// Whether every token of a list is good.
pub open spec fn good_toks(ts: Seq<Tok>) -> bool {
    forall|k: int| 0 <= k < ts.len() ==> good_tok(#[trigger] ts[k])
}

proof fn lemma_glob_end_props(s: Seq<char>, i: int)
    requires
        0 <= i <= s.len(),
    ensures
        i <= glob_end(s, i) <= s.len(),
        is_boundary(s, glob_end(s, i)),
        forall|k: int| i <= k < glob_end(s, i) ==> !is_delim(#[trigger] s[k]),
    decreases s.len() - i,
{
    if i < s.len() && !is_delim(s[i]) {
        lemma_glob_end_props(s, i + 1);
    }
}

proof fn lemma_regex_end_props(s: Seq<char>, i: int)
    requires
        0 <= i <= s.len(),
    ensures
        i <= regex_end(s, i) <= s.len(),
        regex_end(s, i) < s.len() ==> s[regex_end(s, i)] == '/',
    decreases s.len() - i,
{
    if i < s.len() && s[i] != '/' {
        if s[i] == '\\' && i + 1 < s.len() {
            lemma_regex_end_props(s, i + 2);
        } else {
            lemma_regex_end_props(s, i + 1);
        }
    }
}

proof fn lemma_cons_good(t: Tok, rest: Option<Seq<Tok>>)
    requires
        good_tok(t),
        rest matches Some(ts) ==> good_toks(ts),
    ensures
        cons(t, rest) matches Some(ts) ==> good_toks(ts),
{
    if let Some(ts) = rest {
        let all = seq![t] + ts;
        assert forall|k: int| 0 <= k < all.len() implies good_tok(#[trigger] all[k]) by {
            if k > 0 {
                assert(all[k] == ts[k - 1]);
            }
        }
    }
}

/// Every token that the lexer gives is good.
proof fn lemma_lex_good(s: Seq<char>, i: int)
    requires
        0 <= i <= s.len(),
    ensures
        lex(s, i) matches Some(ts) ==> good_toks(ts),
    decreases s.len() - i,
{
    if i >= s.len() {
    } else if is_space(s[i]) {
        lemma_lex_good(s, i + 1);
    } else if s[i] == '(' {
        lemma_lex_good(s, i + 1);
        lemma_cons_good(Tok::LParen, lex(s, i + 1));
    } else if s[i] == ')' {
        lemma_lex_good(s, i + 1);
        lemma_cons_good(Tok::RParen, lex(s, i + 1));
    } else if s[i] == '/' {
        let e = regex_end(s, i + 1);
        lemma_regex_end_props(s, i + 1);
        if i + 1 <= e < s.len() {
            let p = s.subrange(i + 1, e);
            let q = p.push('/');
            assert(s.subrange(i + 1, i + 1 + q.len()) =~= q);
            lemma_regex_end_shift(s, i + 1, p, 0);
            lemma_regex_end_props(s, e + 1);
            assert(closed_body(p));
            lemma_lex_good(s, e + 1);
            lemma_cons_good(Tok::Regex(p), lex(s, e + 1));
        }
    } else {
        match keyword_at(s, i) {
            Some((t, n)) => {
                lemma_lex_good(s, i + n);
                lemma_cons_good(t, lex(s, i + n));
            },
            None => {
                let e = glob_end(s, i);
                lemma_glob_end_props(s, i);
                if i < e <= s.len() {
                    let p = s.subrange(i, e);
                    assert(p[0] == s[i]);
                    assert forall|k: int| 0 <= k < p.len() implies !is_delim(#[trigger] p[k]) by {
                        assert(p[k] == s[i + k]);
                    }
                    if p.len() == 3 {
                        assert(p[0] == s[i] && p[1] == s[i + 1] && p[2] == s[i + 2]);
                    }
                    if p.len() == 2 {
                        assert(p[0] == s[i] && p[1] == s[i + 1]);
                    }
                    assert(!is_keyword(p));
                    lemma_lex_good(s, e);
                    lemma_cons_good(Tok::Glob(p), lex(s, e));
                }
            },
        }
    }
}

proof fn lemma_all_normal_prefix(parts: Seq<Cond>, c: Cond, n: nat)
    requires
        n <= parts.len(),
    ensures
        all_normal(parts.push(c), n) == all_normal(parts, n),
    decreases n,
{
    if n > 0 {
        lemma_all_normal_prefix(parts, c, (n - 1) as nat);
        assert(parts.push(c)[n - 1] == parts[n - 1]);
    }
}

proof fn lemma_all_normal_push(parts: Seq<Cond>, c: Cond)
    requires
        all_normal(parts, parts.len()),
        normal(c),
    ensures
        all_normal(parts.push(c), parts.len() + 1),
{
    lemma_all_normal_prefix(parts, c, parts.len());
    assert(parts.push(c)[parts.len() as int] == c);
}

proof fn lemma_join_normal(parts: Seq<Cond>)
    requires
        parts.len() >= 1,
        all_normal(parts, parts.len()),
    ensures
        normal(join_and(parts)),
        normal(join_or(parts)),
{
    if parts.len() == 1 {
        assert(all_normal(parts, 0));
    }
}

/// Whether what was parsed, if anything, is normal.
pub open spec fn result_normal(r: Parsed) -> bool {
    r matches Ok(x) ==> normal(x.0)
}

proof fn lemma_primary_normal(ts: Seq<Tok>, i: int)
    requires
        good_toks(ts),
    ensures
        result_normal(p_primary(ts, i)),
    decreases ts.len() - i, 0nat,
{
    if 0 <= i < ts.len() {
        assert(good_tok(ts[i]));
        match ts[i] {
            Tok::LParen => {
                lemma_or_normal(ts, i + 1);
            },
            _ => {},
        }
    }
}

proof fn lemma_not_normal(ts: Seq<Tok>, i: int)
    requires
        good_toks(ts),
    ensures
        result_normal(p_not(ts, i)),
    decreases ts.len() - i, 1nat,
{
    if 0 <= i < ts.len() {
        if ts[i] == Tok::Not {
            lemma_not_normal(ts, i + 1);
        } else {
            lemma_primary_normal(ts, i);
        }
    }
}

proof fn lemma_and_tail_normal(ts: Seq<Tok>, parts: Seq<Cond>, j: int)
    requires
        good_toks(ts),
        parts.len() >= 1,
        all_normal(parts, parts.len()),
    ensures
        result_normal(and_tail(ts, parts, j)),
    decreases ts.len() - j, 2nat,
{
    if 0 <= j < ts.len() && ts[j] == Tok::And {
        lemma_not_normal(ts, j + 1);
        match p_not(ts, j + 1) {
            Ok((c, k)) => {
                if j < k <= ts.len() {
                    lemma_all_normal_push(parts, c);
                    lemma_and_tail_normal(ts, parts.push(c), k);
                }
            },
            Err(e) => {},
        }
    } else {
        lemma_join_normal(parts);
    }
}

proof fn lemma_and_normal(ts: Seq<Tok>, i: int)
    requires
        good_toks(ts),
    ensures
        result_normal(p_and(ts, i)),
    decreases ts.len() - i, 3nat,
{
    lemma_not_normal(ts, i);
    match p_not(ts, i) {
        Ok((c, j)) => {
            if i < j <= ts.len() {
                assert(all_normal(seq![c], 0));
                assert(seq![c][0] == c);
                lemma_and_tail_normal(ts, seq![c], j);
            }
        },
        Err(e) => {},
    }
}

proof fn lemma_or_tail_normal(ts: Seq<Tok>, parts: Seq<Cond>, j: int)
    requires
        good_toks(ts),
        parts.len() >= 1,
        all_normal(parts, parts.len()),
    ensures
        result_normal(or_tail(ts, parts, j)),
    decreases ts.len() - j, 4nat,
{
    if 0 <= j < ts.len() && ts[j] == Tok::Or {
        lemma_and_normal(ts, j + 1);
        match p_and(ts, j + 1) {
            Ok((c, k)) => {
                if j < k <= ts.len() {
                    lemma_all_normal_push(parts, c);
                    lemma_or_tail_normal(ts, parts.push(c), k);
                }
            },
            Err(e) => {},
        }
    } else {
        lemma_join_normal(parts);
    }
}

proof fn lemma_or_normal(ts: Seq<Tok>, i: int)
    requires
        good_toks(ts),
    ensures
        result_normal(p_or(ts, i)),
    decreases ts.len() - i, 5nat,
{
    lemma_and_normal(ts, i);
    match p_and(ts, i) {
        Ok((c, j)) => {
            if i < j <= ts.len() {
                assert(all_normal(seq![c], 0));
                assert(seq![c][0] == c);
                lemma_or_tail_normal(ts, seq![c], j);
            }
        },
        Err(e) => {},
    }
}

/// Whatever a text parses to is normal: every `And` and `Or` in it has at
/// least two operands, and every pattern fits into one token.
pub proof fn lemma_parsed_is_normal(s: Seq<char>)
    ensures
        parse_text(s) matches Ok(c) ==> normal(c),
{
    lemma_lex_good(s, 0);
    if let Some(ts) = lex(s, 0) {
        if ts.len() > 0 {
            lemma_or_normal(ts, 0);
        }
    }
}

/// Whatever a text parses to is a condition that the grammar can express.
pub proof fn lemma_parsed_is_printable(s: Seq<char>)
    ensures
        parse_text(s) matches Ok(c) ==> printable(c),
{
    lemma_parsed_is_normal(s);
    if let Ok(c) = parse_text(s) {
        lemma_normal_printable(c);
    }
}

/// The text of a normal condition is stable: it parses, and what it parses
/// to is written out as the same text.
pub proof fn lemma_text_stable(c: Cond)
    requires
        normal(c),
    ensures
        parse_text(text(c)) matches Ok(c2) && text(c2) == text(c),
{
    lemma_normal_printable(c);
    lemma_lex_of_text(c);
    lemma_toks_nonempty(c);
    let ts = toks(c);
    assert(ts.subrange(0, ts.len() as int) =~= ts);
    let c2 = lemma_p_or(ts, 0, c, Seq::empty());
    assert(parse_tokens(ts) == Ok::<Cond, ParseFault>(c2));
}

/// Printing, parsing and printing again gives the same text: what a text
/// parses to is written out as a text that parses to a condition with that
/// same text.
pub proof fn lemma_reprint(s: Seq<char>)
    ensures
        parse_text(s) matches Ok(c) ==> (parse_text(text(c)) matches Ok(c2) && text(c2) == text(c)),
{
    lemma_parsed_is_normal(s);
    if let Ok(c) = parse_text(s) {
        lemma_text_stable(c);
    }
}

/// Round trip from a text: what a text parses to, written out and parsed
/// again, holds of a name exactly when it did before.
pub proof fn lemma_reparse(s: Seq<char>, name: Seq<char>)
    ensures
        parse_text(s) matches Ok(c) ==> (parse_text(text(c)) matches Ok(c2) && eval(c2, name)
            == eval(c, name)),
{
    lemma_parsed_is_printable(s);
    if let Ok(c) = parse_text(s) {
        lemma_round_trip(c, name);
    }
}

} // verus!
