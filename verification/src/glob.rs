//! Wildcard matching: `*` stands for any run of characters, `?` for exactly one.

use vstd::prelude::*;
use crate::text::{chars_of, lowercase, to_lower};

verus! {

/// What it means for a pattern to match a text, character by character.
/// Case is not considered here: callers fold both sides first.
pub open spec fn glob_matches(pat: Seq<char>, txt: Seq<char>) -> bool
    decreases pat.len(), txt.len(),
{
    if pat.len() == 0 {
        txt.len() == 0
    } else if pat[0] == '*' {
        glob_matches(pat.skip(1), txt) || (txt.len() > 0 && glob_matches(pat, txt.skip(1)))
    } else if txt.len() == 0 {
        false
    } else if pat[0] == '?' || pat[0] == txt[0] {
        glob_matches(pat.skip(1), txt.skip(1))
    } else {
        false
    }
}

/// `glob_matches` on the suffixes that start at `p` and `t`.
pub open spec fn matches_from(pat: Seq<char>, txt: Seq<char>, p: int, t: int) -> bool {
    glob_matches(pat.skip(p), txt.skip(t))
}

proof fn lemma_skip_skip(s: Seq<char>, a: int)
    requires
        0 <= a < s.len(),
    ensures
        s.skip(a).skip(1) == s.skip(a + 1),
        s.skip(a)[0] == s[a],
        s.skip(a).len() == s.len() - a,
{
    assert(s.skip(a).skip(1) =~= s.skip(a + 1));
}

/// One step of the definition, stated on positions.
proof fn lemma_unfold(pat: Seq<char>, txt: Seq<char>, p: int, t: int)
    requires
        0 <= p <= pat.len(),
        0 <= t <= txt.len(),
    ensures
        p == pat.len() ==> (matches_from(pat, txt, p, t) <==> t == txt.len()),
        p < pat.len() && pat[p] == '*' ==> (matches_from(pat, txt, p, t) <==> (matches_from(
            pat,
            txt,
            p + 1,
            t,
        ) || (t < txt.len() && matches_from(pat, txt, p, t + 1)))),
        p < pat.len() && pat[p] != '*' && t == txt.len() ==> !matches_from(pat, txt, p, t),
        p < pat.len() && pat[p] != '*' && t < txt.len() ==> (matches_from(pat, txt, p, t) <==> ((
        pat[p] == '?' || pat[p] == txt[t]) && matches_from(pat, txt, p + 1, t + 1))),
{
    if p < pat.len() {
        lemma_skip_skip(pat, p);
    }
    if t < txt.len() {
        lemma_skip_skip(txt, t);
    }
}

/// A `*` that matches from a later position also matches from an earlier one.
proof fn lemma_star_absorbs(pat: Seq<char>, txt: Seq<char>, p: int, t1: int, t2: int)
    requires
        0 <= p < pat.len(),
        pat[p] == '*',
        0 <= t1 <= t2 <= txt.len(),
        matches_from(pat, txt, p, t2),
    ensures
        matches_from(pat, txt, p, t1),
    decreases t2 - t1,
{
    if t1 < t2 {
        lemma_star_absorbs(pat, txt, p, t1 + 1, t2);
        lemma_unfold(pat, txt, p, t1);
    }
}

/// A `*` matches from `t` exactly when what follows it matches from some later position.
proof fn lemma_star_choice(pat: Seq<char>, txt: Seq<char>, p: int, t: int)
    requires
        0 <= p < pat.len(),
        pat[p] == '*',
        0 <= t <= txt.len(),
        matches_from(pat, txt, p, t),
    ensures
        exists|k: int| t <= k <= txt.len() && #[trigger] matches_from(pat, txt, p + 1, k),
    decreases txt.len() - t,
{
    lemma_unfold(pat, txt, p, t);
    if matches_from(pat, txt, p + 1, t) {
    } else {
        lemma_star_choice(pat, txt, p, t + 1);
    }
}

/// A stretch of the pattern without `*` consumes exactly its own length.
proof fn lemma_fixed_segment(pat: Seq<char>, txt: Seq<char>, a: int, b: int, t: int)
    requires
        0 <= a <= b <= pat.len(),
        0 <= t <= txt.len(),
        forall|j: int| a <= j < b ==> pat[j] != '*',
        matches_from(pat, txt, a, t),
    ensures
        t + (b - a) <= txt.len(),
        matches_from(pat, txt, b, t + (b - a)),
    decreases b - a,
{
    if a < b {
        lemma_unfold(pat, txt, a, t);
        lemma_fixed_segment(pat, txt, a + 1, b, t + 1);
    }
}

/// Two-pointer scan with one bookmark: the position of the last `*` seen and
/// the text offset at which the pattern after it is currently being tried. On
/// a mismatch the scan goes back to just after that `*` and tries one
/// character further on.
pub fn glob_match_impl(pat: &[char], txt: &[char]) -> (matched: bool)
    ensures
        matched == glob_matches(pat@, txt@),
{
    let plen: usize = pat.len();
    let tlen: usize = txt.len();
    let mut px: usize = 0;
    let mut tx: usize = 0;
    let mut has_star: bool = false;
    let mut star_px: usize = 0;
    let mut star_tx: usize = 0;
    proof {
        assert(pat@.skip(0) =~= pat@);
        assert(txt@.skip(0) =~= txt@);
    }
    while tx < tlen
        invariant
            plen == pat@.len(),
            tlen == txt@.len(),
            px <= plen,
            tx <= tlen,
            star_tx <= tx,
            !has_star ==> star_tx == 0 && (glob_matches(pat@, txt@) <==> matches_from(
                pat@,
                txt@,
                px as int,
                tx as int,
            )),
            has_star ==> {
                &&& star_px < px
                &&& pat@[star_px as int] == '*'
                &&& tx - star_tx == px - star_px - 1
                &&& forall|j: int| star_px < j < px ==> pat@[j] != '*'
                &&& (glob_matches(pat@, txt@) <==> matches_from(
                    pat@,
                    txt@,
                    star_px as int,
                    star_tx as int,
                ))
                &&& (matches_from(pat@, txt@, star_px + 1, star_tx as int) <==> matches_from(
                    pat@,
                    txt@,
                    px as int,
                    tx as int,
                ))
            },
        decreases tlen - star_tx, tlen - tx, plen - px,
    {
        proof {
            lemma_unfold(pat@, txt@, px as int, tx as int);
        }
        if px < plen && pat[px] == '*' {
            proof {
                if has_star {
                    // Whatever the earlier `*` could do, this one can do as well.
                    if matches_from(pat@, txt@, star_px as int, star_tx as int) {
                        lemma_star_choice(pat@, txt@, star_px as int, star_tx as int);
                        let k = choose|k: int|
                            star_tx <= k <= txt@.len() && #[trigger] matches_from(
                                pat@,
                                txt@,
                                star_px + 1,
                                k,
                            );
                        lemma_fixed_segment(pat@, txt@, star_px + 1, px as int, k);
                        lemma_star_absorbs(
                            pat@,
                            txt@,
                            px as int,
                            tx as int,
                            k + (px - star_px - 1),
                        );
                    }
                    if matches_from(pat@, txt@, px as int, tx as int) {
                        lemma_unfold(pat@, txt@, star_px as int, star_tx as int);
                    }
                }
            }
            has_star = true;
            star_px = px;
            star_tx = tx;
            px = px + 1;
        } else if px < plen && (pat[px] == '?' || pat[px] == txt[tx]) {
            px = px + 1;
            tx = tx + 1;
        } else if has_star {
            proof {
                lemma_unfold(pat@, txt@, star_px as int, star_tx as int);
            }
            px = star_px + 1;
            star_tx = star_tx + 1;
            tx = star_tx;
        } else {
            return false;
        }
    }
    proof {
        if has_star {
            // No later offset for the bookmarked `*` is left: the stretch after
            // it would run past the end of the text.
            if matches_from(pat@, txt@, star_px as int, star_tx as int) && !matches_from(
                pat@,
                txt@,
                px as int,
                tx as int,
            ) {
                lemma_star_choice(pat@, txt@, star_px as int, star_tx as int);
                let k = choose|k: int|
                    star_tx <= k <= txt@.len() && #[trigger] matches_from(
                        pat@,
                        txt@,
                        star_px + 1,
                        k,
                    );
                lemma_fixed_segment(pat@, txt@, star_px + 1, px as int, k);
            }
            if matches_from(pat@, txt@, px as int, tx as int) {
                lemma_unfold(pat@, txt@, star_px as int, star_tx as int);
            }
        }
    }
    assert(glob_matches(pat@, txt@) <==> matches_from(pat@, txt@, px as int, tlen as int));
    while px < plen && pat[px] == '*'
        invariant
            plen == pat@.len(),
            tlen == txt@.len(),
            px <= plen,
            glob_matches(pat@, txt@) <==> matches_from(pat@, txt@, px as int, tlen as int),
        decreases plen - px,
    {
        proof {
            lemma_unfold(pat@, txt@, px as int, tlen as int);
        }
        px = px + 1;
    }
    proof {
        lemma_unfold(pat@, txt@, px as int, tlen as int);
    }
    px == plen
}

/// Whether `text` matches the wildcard `pattern`, ignoring case: both are
/// brought to lower case and then compared character by character.
pub fn glob_match(pattern: &str, text: &str) -> (matched: bool)
    ensures
        matched == glob_matches(lowercase(pattern@), lowercase(text@)),
{
    let pat = to_lower(pattern);
    let txt = to_lower(text);
    let pat_chars = chars_of(pat.as_str());
    let txt_chars = chars_of(txt.as_str());
    glob_match_impl(pat_chars.as_slice(), txt_chars.as_slice())
}

} // verus!
