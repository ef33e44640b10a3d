//! What the table viewer needs before it asks the store: which tables may
//! be read, which page, and the pattern for a search term.

use vstd::prelude::*;
use crate::text::{chars_of, same_text};

verus! {

/// How many rows a page holds where the caller does not say.
pub const DEFAULT_PAGE_SIZE: u32 = 50;

/// Whether a table may be read and cleared by name.
pub open spec fn allowed_table(table: Seq<char>) -> bool {
    table == "activity_log"@ || table == "file_index"@ || table == "undo_history"@ || table
        == "rule_metadata"@
}

/// Check a table name against the tables that the viewer may touch.
pub fn is_allowed_table(table: &str) -> (r: bool)
    ensures
        r == allowed_table(table@),
{
    same_text(table, "activity_log") || same_text(table, "file_index") || same_text(
        table,
        "undo_history",
    ) || same_text(table, "rule_metadata")
}

/// The message for a table that may not be touched.
pub fn table_refused(table: &str) -> (m: String)
    ensures
        m@ == "Table '"@ + table@ + "' not allowed"@,
{
    let mut m = String::from_str("Table '");
    m.append(table);
    m.append("' not allowed");
    m
}

/// The page to read: the limit and offset asked for, or the first page of
/// fifty rows.
pub fn page(limit: Option<u32>, offset: Option<u32>) -> (r: (u32, u32))
    ensures
        r.0 == match limit {
            Some(n) => n,
            None => DEFAULT_PAGE_SIZE,
        },
        r.1 == match offset {
            Some(n) => n,
            None => 0,
        },
{
    let l = match limit {
        Some(n) => n,
        None => DEFAULT_PAGE_SIZE,
    };
    let o = match offset {
        Some(n) => n,
        None => 0,
    };
    (l, o)
}

/// The first `n` characters of a term, with a backslash before each `%` and
/// each `_`: in a LIKE pattern they would stand for other characters.
pub open spec fn escaped(term: Seq<char>, n: nat) -> Seq<char>
    decreases n,
{
    if n == 0 || n > term.len() {
        Seq::empty()
    } else if term[n - 1] == '%' || term[n - 1] == '_' {
        escaped(term, (n - 1) as nat).push('\\').push(term[n - 1])
    } else {
        escaped(term, (n - 1) as nat).push(term[n - 1])
    }
}

/// The LIKE pattern that finds a term anywhere in a text, taken literally.
pub open spec fn like_pattern_of(term: Seq<char>) -> Seq<char> {
    seq!['%'] + escaped(term, term.len()) + seq!['%']
}

/// The LIKE pattern for a search term.
pub fn like_pattern(term: &str) -> (r: String)
    ensures
        r@ == like_pattern_of(term@),
{
    let chars = chars_of(term);
    let mut out = String::new();
    out.push('%');
    let mut i: usize = 0;
    proof {
        assert(out@ =~= seq!['%'] + escaped(term@, 0));
    }
    while i < chars.len()
        invariant
            i <= chars.len(),
            chars@ == term@,
            out@ == seq!['%'] + escaped(term@, i as nat),
        decreases chars.len() - i,
    {
        let c = chars[i];
        if c == '%' || c == '_' {
            out.push('\\');
        }
        out.push(c);
        proof {
            assert(out@ =~= seq!['%'] + escaped(term@, (i + 1) as nat));
        }
        i = i + 1;
    }
    out.push('%');
    proof {
        assert(out@ =~= like_pattern_of(term@));
    }
    out
}

} // verus!
