//! Names for moved files: when the name is taken at the destination, ` (n)`
//! goes before the extension, with `n` counting from 1 until a name is free.

use vstd::prelude::*;
use crate::text::{chars_of, string_of};

verus! {

/// The character for a digit value.
pub open spec fn digit(d: int) -> char {
    if d == 0 {
        '0'
    } else if d == 1 {
        '1'
    } else if d == 2 {
        '2'
    } else if d == 3 {
        '3'
    } else if d == 4 {
        '4'
    } else if d == 5 {
        '5'
    } else if d == 6 {
        '6'
    } else if d == 7 {
        '7'
    } else if d == 8 {
        '8'
    } else {
        '9'
    }
}

/// A number in decimal, without leading zeros.
pub open spec fn decimal(n: nat) -> Seq<char>
    decreases n,
{
    if n < 10 {
        seq![digit(n as int)]
    } else {
        decimal(n / 10).push(digit((n % 10) as int))
    }
}

fn digit_char(d: u8) -> (c: char)
    requires
        d < 10,
    ensures
        c == digit(d as int),
{
    if d == 0 {
        '0'
    } else if d == 1 {
        '1'
    } else if d == 2 {
        '2'
    } else if d == 3 {
        '3'
    } else if d == 4 {
        '4'
    } else if d == 5 {
        '5'
    } else if d == 6 {
        '6'
    } else if d == 7 {
        '7'
    } else if d == 8 {
        '8'
    } else {
        '9'
    }
}

/// The decimal form of a number.
pub fn decimal_string(n: u128) -> (s: String)
    ensures
        s@ == decimal(n as nat),
    decreases n,
{
    if n < 10 {
        let mut s = String::new();
        s.push(digit_char(n as u8));
        proof {
            assert(s@ =~= seq![digit(n as int)]);
        }
        s
    } else {
        let mut s = decimal_string(n / 10);
        s.push(digit_char((n % 10) as u8));
        s
    }
}

/// The position of the last `.` before position `n`, or -1.
pub open spec fn last_dot(s: Seq<char>, n: int) -> int
    decreases n,
{
    if n <= 0 {
        -1
    } else if s[n - 1] == '.' {
        n - 1
    } else {
        last_dot(s, n - 1)
    }
}

/// Where the extension of a file name begins: at its last `.`. A name
/// without a `.`, one whose only `.` comes first, and the name `..` have no
/// extension.
pub open spec fn stem_len(name: Seq<char>) -> int {
    let d = last_dot(name, name.len() as int);
    if d <= 0 || name == seq!['.', '.'] {
        name.len() as int
    } else {
        d
    }
}

/// The name without its extension.
pub open spec fn stem(name: Seq<char>) -> Seq<char> {
    name.subrange(0, stem_len(name))
}

/// The extension with its `.`, or nothing.
pub open spec fn dot_extension(name: Seq<char>) -> Seq<char> {
    name.subrange(stem_len(name), name.len() as int)
}

/// The position at which a file name splits into stem and extension.
pub fn split_point(name: &[char]) -> (at: usize)
    ensures
        at as int == stem_len(name@),
        at <= name@.len(),
{
    let n: usize = name.len();
    if n == 2 && name[0] == '.' && name[1] == '.' {
        proof {
            assert(name@ =~= seq!['.', '.']);
        }
        return n;
    }
    proof {
        if name@ == seq!['.', '.'] {
            assert(seq!['.', '.'].len() == 2);
            assert(seq!['.', '.'][0] == '.');
            assert(seq!['.', '.'][1] == '.');
        }
    }
    let mut i: usize = n;
    while i > 0 && name[i - 1] != '.'
        invariant
            i <= n,
            n == name@.len(),
            last_dot(name@, i as int) == last_dot(name@, n as int),
        decreases i,
    {
        i = i - 1;
    }
    if i <= 1 {
        n
    } else {
        i - 1
    }
}

/// The `n`-th other name for a file: ` (n)` between stem and extension.
pub open spec fn candidate(stem: Seq<char>, n: nat, ext: Seq<char>) -> Seq<char> {
    stem + seq![' ', '('] + decimal(n) + seq![')'] + ext
}

fn candidate_name(stem: &String, n: u128, ext: &String) -> (r: String)
    ensures
        r@ == candidate(stem@, n as nat, ext@),
{
    let digits = decimal_string(n);
    let mut out = stem.clone();
    out.push(' ');
    out.push('(');
    out.append(digits.as_str());
    out.push(')');
    out.append(ext.as_str());
    proof {
        assert(out@ =~= candidate(stem@, n as nat, ext@));
    }
    out
}

/// The name that is tried as number `n` for a file: its own name first,
/// then `stem (1).ext`, `stem (2).ext` and so on.
pub open spec fn numbered(file_name: Seq<char>, n: nat) -> Seq<char> {
    if n == 0 {
        file_name
    } else {
        candidate(stem(file_name), n, dot_extension(file_name))
    }
}

/// The name to try as number `n` for a file.
pub fn numbered_name(file_name: &str, n: u64) -> (r: String)
    ensures
        r@ == numbered(file_name@, n as nat),
{
    if n == 0 {
        String::from_str(file_name)
    } else {
        let chars = chars_of(file_name);
        let at = split_point(chars.as_slice());
        let stem_part = string_of(chars.as_slice(), 0, at);
        let ext_part = string_of(chars.as_slice(), at, chars.len());
        candidate_name(&stem_part, n as u128, &ext_part)
    }
}

} // verus!
