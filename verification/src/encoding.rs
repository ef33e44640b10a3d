//! Text from the bytes of a file: UTF-8 with or without a byte order mark,
//! or UTF-16 in either byte order behind its mark.

use vstd::prelude::*;
use vstd::utf8::{decode_utf8, valid_utf8};
use crate::text::{chars_of, string_of};

verus! {

#[verifier::external_type_specification]
#[verifier::external_body]
pub struct ExFromUtf8Error(std::string::FromUtf8Error);

#[verifier::external_type_specification]
#[verifier::external_body]
pub struct ExFromUtf16Error(std::string::FromUtf16Error);

/// The text that a sequence of UTF-16 code units stands for, as
/// `String::from_utf16` decodes it; `None` where it holds an unpaired
/// surrogate.
pub uninterp spec fn utf16_text(units: Seq<u16>) -> Option<Seq<char>>;

/// Calls `String::from_utf8`: the text of the bytes if they are valid
/// UTF-8, else an error.
#[verifier::external_body]
pub(crate) fn text_from_utf8(bytes: Vec<u8>) -> (r: Result<String, std::string::FromUtf8Error>)
    ensures
        r is Ok <==> valid_utf8(bytes@),
        r matches Ok(s) ==> s@ == decode_utf8(bytes@),
{
    String::from_utf8(bytes)
}

/// Calls `String::from_utf16`. The contract gives the decoded text its
/// name.
#[verifier::external_body]
pub(crate) fn text_from_utf16(units: &Vec<u16>) -> (r: Result<String, std::string::FromUtf16Error>)
    ensures
        r is Ok <==> utf16_text(units@) is Some,
        r matches Ok(s) ==> utf16_text(units@) == Some(s@),
{
    String::from_utf16(units)
}

/// The message of a UTF-8 error, as its `Display` impl writes it.
#[verifier::external_body]
pub(crate) fn utf8_error_text(e: &std::string::FromUtf8Error) -> (msg: String)
{
    e.to_string()
}

/// The message of a UTF-16 error, as its `Display` impl writes it.
#[verifier::external_body]
pub(crate) fn utf16_error_text(e: &std::string::FromUtf16Error) -> (msg: String)
{
    e.to_string()
}

/// How the bytes of a file encode its text.
#[derive(Debug, Clone, Copy, PartialEq, Eq, Structural)]
pub enum Encoding {
    /// Behind the mark FF FE.
    Utf16Le,
    /// Behind the mark FE FF.
    Utf16Be,
    /// Everything else.
    Utf8,
}

/// The encoding that the first two bytes announce.
pub open spec fn encoding_of(raw: Seq<u8>) -> Encoding {
    if raw.len() >= 2 && raw[0] == 0xFF && raw[1] == 0xFE {
        Encoding::Utf16Le
    } else if raw.len() >= 2 && raw[0] == 0xFE && raw[1] == 0xFF {
        Encoding::Utf16Be
    } else {
        Encoding::Utf8
    }
}

/// Tell the encoding of a file from its byte order mark.
pub fn detect_encoding(raw: &[u8]) -> (e: Encoding)
    ensures
        e == encoding_of(raw@),
{
    if raw.len() >= 2 && raw[0] == 0xFF && raw[1] == 0xFE {
        Encoding::Utf16Le
    } else if raw.len() >= 2 && raw[0] == 0xFE && raw[1] == 0xFF {
        Encoding::Utf16Be
    } else {
        Encoding::Utf8
    }
}

/// The code unit of two bytes.
pub open spec fn unit(first: u8, second: u8, big_endian: bool) -> u16 {
    if big_endian {
        (first as int * 256 + second as int) as u16
    } else {
        (second as int * 256 + first as int) as u16
    }
}

/// The code units behind a two-byte mark: the bytes in pairs. A last byte
/// without a partner is left out.
pub open spec fn units_of(raw: Seq<u8>, big_endian: bool) -> Seq<u16> {
    Seq::new(
        if raw.len() >= 2 {
            ((raw.len() - 2) / 2) as nat
        } else {
            0
        },
        |i: int| unit(raw[2 + 2 * i], raw[3 + 2 * i], big_endian),
    )
}

/// The code units behind a two-byte mark.
pub fn utf16_units(raw: &[u8], big_endian: bool) -> (units: Vec<u16>)
    ensures
        units@ == units_of(raw@, big_endian),
{
    let mut units: Vec<u16> = Vec::new();
    let n: usize = raw.len();
    let mut i: usize = 2;
    while i < n && n - i >= 2
        invariant
            n == raw@.len(),
            2 <= i,
            i % 2 == 0,
            i <= n || (n < 2 && i == 2),
            units@.len() == (i - 2) / 2,
            forall|k: int|
                0 <= k < units@.len() ==> units@[k] == unit(
                    raw@[2 + 2 * k],
                    raw@[3 + 2 * k],
                    big_endian,
                ),
        decreases n - i,
    {
        let first: u16 = raw[i] as u16;
        let second: u16 = raw[i + 1] as u16;
        let u: u16 = if big_endian {
            first * 256 + second
        } else {
            second * 256 + first
        };
        units.push(u);
        i = i + 2;
    }
    proof {
        if n >= 2 {
            assert(i == n || i + 1 == n);
            assert((i - 2) / 2 == (n - 2) / 2);
        }
        assert(units@ =~= units_of(raw@, big_endian));
    }
    units
}

/// A text without a byte order mark at its start.
pub open spec fn without_mark(t: Seq<char>) -> Seq<char> {
    if t.len() > 0 && t[0] == '\u{FEFF}' {
        t.skip(1)
    } else {
        t
    }
}

/// The text of the bytes of a file, or `None` where they do not decode.
pub open spec fn decoded(raw: Seq<u8>) -> Option<Seq<char>> {
    match encoding_of(raw) {
        Encoding::Utf16Le => utf16_text(units_of(raw, false)),
        Encoding::Utf16Be => utf16_text(units_of(raw, true)),
        Encoding::Utf8 => if valid_utf8(raw) {
            Some(without_mark(decode_utf8(raw)))
        } else {
            None
        },
    }
}

/// How the message begins when the bytes do not decode.
pub open spec fn decode_error_prefix(e: Encoding) -> Seq<char> {
    match e {
        Encoding::Utf16Le => "Invalid UTF-16 LE: "@,
        Encoding::Utf16Be => "Invalid UTF-16 BE: "@,
        Encoding::Utf8 => "Invalid UTF-8: "@,
    }
}

fn failure(prefix: &str, detail: String) -> (m: String)
    ensures
        m@.len() >= prefix@.len(),
        m@.subrange(0, prefix@.len() as int) == prefix@,
{
    let mut m = String::from_str(prefix);
    let ghost head = m@;
    m.append(detail.as_str());
    proof {
        assert(m@.subrange(0, head.len() as int) =~= head);
    }
    m
}

/// Decode the bytes of a file, leaving out the byte order mark. Where they
/// do not decode, the message names the encoding that was tried.
pub fn decode_text(raw: Vec<u8>) -> (r: Result<String, String>)
    ensures
        match decoded(raw@) {
            Some(t) => r matches Ok(s) && s@ == t,
            None => r matches Err(m) && m@.len() >= decode_error_prefix(encoding_of(raw@)).len()
                && m@.subrange(0, decode_error_prefix(encoding_of(raw@)).len() as int)
                == decode_error_prefix(encoding_of(raw@)),
        },
{
    match detect_encoding(raw.as_slice()) {
        Encoding::Utf16Le => {
            let units = utf16_units(raw.as_slice(), false);
            match text_from_utf16(&units) {
                Ok(s) => Ok(s),
                Err(e) => Err(failure("Invalid UTF-16 LE: ", utf16_error_text(&e))),
            }
        },
        Encoding::Utf16Be => {
            let units = utf16_units(raw.as_slice(), true);
            match text_from_utf16(&units) {
                Ok(s) => Ok(s),
                Err(e) => Err(failure("Invalid UTF-16 BE: ", utf16_error_text(&e))),
            }
        },
        Encoding::Utf8 => {
            let ghost bytes = raw@;
            match text_from_utf8(raw) {
                Ok(s) => {
                    let chars = chars_of(s.as_str());
                    if chars.len() > 0 && chars[0] == '\u{FEFF}' {
                        let t = string_of(chars.as_slice(), 1, chars.len());
                        proof {
                            assert(t@ =~= s@.skip(1));
                        }
                        Ok(t)
                    } else {
                        Ok(s)
                    }
                },
                Err(e) => Err(failure("Invalid UTF-8: ", utf8_error_text(&e))),
            }
        },
    }
}

} // verus!
