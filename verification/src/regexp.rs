//! Regular expressions, as the `regex` crate compiles and runs them.

use vstd::prelude::*;

verus! {

#[verifier::external_type_specification]
#[verifier::external_body]
pub struct ExRegex(regex::Regex);

#[verifier::external_type_specification]
#[verifier::external_body]
pub struct ExRegexError(regex::Error);

/// Whether `regex::Regex::new` accepts the pattern.
pub uninterp spec fn regex_valid(pattern: Seq<char>) -> bool;

/// Whether the compiled pattern finds a match anywhere in the text, as
/// `regex::Regex::is_match` reports it.
pub uninterp spec fn regex_matches(pattern: Seq<char>, text: Seq<char>) -> bool;

/// A compiled pattern together with the text it was compiled from.
pub struct Pattern {
    source: String,
    compiled: regex::Regex,
}

impl Pattern {
    /// The text this pattern was compiled from.
    pub closed spec fn source(&self) -> Seq<char> {
        self.source@
    }
}

/// Calls `regex::Regex::new`. Not proved: that it succeeds exactly on the
/// patterns named valid; the result keeps the pattern text beside the
/// compiled form.
#[verifier::external_body]
pub(crate) fn compile(pattern: &str) -> (r: Result<Pattern, regex::Error>)
    ensures
        r is Ok <==> regex_valid(pattern@),
        r matches Ok(p) ==> p.source() == pattern@,
{
    match regex::Regex::new(pattern) {
        Ok(compiled) => Ok(Pattern { source: pattern.to_string(), compiled }),
        Err(e) => Err(e),
    }
}

/// Calls `regex::Regex::is_match`: an unanchored search of the text. Not
/// proved: that the answer is the one named for the pattern's source and the text.
#[verifier::external_body]
pub(crate) fn is_match(p: &Pattern, text: &str) -> (found: bool)
    ensures
        found == regex_matches(p.source(), text@),
{
    p.compiled.is_match(text)
}

/// The message of a compile error, as its `Display` impl writes it. Nothing
/// is claimed of the text.
#[verifier::external_body]
pub(crate) fn error_text(e: &regex::Error) -> (msg: String)
{
    e.to_string()
}

} // verus!
