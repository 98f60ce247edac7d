//! The pattern matcher: a compiled regular expression of the `regex` crate.

use regex::Regex;
use vstd::prelude::*;

verus! {

/// Trusted: makes `regex::Regex`, a compiled pattern, known as a type
/// whose inside is not looked at.
#[verifier::external_type_specification]
#[verifier::external_body]
pub struct ExRegex(regex::Regex);

/// Trusted: makes `regex::Error`, the reason why a text is no pattern,
/// known as a type whose inside is not looked at.
#[verifier::external_type_specification]
#[verifier::external_body]
pub struct ExRegexError(regex::Error);

/// Whether the compiled pattern `re` finds a match anywhere in `text`.
///
/// This names the answer of `regex::Regex::is_match`; nothing else is known
/// of it here.
pub uninterp spec fn pattern_matches(re: Regex, text: Seq<char>) -> bool;

/// Trusted: calls `regex::Regex::is_match`, which reports whether the pattern
/// matches anywhere in the haystack. The answer depends on the pattern and on
/// the text alone, so it is given the name [`pattern_matches`]. The search
/// starts at offset zero, for which the method never panics.
#[verifier::external_body]
pub(crate) fn is_match(re: &Regex, text: &str) -> (found: bool)
    ensures
        found == pattern_matches(*re, text@),
{
    re.is_match(text)
}

/// The pattern that `text` compiles to, or `None` where `text` is not a
/// pattern that can be compiled.
///
/// This names the answer of `regex::Regex::new`; nothing else is known of it
/// here.
pub uninterp spec fn compiled_pattern(text: Seq<char>) -> Option<Regex>;

/// Trusted: calls `regex::Regex::new`, which compiles a pattern with the
/// default settings, or fails where the text is not a valid pattern or the
/// compiled pattern would be too large. Whether it succeeds, and what the
/// pattern then matches, depends on the text alone, so the answer is given
/// the name [`compiled_pattern`].
#[verifier::external_body]
pub(crate) fn compile(text: &str) -> (result: Result<Regex, regex::Error>)
    ensures
        match result {
            Ok(re) => compiled_pattern(text@) == Some(re),
            Err(_) => compiled_pattern(text@) is None,
        },
{
    Regex::new(text)
}

} // verus!
