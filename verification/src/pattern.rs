//! The record-boundary recognition pattern: a compiled regular expression
//! supplied by the caller. The library only asks whether a physical line
//! matches it; the pattern itself stays opaque.

use vstd::prelude::*;

verus! {

#[verifier::external_type_specification]
#[verifier::external_body]
pub struct ExRegex(regex::Regex);

/// Relies on `regex::Regex::is_match`: true when the compiled pattern matches
/// somewhere inside `line`. Which lines match depends on the pattern the
/// value was compiled from, which the library does not model, so nothing is
/// stated of the result; callers state what holds either way.
#[verifier::external_body]
pub(crate) fn regex_is_match(re: &regex::Regex, line: &str) -> bool {
    re.is_match(line)
}

} // verus!
