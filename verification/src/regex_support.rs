//! Trusted boundary to the `regex` crate. Verified code never inspects a
//! compiled regex: it reasons through `regex_source`, the pattern a value was
//! built from, and `regex_matches`, the engine's verdict on a pattern and an
//! input.

use vstd::prelude::*;

verus! {

#[verifier::external_type_specification]
#[verifier::external_body]
pub struct ExRegex(regex::Regex);

/// Whether `regex::Regex::new` accepts `pattern`.
pub uninterp spec fn regex_ok(pattern: Seq<char>) -> bool;

/// The pattern string a compiled `regex::Regex` was built from, as
/// `Regex::as_str` reports it.
pub uninterp spec fn regex_source(re: regex::Regex) -> Seq<char>;

/// Whether the regex compiled from `pattern` matches anywhere in `input`.
pub uninterp spec fn regex_matches(pattern: Seq<char>, input: Seq<char>) -> bool;

/// Relies on `regex::Regex::new`: it succeeds exactly on syntactically valid
/// patterns, and the compiled value keeps the pattern it was built from.
#[verifier::external_body]
pub fn regex_new(pattern: &str) -> (r: Option<regex::Regex>)
    ensures
        r is Some <==> regex_ok(pattern@),
        r is Some ==> regex_source(r->0) == pattern@,
{
    match regex::Regex::new(pattern) {
        Ok(re) => Some(re),
        Err(_) => None,
    }
}

/// Relies on `regex::Regex::is_match`: the outcome depends only on the
/// compiled pattern and the input.
#[verifier::external_body]
pub fn regex_is_match(re: &regex::Regex, input: &str) -> (r: bool)
    ensures
        r == regex_matches(regex_source(*re), input@),
{
    re.is_match(input)
}

/// Relies on `regex::Regex::clone`: a clone keeps the pattern.
#[verifier::external_body]
pub fn regex_clone(re: &regex::Regex) -> (r: regex::Regex)
    ensures
        regex_source(r) == regex_source(*re),
{
    re.clone()
}

} // verus!
