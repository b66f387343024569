//! Trusted boundary to the `regex` crate. A compiled regex is opaque to
//! the verifier; what the contracts track is the pattern text it was
//! compiled from (`regex_src`), whether compilation succeeds on a given
//! pattern (`regex_valid`), and what matching answers (`regex_match`).
//! All three depend on their text arguments alone, which is what the
//! `regex` crate documents for default-configured builds: `Regex::new`
//! and `is_match` are pure functions of the pattern and the haystack.
//! (A `RegexBuilder` could produce a regex with the same pattern text
//! and different matching; the library therefore keeps every compiled
//! regex inside `CompiledRegex`, whose one constructor goes through
//! `Regex::new`, so the contracts only ever speak of default builds.)

use vstd::prelude::*;

verus! {

#[verifier::external_type_specification]
#[verifier::external_body]
pub struct ExRegex(regex::Regex);

/// The pattern text a compiled regex holds (`Regex::as_str` returns it).
pub uninterp spec fn regex_src(r: regex::Regex) -> Seq<char>;

/// Whether `Regex::new` accepts the pattern.
pub uninterp spec fn regex_valid(pat: Seq<char>) -> bool;

/// What `Regex::is_match` answers for the pattern and the haystack.
pub uninterp spec fn regex_match(pat: Seq<char>, text: Seq<char>) -> bool;

/// Relies on `regex::Regex::new`: success depends on the pattern text
/// alone, and the compiled value retains that text.
#[verifier::external_body]
fn regex_new(pat: &str) -> (r: Option<regex::Regex>)
    ensures
        r is Some <==> regex_valid(pat@),
        r matches Some(re) ==> regex_src(re) == pat@,
{
    regex::Regex::new(pat).ok()
}

/// Relies on `regex::Regex::is_match`: the answer depends on the pattern
/// and the haystack alone.
#[verifier::external_body]
fn regex_is_match(re: &regex::Regex, text: &str) -> (r: bool)
    ensures
        r == regex_match(regex_src(*re), text@),
{
    re.is_match(text)
}

/// Relies on `regex::Regex::as_str`: it returns the original pattern
/// string the regex was compiled from.
#[verifier::external_body]
fn regex_as_str(re: &regex::Regex) -> (r: String)
    ensures
        r@ == regex_src(*re),
{
    re.as_str().to_string()
}

/// A compiled regular expression. The field is private and `compile` is
/// the only constructor, so every value matches as the default build of
/// its pattern text — which is exactly what the contracts say of it.
pub struct CompiledRegex {
    re: regex::Regex,
}

impl View for CompiledRegex {
    type V = Seq<char>;

    closed spec fn view(&self) -> Seq<char> {
        regex_src(self.re)
    }
}

impl CompiledRegex {
    /// Compiles the pattern; exactly the valid patterns succeed.
    pub fn compile(pat: &str) -> (r: Option<CompiledRegex>)
        ensures
            r is Some <==> regex_valid(pat@),
            r matches Some(c) ==> c@ == pat@,
    {
        match regex_new(pat) {
            Some(re) => Some(CompiledRegex { re }),
            None => None,
        }
    }

    /// Whether the regex matches anywhere in `text`.
    pub fn is_match(&self, text: &str) -> (r: bool)
        ensures
            r == regex_match(self@, text@),
    {
        regex_is_match(&self.re, text)
    }

    /// The pattern text the regex was compiled from.
    pub fn as_str(&self) -> (r: String)
        ensures
            r@ == self@,
    {
        regex_as_str(&self.re)
    }
}

} // verus!
