//! Regular expressions as the filter chain sees them: a compiled pattern stands
//! for the set of texts in which it finds a match.

use regex::Regex;
use vstd::prelude::*;

verus! {

/// A compiled regular expression.  Nothing inside it is visible to proofs; it
/// is handed on to the matcher as it is.
#[verifier::external_type_specification]
#[verifier::external_body]
pub struct ExRegex(regex::Regex);

/// Why a pattern did not compile.
#[verifier::external_type_specification]
#[verifier::external_body]
pub struct ExRegexError(regex::Error);

/// The texts somewhere in which `re` finds a match, as `Regex::is_match`
/// reports it.
pub uninterp spec fn matched_texts(re: Regex) -> Set<Seq<char>>;

/// What `Regex::new` makes of `pattern`: the texts that the compiled
/// expression matches, or `None` where the pattern is rejected.
pub uninterp spec fn compiled_pattern(pattern: Seq<char>) -> Option<Set<Seq<char>>>;

/// Calls `Regex::is_match`.  Trusted: the answer is membership of `text` in
/// `matched_texts(re)`.
#[verifier::external_body]
pub(crate) fn is_match(re: &Regex, text: &str) -> (found: bool)
    ensures
        found == matched_texts(*re).contains(text@),
{
    re.is_match(text)
}

/// Calls `Regex::new`.  Trusted: compilation succeeds exactly where
/// `compiled_pattern` is `Some`, and the expression returned matches the texts
/// named there.
#[verifier::external_body]
pub(crate) fn compile(pattern: &str) -> (compiled: Result<Regex, regex::Error>)
    ensures
        match compiled {
            Ok(re) => compiled_pattern(pattern@) == Some(matched_texts(re)),
            Err(_) => compiled_pattern(pattern@) is None,
        },
{
    Regex::new(pattern)
}

} // verus!
