//! Unicode text primitives that the pipeline builds on.
//!
//! Segmentation, case folding and character classes are decided by Unicode
//! tables that live outside this crate.  Each primitive is a thin call into the
//! code that owns those tables; what it returns is given a name here so that the
//! rest of the crate can be specified exactly in terms of it.

use unicode_segmentation::UnicodeSegmentation;
use vstd::prelude::*;

verus! {

/// The words that `UnicodeSegmentation::unicode_words` cuts out of `line`, in
/// the order in which they occur.
pub uninterp spec fn unicode_words_of(line: Seq<char>) -> Seq<Seq<char>>;

/// The number of extended grapheme clusters that
/// `UnicodeSegmentation::graphemes` finds in `text`.
pub uninterp spec fn grapheme_count_of(text: Seq<char>) -> nat;

/// What `str::to_lowercase` makes of `text`.
pub uninterp spec fn lowercase_of(text: Seq<char>) -> Seq<char>;

/// Whether `char::is_alphabetic` holds of `c`.
pub uninterp spec fn alphabetic(c: char) -> bool;

/// Every character of `text` is alphabetic.
pub open spec fn all_alphabetic(text: Seq<char>) -> bool {
    forall|i: int| 0 <= i < text.len() ==> alphabetic(#[trigger] text[i])
}

/// Calls `UnicodeSegmentation::unicode_words` on `line` and copies each word
/// out.  Trusted: the words returned are exactly `unicode_words_of(line)`.
#[verifier::external_body]
pub(crate) fn unicode_words(line: &str) -> (words: Vec<String>)
    ensures
        words.deep_view() == unicode_words_of(line@),
{
    line.unicode_words().map(|w| w.to_string()).collect()
}

/// Calls `UnicodeSegmentation::graphemes` for extended clusters and counts
/// them.  Trusted: the count is `grapheme_count_of(text)`.
#[verifier::external_body]
pub(crate) fn grapheme_count(text: &str) -> (n: usize)
    ensures
        n as nat == grapheme_count_of(text@),
{
    text.graphemes(true).count()
}

/// Calls `str::to_lowercase`.  Trusted: the result is `lowercase_of(text)`.
#[verifier::external_body]
pub(crate) fn lowercase(text: &str) -> (lowered: String)
    ensures
        lowered@ == lowercase_of(text@),
{
    text.to_lowercase()
}

/// Calls `char::is_alphabetic`.  Trusted: the result is `alphabetic(c)`.
#[verifier::external_body]
pub(crate) fn is_alphabetic(c: char) -> (b: bool)
    ensures
        b == alphabetic(c),
{
    c.is_alphabetic()
}

/// Tells whether every character of `text` is alphabetic.
pub fn is_all_alphabetic(text: &str) -> (b: bool)
    ensures
        b == all_alphabetic(text@),
{
    for c in it: text.chars()
        invariant
            it.seq() == text@,
            all_alphabetic(text@.take(it.index())),
    {
        if !is_alphabetic(c) {
            assert(text@[it.index()] == c);
            return false;
        }
        assert forall|i: int| 0 <= i < it.index() + 1 implies alphabetic(
            #[trigger] text@.take(it.index() + 1)[i],
        ) by {
            if i < it.index() {
                assert(text@.take(it.index())[i] == text@[i]);
            }
        }
    }
    assert(text@.take(text@.len() as int) == text@);
    true
}

} // verus!
