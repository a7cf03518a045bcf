//! Writing keys as JSON strings.

use vstd::prelude::*;

verus! {

/// Why a value could not be written as JSON.
#[verifier::external_type_specification]
#[verifier::external_body]
pub struct ExJsonError(serde_json::Error);

/// What `serde_json::to_string` makes of the string `text`: a JSON string,
/// quotation marks and escapes included, or `None` where it reports an error.
pub uninterp spec fn json_string_of(text: Seq<char>) -> Option<Seq<char>>;

/// Calls `serde_json::to_string` on a string.  Trusted: what is written is
/// `json_string_of(text)`, and an error is returned exactly where that is
/// `None`.
#[verifier::external_body]
pub(crate) fn json_string(text: &str) -> (written: Result<String, serde_json::Error>)
    ensures
        match written {
            Ok(quoted) => json_string_of(text@) == Some(quoted@),
            Err(_) => json_string_of(text@) is None,
        },
{
    serde_json::to_string(text)
}

/// The entries with each key written as a JSON string; `None` where a key
/// cannot be written.
pub open spec fn quoted_entries(entries: Seq<(Seq<char>, u64)>) -> Option<Seq<(Seq<char>, u64)>> {
    if forall|i: int| 0 <= i < entries.len() ==> json_string_of((#[trigger] entries[i]).0) is Some {
        Some(
            Seq::new(
                entries.len(),
                |i: int| (json_string_of(entries[i].0)->Some_0, entries[i].1),
            ),
        )
    } else {
        None
    }
}

/// Writes each key of `entries` as a JSON string.
pub fn quote_entries(entries: &Vec<(String, u64)>) -> (quoted: Option<Vec<(String, u64)>>)
    ensures
        match quoted {
            Some(list) => quoted_entries(entries.deep_view()) == Some(list.deep_view()),
            None => quoted_entries(entries.deep_view()) is None,
        },
{
    let ghost view = entries.deep_view();
    let mut list: Vec<(String, u64)> = Vec::new();
    let mut i: usize = 0;
    while i < entries.len()
        invariant
            i <= entries.len(),
            view == entries.deep_view(),
            list.len() == i,
            forall|k: int| 0 <= k < i ==> json_string_of((#[trigger] view[k]).0) is Some,
            forall|k: int|
                0 <= k < i ==> #[trigger] list.deep_view()[k] == (
                    json_string_of(view[k].0)->Some_0,
                    view[k].1,
                ),
        decreases entries.len() - i,
    {
        let entry = &entries[i];
        assert(view[i as int] == (entry.0@, entry.1));
        match json_string(entry.0.as_str()) {
            Ok(quoted) => {
                let ghost held = list.deep_view();
                list.push((quoted, entry.1));
                assert(list.deep_view() =~= held.push((quoted@, entry.1)));
            },
            Err(_) => {
                return None;
            },
        }
        i += 1;
    }
    Some(list)
}

} // verus!
