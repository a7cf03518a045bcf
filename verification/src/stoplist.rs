//! The set of common words that a run may leave uncounted.

use crate::error::CliError;
use crate::text::{lowercase, lowercase_of};
use stopwords::{Language, Spark, Stopwords};
use vstd::hash_set::StringHashSet;
use vstd::prelude::*;
use vstd::string::StringExecFns;

verus! {

/// The lower-case forms of `words`, as a set.
pub open spec fn folded(words: Seq<Seq<char>>) -> Set<Seq<char>> {
    words.map_values(|word: Seq<char>| lowercase_of(word)).to_set()
}

/// Folding a list that ends in `word` adds the lower-case form of `word` to
/// what the list before it folds to.
proof fn lemma_folded_push(words: Seq<Seq<char>>, word: Seq<char>)
    ensures
        folded(words.push(word)) == folded(words).insert(lowercase_of(word)),
{
    let fold = |word: Seq<char>| lowercase_of(word);
    assert(words.push(word).map_values(fold) == words.map_values(fold).push(lowercase_of(word)));
    words.map_values(fold).lemma_push_to_set_commute(lowercase_of(word));
}

/// A set of stopwords, built once per run and only read afterwards.  The words
/// are held in lower case, as the filter chain looks them up.
pub struct StopwordSet {
    words: StringHashSet,
}

impl View for StopwordSet {
    type V = Set<Seq<char>>;

    closed spec fn view(&self) -> Set<Seq<char>> {
        self.words@
    }
}

/// The list that `Spark::stopwords` holds for the language that
/// `Language::from_str` knows by the name `language`, in the provider's order;
/// `None` where the name is not that of a language, or the provider has no list
/// for it.
pub uninterp spec fn spark_stopwords_of(language: Seq<char>) -> Option<Seq<Seq<char>>>;

/// Looks the language up by its name with `Language::from_str`, asks
/// `Spark::stopwords` for its list and copies the words out.  Trusted: the
/// lists are data compiled into the provider, so that a name always gives the
/// same list, `spark_stopwords_of(language)`; which words it holds is nowhere
/// claimed.
#[verifier::external_body]
fn spark_stopwords(language: &str) -> (list: Option<Vec<String>>)
    ensures
        match list {
            Some(words) => spark_stopwords_of(language@) == Some(words.deep_view()),
            None => spark_stopwords_of(language@) is None,
        },
{
    language.parse::<Language>().ok().and_then(Spark::stopwords).map(
        |words| words.iter().map(|w| w.to_string()).collect(),
    )
}

impl StopwordSet {
    /// The set of the given words, each folded to lower case.
    pub fn from_words(words: &Vec<String>) -> (set: StopwordSet)
        ensures
            set@ == folded(words.deep_view()),
    {
        let mut held = StringHashSet::new();
        let mut i: usize = 0;
        while i < words.len()
            invariant
                i <= words.len(),
                held@ == folded(words.deep_view().take(i as int)),
            decreases words.len() - i,
        {
            proof {
                let seen = words.deep_view().take(i as int);
                assert(words.deep_view().take(i + 1) == seen.push(words[i as int]@));
                lemma_folded_push(seen, words[i as int]@);
            }
            held.insert(lowercase(words[i].as_str()));
            i += 1;
        }
        assert(words.deep_view().take(words.len() as int) == words.deep_view());
        StopwordSet { words: held }
    }

    /// Whether `word` is in the set.
    pub fn contains(&self, word: &str) -> (found: bool)
        ensures
            found == self@.contains(word@),
    {
        self.words.contains(word)
    }

    /// The set made of a provider's list, or the error to report where the
    /// provider had none.
    pub fn from_loaded(loaded: Option<Vec<String>>) -> (outcome: Result<StopwordSet, CliError>)
        ensures
            match loaded {
                Some(words) => outcome matches Ok(set) && set@ == folded(words.deep_view()),
                None => outcome matches Err(CliError::Other(reason)) && reason@
                    == "Failed to load embedded English stopwords"@,
            },
    {
        match loaded {
            Some(words) => Ok(StopwordSet::from_words(&words)),
            None => Err(
                CliError::Other(String::from_str("Failed to load embedded English stopwords")),
            ),
        }
    }

    /// The English stopwords of Apache Spark: the words of the provider's list
    /// for `"english"`, each folded to lower case.  It is an error when the
    /// provider has no such list.
    pub fn english() -> (outcome: Result<StopwordSet, CliError>)
        ensures
            match spark_stopwords_of("english"@) {
                Some(words) => outcome matches Ok(set) && set@ == folded(words),
                None => outcome matches Err(CliError::Other(reason)) && reason@
                    == "Failed to load embedded English stopwords"@,
            },
    {
        StopwordSet::from_loaded(spark_stopwords("english"))
    }
}

} // verus!
