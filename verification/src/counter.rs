//! From lines of text to a frequency map: cutting words, filtering, counting.

use crate::cli::CliArgs;
use crate::filter::{
    chain_admits, chain_order, comparison_key, filter_config, keep_word, line_keys, source_keys,
    survives, surviving_keys, FilterConfig,
};
use crate::frequency::FrequencyMap;
use crate::stoplist::StopwordSet;
use crate::text::unicode_words;
use vstd::multiset::*;
use vstd::prelude::*;

verus! {

/// The frequency map of a source: every key that survives the filter chain,
/// as often as it occurs.
pub open spec fn source_counts(config: FilterConfig, lines: Seq<Seq<char>>) -> Multiset<Seq<char>> {
    source_keys(config, lines).to_multiset()
}

/// The keys of a list of words that ends in `word` are those of the words
/// before it, followed by the key of `word` where it survives.
pub proof fn lemma_surviving_keys_push(config: FilterConfig, words: Seq<Seq<char>>, word: Seq<char>)
    ensures
        surviving_keys(config, words.push(word)) == if survives(config, word) {
            surviving_keys(config, words).push(comparison_key(config, word))
        } else {
            surviving_keys(config, words)
        },
{
    words.lemma_filter_push(word, |w: Seq<char>| chain_admits(chain_order(), config, w));
}

/// The keys of a source that ends in `line` are those of the lines before it,
/// followed by the keys of `line`.
pub proof fn lemma_source_keys_push(config: FilterConfig, lines: Seq<Seq<char>>, line: Seq<char>)
    ensures
        source_keys(config, lines.push(line)) == source_keys(config, lines) + line_keys(
            config,
            line,
        ),
{
    let keys = |l: Seq<char>| line_keys(config, l);
    assert(lines.push(line).map_values(keys) =~= lines.map_values(keys).push(keys(line)));
    lines.map_values(keys).lemma_flatten_push(keys(line));
}

/// Counts every key of a list.
pub fn count_keys(keys: &Vec<String>) -> (map: FrequencyMap)
    ensures
        map.wf(),
        map@ == keys.deep_view().to_multiset(),
{
    let mut map = FrequencyMap::new();
    let mut i: usize = 0;
    proof {
        assert(keys.deep_view().take(0) =~= Seq::<Seq<char>>::empty());
        Seq::<Seq<char>>::empty().to_multiset_ensures();
    }
    while i < keys.len()
        invariant
            i <= keys.len(),
            map.wf(),
            map@ == keys.deep_view().take(i as int).to_multiset(),
        decreases keys.len() - i,
    {
        let key = keys[i].clone();
        proof {
            let seen = keys.deep_view().take(i as int);
            assert(keys.deep_view().take(i + 1) =~= seen.push(key@));
            seen.to_multiset_ensures();
        }
        map.increment(key);
        i += 1;
    }
    assert(keys.deep_view().take(keys.len() as int) =~= keys.deep_view());
    map
}

/// Runs each of `words` through the filter chain and appends the keys of those
/// that survive to `keys`.
pub fn append_surviving_keys(
    words: &Vec<String>,
    args: &CliArgs,
    stopwords: &Option<StopwordSet>,
    keys: &mut Vec<String>,
)
    ensures
        final(keys).deep_view() == old(keys).deep_view() + surviving_keys(
            filter_config(*args, *stopwords),
            words.deep_view(),
        ),
{
    let ghost config = filter_config(*args, *stopwords);
    let ghost before = keys.deep_view();
    let mut j: usize = 0;
    while j < words.len()
        invariant
            j <= words.len(),
            config == filter_config(*args, *stopwords),
            keys.deep_view() == before + surviving_keys(config, words.deep_view().take(j as int)),
        decreases words.len() - j,
    {
        let ghost seen = words.deep_view().take(j as int);
        let ghost held = keys.deep_view();
        proof {
            assert(words.deep_view().take(j + 1) =~= seen.push(words[j as int]@));
            lemma_surviving_keys_push(config, seen, words[j as int]@);
        }
        if let Some(key) = keep_word(words[j].as_str(), args, stopwords) {
            keys.push(key);
            assert(keys.deep_view() =~= held.push(key@));
        }
        j += 1;
    }
    assert(words.deep_view().take(words.len() as int) =~= words.deep_view());
}

/// Cuts `line` into words, runs each through the filter chain and appends the
/// keys of those that survive to `keys`.
pub fn collect_line_keys(
    line: &str,
    args: &CliArgs,
    stopwords: &Option<StopwordSet>,
    keys: &mut Vec<String>,
)
    ensures
        final(keys).deep_view() == old(keys).deep_view() + line_keys(
            filter_config(*args, *stopwords),
            line@,
        ),
{
    let words = unicode_words(line);
    append_surviving_keys(&words, args, stopwords, keys);
}

/// The keys counted for a source, in the order in which they occur.
pub fn collect_source_keys(
    lines: &Vec<String>,
    args: &CliArgs,
    stopwords: &Option<StopwordSet>,
) -> (keys: Vec<String>)
    ensures
        keys.deep_view() == source_keys(filter_config(*args, *stopwords), lines.deep_view()),
{
    let ghost config = filter_config(*args, *stopwords);
    let mut keys: Vec<String> = Vec::new();
    let mut i: usize = 0;
    while i < lines.len()
        invariant
            i <= lines.len(),
            config == filter_config(*args, *stopwords),
            keys.deep_view() == source_keys(config, lines.deep_view().take(i as int)),
        decreases lines.len() - i,
    {
        proof {
            let seen = lines.deep_view().take(i as int);
            assert(lines.deep_view().take(i + 1) =~= seen.push(lines[i as int]@));
            lemma_source_keys_push(config, seen, lines[i as int]@);
        }
        collect_line_keys(lines[i].as_str(), args, stopwords, &mut keys);
        i += 1;
    }
    assert(lines.deep_view().take(lines.len() as int) =~= lines.deep_view());
    keys
}

/// Counts the words of a source, given as its lines: each line is cut into
/// words, each word goes through the filter chain, and each survivor is counted
/// under its key.
pub fn process_words(
    lines: &Vec<String>,
    args: &CliArgs,
    stopwords: &Option<StopwordSet>,
) -> (map: FrequencyMap)
    ensures
        map.wf(),
        map@ == source_counts(filter_config(*args, *stopwords), lines.deep_view()),
{
    let keys = collect_source_keys(lines, args, stopwords);
    count_keys(&keys)
}

} // verus!
