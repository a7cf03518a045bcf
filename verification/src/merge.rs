//! Merging frequency maps: the counts of shared keys add up.
//!
//! Since a frequency map is a multiset of keys, merging is multiset sum.  It is
//! associative and commutative, and counting a source in pieces and merging the
//! pieces gives what counting it at once gives.

use crate::counter::source_counts;
use crate::filter::{line_keys, source_keys, FilterConfig};
use crate::frequency::FrequencyMap;
use vstd::multiset::*;
use vstd::prelude::*;
use vstd::seq_lib::*;

verus! {

/// Whether every sum of two counts of one key still fits a counter.
pub open spec fn sums_fit(main: Multiset<Seq<char>>, other: Multiset<Seq<char>>) -> bool {
    forall|key: Seq<char>| #[trigger] main.count(key) + other.count(key) <= u64::MAX
}

/// The counts of all sources together; a source that could not be read adds
/// nothing.
pub open spec fn merged_counts(
    config: FilterConfig,
    sources: Seq<Option<Seq<Seq<char>>>>,
) -> Multiset<Seq<char>>
    decreases sources.len(),
{
    if sources.len() == 0 {
        Multiset::empty()
    } else {
        merged_counts(config, sources.drop_last()).add(
            match sources.last() {
                Some(lines) => source_counts(config, lines),
                None => Multiset::empty(),
            },
        )
    }
}

/// Whether at least one source could be read.
pub open spec fn any_read(sources: Seq<Option<Seq<Seq<char>>>>) -> bool {
    exists|i: int| 0 <= i < sources.len() && (#[trigger] sources[i]) is Some
}

/// Whether every count fits a counter.
pub open spec fn counts_fit(counts: Multiset<Seq<char>>) -> bool {
    forall|key: Seq<char>| #[trigger] counts.count(key) <= u64::MAX
}

/// The counts of the first sources never exceed the counts of all.
pub proof fn lemma_merged_counts_grow(
    config: FilterConfig,
    sources: Seq<Option<Seq<Seq<char>>>>,
    n: int,
    key: Seq<char>,
)
    requires
        0 <= n <= sources.len(),
    ensures
        merged_counts(config, sources.take(n)).count(key) <= merged_counts(config, sources).count(
            key,
        ),
    decreases sources.len() - n,
{
    if n == sources.len() {
        assert(sources.take(n) =~= sources);
    } else {
        lemma_merged_counts_grow(config, sources, n + 1, key);
        assert(sources.take(n + 1).drop_last() =~= sources.take(n));
    }
}

/// Tells whether `other` can be merged into `main` without a count leaving
/// the range of a counter.
pub fn can_merge(main: &FrequencyMap, other: &FrequencyMap) -> (fits: bool)
    requires
        main.wf(),
        other.wf(),
    ensures
        fits == sums_fit(main@, other@),
{
    let n = other.key_count();
    let mut i: usize = 0;
    while i < n
        invariant
            i <= n,
            n == other.keys().len(),
            main.wf(),
            other.wf(),
            forall|k: int| 0 <= k < i ==> main@.count(other.keys()[k]) + other@.count(
                #[trigger] other.keys()[k],
            ) <= u64::MAX,
        decreases n - i,
    {
        let (word, times) = other.entry(i);
        let held = main.count(word.as_str());
        if times > u64::MAX - held {
            return false;
        }
        i += 1;
    }
    proof {
        other.lemma_keys();
        main.lemma_keys();
    }
    true
}

/// Merges `other_map` into `main_map`: afterwards each key is counted as often
/// as in both together.
pub fn merge_word_counts(main_map: &mut FrequencyMap, other_map: FrequencyMap)
    requires
        old(main_map).wf(),
        other_map.wf(),
        sums_fit(old(main_map)@, other_map@),
    ensures
        final(main_map).wf(),
        final(main_map)@ == old(main_map)@.add(other_map@),
{
    let ghost before = main_map@;
    let n = other_map.key_count();
    let mut i: usize = 0;
    proof {
        other_map.lemma_keys();
    }
    while i < n
        invariant
            i <= n,
            n == other_map.keys().len(),
            main_map.wf(),
            other_map.wf(),
            other_map.keys().no_duplicates(),
            sums_fit(before, other_map@),
            forall|key: Seq<char>|
                other_map.keys().take(i as int).contains(key) ==> #[trigger] main_map@.count(key)
                    == before.count(key) + other_map@.count(key),
            forall|key: Seq<char>|
                !other_map.keys().take(i as int).contains(key) ==> #[trigger] main_map@.count(key)
                    == before.count(key),
        decreases n - i,
    {
        let (word, times) = other_map.entry(i);
        let ghost held = main_map@;
        main_map.add_occurrences(word.clone(), times);
        proof {
            let next = other_map.keys().take(i + 1);
            assert forall|key: Seq<char>| next.contains(key) implies #[trigger] main_map@.count(key)
                == before.count(key) + other_map@.count(key) by {
                if key == word@ {
                    lemma_update_same(held, word@, held.count(word@) + times as nat);
                } else {
                    lemma_update_different(held, word@, held.count(word@) + times as nat, key);
                }
            }
            assert forall|key: Seq<char>| !next.contains(key) implies #[trigger] main_map@.count(
                key,
            ) == before.count(key) by {
                assert(next[i as int] == word@);
                lemma_update_different(held, word@, held.count(word@) + times as nat, key);
            }
        }
        i += 1;
    }
    proof {
        assert(other_map.keys().take(n as int) =~= other_map.keys());
    }
}

/// Merging is commutative: which of two maps is merged into the other makes no
/// difference to the counts.
pub proof fn lemma_merge_commutative(first: Multiset<Seq<char>>, second: Multiset<Seq<char>>)
    ensures
        first.add(second) == second.add(first),
{
}

/// Merging is associative: maps may be merged in any grouping.
pub proof fn lemma_merge_associative(
    first: Multiset<Seq<char>>,
    second: Multiset<Seq<char>>,
    third: Multiset<Seq<char>>,
)
    ensures
        first.add(second).add(third) == first.add(second.add(third)),
{
}

/// Merging with a map in which nothing was counted changes nothing.
pub proof fn lemma_merge_empty(counts: Multiset<Seq<char>>)
    ensures
        counts.add(Multiset::empty()) == counts,
        Multiset::empty().add(counts) == counts,
{
}

/// In a merged map each key is counted as often as in both maps together.
pub proof fn lemma_merge_counts(
    first: Multiset<Seq<char>>,
    second: Multiset<Seq<char>>,
    key: Seq<char>,
)
    ensures
        first.add(second).count(key) == first.count(key) + second.count(key),
{
}

/// Counting a list of keys at once gives what counting its two parts and
/// merging gives.
pub proof fn lemma_count_keys_in_parts(head: Seq<Seq<char>>, tail: Seq<Seq<char>>)
    ensures
        (head + tail).to_multiset() == head.to_multiset().add(tail.to_multiset()),
{
    lemma_multiset_commutative(head, tail);
}

/// The keys of a source cut in two are the keys of the first part followed
/// by those of the second.
pub proof fn lemma_source_keys_in_parts(
    config: FilterConfig,
    head: Seq<Seq<char>>,
    tail: Seq<Seq<char>>,
)
    ensures
        source_keys(config, head + tail) == source_keys(config, head) + source_keys(config, tail),
{
    let keys = |l: Seq<char>| line_keys(config, l);
    assert((head + tail).map_values(keys) =~= head.map_values(keys) + tail.map_values(keys));
    lemma_flatten_concat(head.map_values(keys), tail.map_values(keys));
}

/// Counting a source at once gives what counting any two parts of it, cut
/// between lines, and merging gives.
pub proof fn lemma_count_source_in_parts(
    config: FilterConfig,
    head: Seq<Seq<char>>,
    tail: Seq<Seq<char>>,
)
    ensures
        source_counts(config, head + tail) == source_counts(config, head).add(
            source_counts(config, tail),
        ),
{
    lemma_source_keys_in_parts(config, head, tail);
    lemma_multiset_commutative(source_keys(config, head), source_keys(config, tail));
}

/// Counting a source at once gives what counting its chunks, however it is
/// cut between lines, and merging the counts gives.
pub proof fn lemma_count_in_chunks(config: FilterConfig, chunks: Seq<Seq<Seq<char>>>)
    ensures
        source_counts(config, chunks.flatten()) == merged_counts(
            config,
            chunks.map_values(|chunk: Seq<Seq<char>>| Some(chunk)),
        ),
    decreases chunks.len(),
{
    let read = |chunk: Seq<Seq<char>>| Some(chunk);
    if chunks.len() == 0 {
        Seq::<Seq<char>>::empty().to_multiset_ensures();
    } else {
        let before = chunks.drop_last();
        let last = chunks.last();
        lemma_count_in_chunks(config, before);
        assert(chunks =~= before.push(last));
        before.lemma_flatten_push(last);
        lemma_count_source_in_parts(config, before.flatten(), last);
        assert(chunks.map_values(read).drop_last() =~= before.map_values(read));
    }
}

} // verus!
