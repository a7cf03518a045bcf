//! Ranking: the keys of a frequency map in the order of their counts, ties
//! broken by the order of the keys.

use crate::frequency::FrequencyMap;
use crate::order::{
    is_lex_less, is_same_text, lemma_lex_asymmetric, lemma_lex_irreflexive, lemma_lex_total,
    lemma_lex_transitive, lex_less,
};
use vstd::multiset::*;
use vstd::prelude::*;
use vstd::seq_lib::*;

verus! {

/// Whether entry `a` is ranked strictly before entry `b`: by count, the lesser
/// first when ascending and the greater first otherwise; among equal counts the
/// lesser key first.
pub open spec fn ranks_before(ascending: bool, a: (Seq<char>, u64), b: (Seq<char>, u64)) -> bool {
    if a.1 != b.1 {
        if ascending {
            a.1 < b.1
        } else {
            a.1 > b.1
        }
    } else {
        lex_less(a.0, b.0)
    }
}

/// Whether `ranked` is the ranking of `counts`: it pairs each key that was
/// counted with its count, names no other key, and each entry is ranked
/// strictly before those that follow it.
pub open spec fn is_ranking(
    ranked: Seq<(Seq<char>, u64)>,
    counts: Multiset<Seq<char>>,
    ascending: bool,
) -> bool {
    &&& forall|i: int|
        0 <= i < ranked.len() ==> (#[trigger] ranked[i]).1 >= 1 && counts.count(ranked[i].0)
            == ranked[i].1
    &&& forall|key: Seq<char>| #[trigger]
        counts.count(key) > 0 ==> exists|i: int|
            0 <= i < ranked.len() && (#[trigger] ranked[i]).0 == key
    &&& forall|i: int, j: int|
        0 <= i < j < ranked.len() ==> ranks_before(
            ascending,
            #[trigger] ranked[i],
            #[trigger] ranked[j],
        )
}

/// The ranking of `counts`.  There is one, since every frequency map can be
/// ranked, and only one, by `lemma_ranking_unique`.
pub open spec fn ranking(counts: Multiset<Seq<char>>, ascending: bool) -> Seq<(Seq<char>, u64)> {
    choose|ranked: Seq<(Seq<char>, u64)>| is_ranking(ranked, counts, ascending)
}

/// No two entries are ranked before each other.
pub proof fn lemma_ranks_asymmetric(ascending: bool, a: (Seq<char>, u64), b: (Seq<char>, u64))
    requires
        ranks_before(ascending, a, b),
    ensures
        !ranks_before(ascending, b, a),
{
    if a.1 == b.1 {
        lemma_lex_asymmetric(a.0, b.0);
    }
}

/// Of two entries with different keys one is ranked before the other.
pub proof fn lemma_ranks_total(ascending: bool, a: (Seq<char>, u64), b: (Seq<char>, u64))
    requires
        a.0 != b.0,
    ensures
        ranks_before(ascending, a, b) || ranks_before(ascending, b, a),
{
    lemma_lex_total(a.0, b.0);
}

/// Where `a` is not ranked after `b`, nor `b` after `c`, `a` is not ranked
/// after `c`.
pub proof fn lemma_not_after_transitive(
    ascending: bool,
    a: (Seq<char>, u64),
    b: (Seq<char>, u64),
    c: (Seq<char>, u64),
)
    requires
        !ranks_before(ascending, b, a),
        !ranks_before(ascending, c, b),
    ensures
        !ranks_before(ascending, c, a),
{
    if a.1 == b.1 && b.1 == c.1 && lex_less(c.0, a.0) {
        if c.0 == b.0 {
        } else {
            lemma_lex_total(c.0, b.0);
            lemma_lex_transitive(b.0, c.0, a.0);
        }
    }
}

/// Every index of `indices` is below `n`.
spec fn indices_within(indices: Seq<usize>, n: nat) -> bool {
    forall|i: int| 0 <= i < indices.len() ==> #[trigger] indices[i] < n
}

/// No entry named by `indices` is ranked after one named later.
spec fn in_rank_order(
    entries: Seq<(Seq<char>, u64)>,
    ascending: bool,
    indices: Seq<usize>,
) -> bool {
    forall|i: int, j: int|
        0 <= i < j < indices.len() ==> !ranks_before(
            ascending,
            entries[#[trigger] indices[j] as int],
            entries[#[trigger] indices[i] as int],
        )
}

/// Tells whether entry `a` of `entries` is ranked before entry `b`.
fn entry_before(entries: &Vec<(String, u64)>, ascending: bool, a: usize, b: usize) -> (before: bool)
    requires
        a < entries.len(),
        b < entries.len(),
    ensures
        before == ranks_before(
            ascending,
            entries.deep_view()[a as int],
            entries.deep_view()[b as int],
        ),
{
    let first = &entries[a];
    let second = &entries[b];
    if first.1 != second.1 {
        if ascending {
            first.1 < second.1
        } else {
            first.1 > second.1
        }
    } else {
        is_lex_less(first.0.as_str(), second.0.as_str())
    }
}

/// Merges two runs of indices, each in rank order, into one.
fn merge_runs(
    entries: &Vec<(String, u64)>,
    ascending: bool,
    left: &Vec<usize>,
    right: &Vec<usize>,
) -> (merged: Vec<usize>)
    requires
        indices_within(left@, entries.len() as nat),
        indices_within(right@, entries.len() as nat),
        in_rank_order(entries.deep_view(), ascending, left@),
        in_rank_order(entries.deep_view(), ascending, right@),
    ensures
        indices_within(merged@, entries.len() as nat),
        in_rank_order(entries.deep_view(), ascending, merged@),
        merged@.to_multiset() == left@.to_multiset().add(right@.to_multiset()),
{
    let ghost view = entries.deep_view();
    let mut merged: Vec<usize> = Vec::new();
    let mut i: usize = 0;
    let mut j: usize = 0;
    proof {
        assert(left@.take(0) =~= Seq::<usize>::empty());
        assert(right@.take(0) =~= Seq::<usize>::empty());
        Seq::<usize>::empty().to_multiset_ensures();
    }
    while i < left.len() || j < right.len()
        invariant
            i <= left.len(),
            j <= right.len(),
            view == entries.deep_view(),
            indices_within(left@, entries.len() as nat),
            indices_within(right@, entries.len() as nat),
            in_rank_order(view, ascending, left@),
            in_rank_order(view, ascending, right@),
            indices_within(merged@, entries.len() as nat),
            in_rank_order(view, ascending, merged@),
            merged@.to_multiset() == left@.take(i as int).to_multiset().add(
                right@.take(j as int).to_multiset(),
            ),
            forall|k: int, a: int|
                0 <= k < merged.len() && i <= a < left.len() ==> !ranks_before(
                    ascending,
                    view[#[trigger] left[a] as int],
                    view[#[trigger] merged[k] as int],
                ),
            forall|k: int, b: int|
                0 <= k < merged.len() && j <= b < right.len() ==> !ranks_before(
                    ascending,
                    view[#[trigger] right[b] as int],
                    view[#[trigger] merged[k] as int],
                ),
        decreases left.len() - i + right.len() - j,
    {
        let from_right = if i == left.len() {
            true
        } else if j == right.len() {
            false
        } else {
            entry_before(entries, ascending, right[j], left[i])
        };
        let ghost held = merged@;
        if from_right {
            let next = right[j];
            merged.push(next);
            proof {
                assert(right@.take(j + 1) =~= right@.take(j as int).push(next));
                held.to_multiset_ensures();
                right@.take(j as int).to_multiset_ensures();
                assert forall|k: int, a: int|
                    0 <= k < merged.len() && i <= a < left.len() implies !ranks_before(
                    ascending,
                    view[#[trigger] left[a] as int],
                    view[#[trigger] merged[k] as int],
                ) by {
                    if k == held.len() {
                        lemma_ranks_asymmetric(
                            ascending,
                            view[right[j as int] as int],
                            view[left[i as int] as int],
                        );
                        if a > i {
                            lemma_not_after_transitive(
                                ascending,
                                view[next as int],
                                view[left[i as int] as int],
                                view[left[a] as int],
                            );
                        }
                    }
                }
            }
            j += 1;
        } else {
            let next = left[i];
            merged.push(next);
            proof {
                assert(left@.take(i + 1) =~= left@.take(i as int).push(next));
                held.to_multiset_ensures();
                left@.take(i as int).to_multiset_ensures();
                assert forall|k: int, b: int|
                    0 <= k < merged.len() && j <= b < right.len() implies !ranks_before(
                    ascending,
                    view[#[trigger] right[b] as int],
                    view[#[trigger] merged[k] as int],
                ) by {
                    if k == held.len() && b > j {
                        lemma_not_after_transitive(
                            ascending,
                            view[next as int],
                            view[right[j as int] as int],
                            view[right[b] as int],
                        );
                    }
                }
            }
            i += 1;
        }
    }
    proof {
        assert(left@.take(left.len() as int) =~= left@);
        assert(right@.take(right.len() as int) =~= right@);
    }
    merged
}

/// Sorts the indices `indices[from..to]` into rank order.
fn sort_run(
    entries: &Vec<(String, u64)>,
    ascending: bool,
    indices: &Vec<usize>,
    from: usize,
    to: usize,
) -> (sorted: Vec<usize>)
    requires
        from <= to <= indices.len(),
        indices_within(indices@, entries.len() as nat),
    ensures
        indices_within(sorted@, entries.len() as nat),
        in_rank_order(entries.deep_view(), ascending, sorted@),
        sorted@.to_multiset() == indices@.subrange(from as int, to as int).to_multiset(),
    decreases to - from,
{
    if to - from <= 1 {
        let mut sorted: Vec<usize> = Vec::new();
        if to - from == 1 {
            sorted.push(indices[from]);
        }
        assert(sorted@ =~= indices@.subrange(from as int, to as int));
        sorted
    } else {
        let middle = from + (to - from) / 2;
        let left = sort_run(entries, ascending, indices, from, middle);
        let right = sort_run(entries, ascending, indices, middle, to);
        proof {
            assert(indices@.subrange(from as int, to as int) =~= indices@.subrange(
                from as int,
                middle as int,
            ) + indices@.subrange(middle as int, to as int));
            lemma_multiset_commutative(
                indices@.subrange(from as int, middle as int),
                indices@.subrange(middle as int, to as int),
            );
        }
        merge_runs(entries, ascending, &left, &right)
    }
}

/// What a sorted permutation of the positions of the keys amounts to: the
/// entries read in that order are the ranking.
proof fn lemma_sorted_indices_rank(
    map: &FrequencyMap,
    entries: Seq<(Seq<char>, u64)>,
    indices: Seq<usize>,
    sorted: Seq<usize>,
    ranked: Seq<(Seq<char>, u64)>,
    ascending: bool,
)
    requires
        map.wf(),
        entries.len() == map.keys().len(),
        forall|k: int|
            0 <= k < entries.len() ==> (#[trigger] entries[k]).0 == map.keys()[k] && entries[k].1
                == map@.count(map.keys()[k]) && entries[k].1 >= 1,
        indices.len() == entries.len(),
        forall|k: int| 0 <= k < indices.len() ==> #[trigger] indices[k] == k,
        indices_within(sorted, entries.len()),
        in_rank_order(entries, ascending, sorted),
        sorted.to_multiset() == indices.to_multiset(),
        ranked.len() == sorted.len(),
        forall|k: int| 0 <= k < ranked.len() ==> #[trigger] ranked[k] == entries[sorted[k] as int],
    ensures
        is_ranking(ranked, map@, ascending),
{
    map.lemma_keys();
    let keys = map.keys();
    indices.to_multiset_ensures();
    sorted.to_multiset_ensures();
    indices.lemma_multiset_has_no_duplicates();
    sorted.lemma_multiset_has_no_duplicates_conv();
    assert forall|key: Seq<char>| #[trigger] map@.count(key) > 0 implies exists|i: int|
        0 <= i < ranked.len() && (#[trigger] ranked[i]).0 == key by {
        let k = choose|k: int| 0 <= k < keys.len() && keys[k] == key;
        assert(indices[k] == k);
        assert(indices.to_multiset().count(k as usize) > 0);
        let i = choose|i: int| 0 <= i < sorted.len() && sorted[i] == k as usize;
        assert(ranked[i].0 == key);
    }
    assert forall|i: int, j: int| 0 <= i < j < ranked.len() implies ranks_before(
        ascending,
        #[trigger] ranked[i],
        #[trigger] ranked[j],
    ) by {
        lemma_ranks_total(ascending, ranked[i], ranked[j]);
    }
}

/// Ranks the keys of `word_count`: by count, the lesser first where `order` is
/// `"asc"` and the greater first otherwise; keys of equal count in
/// lexicographic order.
pub fn sort_word_counts(order: &str, word_count: FrequencyMap) -> (ranked: Vec<(String, u64)>)
    requires
        word_count.wf(),
    ensures
        is_ranking(ranked.deep_view(), word_count@, order@ == "asc"@),
        ranked.deep_view() == ranking(word_count@, order@ == "asc"@),
{
    let ascending = is_same_text(order, "asc");
    let n = word_count.key_count();
    let mut entries: Vec<(String, u64)> = Vec::new();
    let mut indices: Vec<usize> = Vec::new();
    let mut i: usize = 0;
    while i < n
        invariant
            i <= n,
            n == word_count.keys().len(),
            word_count.wf(),
            entries.len() == i,
            indices.len() == i,
            forall|k: int|
                0 <= k < i ==> (#[trigger] entries.deep_view()[k]).0 == word_count.keys()[k]
                    && entries.deep_view()[k].1 == word_count@.count(word_count.keys()[k])
                    && entries.deep_view()[k].1 >= 1,
            forall|k: int| 0 <= k < i ==> #[trigger] indices[k] == k,
        decreases n - i,
    {
        let (word, times) = word_count.entry(i);
        let ghost held = entries.deep_view();
        entries.push((word.clone(), times));
        indices.push(i);
        proof {
            assert(entries.deep_view() =~= held.push((word@, times)));
        }
        i += 1;
    }
    let sorted = sort_run(&entries, ascending, &indices, 0, n);
    proof {
        assert(indices@.subrange(0, n as int) =~= indices@);
    }
    let mut ranked: Vec<(String, u64)> = Vec::new();
    let mut r: usize = 0;
    while r < sorted.len()
        invariant
            r <= sorted.len(),
            ranked.len() == r,
            indices_within(sorted@, entries.len() as nat),
            forall|k: int|
                0 <= k < r ==> #[trigger] ranked.deep_view()[k] == entries.deep_view()[sorted[k]
                    as int],
        decreases sorted.len() - r,
    {
        let entry = &entries[sorted[r]];
        let ghost held = ranked.deep_view();
        ranked.push((entry.0.clone(), entry.1));
        proof {
            assert(ranked.deep_view() =~= held.push((entry.0@, entry.1)));
        }
        r += 1;
    }
    proof {
        lemma_sorted_indices_rank(
            &word_count,
            entries.deep_view(),
            indices@,
            sorted@,
            ranked.deep_view(),
            ascending,
        );
        lemma_ranking_unique(
            ranked.deep_view(),
            ranking(word_count@, ascending),
            word_count@,
            ascending,
        );
    }
    ranked
}

/// How many of `n` ranked entries are shown under the limit `top`.
pub open spec fn shown(top: Option<usize>, n: nat) -> nat {
    match top {
        Some(limit) => if limit < n {
            limit as nat
        } else {
            n
        },
        None => n,
    }
}

/// Keeps the leading entries of a ranking up to the limit `top`, all of them
/// where there is no limit.
pub fn take_top(top: Option<usize>, sorted: Vec<(String, u64)>) -> (kept: Vec<(String, u64)>)
    ensures
        kept@ == sorted@.take(shown(top, sorted@.len()) as int),
        kept.deep_view() == sorted.deep_view().take(shown(top, sorted@.len()) as int),
        top matches Some(limit) && limit >= sorted@.len() ==> kept@ == sorted@,
        top is None ==> kept@ == sorted@,
        top == Some(0usize) ==> kept@.len() == 0,
{
    let mut kept = sorted;
    if let Some(limit) = top {
        kept.truncate(limit);
    }
    kept
}

/// A frequency map has one ranking only: whatever is ranked as `is_ranking`
/// asks is the same sequence, so that equal counts never leave the order of two
/// keys open.
pub proof fn lemma_ranking_unique(
    first: Seq<(Seq<char>, u64)>,
    second: Seq<(Seq<char>, u64)>,
    counts: Multiset<Seq<char>>,
    ascending: bool,
)
    requires
        is_ranking(first, counts, ascending),
        is_ranking(second, counts, ascending),
    ensures
        first == second,
{
    lemma_ranking_not_longer(second, first, counts, ascending);
    lemma_ranking_not_longer(first, second, counts, ascending);
    assert forall|i: int| 0 <= i < first.len() implies first[i] == second[i] by {
        lemma_rankings_agree_at(first, second, counts, ascending, i);
    }
}

/// Two rankings of one frequency map hold the same entry at every position
/// that both have.
proof fn lemma_rankings_agree_at(
    first: Seq<(Seq<char>, u64)>,
    second: Seq<(Seq<char>, u64)>,
    counts: Multiset<Seq<char>>,
    ascending: bool,
    i: int,
)
    requires
        is_ranking(first, counts, ascending),
        is_ranking(second, counts, ascending),
        0 <= i < first.len(),
        i < second.len(),
    ensures
        first[i] == second[i],
    decreases i,
{
    let a = first[i];
    let b = second[i];
    let j = choose|j: int| 0 <= j < second.len() && (#[trigger] second[j]).0 == a.0;
    let k = choose|k: int| 0 <= k < first.len() && (#[trigger] first[k]).0 == b.0;
    lemma_lex_irreflexive(a.0);
    lemma_lex_irreflexive(b.0);
    if j < i {
        lemma_rankings_agree_at(first, second, counts, ascending, j);
    } else if k < i {
        lemma_rankings_agree_at(first, second, counts, ascending, k);
    } else if j > i && k > i {
        lemma_ranks_asymmetric(ascending, a, b);
    }
}

/// A ranking is not longer than another ranking of the same frequency map.
proof fn lemma_ranking_not_longer(
    one: Seq<(Seq<char>, u64)>,
    other: Seq<(Seq<char>, u64)>,
    counts: Multiset<Seq<char>>,
    ascending: bool,
)
    requires
        is_ranking(one, counts, ascending),
        is_ranking(other, counts, ascending),
    ensures
        one.len() <= other.len(),
{
    if other.len() < one.len() {
        let extra = one[other.len() as int];
        let i = choose|i: int| 0 <= i < other.len() && (#[trigger] other[i]).0 == extra.0;
        lemma_rankings_agree_at(one, other, counts, ascending, i);
        lemma_lex_irreflexive(extra.0);
    }
}

} // verus!
