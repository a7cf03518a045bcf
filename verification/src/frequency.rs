//! The frequency map: how often each key was counted.
//!
//! Mathematically a frequency map is a multiset of keys.  It is kept as a hash
//! map from key to count, beside the list of its keys in the order in which they
//! first came, so that the map can be walked.

use vstd::hash_map::StringHashMap;
use vstd::multiset::*;
use vstd::prelude::*;

verus! {

/// How often each key was counted.  Its view is the multiset of the keys
/// counted.
pub struct FrequencyMap {
    /// The keys, each once, in the order of their first occurrence.
    words: Vec<String>,
    /// The count of each key; at least one.
    counts: StringHashMap<u64>,
}

/// The multiset `counted` with `times` further occurrences of `key`.
pub open spec fn with_occurrences(
    counted: Multiset<Seq<char>>,
    key: Seq<char>,
    times: nat,
) -> Multiset<Seq<char>> {
    counted.update(key, counted.count(key) + times)
}

impl View for FrequencyMap {
    type V = Multiset<Seq<char>>;

    closed spec fn view(&self) -> Multiset<Seq<char>> {
        Multiset::from_map(self.tally())
    }
}

impl FrequencyMap {
    /// The counts as a map to natural numbers.
    spec fn tally(&self) -> Map<Seq<char>, nat> {
        Map::new(
            |key: Seq<char>| self.counts@.contains_key(key),
            |key: Seq<char>| self.counts@[key] as nat,
        )
    }

    /// The invariant of the representation: the list of keys holds no key
    /// twice, it holds exactly the keys of the hash map, and no count is zero.
    pub closed spec fn wf(&self) -> bool {
        &&& self.words.deep_view().no_duplicates()
        &&& forall|key: Seq<char>| #[trigger]
            self.counts@.contains_key(key) <==> self.words.deep_view().contains(key)
        &&& forall|key: Seq<char>| #[trigger]
            self.counts@.contains_key(key) ==> self.counts@[key] >= 1
    }

    /// The keys in the order of their first occurrence.
    pub(crate) closed spec fn keys(&self) -> Seq<Seq<char>> {
        self.words.deep_view()
    }

    /// What the view says of every key, in terms of the hash map.
    proof fn lemma_count(&self, key: Seq<char>)
        requires
            self.wf(),
        ensures
            self@.count(key) == if self.counts@.contains_key(key) {
                self.counts@[key] as nat
            } else {
                0
            },
            self.counts@.contains_key(key) <==> self@.count(key) > 0,
            self.counts@.contains_key(key) <==> self.keys().contains(key),
    {
        assert(self.tally().dom() =~= self.words.deep_view().to_set());
    }

    /// What the list of keys says of the view.
    pub(crate) proof fn lemma_keys(&self)
        requires
            self.wf(),
        ensures
            self.keys().no_duplicates(),
            forall|key: Seq<char>| self.keys().contains(key) <==> #[trigger] self@.count(key) > 0,
            forall|key: Seq<char>| #[trigger] self@.count(key) <= u64::MAX,
    {
        assert forall|key: Seq<char>|
            (self.keys().contains(key) <==> #[trigger] self@.count(key) > 0) && self@.count(key)
                <= u64::MAX by {
            self.lemma_count(key);
        }
    }

    /// Every count of a map fits a counter.
    pub proof fn lemma_counts_fit(&self)
        requires
            self.wf(),
        ensures
            forall|key: Seq<char>| #[trigger] self@.count(key) <= u64::MAX,
    {
        self.lemma_keys();
    }

    /// A map in which nothing was counted.
    pub fn new() -> (map: FrequencyMap)
        ensures
            map.wf(),
            map@ == Multiset::<Seq<char>>::empty(),
    {
        let map = FrequencyMap { words: Vec::new(), counts: StringHashMap::new() };
        proof {
            assert forall|key: Seq<char>| map@.count(key) == 0 by {
                map.lemma_count(key);
            }
        }
        map
    }

    /// How often `word` was counted.
    pub fn count(&self, word: &str) -> (times: u64)
        requires
            self.wf(),
        ensures
            times == self@.count(word@),
    {
        proof {
            self.lemma_count(word@);
        }
        match self.counts.get(word) {
            Some(times) => *times,
            None => 0,
        }
    }

    /// The number of distinct keys.
    pub fn len(&self) -> (distinct: usize)
        requires
            self.wf(),
        ensures
            distinct == self@.dom().len(),
    {
        proof {
            self.lemma_keys();
            assert(self@.dom() =~= self.keys().to_set());
            self.keys().unique_seq_to_set();
        }
        self.words.len()
    }

    /// The key at position `i` of the list of keys, and its count.
    pub(crate) fn entry(&self, i: usize) -> (entry: (&String, u64))
        requires
            self.wf(),
            i < self.keys().len(),
        ensures
            entry.0@ == self.keys()[i as int],
            entry.1 == self@.count(entry.0@),
            entry.1 >= 1,
    {
        let word = &self.words[i];
        proof {
            self.lemma_count(word@);
        }
        let times = self.count(word.as_str());
        (word, times)
    }

    /// The number of keys in the list of keys.
    pub(crate) fn key_count(&self) -> (n: usize)
        requires
            self.wf(),
        ensures
            n == self.keys().len(),
    {
        self.words.len()
    }

    /// Counts `word` another `times` times.
    pub fn add_occurrences(&mut self, word: String, times: u64)
        requires
            old(self).wf(),
            old(self)@.count(word@) + times <= u64::MAX,
        ensures
            final(self).wf(),
            final(self)@ == with_occurrences(old(self)@, word@, times as nat),
    {
        proof {
            self.lemma_count(word@);
        }
        if times == 0 {
            assert(self@ =~= with_occurrences(self@, word@, 0)) by {
                assert forall|key: Seq<char>|
                    self@.count(key) == with_occurrences(self@, word@, 0).count(key) by {
                    if key == word@ {
                        lemma_update_same(self@, word@, self@.count(word@));
                    } else {
                        lemma_update_different(self@, word@, self@.count(word@), key);
                    }
                }
            }
            return;
        }
        let ghost before = *self;
        let current = self.count(word.as_str());
        if current == 0 {
            self.words.push(word.clone());
            assert(self.words.deep_view() =~= before.words.deep_view().push(word@));
        }
        self.counts.insert(word, current + times);
        proof {
            let keys = self.words.deep_view();
            let old_keys = before.words.deep_view();
            assert forall|key: Seq<char>| #[trigger]
                self.counts@.contains_key(key) <==> keys.contains(key) by {
                if current == 0 {
                    if key == word@ {
                        assert(keys[old_keys.len() as int] == word@);
                    } else if before.counts@.contains_key(key) {
                        let i = choose|i: int| 0 <= i < old_keys.len() && old_keys[i] == key;
                        assert(keys[i] == key);
                    }
                }
            }
            let target = with_occurrences(before@, word@, times as nat);
            assert forall|key: Seq<char>| self@.count(key) == target.count(key) by {
                self.lemma_count(key);
                before.lemma_count(key);
                if key == word@ {
                    lemma_update_same(before@, word@, before@.count(word@) + times as nat);
                } else {
                    lemma_update_different(
                        before@,
                        word@,
                        before@.count(word@) + times as nat,
                        key,
                    );
                }
            }
        }
    }

    /// Counts `word` once more.
    pub fn increment(&mut self, word: String)
        requires
            old(self).wf(),
            old(self)@.count(word@) < u64::MAX,
        ensures
            final(self).wf(),
            final(self)@ == old(self)@.insert(word@),
    {
        let ghost before = self@;
        self.add_occurrences(word, 1);
        proof {
            assert forall|key: Seq<char>| self@.count(key) == before.insert(word@).count(key) by {
                if key == word@ {
                    lemma_update_same(before, word@, before.count(word@) + 1);
                } else {
                    lemma_update_different(before, word@, before.count(word@) + 1, key);
                }
            }
        }
    }
}

} // verus!
