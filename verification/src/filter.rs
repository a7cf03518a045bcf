//! The filter chain: which words are counted, and under which key.
//!
//! A word is first given its comparison key, folded to lower case unless the run
//! is case sensitive.  Four filters then decide on it, each on its own; the word
//! is counted when none of them objects.  The chain runs them in a fixed order
//! and stops at the first objection, which changes the cost and not the verdict.

use crate::cli::CliArgs;
use crate::pattern::{is_match, matched_texts};
use crate::stoplist::StopwordSet;
use crate::text::{
    all_alphabetic, grapheme_count, grapheme_count_of, is_all_alphabetic, lowercase,
    lowercase_of, unicode_words_of,
};
use vstd::prelude::*;

verus! {

/// What the filter chain is set to, as mathematics sees it.
pub struct FilterConfig {
    /// Keys keep the case of the word.
    pub case_sensitive: bool,
    /// Keys with a character that is not alphabetic are dropped.
    pub alphabetic_only: bool,
    /// Keys of fewer grapheme clusters are dropped.
    pub min_chars: Option<nat>,
    /// Words whose lower-case form is in this set are dropped.
    pub stopwords: Option<Set<Seq<char>>>,
    /// Keys in this set, the texts that the ignore pattern matches, are dropped.
    pub ignored: Option<Set<Seq<char>>>,
}

/// One of the four filters of the chain.
pub enum Filter {
    /// Objects to keys that hold a character that is not alphabetic.
    Alphabetic,
    /// Objects to stopwords.
    Stopword,
    /// Objects to keys that are too short.
    MinChars,
    /// Objects to keys that the ignore pattern matches.
    Pattern,
}

/// The configuration that a run's options and stopword set amount to.
pub open spec fn filter_config(args: CliArgs, stopwords: Option<StopwordSet>) -> FilterConfig {
    FilterConfig {
        case_sensitive: args.case_sensitive,
        alphabetic_only: args.alphabetic_only,
        min_chars: match args.min_char {
            Some(least) => Some(least as nat),
            None => None,
        },
        stopwords: match stopwords {
            Some(set) => Some(set@),
            None => None,
        },
        ignored: match args.ignore_words {
            Some(re) => Some(matched_texts(re)),
            None => None,
        },
    }
}

/// The key under which `word` is compared and counted.
pub open spec fn comparison_key(config: FilterConfig, word: Seq<char>) -> Seq<char> {
    if config.case_sensitive {
        word
    } else {
        lowercase_of(word)
    }
}

/// Whether `filter`, taken alone, lets `word` through.
pub open spec fn admits(filter: Filter, config: FilterConfig, word: Seq<char>) -> bool {
    let key = comparison_key(config, word);
    match filter {
        Filter::Alphabetic => config.alphabetic_only ==> all_alphabetic(key),
        Filter::Stopword => config.stopwords matches Some(stopwords) ==> !stopwords.contains(
            lowercase_of(word),
        ),
        Filter::MinChars => config.min_chars matches Some(least) ==> grapheme_count_of(key)
            >= least,
        Filter::Pattern => config.ignored matches Some(ignored) ==> !ignored.contains(key),
    }
}

/// The verdict of running `filters` one after the other, stopping at the first
/// that objects.
pub open spec fn chain_admits(filters: Seq<Filter>, config: FilterConfig, word: Seq<char>) -> bool
    decreases filters.len(),
{
    if filters.len() == 0 {
        true
    } else if !admits(filters[0], config, word) {
        false
    } else {
        chain_admits(filters.drop_first(), config, word)
    }
}

/// The order in which the chain runs its filters: the cheap ones that reject
/// the most come first, the pattern match last.
pub open spec fn chain_order() -> Seq<Filter> {
    seq![Filter::Alphabetic, Filter::Stopword, Filter::MinChars, Filter::Pattern]
}

/// Whether `word` is counted.
pub open spec fn survives(config: FilterConfig, word: Seq<char>) -> bool {
    chain_admits(chain_order(), config, word)
}

/// The words that a chain lets through.
pub open spec fn chain_survivors(
    filters: Seq<Filter>,
    config: FilterConfig,
    words: Seq<Seq<char>>,
) -> Seq<Seq<char>> {
    words.filter(|word: Seq<char>| chain_admits(filters, config, word))
}

/// The keys of the words among `words` that are counted, in their order.
pub open spec fn surviving_keys(config: FilterConfig, words: Seq<Seq<char>>) -> Seq<Seq<char>> {
    chain_survivors(chain_order(), config, words).map_values(
        |word: Seq<char>| comparison_key(config, word),
    )
}

/// The keys counted for one line of text.
pub open spec fn line_keys(config: FilterConfig, line: Seq<char>) -> Seq<Seq<char>> {
    surviving_keys(config, unicode_words_of(line))
}

/// The keys counted for a source, given as its lines.
pub open spec fn source_keys(config: FilterConfig, lines: Seq<Seq<char>>) -> Seq<Seq<char>> {
    lines.map_values(|line: Seq<char>| line_keys(config, line)).flatten()
}

/// A chain admits a word exactly when each of its filters does.
pub proof fn lemma_chain_admits_all(filters: Seq<Filter>, config: FilterConfig, word: Seq<char>)
    ensures
        chain_admits(filters, config, word) <==> forall|i: int|
            0 <= i < filters.len() ==> admits(#[trigger] filters[i], config, word),
    decreases filters.len(),
{
    if filters.len() > 0 {
        let rest = filters.drop_first();
        lemma_chain_admits_all(rest, config, word);
        if chain_admits(filters, config, word) {
            assert forall|i: int| 0 <= i < filters.len() implies admits(
                #[trigger] filters[i],
                config,
                word,
            ) by {
                if i > 0 {
                    assert(filters[i] == rest[i - 1]);
                }
            }
        }
    }
}

/// The verdict on a word does not depend on the order in which the filters are
/// run, nor on how often one of them is run: two chains made of the same
/// filters agree on every word.
pub proof fn lemma_filter_order_irrelevant(
    first: Seq<Filter>,
    second: Seq<Filter>,
    config: FilterConfig,
    word: Seq<char>,
)
    requires
        first.to_set() == second.to_set(),
    ensures
        chain_admits(first, config, word) == chain_admits(second, config, word),
{
    lemma_chain_admits_all(first, config, word);
    lemma_chain_admits_all(second, config, word);
    assert forall|i: int| 0 <= i < first.len() implies second.contains(#[trigger] first[i]) by {
        assert(first.to_set().contains(first[i]));
    }
    assert forall|i: int| 0 <= i < second.len() implies first.contains(#[trigger] second[i]) by {
        assert(second.to_set().contains(second[i]));
    }
}

/// Two chains made of the same filters let the same words through, whatever
/// the order in which each runs them.
pub proof fn lemma_survivors_order_irrelevant(
    first: Seq<Filter>,
    second: Seq<Filter>,
    config: FilterConfig,
    words: Seq<Seq<char>>,
)
    requires
        first.to_set() == second.to_set(),
    ensures
        chain_survivors(first, config, words) == chain_survivors(second, config, words),
{
    let by_first = |word: Seq<char>| chain_admits(first, config, word);
    let by_second = |word: Seq<char>| chain_admits(second, config, word);
    assert forall|word: Seq<char>| #[trigger] by_first(word) == by_second(word) by {
        lemma_filter_order_irrelevant(first, second, config, word);
    }
    assert(by_first =~= by_second);
}

/// A chain made of two chains one after the other admits a word exactly when
/// both do.
pub proof fn lemma_chain_admits_both(
    first: Seq<Filter>,
    second: Seq<Filter>,
    config: FilterConfig,
    word: Seq<char>,
)
    ensures
        chain_admits(first + second, config, word) == (chain_admits(first, config, word)
            && chain_admits(second, config, word)),
{
    let both = first + second;
    lemma_chain_admits_all(first, config, word);
    lemma_chain_admits_all(second, config, word);
    lemma_chain_admits_all(both, config, word);
    if chain_admits(both, config, word) {
        assert forall|i: int| 0 <= i < first.len() implies admits(
            #[trigger] first[i],
            config,
            word,
        ) by {
            assert(both[i] == first[i]);
        }
        assert forall|i: int| 0 <= i < second.len() implies admits(
            #[trigger] second[i],
            config,
            word,
        ) by {
            assert(both[first.len() + i] == second[i]);
        }
    }
}

/// Filtering in two passes, by one group of filters and then by another, lets
/// through what one pass by all of them lets through.
pub proof fn lemma_survivors_in_groups(
    first: Seq<Filter>,
    second: Seq<Filter>,
    config: FilterConfig,
    words: Seq<Seq<char>>,
)
    ensures
        chain_survivors(second, config, chain_survivors(first, config, words)) == chain_survivors(
            first + second,
            config,
            words,
        ),
    decreases words.len(),
{
    let by_first = |word: Seq<char>| chain_admits(first, config, word);
    let by_second = |word: Seq<char>| chain_admits(second, config, word);
    let by_both = |word: Seq<char>| chain_admits(first + second, config, word);
    if words.len() > 0 {
        let before = words.drop_last();
        let last = words.last();
        assert(words =~= before.push(last));
        lemma_survivors_in_groups(first, second, config, before);
        lemma_chain_admits_both(first, second, config, last);
        before.lemma_filter_push(last, by_first);
        before.lemma_filter_push(last, by_both);
        before.filter(by_first).lemma_filter_push(last, by_second);
    }
}

/// A word is counted exactly when all four filters admit it.
pub proof fn lemma_survives_iff_all_admit(config: FilterConfig, word: Seq<char>)
    ensures
        survives(config, word) <==> {
            &&& admits(Filter::Alphabetic, config, word)
            &&& admits(Filter::Stopword, config, word)
            &&& admits(Filter::MinChars, config, word)
            &&& admits(Filter::Pattern, config, word)
        },
{
    let order = chain_order();
    lemma_chain_admits_all(order, config, word);
}

/// Runs the filter chain on one word: its key where the word is counted,
/// `None` where a filter objects.
pub fn keep_word(word: &str, args: &CliArgs, stopwords: &Option<StopwordSet>) -> (kept: Option<
    String,
>)
    ensures
        kept is Some <==> survives(filter_config(*args, *stopwords), word@),
        kept matches Some(key) ==> key@ == comparison_key(
            filter_config(*args, *stopwords),
            word@,
        ),
{
    let ghost config = filter_config(*args, *stopwords);
    proof {
        lemma_survives_iff_all_admit(config, word@);
    }
    let lowered = lowercase(word);
    let key = if args.case_sensitive {
        word
    } else {
        lowered.as_str()
    };
    if args.alphabetic_only && !is_all_alphabetic(key) {
        return None;
    }
    if let Some(set) = stopwords {
        if set.contains(lowered.as_str()) {
            return None;
        }
    }
    if let Some(least) = args.min_char {
        if grapheme_count(key) < least {
            return None;
        }
    }
    if let Some(re) = &args.ignore_words {
        if is_match(re, key) {
            return None;
        }
    }
    Some(key.to_owned())
}

} // verus!
