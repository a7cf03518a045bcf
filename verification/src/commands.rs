//! The commands of a run: counting the sources and reporting the result.
//!
//! Reading is left to the caller.  A source arrives as its lines; a source that
//! could not be read arrives as `None`.  What is to be printed is returned as a
//! text.

use crate::cli::{objection, CliArgs};
use crate::counter::source_counts;
use crate::error::CliError;
use crate::filter::filter_config;
use crate::frequency::FrequencyMap;
use crate::json::{quote_entries, quoted_entries};
use crate::merge::{any_read, can_merge, counts_fit, lemma_merged_counts_grow, merged_counts};
use crate::order::is_same_text;
use crate::rank::{ranking, shown, take_top};
use crate::render::{
    csv_output, json_output, render_csv, render_json, render_text, text_output,
};
use crate::stoplist::{folded, spark_stopwords_of, StopwordSet};
use vstd::multiset::*;
use vstd::prelude::*;
use vstd::string::StringExecFns;

pub use crate::counter::process_words;
pub use crate::merge::merge_word_counts;
pub use crate::rank::sort_word_counts;

verus! {

/// What rendering `entries` in `format` comes to: the text, or the message of
/// the error.
pub open spec fn rendered(format: Seq<char>, entries: Seq<(Seq<char>, u64)>) -> Result<
    Seq<char>,
    Seq<char>,
> {
    if format == "text"@ {
        Ok(text_output(entries))
    } else if format == "json"@ {
        match quoted_entries(entries) {
            Some(quoted) => Ok(json_output(quoted)),
            None => Err("Failed to write the results as JSON"@),
        }
    } else if format == "csv"@ {
        Ok(csv_output(entries))
    } else {
        Err("Unsupported output format: "@ + format)
    }
}

/// What reporting `counts` comes to: their ranking in the direction `sort`,
/// cut to `top` entries and rendered in `format`.
pub open spec fn report(
    top: Option<usize>,
    sort: Seq<char>,
    format: Seq<char>,
    counts: Multiset<Seq<char>>,
) -> Result<Seq<char>, Seq<char>> {
    let ranked = ranking(counts, sort == "asc"@);
    rendered(format, ranked.take(shown(top, ranked.len()) as int))
}

/// Whether `outcome` is `expected`: the text, or an error of the kind `Other`
/// with the message.
pub open spec fn says(
    outcome: Result<String, CliError>,
    expected: Result<Seq<char>, Seq<char>>,
) -> bool {
    match expected {
        Ok(text) => outcome matches Ok(out) && out@ == text,
        Err(message) => outcome matches Err(CliError::Other(reason)) && reason@ == message,
    }
}

/// The stopword set of a run: the English one where the options ask for
/// stopwords to be dropped, none otherwise.  It is an error when the provider of
/// the set has none.
pub fn stopwords_for(args: &CliArgs) -> (outcome: Result<Option<StopwordSet>, CliError>)
    ensures
        !args.no_stopwords ==> outcome matches Ok(None),
        args.no_stopwords ==> match spark_stopwords_of("english"@) {
            Some(words) => outcome matches Ok(Some(set)) && set@ == folded(words),
            None => outcome matches Err(CliError::Other(reason)) && reason@
                == "Failed to load embedded English stopwords"@,
        },
{
    if args.no_stopwords {
        match StopwordSet::english() {
            Ok(set) => Ok(Some(set)),
            Err(error) => Err(error),
        }
    } else {
        Ok(None)
    }
}

/// Tells whether the ranking is printed in colour: where it is asked for as
/// text and goes to a terminal.
pub fn is_decorated(output_format: &str, stdout_is_terminal: bool) -> (decorated: bool)
    ensures
        decorated == (stdout_is_terminal && output_format@ == "text"@),
{
    stdout_is_terminal && is_same_text(output_format, "text")
}

/// Renders the leading entries of a ranking, up to the limit `top`, as
/// `"text"`, `"json"` or `"csv"`; any other format is an error.
pub fn render_results(
    top: Option<usize>,
    sorted: Vec<(String, u64)>,
    output_format: &str,
) -> (outcome: Result<String, CliError>)
    ensures
        says(
            outcome,
            rendered(
                output_format@,
                sorted.deep_view().take(shown(top, sorted@.len()) as int),
            ),
        ),
{
    let results = take_top(top, sorted);
    if is_same_text(output_format, "text") {
        Ok(render_text(&results))
    } else if is_same_text(output_format, "json") {
        match quote_entries(&results) {
            Some(quoted) => Ok(render_json(&quoted)),
            None => Err(CliError::Other(String::from_str("Failed to write the results as JSON"))),
        }
    } else if is_same_text(output_format, "csv") {
        Ok(render_csv(&results))
    } else {
        Err(
            CliError::Other(
                String::from_str("Unsupported output format: ").concat(output_format),
            ),
        )
    }
}

/// Ranks `word_count` in the direction `sort` and renders the leading entries,
/// up to the limit `top`, in `output_format`.
pub fn output_results(
    top: Option<usize>,
    sort: &str,
    output_format: &str,
    word_count: FrequencyMap,
) -> (outcome: Result<String, CliError>)
    requires
        word_count.wf(),
    ensures
        says(outcome, report(top, sort@, output_format@, word_count@)),
{
    let sorted = sort_word_counts(sort, word_count);
    render_results(top, sorted, output_format)
}

/// Counts the words of one source, given as its lines.
pub fn count_freq_of_words_from_reader(
    lines: &Vec<String>,
    args: &CliArgs,
    stopwords: &Option<StopwordSet>,
) -> (outcome: Result<FrequencyMap, CliError>)
    ensures
        outcome matches Ok(map) && map.wf() && map@ == source_counts(
            filter_config(*args, *stopwords),
            lines.deep_view(),
        ),
{
    let word_count = process_words(lines, args, stopwords);
    Ok(word_count)
}

/// Counts each source that could be read and merges the counts.  It is an
/// error when no source could be read, and when a merged count leaves the range
/// of a counter.
pub fn merge_sources(
    sources: &Vec<Option<Vec<String>>>,
    args: &CliArgs,
    stopwords: &Option<StopwordSet>,
) -> (outcome: Result<FrequencyMap, CliError>)
    ensures
        match outcome {
            Ok(map) => {
                &&& any_read(sources.deep_view())
                &&& map.wf()
                &&& map@ == merged_counts(filter_config(*args, *stopwords), sources.deep_view())
            },
            Err(CliError::Other(reason)) => if any_read(sources.deep_view()) {
                &&& !counts_fit(
                    merged_counts(filter_config(*args, *stopwords), sources.deep_view()),
                )
                &&& reason@ == "word counts exceed the range of a counter"@
            } else {
                reason@ == "no valid files found"@
            },
            Err(_) => false,
        },
{
    let ghost config = filter_config(*args, *stopwords);
    let ghost all = sources.deep_view();
    let mut merged: Option<FrequencyMap> = None;
    let mut i: usize = 0;
    while i < sources.len()
        invariant
            i <= sources.len(),
            all == sources.deep_view(),
            config == filter_config(*args, *stopwords),
            merged is Some <==> any_read(all.take(i as int)),
            merged matches Some(map) ==> map.wf() && map@ == merged_counts(
                config,
                all.take(i as int),
            ),
            merged is None ==> merged_counts(config, all.take(i as int)) == Multiset::<
                Seq<char>,
            >::empty(),
        decreases sources.len() - i,
    {
        let ghost seen = all.take(i as int);
        let ghost next = all.take(i + 1);
        proof {
            assert(next.drop_last() =~= seen);
            assert(next.last() == all[i as int]);
        }
        match &sources[i] {
            Some(lines) => {
                let part = process_words(lines, args, stopwords);
                match merged {
                    Some(mut map) => {
                        if !can_merge(&map, &part) {
                            proof {
                                let key = choose|key: Seq<char>|
                                    map@.count(key) + part@.count(key) > u64::MAX;
                                lemma_merged_counts_grow(config, all, i + 1, key);
                            }
                            return Err(
                                CliError::Other(
                                    String::from_str("word counts exceed the range of a counter"),
                                ),
                            );
                        }
                        merge_word_counts(&mut map, part);
                        merged = Some(map);
                    },
                    None => {
                        merged = Some(part);
                    },
                }
            },
            None => {},
        }
        i += 1;
    }
    proof {
        assert(all.take(sources.len() as int) =~= all);
    }
    match merged {
        Some(map) => Ok(map),
        None => Err(CliError::Other(String::from_str("no valid files found"))),
    }
}

/// What a run over `sources` comes to: the objection to its options where
/// there is one, else the error of having nothing to count or of a count out
/// of range, else the report.
pub open spec fn run_on_sources(
    sources: Seq<Option<Seq<Seq<char>>>>,
    args: CliArgs,
    stopwords: Option<StopwordSet>,
) -> Result<Seq<char>, Seq<char>> {
    let counts = merged_counts(filter_config(args, stopwords), sources);
    match objection(args.sort@, args.output_format@) {
        Some(message) => Err(message),
        None => if !any_read(sources) {
            Err("no valid files found"@)
        } else if !counts_fit(counts) {
            Err("word counts exceed the range of a counter"@)
        } else {
            report(args.top, args.sort@, args.output_format@, counts)
        },
    }
}

/// What a run over one stream comes to: the objection to its options where
/// there is one, else the report.
pub open spec fn run_on_stream(
    lines: Seq<Seq<char>>,
    args: CliArgs,
    stopwords: Option<StopwordSet>,
) -> Result<Seq<char>, Seq<char>> {
    match objection(args.sort@, args.output_format@) {
        Some(message) => Err(message),
        None => report(
            args.top,
            args.sort@,
            args.output_format@,
            source_counts(filter_config(args, stopwords), lines),
        ),
    }
}

/// Counts the words of the sources and reports them as the options ask.
/// Options that cannot be followed are turned down before anything is counted;
/// after that it is an error when no source could be read.
pub fn count_freq_of_words(
    sources: &Vec<Option<Vec<String>>>,
    args: &CliArgs,
    stopwords: &Option<StopwordSet>,
) -> (outcome: Result<String, CliError>)
    ensures
        says(outcome, run_on_sources(sources.deep_view(), *args, *stopwords)),
{
    match args.validate() {
        Ok(_) => {},
        Err(error) => {
            return Err(error);
        },
    }
    match merge_sources(sources, args, stopwords) {
        Ok(word_counts) => {
            proof {
                word_counts.lemma_counts_fit();
            }
            output_results(args.top, args.sort.as_str(), args.output_format.as_str(), word_counts)
        },
        Err(error) => Err(error),
    }
}

/// Counts the words of one stream, given as its lines, and reports them as
/// the options ask.  Options that cannot be followed are turned down before
/// anything is counted.
pub fn count_words_from_stdin(
    lines: &Vec<String>,
    args: &CliArgs,
    stopwords: &Option<StopwordSet>,
) -> (outcome: Result<String, CliError>)
    ensures
        says(outcome, run_on_stream(lines.deep_view(), *args, *stopwords)),
{
    match args.validate() {
        Ok(_) => {},
        Err(error) => {
            return Err(error);
        },
    }
    let word_count = process_words(lines, args, stopwords);
    output_results(args.top, args.sort.as_str(), args.output_format.as_str(), word_count)
}

} // verus!
