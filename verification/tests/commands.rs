use regex::Regex;
use std::path::PathBuf;
use tkrar::cli::{CliArgs, Config, Input};
use tkrar::commands::{
    count_freq_of_words, count_words_from_stdin, merge_sources, stopwords_for,
};
use tkrar::counter::process_words;
use tkrar::error::CliError;
use tkrar::rank::sort_word_counts;
use tkrar::stoplist::StopwordSet;

fn options() -> CliArgs {
    CliArgs {
        target: None,
        top: None,
        min_char: None,
        sort: "desc".to_string(),
        case_sensitive: false,
        no_stopwords: false,
        ignore_words: None,
        ignore_files: None,
        alphabetic_only: false,
        output_format: "text".to_string(),
        config: None,
    }
}

fn words(list: &[&str]) -> Vec<String> {
    list.iter().map(|w| w.to_string()).collect()
}

fn entries(list: &[(&str, u64)]) -> Vec<(String, u64)> {
    list.iter().map(|(w, c)| (w.to_string(), *c)).collect()
}

#[test]
fn folded_words_are_counted_together_and_ranked() {
    let lines = words(&["The the THE cat"]);
    let map = process_words(&lines, &options(), &None);
    assert_eq!(map.count("the"), 3);
    assert_eq!(map.count("cat"), 1);
    assert_eq!(map.len(), 2);
    assert_eq!(sort_word_counts("desc", map), entries(&[("the", 3), ("cat", 1)]));
    assert_eq!(
        count_words_from_stdin(&lines, &options(), &None).unwrap(),
        " 1. the             3\n 2. cat             1"
    );
}

#[test]
fn english_stopwords_leave_the_other_words() {
    let args = CliArgs { no_stopwords: true, ..options() };
    let stopwords = stopwords_for(&args).unwrap();
    assert!(stopwords.as_ref().unwrap().contains("the"));
    let lines = words(&["The the THE cat"]);
    let map = process_words(&lines, &args, &stopwords);
    assert_eq!(map.count("cat"), 1);
    assert_eq!(map.count("the"), 0);
    assert_eq!(map.len(), 1);
    assert_eq!(
        count_words_from_stdin(&lines, &args, &stopwords).unwrap(),
        " 1. cat             1"
    );
}

#[test]
fn two_files_are_merged_and_ranked() {
    let sources = vec![Some(words(&["a a b"])), Some(words(&["b c c c"]))];
    let map = merge_sources(&sources, &options(), &None).unwrap();
    assert_eq!(map.count("a"), 2);
    assert_eq!(map.count("b"), 2);
    assert_eq!(map.count("c"), 3);
    assert_eq!(map.len(), 3);
    assert_eq!(sort_word_counts("desc", map), entries(&[("c", 3), ("a", 2), ("b", 2)]));
    assert_eq!(
        count_freq_of_words(&sources, &options(), &None).unwrap(),
        " 1. c               3\n 2. a               2\n 3. b               2"
    );
}

#[test]
fn short_words_of_a_line_are_dropped() {
    let args = CliArgs { min_char: Some(3), ..options() };
    let map = process_words(&words(&["a ab abc abcd"]), &args, &None);
    assert_eq!(map.count("a"), 0);
    assert_eq!(map.count("ab"), 0);
    assert_eq!(map.count("abc"), 1);
    assert_eq!(map.count("abcd"), 1);
    assert_eq!(map.len(), 2);
}

#[test]
fn no_stopword_set_unless_asked_for() {
    assert!(stopwords_for(&options()).unwrap().is_none());
    let args = CliArgs { no_stopwords: true, ..options() };
    assert!(stopwords_for(&args).unwrap().is_some());
}

#[test]
fn files_are_reported_as_the_options_ask() {
    let sources = vec![
        Some(words(&["The cat sat", "on the mat"])),
        None,
        Some(words(&["The Cat 42"])),
    ];
    let args = CliArgs {
        top: Some(2),
        sort: "desc".to_string(),
        output_format: "csv".to_string(),
        alphabetic_only: true,
        ..options()
    };
    assert_eq!(
        count_freq_of_words(&sources, &args, &None).unwrap(),
        "Rank,Word,Frequency\n1,the,3\n2,cat,2"
    );
    let stopwords = Some(StopwordSet::from_words(&words(&["the", "on"])));
    let args = CliArgs { sort: "asc".to_string(), output_format: "json".to_string(), ..options() };
    assert_eq!(
        count_freq_of_words(&sources, &args, &stopwords).unwrap(),
        "[{\"word\":\"42\",\"frequency\":1},{\"word\":\"mat\",\"frequency\":1},\
         {\"word\":\"sat\",\"frequency\":1},{\"word\":\"cat\",\"frequency\":2}]"
    );
}

#[test]
fn files_that_all_failed_are_an_error() {
    for sources in [Vec::new(), vec![None, None]] {
        match count_freq_of_words(&sources, &options(), &None) {
            Err(CliError::Other(reason)) => assert_eq!(reason, "no valid files found"),
            _ => panic!("an error was expected"),
        }
    }
}

#[test]
fn a_stream_is_reported_as_the_options_ask() {
    let lines = words(&["b a", "a c b a"]);
    let args = CliArgs { sort: "asc".to_string(), output_format: "csv".to_string(), ..options() };
    assert_eq!(
        count_words_from_stdin(&lines, &args, &None).unwrap(),
        "Rank,Word,Frequency\n1,c,1\n2,b,2\n3,a,3"
    );
    assert_eq!(count_words_from_stdin(&Vec::new(), &options(), &None).unwrap(), "");
    let args = CliArgs { output_format: "html".to_string(), ..options() };
    match count_words_from_stdin(&lines, &args, &None) {
        Err(CliError::Other(reason)) => assert_eq!(reason, "Unsupported output format: html"),
        _ => panic!("an error was expected"),
    }
}

#[test]
fn input_is_the_targets_where_some_are_named() {
    let args = CliArgs { target: Some(vec![PathBuf::from("a.txt")]), ..options() };
    assert_eq!(args.input(true).unwrap(), Input::Targets);
    assert_eq!(args.input(false).unwrap(), Input::Targets);
    let args = CliArgs { target: Some(Vec::new()), ..options() };
    assert_eq!(args.input(true).unwrap(), Input::Targets);
}

#[test]
fn input_is_the_stream_where_something_is_piped_in() {
    assert_eq!(options().input(false).unwrap(), Input::Stdin);
}

#[test]
fn nothing_to_read_is_an_error() {
    match options().input(true) {
        Err(CliError::MissingRequiredArgument(reason)) => {
            assert_eq!(reason, "No target file or stdin found.")
        }
        _ => panic!("an error was expected"),
    }
}

#[test]
fn configuration_fills_what_the_command_line_left_open() {
    let config = Config {
        top: Some(10),
        min_char: Some(3),
        ignore_words: Some("ignored|hi|hidden".to_string()),
        ignore_files: Some(words(&["src/ignored.txt", "dummy.txt"])),
    };
    let merged = options().apply_config(config);
    assert_eq!(merged.top, Some(10));
    assert_eq!(merged.min_char, Some(3));
    assert_eq!(merged.ignore_words.as_ref().unwrap().as_str(), "ignored|hi|hidden");
    assert!(merged.ignore_words.as_ref().unwrap().is_match("hidden"));
    assert!(!merged.ignore_words.as_ref().unwrap().is_match("shown"));
    assert_eq!(merged.ignore_files, Some(words(&["src/ignored.txt", "dummy.txt"])));
    assert_eq!(merged.sort, "desc");
    assert_eq!(merged.output_format, "text");
    assert!(!merged.case_sensitive);
    assert!(!merged.no_stopwords);
    assert!(!merged.alphabetic_only);
    assert!(merged.target.is_none());
    assert!(merged.config.is_none());
}

#[test]
fn the_command_line_overrides_the_configuration() {
    let args = CliArgs {
        target: Some(vec![PathBuf::from("a.txt")]),
        top: Some(1),
        min_char: Some(0),
        sort: "asc".to_string(),
        case_sensitive: true,
        no_stopwords: true,
        ignore_words: Some(Regex::new("^x$").unwrap()),
        ignore_files: Some(words(&["mine.txt"])),
        alphabetic_only: true,
        output_format: "json".to_string(),
        config: Some(PathBuf::from("defaults.toml")),
    };
    let config = Config {
        top: Some(10),
        min_char: Some(3),
        ignore_words: Some("y".to_string()),
        ignore_files: Some(words(&["theirs.txt"])),
    };
    let merged = args.apply_config(config);
    assert_eq!(merged.top, Some(1));
    assert_eq!(merged.min_char, Some(0));
    assert_eq!(merged.ignore_words.as_ref().unwrap().as_str(), "^x$");
    assert_eq!(merged.ignore_files, Some(words(&["mine.txt"])));
    assert_eq!(merged.sort, "asc");
    assert_eq!(merged.output_format, "json");
    assert!(merged.case_sensitive);
    assert!(merged.no_stopwords);
    assert!(merged.alphabetic_only);
    assert_eq!(merged.target, Some(vec![PathBuf::from("a.txt")]));
    assert_eq!(merged.config, Some(PathBuf::from("defaults.toml")));
}

#[test]
fn an_empty_configuration_changes_nothing() {
    let merged = CliArgs { top: Some(4), ..options() }.apply_config(Config::default());
    assert_eq!(merged.top, Some(4));
    assert_eq!(merged.min_char, None);
    assert!(merged.ignore_words.is_none());
    assert_eq!(merged.ignore_files, None);
    let config = Config::default();
    assert!(config.top.is_none() && config.min_char.is_none());
    assert!(config.ignore_words.is_none() && config.ignore_files.is_none());
}

#[test]
fn a_configuration_that_failed_to_load_gives_no_defaults() {
    let failed = Config::recovered(Err(CliError::Other("Failed to read config file".to_string())));
    assert!(failed.top.is_none() && failed.min_char.is_none());
    assert!(failed.ignore_words.is_none() && failed.ignore_files.is_none());
    let loaded = Config::recovered(Ok(Config { top: Some(3), ..Config::default() }));
    assert_eq!(loaded.top, Some(3));
    let merged = CliArgs { min_char: Some(2), ..options() }.apply_config(failed);
    assert_eq!(merged.top, None);
    assert_eq!(merged.min_char, Some(2));
}

#[test]
fn a_pattern_that_does_not_compile_is_passed_over() {
    let config = Config { top: Some(5), ignore_words: Some("(".to_string()), ..Config::default() };
    let merged = options().apply_config(config);
    assert!(merged.ignore_words.is_none());
    assert_eq!(merged.top, Some(5));
}

#[test]
fn defaults_are_taken_with_a_pattern_compiled_elsewhere() {
    let config = Config { min_char: Some(2), ..Config::default() };
    let merged = options().with_defaults(config, Some(Regex::new("a+").unwrap()));
    assert_eq!(merged.ignore_words.as_ref().unwrap().as_str(), "a+");
    assert_eq!(merged.min_char, Some(2));
    let args = CliArgs { ignore_words: Some(Regex::new("b").unwrap()), ..options() };
    let merged = args.with_defaults(Config::default(), Some(Regex::new("a+").unwrap()));
    assert_eq!(merged.ignore_words.as_ref().unwrap().as_str(), "b");
}

#[test]
fn errors_say_what_went_wrong() {
    assert_eq!(CliError::Other("no valid files found".to_string()).message(), "Error: no valid files found");
    assert_eq!(
        CliError::MissingRequiredArgument("No target file or stdin found.".to_string()).message(),
        "Missing required argument: No target file or stdin found."
    );
    let io = std::io::Error::new(std::io::ErrorKind::NotFound, "gone");
    assert_eq!(CliError::Io(io).message(), "IO error: gone");
    let io = std::io::Error::new(std::io::ErrorKind::PermissionDenied, "locked");
    match CliError::from(io) {
        CliError::Io(inner) => assert_eq!(inner.kind(), std::io::ErrorKind::PermissionDenied),
        _ => panic!("an input and output error was expected"),
    }
}

#[test]
fn known_directions_and_formats_are_accepted() {
    for sort in ["asc", "desc"] {
        for format in ["text", "json", "csv"] {
            let args = CliArgs {
                sort: sort.to_string(),
                output_format: format.to_string(),
                ..options()
            };
            assert!(args.validate().is_ok());
        }
    }
}

#[test]
fn an_unknown_direction_is_turned_down() {
    for sort in ["up", "", "ASC", "descending"] {
        let args = CliArgs { sort: sort.to_string(), ..options() };
        match args.validate() {
            Err(CliError::Other(reason)) => {
                assert_eq!(reason, format!("Unsupported sort order: {}", sort))
            }
            _ => panic!("an error was expected"),
        }
    }
}

#[test]
fn an_unknown_format_is_turned_down() {
    for format in ["xml", "", "Text"] {
        let args = CliArgs { output_format: format.to_string(), ..options() };
        match args.validate() {
            Err(CliError::Other(reason)) => {
                assert_eq!(reason, format!("Unsupported output format: {}", format))
            }
            _ => panic!("an error was expected"),
        }
    }
    let args = CliArgs { sort: "up".to_string(), output_format: "xml".to_string(), ..options() };
    match args.validate() {
        Err(CliError::Other(reason)) => assert_eq!(reason, "Unsupported sort order: up"),
        _ => panic!("an error was expected"),
    }
}

#[test]
fn options_are_turned_down_before_anything_is_counted() {
    let args = CliArgs { sort: "up".to_string(), ..options() };
    match count_freq_of_words(&Vec::new(), &args, &None) {
        Err(CliError::Other(reason)) => assert_eq!(reason, "Unsupported sort order: up"),
        _ => panic!("an error was expected"),
    }
    match count_freq_of_words(&vec![Some(words(&["a b"]))], &args, &None) {
        Err(CliError::Other(reason)) => assert_eq!(reason, "Unsupported sort order: up"),
        _ => panic!("an error was expected"),
    }
    match count_words_from_stdin(&words(&["a b"]), &args, &None) {
        Err(CliError::Other(reason)) => assert_eq!(reason, "Unsupported sort order: up"),
        _ => panic!("an error was expected"),
    }
    let args = CliArgs { output_format: "xml".to_string(), ..options() };
    match count_freq_of_words(&vec![None], &args, &None) {
        Err(CliError::Other(reason)) => assert_eq!(reason, "Unsupported output format: xml"),
        _ => panic!("an error was expected"),
    }
}
