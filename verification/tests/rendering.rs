use tkrar::commands::{is_decorated, output_results, render_results};
use tkrar::counter::count_keys;
use tkrar::error::CliError;
use tkrar::frequency::FrequencyMap;
use tkrar::json::quote_entries;
use tkrar::render::{append_decimal, columns_of, render_csv, render_json, render_text};

fn words(list: &[&str]) -> Vec<String> {
    list.iter().map(|w| w.to_string()).collect()
}

fn entries(list: &[(&str, u64)]) -> Vec<(String, u64)> {
    list.iter().map(|(w, c)| (w.to_string(), *c)).collect()
}

fn decimal(n: u64) -> String {
    let mut out = String::new();
    append_decimal(&mut out, n);
    out
}

#[test]
fn decimal_numerals() {
    assert_eq!(decimal(0), "0");
    assert_eq!(decimal(7), "7");
    assert_eq!(decimal(10), "10");
    assert_eq!(decimal(1234567890), "1234567890");
    assert_eq!(decimal(u64::MAX), "18446744073709551615");
    let mut out = "n=".to_string();
    append_decimal(&mut out, 305);
    assert_eq!(out, "n=305");
}

#[test]
fn text_lines_are_aligned() {
    let ranked = entries(&[("the", 3), ("cat", 1)]);
    assert_eq!(render_text(&ranked), " 1. the             3\n 2. cat             1");
}

#[test]
fn text_matches_the_format_of_the_standard_library() {
    let ranked = entries(&[
        ("a", 1200),
        ("exactlyfifteen!", 7),
        ("longer than fifteen characters", 6),
        ("été", 5),
        ("", 4),
    ]);
    let expected: Vec<String> = ranked
        .iter()
        .enumerate()
        .map(|(i, (word, count))| format!("{:>2}. {:<15} {}", i + 1, word, count))
        .collect();
    assert_eq!(render_text(&ranked), expected.join("\n"));
}

#[test]
fn text_ranks_of_more_digits_are_not_cut() {
    let ranked: Vec<(String, u64)> = (0..120).map(|i| (format!("w{}", i), 1000 - i)).collect();
    let text = render_text(&ranked);
    let lines: Vec<&str> = text.split('\n').collect();
    assert_eq!(lines.len(), 120);
    assert_eq!(lines[0], " 1. w0              1000");
    assert_eq!(lines[8], " 9. w8              992");
    assert_eq!(lines[9], "10. w9              991");
    assert_eq!(lines[99], "100. w99             901");
    assert_eq!(lines[119], "120. w119            881");
}

#[test]
fn text_of_nothing_is_empty() {
    assert_eq!(render_text(&Vec::new()), "");
}

#[test]
fn csv_has_a_header_and_a_row_per_entry() {
    let ranked = entries(&[("x", 5), ("y", 3)]);
    assert_eq!(render_csv(&ranked), "Rank,Word,Frequency\n1,x,5\n2,y,3");
    assert_eq!(render_csv(&Vec::new()), "Rank,Word,Frequency");
}

#[test]
fn csv_of_the_top_two() {
    let ranked = entries(&[("x", 5), ("y", 3), ("z", 1)]);
    let text = render_results(Some(2), ranked, "csv").unwrap();
    assert_eq!(text, "Rank,Word,Frequency\n1,x,5\n2,y,3");
}

#[test]
fn json_is_an_array_of_records() {
    let ranked = entries(&[("x", 5), ("y", 3)]);
    let text = render_results(None, ranked, "json").unwrap();
    assert_eq!(text, "[{\"word\":\"x\",\"frequency\":5},{\"word\":\"y\",\"frequency\":3}]");
    assert_eq!(render_results(None, Vec::new(), "json").unwrap(), "[]");
    assert_eq!(render_results(Some(0), entries(&[("x", 5)]), "json").unwrap(), "[]");
}

#[test]
fn json_escapes_keys() {
    let ranked = entries(&[("a\"b", 2), ("back\\slash", 1), ("tab\there", 1), ("été", 1)]);
    let text = render_results(None, ranked.clone(), "json").unwrap();
    assert_eq!(
        text,
        "[{\"word\":\"a\\\"b\",\"frequency\":2},{\"word\":\"back\\\\slash\",\"frequency\":1},\
         {\"word\":\"tab\\there\",\"frequency\":1},{\"word\":\"été\",\"frequency\":1}]"
    );
    let parsed: serde_json::Value = serde_json::from_str(&text).unwrap();
    let list = parsed.as_array().unwrap();
    assert_eq!(list.len(), ranked.len());
    for (record, (word, count)) in list.iter().zip(ranked.iter()) {
        assert_eq!(record["word"].as_str().unwrap(), word);
        assert_eq!(record["frequency"].as_u64().unwrap(), *count);
    }
}

#[test]
fn keys_are_quoted_as_json_strings() {
    let quoted = quote_entries(&entries(&[("cat", 3), ("say \"hi\"", 1)])).unwrap();
    assert_eq!(quoted, entries(&[("\"cat\"", 3), ("\"say \\\"hi\\\"\"", 1)]));
    assert_eq!(quote_entries(&Vec::new()).unwrap(), Vec::new());
}

#[test]
fn json_records_are_joined_as_given() {
    let quoted = entries(&[("\"x\"", 5), ("\"y\"", 3)]);
    assert_eq!(
        render_json(&quoted),
        "[{\"word\":\"x\",\"frequency\":5},{\"word\":\"y\",\"frequency\":3}]"
    );
    assert_eq!(render_json(&entries(&[("\"x\"", 5)])), "[{\"word\":\"x\",\"frequency\":5}]");
    assert_eq!(render_json(&Vec::new()), "[]");
}

#[test]
fn rendering_neither_sorts_nor_filters() {
    let ranked = entries(&[("b", 1), ("a", 9), ("b", 1)]);
    assert_eq!(
        render_results(None, ranked, "csv").unwrap(),
        "Rank,Word,Frequency\n1,b,1\n2,a,9\n3,b,1"
    );
}

#[test]
fn top_limits_every_format() {
    let ranked = entries(&[("x", 5), ("y", 3), ("z", 1)]);
    assert_eq!(render_results(Some(1), ranked.clone(), "text").unwrap(), " 1. x               5");
    assert_eq!(render_results(Some(0), ranked.clone(), "text").unwrap(), "");
    assert_eq!(render_results(Some(0), ranked.clone(), "csv").unwrap(), "Rank,Word,Frequency");
    assert_eq!(
        render_results(Some(7), ranked.clone(), "csv").unwrap(),
        "Rank,Word,Frequency\n1,x,5\n2,y,3\n3,z,1"
    );
    assert_eq!(
        render_results(None, ranked, "csv").unwrap(),
        "Rank,Word,Frequency\n1,x,5\n2,y,3\n3,z,1"
    );
}

#[test]
fn unsupported_format_is_an_error() {
    for format in ["xml", "", "TEXT", "text ", "jsonl"] {
        match render_results(None, entries(&[("x", 5)]), format) {
            Err(CliError::Other(reason)) => {
                assert_eq!(reason, format!("Unsupported output format: {}", format))
            }
            _ => panic!("an error was expected"),
        }
    }
}

#[test]
fn results_are_ranked_then_rendered() {
    let map = count_keys(&words(&["the", "The", "the", "cat"]));
    assert_eq!(
        output_results(None, "desc", "text", map).unwrap(),
        " 1. the             2\n 2. The             1\n 3. cat             1"
    );
    let map = count_keys(&words(&["a", "a", "b", "b", "c", "c", "c"]));
    assert_eq!(
        output_results(Some(2), "desc", "csv", map).unwrap(),
        "Rank,Word,Frequency\n1,c,3\n2,a,2"
    );
    let map = count_keys(&words(&["a", "a", "b", "b", "c", "c", "c"]));
    assert_eq!(
        output_results(None, "asc", "json", map).unwrap(),
        "[{\"word\":\"a\",\"frequency\":2},{\"word\":\"b\",\"frequency\":2},\
         {\"word\":\"c\",\"frequency\":3}]"
    );
    assert_eq!(output_results(None, "desc", "text", FrequencyMap::new()).unwrap(), "");
    assert!(matches!(
        output_results(None, "desc", "yaml", FrequencyMap::new()),
        Err(CliError::Other(_))
    ));
}

#[test]
fn columns_of_a_text_line() {
    let (rank, key, count) = columns_of(1, "the", 3);
    assert_eq!((rank.as_str(), key.as_str(), count.as_str()), (" 1", "the            ", "3"));
    let (rank, key, count) = columns_of(100, "a-key-of-more-than-fifteen", 12);
    assert_eq!(
        (rank.as_str(), key.as_str(), count.as_str()),
        ("100", "a-key-of-more-than-fifteen", "12")
    );
    for (i, (word, n)) in [("été", 5u64), ("", 0), ("exactlyfifteen!", 77)].iter().enumerate() {
        let (rank, key, count) = columns_of(i as u64 + 9, word, *n);
        assert_eq!(
            format!("{}. {} {}", rank, key, count),
            format!("{:>2}. {:<15} {}", i + 9, word, n)
        );
    }
}

#[test]
fn colour_is_for_text_on_a_terminal() {
    assert!(is_decorated("text", true));
    assert!(!is_decorated("text", false));
    assert!(!is_decorated("json", true));
    assert!(!is_decorated("csv", true));
    assert!(!is_decorated("csv", false));
    assert!(!is_decorated("", true));
}
