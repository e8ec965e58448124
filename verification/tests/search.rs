use std::collections::HashMap;

use minigrep::lines::split_lines;
use minigrep::matching::{contains, contains_chars, to_lowercase};
use minigrep::search::{fold, scan_line, search_lines};
use minigrep::text::chars_of;
use minigrep::{search, search_case_insensitive_lazy, search_lazy, SearchMode};

fn set_of(pairs: &[(usize, &str)]) -> HashMap<usize, String> {
    let mut expected = HashMap::new();
    for (number, line) in pairs {
        expected.insert(*number, line.to_string());
    }
    expected
}

#[test]
fn case_sensitive() {
    let query = "duct";
    let contents = "\
Rust:
safe, fast, productive.
Pick three.
Duct tape.";

    let result = search_lazy(query, contents);
    let mut expected = HashMap::new();
    expected.insert(2, "safe, fast, productive.".into());

    assert_eq!(expected, result);
}

#[test]
fn case_insensitive() {
    let query = "rUsT";
    let contents = "\
Rust:
safe, fast, productive.
Pick three.
Trust me.";

    let result = search_case_insensitive_lazy(query, contents);
    let mut expected = HashMap::new();
    expected.insert(1, "Rust:".into());
    expected.insert(4, "Trust me.".into());

    assert_eq!(expected, result);
}

#[test]
fn case_sensitive_by_mode() {
    let contents = "Rust:\nsafe, fast, productive.\nPick three.\nDuct tape.";
    let result = search("duct", contents, SearchMode::CaseSensitive);
    assert_eq!(set_of(&[(2, "safe, fast, productive.")]), result);
}

#[test]
fn case_insensitive_without_the_fourth_match() {
    let contents = "Rust:\nsafe, fast, productive.\nPick three.\nDuct tape.";
    let result = search("rUsT", contents, SearchMode::CaseInsensitive);
    assert_eq!(set_of(&[(1, "Rust:")]), result);
}

#[test]
fn case_sensitive_keeps_case_apart() {
    let contents = "Rust:\nsafe, fast, productive.\nPick three.\nTrust me.";
    let result = search("rUsT", contents, SearchMode::CaseSensitive);
    assert!(result.is_empty());
    let result = search("rust", contents, SearchMode::CaseSensitive);
    assert_eq!(set_of(&[(4, "Trust me.")]), result);
}

#[test]
fn case_insensitive_keeps_the_line_as_written() {
    let result = search("HELLO", "Hello World\nhELLo\nbye", SearchMode::CaseInsensitive);
    assert_eq!(set_of(&[(1, "Hello World"), (2, "hELLo")]), result);
}

#[test]
fn case_insensitive_folds_beyond_ascii() {
    let result = search("ÄPFEL", "drei äpfel\nApfel", SearchMode::CaseInsensitive);
    assert_eq!(set_of(&[(1, "drei äpfel")]), result);
}

#[test]
fn empty_query_matches_every_line() {
    let result = search("", "a\nb\nc", SearchMode::CaseSensitive);
    assert_eq!(set_of(&[(1, "a"), (2, "b"), (3, "c")]), result);
    let result = search("", "a\nb\nc", SearchMode::CaseInsensitive);
    assert_eq!(set_of(&[(1, "a"), (2, "b"), (3, "c")]), result);
}

#[test]
fn empty_query_matches_empty_lines_too() {
    let result = search("", "\n\nx\n", SearchMode::CaseSensitive);
    assert_eq!(set_of(&[(1, ""), (2, ""), (3, "x")]), result);
}

#[test]
fn empty_document_has_no_matches() {
    assert!(search("x", "", SearchMode::CaseSensitive).is_empty());
    assert!(search("x", "", SearchMode::CaseInsensitive).is_empty());
    assert!(search("", "", SearchMode::CaseSensitive).is_empty());
    assert!(search("", "", SearchMode::CaseInsensitive).is_empty());
}

#[test]
fn last_line_counts_without_terminator() {
    let result = search("end", "start\nthe end", SearchMode::CaseSensitive);
    assert_eq!(set_of(&[(2, "the end")]), result);
    let result = search("end", "start\nthe end\n", SearchMode::CaseSensitive);
    assert_eq!(set_of(&[(2, "the end")]), result);
}

#[test]
fn whitespace_line_is_eligible() {
    let result = search(" ", "a\n   \nb c", SearchMode::CaseSensitive);
    assert_eq!(set_of(&[(2, "   "), (3, "b c")]), result);
}

#[test]
fn search_is_repeatable() {
    let contents = "one\ntwo\nthree\ntwo again";
    let first = search("two", contents, SearchMode::CaseSensitive);
    let second = search("two", contents, SearchMode::CaseSensitive);
    assert_eq!(first, second);
    assert_eq!(set_of(&[(2, "two"), (4, "two again")]), first);
}

#[test]
fn only_matching_lines_are_returned() {
    let contents = "alpha\nbeta\ngamma\ndelta";
    let result = search("a\n", contents, SearchMode::CaseSensitive);
    assert!(result.is_empty());
    let result = search("ta", contents, SearchMode::CaseSensitive);
    assert_eq!(set_of(&[(2, "beta"), (4, "delta")]), result);
    for (number, line) in &result {
        assert!(line.contains("ta"));
        assert_eq!(contents.lines().nth(number - 1), Some(line.as_str()));
    }
}

#[test]
fn line_by_line_scan_equals_whole_document_scan() {
    let contents = "Rust:\r\nsafe, fast, productive.\nPick three.\n\nTrust me.";
    for mode in [SearchMode::CaseSensitive, SearchMode::CaseInsensitive] {
        for query in ["rust", "", "e", "Pick three.", "zzz"] {
            let needle = chars_of(&fold(query, mode));
            let mut streamed = HashMap::new();
            let mut number = 0;
            for line in contents.lines() {
                number += 1;
                scan_line(&mut streamed, number, line.to_string(), &needle, mode);
            }
            assert_eq!(streamed, search(query, contents, mode));
            let lines: Vec<String> = contents.lines().map(String::from).collect();
            assert_eq!(streamed, search_lines(query, lines, mode));
        }
    }
}

#[test]
fn scan_line_adds_only_a_match() {
    let mut matches = HashMap::new();
    let needle = chars_of("fast");
    scan_line(&mut matches, 7, "safe, fast".to_string(), &needle, SearchMode::CaseSensitive);
    assert_eq!(set_of(&[(7, "safe, fast")]), matches);
    scan_line(&mut matches, 8, "slow".to_string(), &needle, SearchMode::CaseSensitive);
    assert_eq!(set_of(&[(7, "safe, fast")]), matches);
    scan_line(&mut matches, 9, "FAST".to_string(), &needle, SearchMode::CaseSensitive);
    assert_eq!(set_of(&[(7, "safe, fast")]), matches);
    scan_line(&mut matches, 9, "FAST".to_string(), &needle, SearchMode::CaseInsensitive);
    assert_eq!(set_of(&[(7, "safe, fast"), (9, "FAST")]), matches);
}

#[test]
fn fold_lowercases_only_when_case_is_ignored() {
    assert_eq!(fold("rUsT", SearchMode::CaseSensitive), "rUsT");
    assert_eq!(fold("rUsT", SearchMode::CaseInsensitive), "rust");
    assert_eq!(fold("", SearchMode::CaseInsensitive), "");
}

#[test]
fn split_lines_gives_each_line_without_terminator() {
    assert_eq!(split_lines("a\nb\nc"), vec!["a", "b", "c"]);
    assert_eq!(split_lines("a\nb\nc\n"), vec!["a", "b", "c"]);
    assert_eq!(split_lines(""), Vec::<String>::new());
    assert_eq!(split_lines("\n"), vec![""]);
    assert_eq!(split_lines("\n\n"), vec!["", ""]);
    assert_eq!(split_lines("one"), vec!["one"]);
}

#[test]
fn split_lines_handles_carriage_returns() {
    assert_eq!(split_lines("a\r\nb\r\n"), vec!["a", "b"]);
    assert_eq!(split_lines("a\r\r\nb"), vec!["a\r", "b"]);
    assert_eq!(split_lines("a\rb\nc"), vec!["a\rb", "c"]);
    assert_eq!(split_lines("a\nb\r"), vec!["a", "b\r"]);
    assert_eq!(split_lines("\r"), vec!["\r"]);
    assert_eq!(split_lines("\r\n"), vec![""]);
}

#[test]
fn split_lines_agrees_with_the_standard_line_iterator() {
    let samples = [
        "",
        "\n",
        "\r",
        "\r\n",
        "a",
        "a\n",
        "a\r\n",
        "a\r",
        "a\n\nb",
        "a\r\r\n\rb\r\n\r\n",
        "Rust:\nsafe, fast, productive.\nPick three.\nDuct tape.",
        "ünï\ncödé\r\n",
    ];
    for sample in samples {
        let expected: Vec<String> = sample.lines().map(String::from).collect();
        assert_eq!(split_lines(sample), expected, "{:?}", sample);
    }
}

#[test]
fn chars_of_lists_the_characters() {
    assert_eq!(chars_of("aé\n"), vec!['a', 'é', '\n']);
    assert_eq!(chars_of(""), Vec::<char>::new());
}

#[test]
fn contains_finds_contiguous_parts() {
    assert!(contains("safe, fast, productive.", "duct"));
    assert!(contains("abc", ""));
    assert!(contains("", ""));
    assert!(contains("abc", "abc"));
    assert!(contains("abc", "c"));
    assert!(contains("aab", "ab"));
    assert!(!contains("abc", "abcd"));
    assert!(!contains("", "a"));
    assert!(!contains("abc", "ac"));
    assert!(!contains("Duct tape.", "duct"));
}

#[test]
fn contains_chars_finds_contiguous_parts() {
    assert!(contains_chars(&vec!['a', 'b', 'c'], &vec!['b', 'c']));
    assert!(contains_chars(&vec!['a', 'b', 'c'], &vec![]));
    assert!(!contains_chars(&vec!['a', 'b', 'c'], &vec!['c', 'b']));
    assert!(!contains_chars(&vec![], &vec!['a']));
}

#[test]
fn case_insensitive_folds_each_character_on_its_own() {
    let query = "\u{3a3}";
    let contents = "\u{39f}\u{394}\u{39f}\u{3a3}";

    let result = search_case_insensitive_lazy(query, contents);
    let mut expected = HashMap::new();
    expected.insert(1, "\u{39f}\u{394}\u{39f}\u{3a3}".to_string());

    assert_eq!(expected, result);
    assert_eq!(expected, search(query, contents, SearchMode::CaseInsensitive));
    assert!(search(query, "\u{3bf}\u{3b4}\u{3bf}\u{3c3}", SearchMode::CaseSensitive).is_empty());
}

#[test]
fn final_sigma_in_the_document_is_not_a_plain_sigma() {
    let result = search("\u{3a3}", "\u{3bf}\u{3b4}\u{3bf}\u{3c2}\n\u{3c3}", SearchMode::CaseInsensitive);
    assert_eq!(set_of(&[(2, "\u{3c3}")]), result);
}

#[test]
fn to_lowercase_folds_character_by_character() {
    assert_eq!(to_lowercase(""), "");
    assert_eq!(to_lowercase("rUsT"), "rust");
    assert_eq!(to_lowercase("Hello, World 42!"), "hello, world 42!");
    assert_eq!(to_lowercase("\u{39f}\u{394}\u{39f}\u{3a3}"), "\u{3bf}\u{3b4}\u{3bf}\u{3c3}");
    assert_eq!(to_lowercase("\u{3a3} \u{3a3}\u{3a3}"), "\u{3c3} \u{3c3}\u{3c3}");
    assert_eq!(to_lowercase("\u{130}x"), "i\u{307}x");
    assert_eq!(to_lowercase("\u{c4}PFEL"), "\u{e4}pfel");
}
