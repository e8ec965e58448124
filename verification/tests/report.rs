use std::collections::HashMap;

use minigrep::order::sorted_keys;
use minigrep::report::render;
use minigrep::{display, run, search, MinigrepCli, SearchMode};

#[test]
fn display_renders_number_and_line() {
    let mut matches = HashMap::new();
    matches.insert(2, "safe, fast, productive.".to_string());
    assert_eq!(display(&matches), vec!["#2: safe, fast, productive."]);
}

#[test]
fn display_of_nothing_is_empty() {
    let matches: HashMap<usize, String> = HashMap::new();
    assert_eq!(display(&matches), Vec::<String>::new());
}

#[test]
fn display_sorts_by_number_not_by_text() {
    let mut matches = HashMap::new();
    matches.insert(10, "ten".to_string());
    matches.insert(2, "two".to_string());
    matches.insert(100, "hundred".to_string());
    matches.insert(1, "one".to_string());
    matches.insert(21, "twenty-one".to_string());
    assert_eq!(
        display(&matches),
        vec!["#1: one", "#2: two", "#10: ten", "#21: twenty-one", "#100: hundred"]
    );
}

#[test]
fn display_does_not_depend_on_insertion_order() {
    let mut forward = HashMap::new();
    let mut backward = HashMap::new();
    for number in 1..=50usize {
        forward.insert(number, format!("line {}", number));
        backward.insert(51 - number, format!("line {}", 51 - number));
    }
    let shown = display(&forward);
    assert_eq!(shown, display(&backward));
    assert_eq!(shown.len(), 50);
    for (at, line) in shown.iter().enumerate() {
        assert_eq!(*line, format!("#{}: line {}", at + 1, at + 1));
    }
}

#[test]
fn display_follows_document_order_after_a_search() {
    let contents = "Rust:\nsafe, fast, productive.\nPick three.\nTrust me.";
    let matches = search("rUsT", contents, SearchMode::CaseInsensitive);
    assert_eq!(display(&matches), vec!["#1: Rust:", "#4: Trust me."]);
}

#[test]
fn sorted_keys_ascend() {
    let mut matches = HashMap::new();
    for number in [7usize, 3, 9, 1, 0, usize::MAX, 4] {
        matches.insert(number, String::new());
    }
    assert_eq!(sorted_keys(&matches), vec![0, 1, 3, 4, 7, 9, usize::MAX]);
    assert_eq!(sorted_keys(&HashMap::new()), Vec::<usize>::new());
}

#[test]
fn render_writes_decimal_numbers() {
    assert_eq!(render(0, "zero"), "#0: zero");
    assert_eq!(render(7, ""), "#7: ");
    assert_eq!(render(10, "x"), "#10: x");
    assert_eq!(render(1203, "a: b"), "#1203: a: b");
    assert_eq!(render(9876543210, "big"), "#9876543210: big");
    assert_eq!(render(usize::MAX, "max"), format!("#{}: max", usize::MAX));
}

fn settings(verbose: bool, ignore_case: bool, query: &str) -> MinigrepCli {
    MinigrepCli {
        verbose,
        ignore_case,
        query: query.to_string(),
        file: "poem.txt".to_string(),
    }
}

#[test]
fn run_prints_the_matches_in_order() {
    let contents = "Rust:\nsafe, fast, productive.\nPick three.\nDuct tape.";
    assert_eq!(
        run(&settings(false, false, "duct"), contents),
        vec!["#2: safe, fast, productive."]
    );
    assert_eq!(
        run(&settings(false, true, "duct"), contents),
        vec!["#2: safe, fast, productive.", "#4: Duct tape."]
    );
}

#[test]
fn run_prints_a_heading_when_verbose() {
    let contents = "Rust:\nsafe, fast, productive.\nPick three.\nDuct tape.";
    assert_eq!(
        run(&settings(true, false, "duct"), contents),
        vec!["Searching for duct", "In file poem.txt", "#2: safe, fast, productive."]
    );
    assert_eq!(
        run(&settings(true, false, "nothing"), ""),
        vec!["Searching for nothing", "In file poem.txt"]
    );
}

#[test]
fn run_without_matches_prints_nothing() {
    assert_eq!(run(&settings(false, false, "x"), ""), Vec::<String>::new());
    assert_eq!(run(&settings(false, true, "x"), "a\nb"), Vec::<String>::new());
}

#[test]
fn search_mode_follows_the_flag() {
    assert_eq!(settings(false, true, "q").search_mode(), SearchMode::CaseInsensitive);
    assert_eq!(settings(false, false, "q").search_mode(), SearchMode::CaseSensitive);
}
