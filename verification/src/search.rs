//! The line scanner: which lines of a document contain the query.
//!
//! A match set maps the number of each matching line, counted from one, to
//! the line as it stands in the document.

use std::collections::HashMap;
use vstd::prelude::*;
use crate::lines::{lines_of, split_lines, texts};
use crate::matching::{
    contains_chars, folded, has_substring, lemma_empty_is_substring, line_matches, lowercase,
    to_lowercase, SearchMode,
};
use crate::text::chars_of;

verus! {

broadcast use vstd::std_specs::hash::group_hash_axioms;

/// What a match set holds: for each line number, the characters of the line.
pub open spec fn entries(matches: Map<usize, String>) -> Map<usize, Seq<char>> {
    matches.map_values(|line: String| line@)
}

/// The match set of `query` in a whole document, given by its lines: the
/// numbers of the lines that contain the query, each with its line.
pub open spec fn match_set(query: Seq<char>, lines: Seq<Seq<char>>, mode: SearchMode) -> Map<
    usize,
    Seq<char>,
> {
    Map::new(
        |number: usize| 1 <= number <= lines.len() && line_matches(query, lines[number - 1], mode),
        |number: usize| lines[number - 1],
    )
}

/// The match set after one more line was scanned: the line is added under
/// its number if it contains `needle`, the query as it is compared.
pub open spec fn scan_step(
    matches: Map<usize, Seq<char>>,
    number: usize,
    line: Seq<char>,
    needle: Seq<char>,
    mode: SearchMode,
) -> Map<usize, Seq<char>> {
    if has_substring(folded(line, mode), needle) {
        matches.insert(number, line)
    } else {
        matches
    }
}

/// The match set that a scan builds when it is handed the lines one at a
/// time, in order, and numbers them as they come.
pub open spec fn scan(query: Seq<char>, lines: Seq<Seq<char>>, mode: SearchMode) -> Map<
    usize,
    Seq<char>,
>
    decreases lines.len(),
{
    if lines.len() == 0 {
        Map::empty()
    } else {
        scan_step(
            scan(query, lines.drop_last(), mode),
            lines.len() as usize,
            lines.last(),
            folded(query, mode),
            mode,
        )
    }
}

/// The text of `s` as it is compared under `mode`.
pub fn fold(s: &str, mode: SearchMode) -> (out: String)
    ensures
        out@ == folded(s@, mode),
{
    match mode {
        SearchMode::CaseSensitive => s.to_owned(),
        SearchMode::CaseInsensitive => to_lowercase(s),
    }
}

/// Scans one line: adds `line` to `matches` under `number` if it contains
/// `needle` under `mode`, and leaves `matches` as it was if not. `needle` is
/// the query as `fold` gives it.
pub fn scan_line(
    matches: &mut HashMap<usize, String>,
    number: usize,
    line: String,
    needle: &Vec<char>,
    mode: SearchMode,
)
    ensures
        entries(final(matches)@) == scan_step(
            entries(old(matches)@),
            number,
            line@,
            needle@,
            mode,
        ),
{
    let compared = match mode {
        SearchMode::CaseSensitive => chars_of(line.as_str()),
        SearchMode::CaseInsensitive => chars_of(to_lowercase(line.as_str()).as_str()),
    };
    if contains_chars(&compared, needle) {
        matches.insert(number, line);
        assert(entries(matches@) =~= entries(old(matches)@).insert(number, line@));
    }
}

/// Every line number of the document is a key of `matches`.
pub open spec fn holds_every_line(matches: Map<usize, Seq<char>>, lines: Seq<Seq<char>>) -> bool {
    forall|number: usize| 1 <= number <= lines.len() ==> matches.contains_key(number)
}

/// Scans lines that are already split, one at a time, numbering them from
/// one. The result is the match set of the whole document; with an
/// empty query it holds every line.
pub fn search_lines(query: &str, lines: Vec<String>, mode: SearchMode) -> (matches: HashMap<
    usize,
    String,
>)
    ensures
        entries(matches@) == scan(query@, texts(lines@), mode),
        entries(matches@) == match_set(query@, texts(lines@), mode),
        query@.len() == 0 ==> holds_every_line(entries(matches@), texts(lines@)),
{
    let needle = chars_of(fold(query, mode).as_str());
    let mut matches: HashMap<usize, String> = HashMap::new();
    let mut number: usize = 0;
    let total = lines.len();
    assert(texts(lines@).len() <= usize::MAX);
    assert(entries(matches@) =~= Map::empty());
    assert(texts(lines@).take(0) =~= Seq::<Seq<char>>::empty());
    for line in it: lines
        invariant
            it.seq() == lines@,
            number == it.index(),
            total == lines@.len(),
            needle@ == folded(query@, mode),
            entries(matches@) == scan(query@, texts(lines@).take(number as int), mode),
    {
        proof {
            let done = texts(lines@).take(number + 1);
            assert(done.drop_last() =~= texts(lines@).take(number as int));
            assert(done.last() == line@);
        }
        number += 1;
        scan_line(&mut matches, number, line, &needle, mode);
    }
    proof {
        let all = texts(lines@);
        assert(all.take(number as int) =~= all);
        theorem_scan_is_match_set(query@, all, mode);
        if query@.len() == 0 {
            theorem_empty_query_matches_all(query@, all, mode);
        }
    }
    matches
}

/// A scan that is handed the lines of a document one at a time builds the
/// match set of the whole document.
pub proof fn theorem_scan_is_match_set(query: Seq<char>, lines: Seq<Seq<char>>, mode: SearchMode)
    requires
        lines.len() <= usize::MAX,
    ensures
        scan(query, lines, mode) == match_set(query, lines, mode),
    decreases lines.len(),
{
    if lines.len() > 0 {
        let front = lines.drop_last();
        theorem_scan_is_match_set(query, front, mode);
    }
    assert(scan(query, lines, mode) =~= match_set(query, lines, mode));
}

/// Searches the document `content` for `query`: the result holds the number
/// of every line that contains the query under `mode`, with that line, and
/// nothing else. With an empty query it holds every line of the document.
pub fn search(query: &str, content: &str, mode: SearchMode) -> (matches: HashMap<usize, String>)
    ensures
        entries(matches@) == match_set(query@, lines_of(content@), mode),
        query@.len() == 0 ==> holds_every_line(entries(matches@), lines_of(content@)),
{
    let lines = split_lines(content);
    search_lines(query, lines, mode)
}

/// Searches `content` for `query`, comparing characters as they stand.
pub fn search_lazy(query: &str, content: &str) -> (matches: HashMap<usize, String>)
    ensures
        entries(matches@) == match_set(query@, lines_of(content@), SearchMode::CaseSensitive),
        query@.len() == 0 ==> holds_every_line(entries(matches@), lines_of(content@)),
{
    search(query, content, SearchMode::CaseSensitive)
}

/// Searches `content` for `query` without regard to letter case.
pub fn search_case_insensitive_lazy(query: &str, content: &str) -> (matches: HashMap<
    usize,
    String,
>)
    ensures
        entries(matches@) == match_set(query@, lines_of(content@), SearchMode::CaseInsensitive),
        query@.len() == 0 ==> holds_every_line(entries(matches@), lines_of(content@)),
{
    search(query, content, SearchMode::CaseInsensitive)
}

/// In a case-sensitive search a line number is in the match set exactly
/// when it is the number of a line of the document that contains the query
/// as it stands, and it is held with that line.
pub proof fn theorem_case_sensitive_matches(query: Seq<char>, lines: Seq<Seq<char>>, number: usize)
    ensures
        match_set(query, lines, SearchMode::CaseSensitive).contains_key(number) <==> 1 <= number
            <= lines.len() && has_substring(lines[number - 1], query),
        match_set(query, lines, SearchMode::CaseSensitive).contains_key(number) ==> match_set(
            query,
            lines,
            SearchMode::CaseSensitive,
        )[number] == lines[number - 1],
{
}

/// In a case-insensitive search a line number is in the match set exactly
/// when the lowercase form of its line contains the lowercase form of the
/// query, and it is held with the line as the document has it.
pub proof fn theorem_case_insensitive_matches(
    query: Seq<char>,
    lines: Seq<Seq<char>>,
    number: usize,
)
    ensures
        match_set(query, lines, SearchMode::CaseInsensitive).contains_key(number) <==> 1 <= number
            <= lines.len() && has_substring(lowercase(lines[number - 1]), lowercase(query)),
        match_set(query, lines, SearchMode::CaseInsensitive).contains_key(number) ==> match_set(
            query,
            lines,
            SearchMode::CaseInsensitive,
        )[number] == lines[number - 1],
{
}

/// Two searches with the same query, document and mode give the same match
/// set.
pub proof fn theorem_search_is_repeatable(
    first: Map<usize, String>,
    second: Map<usize, String>,
    query: Seq<char>,
    content: Seq<char>,
    mode: SearchMode,
)
    requires
        entries(first) == match_set(query, lines_of(content), mode),
        entries(second) == match_set(query, lines_of(content), mode),
    ensures
        entries(first) == entries(second),
        first.dom() == second.dom(),
        forall|number: usize| first.contains_key(number) ==> first[number]@ == second[number]@,
{
    assert(first.dom() =~= entries(first).dom());
    assert(second.dom() =~= entries(second).dom());
    assert forall|number: usize| first.contains_key(number) implies first[number]@
        == second[number]@ by {
        assert(entries(first)[number] == first[number]@);
        assert(entries(second)[number] == second[number]@);
    }
}

/// Under the empty query every line of the document matches, in either
/// mode, and is held as the document has it.
pub proof fn theorem_empty_query_matches_all(
    query: Seq<char>,
    lines: Seq<Seq<char>>,
    mode: SearchMode,
)
    requires
        query.len() == 0,
    ensures
        holds_every_line(match_set(query, lines, mode), lines),
        forall|number: usize|
            1 <= number <= lines.len() ==> #[trigger] match_set(query, lines, mode)[number]
                == lines[number - 1],
{
    assert(folded(query, mode) =~= Seq::<char>::empty());
    assert forall|number: usize| 1 <= number <= lines.len() implies match_set(
        query,
        lines,
        mode,
    ).contains_key(number) by {
        lemma_empty_is_substring(folded(lines[number - 1], mode));
    }
    assert forall|number: usize| 1 <= number <= lines.len() implies #[trigger] match_set(
        query,
        lines,
        mode,
    )[number] == lines[number - 1] by {
        lemma_empty_is_substring(folded(lines[number - 1], mode));
        assert(match_set(query, lines, mode).contains_key(number));
    }
}

/// The empty document has no lines, and its match set is empty for every
/// query.
pub proof fn theorem_empty_document(query: Seq<char>, mode: SearchMode)
    ensures
        lines_of(Seq::empty()) == Seq::<Seq<char>>::empty(),
        match_set(query, lines_of(Seq::empty()), mode) == Map::<usize, Seq<char>>::empty(),
{
    assert(match_set(query, lines_of(Seq::empty()), mode) =~= Map::<usize, Seq<char>>::empty());
}

} // verus!
