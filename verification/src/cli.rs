//! One run of the search, from its settings and the document's text to the
//! lines that are printed.

use vstd::prelude::*;
use crate::lines::{lines_of, texts};
use crate::matching::SearchMode;
use crate::report::{display, report};
use crate::search::{match_set, search};

verus! {

/// The settings of one run.
#[derive(Debug)]
pub struct MinigrepCli {
    /// Enable verbose output.
    pub verbose: bool,
    /// Perform a case-insensitive search, default false.
    pub ignore_case: bool,
    /// The query string to search for.
    pub query: String,
    /// The path to file to search in, as it is shown.
    pub file: String,
}

impl MinigrepCli {
    /// The search mode that the settings ask for.
    pub open spec fn mode(&self) -> SearchMode {
        if self.ignore_case {
            SearchMode::CaseInsensitive
        } else {
            SearchMode::CaseSensitive
        }
    }

    /// The two lines that a verbose run prints before its results; nothing
    /// for a run that is not verbose.
    pub open spec fn heading(&self) -> Seq<Seq<char>> {
        if self.verbose {
            seq!["Searching for "@ + self.query@, "In file "@ + self.file@]
        } else {
            Seq::empty()
        }
    }

    /// The search mode that the settings ask for.
    pub fn search_mode(&self) -> (mode: SearchMode)
        ensures
            mode == self.mode(),
    {
        if self.ignore_case {
            SearchMode::CaseInsensitive
        } else {
            SearchMode::CaseSensitive
        }
    }
}

/// Runs the search that `config` describes on the text `content` of its
/// file. The result is what the run prints, line by line: the heading of a
/// verbose run, then the matching lines by ascending line number.
pub fn run(config: &MinigrepCli, content: &str) -> (output: Vec<String>)
    ensures
        texts(output@) == config.heading() + report(
            match_set(config.query@, lines_of(content@), config.mode()),
        ),
{
    let results = search(config.query.as_str(), content, config.search_mode());
    let mut output: Vec<String> = Vec::new();
    if config.verbose {
        let mut first = "Searching for ".to_owned();
        first.append(config.query.as_str());
        let mut second = "In file ".to_owned();
        second.append(config.file.as_str());
        output.push(first);
        output.push(second);
    }
    assert(texts(output@) =~= config.heading());
    let mut shown = display(&results);
    let ghost body = shown@;
    output.append(&mut shown);
    assert(texts(output@) =~= config.heading() + texts(body));
    output
}

} // verus!
