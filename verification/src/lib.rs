//! A line-oriented text search: which lines of a document contain a query,
//! and how the matching lines are reported.

pub mod cli;
pub mod lines;
pub mod matching;
pub mod order;
pub mod report;
pub mod search;
pub mod text;

pub use crate::cli::{run, MinigrepCli};
pub use crate::matching::SearchMode;
pub use crate::report::display;
pub use crate::search::{search, search_case_insensitive_lazy, search_lazy};
