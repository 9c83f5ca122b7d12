//! Full-text search results: bounded snippets around a match, and the
//! encodings in which a result set is printed.

pub mod text;
pub mod snippet;
pub mod results;
pub mod format;
