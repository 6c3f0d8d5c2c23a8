//! A small verified line-search library.
//!
//! Given a query string and the full text of a file, the library returns
//! every line of the text that contains the query, either by exact
//! comparison or ignoring case.  A companion configuration resolver turns
//! raw invocation tokens and an environment flag into a validated
//! configuration value.

pub mod config;
pub mod search;

pub use config::Config;
pub use config::ConfigError;
pub use search::contains_str;
pub use search::run_search;
pub use search::search;
pub use search::search_case_insensitive;
pub use search::split_lines;
