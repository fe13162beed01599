//! A verified parser for the os-release file format.
//!
//! [`grammar`] says what a text means, as functions on sequences of
//! characters; every executable function is proved to compute what those
//! functions say. [`parse_os_release_str`] parses a text, [`parse_impl`] the
//! lines of one and [`parse_read_lines`] the lines that a reader yielded.
//! [`next_path`] and [`get_os_release`] decide the search through the
//! standard locations listed in [`PATHS`]; the caller does the reading.
//! [`laws`] holds what follows for every input.

pub mod document;
pub mod error;
pub mod grammar;
pub mod keys;
pub mod laws;
pub mod lemmas;
pub mod line;
pub mod order;
pub mod parser;
pub mod text;

pub use document::{Entry, OsRelease};
pub use error::OsReleaseError;
pub use line::{extract_variable_and_value, parse_line, trim_quotes};
pub use parser::{
    get_os_release, next_path, parse_impl, parse_os_release_str, parse_read_lines, PATHS,
};
