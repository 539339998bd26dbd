//! Line-oriented text search: find the lines of a text that hold a query,
//! with or without regard to letter case.
//!
//! The library is the core of a small command-line tool. [`Config`] resolves
//! what a run is asked to do, and [`run`] searches a text accordingly;
//! [`search`] and [`search_case_insensitive`] are the two ways of searching.
//! Reading the file and printing the lines found is left to the caller.
//!
//! Contracts speak of texts as sequences of characters, of their lines and
//! of substring matches, as [`text`] defines them. The executable functions
//! work on the UTF-8 bytes of a `&str` and hand back slices of the text they
//! were given; [`encoding`] holds what links the two views.

pub mod config;
pub mod encoding;
pub mod lines;
pub mod matching;
pub mod search;
pub mod text;

pub use crate::config::{Config, ConfigError};
pub use crate::lines::split_first_line;
pub use crate::matching::contains;
pub use crate::search::{run, search, search_case_insensitive, select_lines};
