//! A small line-oriented text search library.
//!
//! Given a query and a block of text, the library returns the lines of the
//! text that contain the query, either exactly or ignoring letter case, and
//! it resolves a command line into the configuration of one search.
//!
//! Every function carries a contract that Verus proves. One fact is taken
//! on trust: that the lowercase form of a string, which the standard library
//! computes, depends on the string's text alone (see [`fold`]).

pub mod config;
pub mod contains;
pub mod encoding;
pub mod fold;
pub mod lines;
pub mod search;
pub mod text;

pub use config::{Config, ConfigError};
pub use contains::contains;
pub use lines::lines;
pub use search::{search, search_case_insensitive};
