//! A small line-oriented text search: pick the lines of a text that contain a
//! query, exactly or without regard to case, and resolve a search request
//! from command-line tokens.

pub mod config;
pub mod cut;
pub mod fold;
pub mod search;
pub mod text;

pub use config::{Config, ConfigError};
pub use search::{run, search, search_case_insensitive};
