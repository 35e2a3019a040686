//! A small line-oriented text search: find the lines of a text that contain a
//! query, optionally ignoring case, and emphasise the query inside lines that
//! arrive one at a time.
//!
//! Every function states its behaviour over sequences of characters; the
//! definitions those contracts use live in [`text`].

pub mod text;
pub mod encoding;
pub mod lowercase;
pub mod strings;
pub mod matcher;
pub mod search;
pub mod highlight;
pub mod config;
pub mod orchestrate;

pub use config::{Config, ConfigError};
pub use highlight::{highlight, highlight_stream, highlight_with, stream_step, StreamAction};
pub use orchestrate::{run, select_mode, Mode};
pub use search::{search, search_case_insensitive};
