//! Core of a terse command-line HTTP client: a classifier that turns raw
//! command-line tokens into typed request items (headers, JSON body fields,
//! query parameters), a URL normalizer, an HTTP method resolver, a request
//! assembler, and a single-pass JSON tokenizer/colorizer used to render
//! response bodies with terminal styling.
//!
//! Network transport, argument splitting and terminal output live outside
//! this crate; every function here is a pure value-to-value transform.

pub mod cli;
pub mod error;
pub mod item;
pub mod json_color;
pub mod method;
pub mod output;
pub mod strutil;
pub mod url;
