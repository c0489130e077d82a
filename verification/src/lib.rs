//! Flattening of JSON documents into dotted leaf paths.
//!
//! A document is walked from its root through every object; each value that is
//! not an object yields one entry, made of the dot-joined keys that lead to it
//! and a flag that tells whether the value is an array.

pub mod model;
pub mod value;
pub mod flatten;
pub mod parse;
pub mod laws;

pub use flatten::{flatten, join_path, walk};
pub use parse::{flatten_parsed, get_leafs_from_json, lift, ParseError};
pub use value::JsonValue;
