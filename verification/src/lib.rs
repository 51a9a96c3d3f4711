//! Flattens benchmark-results documents into comma-separated rows.
//!
//! A document is a generic tree of tables, arrays, strings and numbers
//! (the shape a configuration-format parser produces). Each benchmark
//! entry in it yields one output row per timing sample, carrying a pair
//! of integer tags and a `/`-joined parameter list.

pub mod extract;
pub mod numeral;
pub mod parse;
pub mod text;
pub mod value;
