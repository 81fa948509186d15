//! A client library for a giveaway-listing web API: builds a filtered
//! request URL from command-line tokens, parses the JSON response body,
//! and renders one line per giveaway entry.

pub mod query;
pub mod render;
pub mod jsonval;
pub mod strutil;

pub use query::Query;
