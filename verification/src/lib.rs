//! The verified core of an arXiv query tool: it turns tool arguments into a
//! request to the arXiv API, judges the reply, turns the Atom feed into
//! clean structured results, and decides when to retry.
//!
//! - `text`: whitespace, trimming, normalisation, prefixes, decimal numbers.
//! - `web`: absolute URLs as the `url` crate parses them.
//! - `types`: arguments, results and the feed model, and the transformation
//!   from feed to results.
//! - `query`: tool routing, the request URL, reply handling and e-print
//!   (source) URLs.
//! - `retry`: when to retry a request and how long to wait.
pub mod query;
pub mod retry;
pub mod text;
pub mod types;
pub mod web;
