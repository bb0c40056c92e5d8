//! Verified core of a GitHub activity summarizer.
//!
//! The library holds everything the tool decides or computes: building the
//! argument lists handed to the GitHub command-line client, decoding its JSON
//! answers into URL lists, grouping URLs by repository, sorting, summing code
//! metrics, and laying out the report lines.  Running the client, reading the
//! terminal flags and colouring the output live outside the library.

pub mod data;
pub mod json;
pub mod metrics;
pub mod order;
pub mod query;
pub mod repo;
pub mod report;
pub mod text;
