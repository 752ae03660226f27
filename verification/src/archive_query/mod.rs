//! Searching and reading archived sources.
pub mod arguments;
pub mod laws;
pub mod lines;
pub mod matcher;
pub mod option_laws;
pub mod output_laws;
pub mod query_laws;
pub mod read_laws;
pub mod reading;
pub mod results;
