//! Command-output reduction with a recoverable archive.
pub mod archive;
pub mod archive_broker;
pub mod archive_client;
pub mod archive_protocol;
pub mod archive_query;
pub mod archive_runtime;
pub mod bytes;
pub mod cli;
pub mod config;
pub mod digest;
pub mod encoding_laws;
pub mod frames;
pub mod numbers;
pub mod order;
pub mod reducers;
pub mod result_reducer;
pub mod rewrite;
pub mod rule_pack;
pub mod rules;
pub mod shell;
pub mod text;
