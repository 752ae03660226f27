//! The command line: which command is meant, and what its arguments say.
pub mod commands;
pub mod laws;
pub mod rewriting;
pub mod running;
pub mod timestamps;
