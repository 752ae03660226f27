//! The decisions of the archive broker, which applies operations in batches.
pub mod batch;
pub mod budget;
pub mod clients;
pub mod errors;
pub mod gathering;
pub mod laws;
pub mod sequences;
