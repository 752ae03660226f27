//! The archive of exact command output.
pub mod calls;
pub mod capture_laws;
pub mod check_laws;
pub mod ingest;
pub mod laws;
pub mod lifecycle;
pub mod model;
pub mod operations;
pub mod payload;
pub mod reference;
pub mod schema;
pub mod sources;
pub mod state_laws;
pub mod verification;
