//! Bounded reduction of command output.
pub mod bounded;
pub mod bucket;
pub mod build_output;
pub mod classify;
pub mod diff;
pub mod evidence;
pub mod filter;
pub mod git_diff;
pub mod laws;
pub mod line_laws;
pub mod list;
pub mod log;
pub mod record_laws;
pub mod search;
pub mod status;
pub mod stream;
pub mod stream_laws;
pub mod summary_laws;
pub mod test;
pub mod wording;

pub use evidence::RecoveryMarker;
pub use stream::{
    configured_memory_bound, reduce_bytes, reduce_bytes_with_recovery, StreamReducer,
};
