//! The stream of operations that another program sends.
use vstd::prelude::*;

use crate::frames::{FrameStep, MAX_FRAME_BYTES, is_next_step, next_frame};

verus! {

/// Take the next operation from the bytes that came so far. An operation that is not whole when the
/// stream ends is an error.
pub fn run_ingest(input: &[u8], ended: bool) -> (step: FrameStep)
    ensures
        is_next_step(step, input@, ended, "ingest"@, MAX_FRAME_BYTES),
{
    next_frame(input, ended, "ingest", MAX_FRAME_BYTES)
}

} // verus!
