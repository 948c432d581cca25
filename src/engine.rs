//! Frame pacing: how long a simulation step may be.
use vstd::prelude::*;

verus! {

/// The longest step handed to the scene, a thirtieth of a second in
/// nanoseconds: after a stall the game slows down instead of jumping ahead.
pub const MAX_FRAME_NANOS: u64 = 33_333_333;

/// The step for a frame that took `elapsed_nanos`.
pub fn frame_step(elapsed_nanos: u64) -> (r: u64)
    ensures
        r == if elapsed_nanos < MAX_FRAME_NANOS {
            elapsed_nanos
        } else {
            MAX_FRAME_NANOS
        },
{
    if elapsed_nanos < MAX_FRAME_NANOS {
        elapsed_nanos
    } else {
        MAX_FRAME_NANOS
    }
}

} // verus!
