//! Bounds of the "concurrent transfers" setting, shared by the engine and the
//! settings screen.

use vstd::prelude::*;

verus! {

pub const DEFAULT_THREADS: u32 = 4;

pub const MIN_THREADS: u32 = 1;

pub const MAX_THREADS: u32 = 16;

/// The value `t` pulled into `[MIN_THREADS, MAX_THREADS]`.
pub open spec fn clamped(t: int) -> int {
    if t < MIN_THREADS {
        MIN_THREADS as int
    } else if t > MAX_THREADS {
        MAX_THREADS as int
    } else {
        t
    }
}

/// Pulls a user-entered or loaded thread count into the allowed range.
pub fn clamp_threads(threads: u32) -> (r: u32)
    ensures
        r == clamped(threads as int),
        MIN_THREADS <= r <= MAX_THREADS,
{
    if threads < MIN_THREADS {
        MIN_THREADS
    } else if threads > MAX_THREADS {
        MAX_THREADS
    } else {
        threads
    }
}

} // verus!
