//! What the mobile entry point takes from the shared core.

use vstd::prelude::*;
use crate::limits::DEFAULT_THREADS;
use crate::text::{dec, owned, push_str, u64_to_string};

verus! {

/// A line naming the core's default concurrency, to show the mobile build
/// links against it.
pub fn core_limits_summary() -> (r: String)
    ensures
        r@ == "varsayılan eşzamanlılık: "@ + dec(DEFAULT_THREADS as nat),
{
    let mut s = owned("varsayılan eşzamanlılık: ");
    push_str(&mut s, u64_to_string(DEFAULT_THREADS as u64).as_str());
    s
}

} // verus!
