//! The wall clock, as the broker reads it.
use vstd::prelude::*;

verus! {

/// Calls coarsetime's `Clock::now_since_epoch()` and takes `as_secs()` of it: the whole
/// seconds since the Unix epoch. `as_secs` shifts coarsetime's 64-bit fixed-point count
/// right by 32 bits, so the result is below 2^32; nothing else is claimed of it.
#[verifier::external_body]
pub(crate) fn now_secs() -> (r: u64)
    ensures
        r < 4294967296,
{
    coarsetime::Clock::now_since_epoch().as_secs()
}

} // verus!
