//! Time as the ledger stamps it.

use vstd::prelude::*;

verus! {

/// The time in milliseconds, from the time in nanoseconds.
pub fn get_current_timestamp(nanoseconds: u64) -> (milliseconds: u64)
    ensures
        milliseconds == nanoseconds / 1_000_000,
{
    nanoseconds / 1_000_000
}

} // verus!
