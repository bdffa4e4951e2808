//! Slot flag bits.
use vstd::prelude::*;

verus! {

/// The slot is leased: between acquire and release or reclaim.
pub const IN_USE: u32 = 1;

/// The payload of the current lease has been written.
pub const PAYLOAD_FINALIZED: u32 = 2;

} // verus!
