//! NOTIFICATION error codes that are sent to peers.

use vstd::prelude::*;

verus! {

pub const HOLD_TIMER_EXPIRED: u8 = 4;

pub const CEASE: u8 = 6;

} // verus!
