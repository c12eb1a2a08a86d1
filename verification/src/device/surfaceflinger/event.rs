//! `android.gui.IDisplayEventConnection`, in declaration order.

use vstd::prelude::*;

verus! {

pub const STEAL_RECEIVE_CHANNEL: u32 = 1;
pub const SET_VSYNC_RATE: u32 = 2;
pub const REQUEST_NEXT_VSYNC: u32 = 3;

} // verus!
