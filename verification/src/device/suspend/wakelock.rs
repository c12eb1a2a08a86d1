//! `android.system.suspend.IWakeLock`: one method, and it is oneway.

use vstd::prelude::*;

verus! {

pub const RELEASE: u32 = 1;

} // verus!
