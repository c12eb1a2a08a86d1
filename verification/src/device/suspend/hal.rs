//! `android.system.suspend.ISystemSuspend`.

use vstd::prelude::*;

verus! {

pub const ACQUIRE_WAKE_LOCK: u32 = 1;

} // verus!
