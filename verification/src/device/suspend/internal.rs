//! `android.system.suspend.internal.ISuspendControlServiceInternal`.

use vstd::prelude::*;

verus! {

pub const ENABLE_AUTOSUSPEND: u32 = 1;
pub const FORCE_SUSPEND: u32 = 2;
pub const GET_WAKELOCK_STATS: u32 = 3;
pub const GET_WAKEUP_STATS: u32 = 4;
pub const GET_SUSPEND_STATS: u32 = 5;

} // verus!
