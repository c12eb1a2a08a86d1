//! `android.system.suspend.ISuspendControlService`, in declaration order.

use vstd::prelude::*;

verus! {

pub const REGISTER_CALLBACK: u32 = 1;
pub const REGISTER_WAKELOCK_CALLBACK: u32 = 2;

} // verus!
