//! `android.apex.IApexService`, in declaration order.

use vstd::prelude::*;

verus! {

pub const GET_SESSIONS: u32 = 4;
pub const GET_ACTIVE_PACKAGES: u32 = 7;
pub const GET_ALL_PACKAGES: u32 = 8;
pub const ABORT_STAGED_SESSION: u32 = 9;
pub const REVERT_ACTIVE_SESSIONS: u32 = 10;
pub const GET_ACTIVE_PACKAGE: u32 = 17;
pub const MARK_BOOT_COMPLETED: u32 = 23;

} // verus!
