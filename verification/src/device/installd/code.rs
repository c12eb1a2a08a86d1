//! `android.os.IInstalld`, in declaration order.

use vstd::prelude::*;

verus! {

pub const CREATE_USER_DATA: u32 = 1;
pub const DESTROY_USER_DATA: u32 = 2;
pub const SET_FIRST_BOOT: u32 = 3;
pub const CREATE_APP_DATA: u32 = 4;
pub const CREATE_APP_DATA_BATCHED: u32 = 5;
pub const RESTORECON_APP_DATA: u32 = 7;
pub const MIGRATE_APP_DATA: u32 = 8;
pub const CLEAR_APP_DATA: u32 = 9;
pub const DESTROY_APP_DATA: u32 = 10;
pub const FIXUP_APP_DATA: u32 = 11;
pub const GET_APP_SIZE: u32 = 12;
pub const RM_DEX: u32 = 22;
pub const DESTROY_APP_PROFILES: u32 = 27;
pub const LINK_NATIVE_LIBRARY_DIRECTORY: u32 = 33;
pub const INVALIDATE_MOUNTS: u32 = 40;
pub const MIGRATE_LEGACY_OBB_DATA: u32 = 49;

} // verus!
