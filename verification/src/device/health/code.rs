//! `android.hardware.health.IHealth`, in declaration order; the callback
//! is made with the first method of `IHealthInfoCallback`.

use vstd::prelude::*;

verus! {

pub const ON_HEALTH_INFO_CHANGED: u32 = 1;
pub const REGISTER_CALLBACK: u32 = 1;
pub const UNREGISTER_CALLBACK: u32 = 2;
pub const UPDATE: u32 = 3;
pub const GET_CHARGE_COUNTER_UAH: u32 = 4;
pub const GET_CURRENT_NOW_MICROAMPS: u32 = 5;
pub const GET_CURRENT_AVERAGE_MICROAMPS: u32 = 6;
pub const GET_CAPACITY: u32 = 7;
pub const GET_ENERGY_COUNTER_NWH: u32 = 8;
pub const GET_CHARGE_STATUS: u32 = 9;
pub const GET_STORAGE_INFO: u32 = 10;
pub const GET_DISK_STATS: u32 = 11;
pub const GET_HEALTH_INFO: u32 = 12;

} // verus!
