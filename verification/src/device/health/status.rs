//! `android.hardware.health.BatteryStatus`.

use vstd::prelude::*;

verus! {

pub const UNKNOWN: i32 = 1;
pub const CHARGING: i32 = 2;
pub const DISCHARGING: i32 = 3;
pub const NOT_CHARGING: i32 = 4;
pub const FULL: i32 = 5;

} // verus!
