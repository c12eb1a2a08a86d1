//! `android.gui.ISurfaceComposer`, in declaration order: the numbers the
//! bundle's own `libgui` passes to `transact`.

use vstd::prelude::*;

verus! {

pub const CREATE_DISPLAY: u32 = 1;
pub const DESTROY_DISPLAY: u32 = 2;
pub const GET_PHYSICAL_DISPLAY_IDS: u32 = 3;
pub const GET_PRIMARY_PHYSICAL_DISPLAY_ID: u32 = 4;
pub const GET_PHYSICAL_DISPLAY_TOKEN: u32 = 5;
pub const SET_POWER_MODE: u32 = 6;
pub const GET_DISPLAY_STATS: u32 = 7;
pub const GET_DISPLAY_STATE: u32 = 8;
pub const CLEAR_BOOT_DISPLAY_MODE: u32 = 9;
pub const GET_BOOT_DISPLAY_MODE_SUPPORT: u32 = 10;
pub const SET_AUTO_LOW_LATENCY_MODE: u32 = 11;
pub const SET_GAME_CONTENT_TYPE: u32 = 12;
pub const IS_WIDE_COLOR_DISPLAY: u32 = 16;
pub const GET_DISPLAY_BRIGHTNESS_SUPPORT: u32 = 17;
pub const SET_DISPLAY_BRIGHTNESS: u32 = 18;
pub const NOTIFY_POWER_BOOST: u32 = 21;

} // verus!
