//! `android.hardware.display.IDisplayManager`, in `IDisplayManager.aidl`'s
//! declaration order, which is what AIDL numbers transactions by.

use vstd::prelude::*;

verus! {

pub const GET_DISPLAY_INFO: u32 = 1;
pub const GET_DISPLAY_IDS: u32 = 2;
pub const IS_UID_PRESENT_ON_DISPLAY: u32 = 3;
pub const REGISTER_CALLBACK: u32 = 4;
pub const REGISTER_CALLBACK_WITH_EVENT_MASK: u32 = 5;
pub const START_WIFI_DISPLAY_SCAN: u32 = 6;
pub const STOP_WIFI_DISPLAY_SCAN: u32 = 7;
pub const CONNECT_WIFI_DISPLAY: u32 = 8;
pub const DISCONNECT_WIFI_DISPLAY: u32 = 9;
pub const RENAME_WIFI_DISPLAY: u32 = 10;
pub const FORGET_WIFI_DISPLAY: u32 = 11;
pub const PAUSE_WIFI_DISPLAY: u32 = 12;
pub const RESUME_WIFI_DISPLAY: u32 = 13;
pub const GET_WIFI_DISPLAY_STATUS: u32 = 14;
pub const SET_USER_DISABLED_HDR_TYPES: u32 = 15;
pub const SET_ARE_USER_DISABLED_HDR_TYPES_ALLOWED: u32 = 16;
pub const ARE_USER_DISABLED_HDR_TYPES_ALLOWED: u32 = 17;
pub const GET_USER_DISABLED_HDR_TYPES: u32 = 18;
pub const REQUEST_COLOR_MODE: u32 = 19;
pub const CREATE_VIRTUAL_DISPLAY: u32 = 20;
pub const RESIZE_VIRTUAL_DISPLAY: u32 = 21;
pub const SET_VIRTUAL_DISPLAY_SURFACE: u32 = 22;
pub const RELEASE_VIRTUAL_DISPLAY: u32 = 23;
pub const SET_VIRTUAL_DISPLAY_STATE: u32 = 24;
/// The call the boot died on.
pub const GET_STABLE_DISPLAY_SIZE: u32 = 25;
pub const GET_BRIGHTNESS_EVENTS: u32 = 26;
pub const GET_AMBIENT_BRIGHTNESS_STATS: u32 = 27;
pub const SET_BRIGHTNESS_CONFIGURATION_FOR_USER: u32 = 28;
pub const SET_BRIGHTNESS_CONFIGURATION_FOR_DISPLAY: u32 = 29;
pub const GET_BRIGHTNESS_CONFIGURATION_FOR_DISPLAY: u32 = 30;
pub const GET_BRIGHTNESS_CONFIGURATION_FOR_USER: u32 = 31;
pub const GET_DEFAULT_BRIGHTNESS_CONFIGURATION: u32 = 32;
pub const IS_MINIMAL_POST_PROCESSING_REQUESTED: u32 = 33;
pub const SET_TEMPORARY_BRIGHTNESS: u32 = 34;
pub const SET_BRIGHTNESS: u32 = 35;
pub const GET_BRIGHTNESS: u32 = 36;
pub const SET_TEMPORARY_AUTO_BRIGHTNESS_ADJUSTMENT: u32 = 37;
pub const GET_MINIMUM_BRIGHTNESS_CURVE: u32 = 38;
pub const GET_BRIGHTNESS_INFO: u32 = 39;
/// The call the boot died on. `ColorSpaces.get(-7)` is where the refusal surfaced.
pub const GET_PREFERRED_WIDE_GAMUT_COLOR_SPACE_ID: u32 = 40;
pub const SET_USER_PREFERRED_DISPLAY_MODE: u32 = 41;
pub const GET_USER_PREFERRED_DISPLAY_MODE: u32 = 42;
pub const GET_SYSTEM_PREFERRED_DISPLAY_MODE: u32 = 43;
pub const SET_SHOULD_ALWAYS_RESPECT_APP_REQUESTED_MODE: u32 = 44;
pub const SHOULD_ALWAYS_RESPECT_APP_REQUESTED_MODE: u32 = 45;
pub const SET_REFRESH_RATE_SWITCHING_TYPE: u32 = 46;
pub const GET_REFRESH_RATE_SWITCHING_TYPE: u32 = 47;
pub const GET_DISPLAY_DECORATION_SUPPORT: u32 = 48;

} // verus!
