//! `android::ISurfaceComposer`, in the order of `ISurfaceComposer.h`'s tag
//! enum, counted from `IBinder::FIRST_CALL_TRANSACTION`.

use vstd::prelude::*;

verus! {

pub const BOOT_FINISHED: u32 = 1;
pub const CREATE_CONNECTION: u32 = 2;
pub const GET_STATIC_DISPLAY_INFO: u32 = 3;
pub const CREATE_DISPLAY_EVENT_CONNECTION: u32 = 4;
pub const GET_COMPOSITION_PREFERENCE: u32 = 27;
pub const GET_PROTECTED_CONTENT_SUPPORT: u32 = 32;
pub const GET_DISPLAY_NATIVE_PRIMARIES: u32 = 34;
pub const GET_DESIRED_DISPLAY_MODE_SPECS: u32 = 39;
pub const GET_GPU_CONTEXT_PRIORITY: u32 = 53;
pub const GET_MAX_ACQUIRED_BUFFER_COUNT: u32 = 54;
pub const GET_DYNAMIC_DISPLAY_INFO: u32 = 55;
pub const GET_DISPLAY_DECORATION_SUPPORT: u32 = 67;

} // verus!
