//! The display manager HAL, in userspace: this machine's displays.
//!
//! `DisplayManagerService` looks up `display`, and what is behind that name
//! is `android.hardware.display.IDisplayManager`. Its first call, out of its
//! own constructor, asks for the preferred wide-gamut color space, and the
//! framework indexes its color-space table with the answer: a refusal there
//! (`-7`) is an exception inside the framework, so every call the framework
//! makes on its way up is answered with a value.
//!
//! What this machine does not have, this says it does not have: no wifi
//! display, no virtual display compositor, and brightness belongs to the
//! desktop, so the calls that would set it are accepted rather than refused.

pub mod code;

use vstd::prelude::*;

use crate::binder::service::BinderObject;

use crate::binder::parcel::{padded, Parcel};
use crate::binder::{refusal, refusal_bytes, Answer};
use crate::device::display::code::{
    GET_DISPLAY_INFO, GET_DISPLAY_IDS, IS_UID_PRESENT_ON_DISPLAY, REGISTER_CALLBACK, REGISTER_CALLBACK_WITH_EVENT_MASK, START_WIFI_DISPLAY_SCAN, STOP_WIFI_DISPLAY_SCAN, CONNECT_WIFI_DISPLAY, DISCONNECT_WIFI_DISPLAY, RENAME_WIFI_DISPLAY, FORGET_WIFI_DISPLAY, PAUSE_WIFI_DISPLAY, RESUME_WIFI_DISPLAY, GET_WIFI_DISPLAY_STATUS, SET_USER_DISABLED_HDR_TYPES, SET_ARE_USER_DISABLED_HDR_TYPES_ALLOWED, ARE_USER_DISABLED_HDR_TYPES_ALLOWED, GET_USER_DISABLED_HDR_TYPES, REQUEST_COLOR_MODE, CREATE_VIRTUAL_DISPLAY, RESIZE_VIRTUAL_DISPLAY, SET_VIRTUAL_DISPLAY_SURFACE, RELEASE_VIRTUAL_DISPLAY, SET_VIRTUAL_DISPLAY_STATE, GET_STABLE_DISPLAY_SIZE, GET_BRIGHTNESS_EVENTS, GET_AMBIENT_BRIGHTNESS_STATS, SET_BRIGHTNESS_CONFIGURATION_FOR_USER, SET_BRIGHTNESS_CONFIGURATION_FOR_DISPLAY, GET_BRIGHTNESS_CONFIGURATION_FOR_DISPLAY, GET_BRIGHTNESS_CONFIGURATION_FOR_USER, GET_DEFAULT_BRIGHTNESS_CONFIGURATION, IS_MINIMAL_POST_PROCESSING_REQUESTED, SET_TEMPORARY_BRIGHTNESS, SET_BRIGHTNESS, GET_BRIGHTNESS, SET_TEMPORARY_AUTO_BRIGHTNESS_ADJUSTMENT, GET_MINIMUM_BRIGHTNESS_CURVE, GET_BRIGHTNESS_INFO, GET_PREFERRED_WIDE_GAMUT_COLOR_SPACE_ID, SET_USER_PREFERRED_DISPLAY_MODE, GET_USER_PREFERRED_DISPLAY_MODE, GET_SYSTEM_PREFERRED_DISPLAY_MODE, SET_SHOULD_ALWAYS_RESPECT_APP_REQUESTED_MODE, SHOULD_ALWAYS_RESPECT_APP_REQUESTED_MODE, SET_REFRESH_RATE_SWITCHING_TYPE, GET_REFRESH_RATE_SWITCHING_TYPE, GET_DISPLAY_DECORATION_SUPPORT,
};
use crate::device::surfaceflinger::Display;
use crate::octets::{get_le32, le32, le64, push_bytes, push_le32, push_le64, read_le32};
use crate::text::{push_str, string_of};

verus! {

/// The name the framework looks up.
pub const NAME: &'static str = "display";

/// The interface behind it.
pub const AIDL: &'static str = "android.hardware.display.IDisplayManager";

/// `ColorSpace.Named.SRGB`'s id: a value that exists, and for the wide-gamut
/// slot it means "no wide gamut support".
pub const COLOR_SPACE_SRGB: i32 = 0;
/// `Display.TYPE_EXTERNAL`: a desktop monitor is not an internal panel.
pub const TYPE_EXTERNAL: i32 = 2;
/// `Display.STATE_ON`.
pub const STATE_ON: i32 = 2;
/// `Display.REMOVE_MODE_MOVE_CONTENT_TO_PRIMARY`.
pub const REMOVE_MODE_MOVE_CONTENT_TO_PRIMARY: i32 = 0;
/// `Display.DEFAULT_DISPLAY`, the logical id of the default display.
pub const DEFAULT_DISPLAY: i32 = 0;
/// `Process.SYSTEM_UID`: the display belongs to the system.
pub const SYSTEM_UID: i32 = 1000;
/// The density the framework uses for a display whose size it cannot read
/// (mdpi).
pub const DEFAULT_DENSITY_DPI: i32 = 160;

/// The `f32`s the wire carries, as their bits: 160.0, 0.5, 1.0 and NaN.
pub const F32_160: u32 = 0x4320_0000;
pub const F32_HALF: u32 = 0x3f00_0000;
pub const F32_ONE: u32 = 0x3f80_0000;
pub const F32_NAN: u32 = 0x7fc0_0000;

/// `Parcel::writeString8` after `before`: the byte length, the UTF-8 bytes,
/// a terminator, and padding to four counted from the start.
pub open spec fn string8_after(before: Seq<u8>, text: Seq<char>) -> Seq<u8> {
    padded(before + le32(vstd::utf8::encode_utf8(text).len() as u32) + vstd::utf8::encode_utf8(text) + seq![0u8])
}

/// Append a `String8`.
fn push_string8(out: &mut Vec<u8>, text: &str)
    ensures
        final(out)@ == string8_after(old(out)@, text@),
{
    let bytes = text.as_bytes();
    push_le32(out, bytes.len() as u32);
    push_bytes(out, bytes);
    out.push(0);
    crate::binder::parcel::pad_to_four(out);
}

/// The fields of `android.view.DisplayInfo` before its name.
pub open spec fn info_head(logical_id: i32) -> Seq<u8> {
    le32(0) + le32(0) + le32(TYPE_EXTERNAL as u32) + le32(logical_id as u32) + le32(0) + le32(-1i32 as u32)
        + le32(-1i32 as u32)
}

/// The app and logical sizes: the display's own, four times.
pub open spec fn info_sizes(d: Display) -> Seq<u8> {
    le32(d.width) + le32(d.height) + le32(d.width) + le32(d.height) + le32(d.width) + le32(d.height) + le32(d.width)
        + le32(d.height)
}

/// No cutout, rotation 0, mode 0 of one, that mode, and the native color
/// mode of one.
pub open spec fn info_modes(d: Display) -> Seq<u8> {
    le32(0) + le32(0) + le32(0) + le32(0) + le32(1) + le32(0) + le32(d.width) + le32(d.height) + le32(d.refresh_bits)
        + le32(0) + le32(0) + le32(1) + le32(0)
}

/// No HDR, no post processing, the density, no offsets, on, the system's,
/// no owner package.
pub open spec fn info_state() -> Seq<u8> {
    le32(-1i32 as u32) + le32(0) + le32(DEFAULT_DENSITY_DPI as u32) + le32(F32_160) + le32(F32_160) + le64(0) + le64(0)
        + le32(STATE_ON as u32) + le32(SYSTEM_UID as u32) + le32(-1i32 as u32)
}

/// The fields between the name and the unique id.
pub open spec fn info_middle(d: Display) -> Seq<u8> {
    info_sizes(d) + info_modes(d) + info_state()
}

/// The fields after the unique id.
pub open spec fn info_tail() -> Seq<u8> {
    le32(REMOVE_MODE_MOVE_CONTENT_TO_PRIMARY as u32) + le32(0) + le32(0) + le32(F32_ONE) + le32(F32_HALF) + le32(0)
        + le32(0) + le32(0)
}

/// One display's `android.view.DisplayInfo`, in `DisplayInfo.writeToParcel`'s
/// order: a field in the wrong place is a different type in that slot.
pub open spec fn display_info_bytes(d: Display, logical_id: i32) -> Seq<u8> {
    string8_after(
        string8_after(info_head(logical_id), d.connector@) + info_middle(d),
        "mosaic:"@ + d.connector@,
    ) + info_tail()
}

/// The logical ids `0..n`, a word each.
pub open spec fn index_words(n: nat) -> Seq<u8>
    decreases n,
{
    if n == 0 {
        Seq::empty()
    } else {
        index_words((n - 1) as nat) + le32((n - 1) as u32)
    }
}

/// The logical id a request names: its first word, or the default display.
pub open spec fn asked_logical_id(args: Seq<u8>) -> i32 {
    if args.len() >= 4 {
        get_le32(args, 0) as i32
    } else {
        DEFAULT_DISPLAY
    }
}

/// The display at a logical id: the index, with a negative id read as 0.
pub open spec fn display_at(ds: Seq<Display>, id: i32) -> Option<Display> {
    let i: int = if id < 0 { 0 } else { id as int };
    if i < ds.len() {
        Some(ds[i])
    } else {
        None
    }
}

/// Asked for the display at logical id `id`, the display manager describes
/// the `id`-th display of its list, whatever else the request carries after
/// the id: its width, height and connector, under that id. An id past the
/// list is answered absent; a negative id, or a request too short to carry
/// one, is answered with the first display.
pub proof fn lemma_info_is_of_that_display(ds: Seq<Display>, args: Seq<u8>)
    ensures
        args.len() >= 4 && get_le32(args, 0) < 0x8000_0000 && get_le32(args, 0) < ds.len() ==> display_reply(
            ds,
            GET_DISPLAY_INFO,
            args,
        ) == le32(1) + display_info_bytes(ds[get_le32(args, 0) as int], get_le32(args, 0) as i32),
        args.len() >= 4 && get_le32(args, 0) < 0x8000_0000 && get_le32(args, 0) >= ds.len() ==> display_reply(
            ds,
            GET_DISPLAY_INFO,
            args,
        ) == le32(0),
        args.len() >= 4 && get_le32(args, 0) >= 0x8000_0000 && ds.len() > 0 ==> display_reply(
            ds,
            GET_DISPLAY_INFO,
            args,
        ) == le32(1) + display_info_bytes(ds[0], get_le32(args, 0) as i32),
        args.len() < 4 && ds.len() > 0 ==> display_reply(ds, GET_DISPLAY_INFO, args) == le32(1) + display_info_bytes(
            ds[0],
            0,
        ),
{
    if args.len() >= 4 {
        let w = get_le32(args, 0);
        if w >= 0x8000_0000 {
            assert((w as i32) < 0) by (bit_vector)
                requires
                    w >= 0x8000_0000,
            ;
        }
    }
}

/// The calls that are accepted with nothing to say: brightness, HDR and mode
/// preferences are the desktop's, the callbacks have nothing to report, and
/// there is no wifi display service.
pub open spec fn accepted(code: u32) -> bool {
    ||| code == SET_BRIGHTNESS
    ||| code == SET_TEMPORARY_BRIGHTNESS
    ||| code == SET_TEMPORARY_AUTO_BRIGHTNESS_ADJUSTMENT
    ||| code == SET_USER_DISABLED_HDR_TYPES
    ||| code == SET_ARE_USER_DISABLED_HDR_TYPES_ALLOWED
    ||| code == SET_BRIGHTNESS_CONFIGURATION_FOR_USER
    ||| code == SET_BRIGHTNESS_CONFIGURATION_FOR_DISPLAY
    ||| code == SET_SHOULD_ALWAYS_RESPECT_APP_REQUESTED_MODE
    ||| code == SET_USER_PREFERRED_DISPLAY_MODE
    ||| code == SET_REFRESH_RATE_SWITCHING_TYPE
    ||| code == REQUEST_COLOR_MODE
    ||| code == REGISTER_CALLBACK
    ||| code == REGISTER_CALLBACK_WITH_EVENT_MASK
    ||| (START_WIFI_DISPLAY_SCAN <= code && code <= RESUME_WIFI_DISPLAY)
}

/// The calls answered with a null parcelable: records of choices made in an
/// Android settings screen, of which there are none here.
pub open spec fn answered_null(code: u32) -> bool {
    ||| code == GET_AMBIENT_BRIGHTNESS_STATS
    ||| code == GET_BRIGHTNESS_EVENTS
    ||| code == GET_BRIGHTNESS_CONFIGURATION_FOR_DISPLAY
    ||| code == GET_BRIGHTNESS_CONFIGURATION_FOR_USER
    ||| code == GET_DEFAULT_BRIGHTNESS_CONFIGURATION
    ||| code == GET_MINIMUM_BRIGHTNESS_CURVE
    ||| code == GET_USER_PREFERRED_DISPLAY_MODE
    ||| code == GET_SYSTEM_PREFERRED_DISPLAY_MODE
    ||| code == GET_DISPLAY_DECORATION_SUPPORT
}

/// The calls answered with a zero word: no wifi display status, no refresh
/// rate switching, the sRGB color space, no disabled HDR types, and false for
/// the app-requested mode questions.
pub open spec fn answered_zero(code: u32) -> bool {
    ||| code == GET_WIFI_DISPLAY_STATUS
    ||| code == GET_REFRESH_RATE_SWITCHING_TYPE
    ||| code == GET_PREFERRED_WIDE_GAMUT_COLOR_SPACE_ID
    ||| code == GET_USER_DISABLED_HDR_TYPES
    ||| code == SHOULD_ALWAYS_RESPECT_APP_REQUESTED_MODE
    ||| code == IS_MINIMAL_POST_PROCESSING_REQUESTED
}

/// The calls answered true: every uid is on the one display there is, and no
/// HDR type is withheld.
pub open spec fn answered_true(code: u32) -> bool {
    code == IS_UID_PRESENT_ON_DISPLAY || code == ARE_USER_DISABLED_HDR_TYPES_ALLOWED
}

/// `BrightnessInfo`: present, half brightness, no adjustment, the range, no
/// high-brightness mode and no transition point, no reason.
pub open spec fn brightness_info_bytes() -> Seq<u8> {
    le32(1) + le32(F32_HALF) + le32(F32_NAN) + le32(0) + le32(F32_ONE) + le32(0) + le32(F32_NAN) + le32(0)
}

/// What the display manager answers, byte for byte.
pub open spec fn display_reply(ds: Seq<Display>, code: u32, args: Seq<u8>) -> Seq<u8> {
    if code == GET_DISPLAY_INFO {
        match display_at(ds, asked_logical_id(args)) {
            Some(d) => le32(1) + display_info_bytes(d, asked_logical_id(args)),
            None => le32(0),
        }
    } else if code == GET_DISPLAY_IDS {
        le32(ds.len() as u32) + index_words(ds.len())
    } else if code == GET_STABLE_DISPLAY_SIZE {
        le32(1) + le32(if ds.len() > 0 { ds[0].width } else { 0 }) + le32(if ds.len() > 0 { ds[0].height } else { 0 })
    } else if code == GET_BRIGHTNESS_INFO {
        brightness_info_bytes()
    } else if code == GET_BRIGHTNESS {
        le32(F32_HALF)
    } else if answered_true(code) {
        le32(1)
    } else if answered_zero(code) {
        le32(0)
    } else if accepted(code) {
        Seq::empty()
    } else if answered_null(code) {
        le32(-1i32 as u32)
    } else {
        refusal_bytes(AIDL@, code)
    }
}

/// Append the fields between the name and the unique id.
fn push_info_middle(out: &mut Vec<u8>, d: &Display)
    ensures
        final(out)@ == old(out)@ + info_middle(*d),
{
    let w = d.width;
    let h = d.height;
    let ghost start = out@;
    push_le32(out, w);
    push_le32(out, h);
    push_le32(out, w);
    push_le32(out, h);
    push_le32(out, w);
    push_le32(out, h);
    push_le32(out, w);
    push_le32(out, h);
    assert(out@ =~= start + info_sizes(*d));
    let ghost sized = out@;
    push_le32(out, 0);
    push_le32(out, 0);
    push_le32(out, 0);
    push_le32(out, 0);
    push_le32(out, 1);
    push_le32(out, 0);
    push_le32(out, w);
    push_le32(out, h);
    push_le32(out, d.refresh_bits);
    push_le32(out, 0);
    push_le32(out, 0);
    push_le32(out, 1);
    push_le32(out, 0);
    assert(out@ =~= sized + info_modes(*d));
    let ghost moded = out@;
    push_le32(out, -1i32 as u32);
    push_le32(out, 0);
    push_le32(out, DEFAULT_DENSITY_DPI as u32);
    push_le32(out, F32_160);
    push_le32(out, F32_160);
    push_le64(out, 0);
    push_le64(out, 0);
    push_le32(out, STATE_ON as u32);
    push_le32(out, SYSTEM_UID as u32);
    push_le32(out, -1i32 as u32);
    assert(out@ =~= moded + info_state());
    assert(out@ =~= start + info_middle(*d));
}

/// Append the fields after the unique id.
fn push_info_tail(out: &mut Vec<u8>)
    ensures
        final(out)@ == old(out)@ + info_tail(),
{
    let ghost start = out@;
    push_le32(out, REMOVE_MODE_MOVE_CONTENT_TO_PRIMARY as u32);
    push_le32(out, 0);
    push_le32(out, 0);
    push_le32(out, F32_ONE);
    push_le32(out, F32_HALF);
    push_le32(out, 0);
    push_le32(out, 0);
    push_le32(out, 0);
    assert(out@ =~= start + info_tail());
}

/// The display manager.
pub struct DisplayManager {
    displays: Vec<Display>,
}

impl DisplayManager {
    /// The displays it describes.
    pub closed spec fn displays(&self) -> Seq<Display> {
        self.displays@
    }

    /// The service for the host's displays.
    pub fn reporting(displays: Vec<Display>) -> (r: Self)
        ensures
            r.displays() == displays@,
    {
        DisplayManager { displays }
    }

    /// The interface this object is.
    pub fn descriptor(&self) -> (r: &'static str)
        ensures
            r@ == AIDL@,
    {
        AIDL
    }

    /// The logical id a request names.
    fn asked(args: &[u8]) -> (r: i32)
        ensures
            r == asked_logical_id(args@),
    {
        if args.len() >= 4 {
            read_le32(args, 0) as i32
        } else {
            DEFAULT_DISPLAY
        }
    }

    /// Where the display a request names is. `getDisplayInfo` and friends
    /// take a logical id, which is this index: the default display has been
    /// id 0 for the life of the platform.
    fn named(&self, args: &[u8]) -> (r: Option<usize>)
        ensures
            match r {
                Some(i) => i < self.displays@.len() && display_at(self.displays@, asked_logical_id(args@)) == Some(
                    self.displays@[i as int],
                ),
                None => display_at(self.displays@, asked_logical_id(args@)) is None,
            },
    {
        let id = Self::asked(args);
        let i: usize = if id < 0 { 0 } else { id as usize };
        if i < self.displays.len() {
            Some(i)
        } else {
            None
        }
    }

    /// One display's `android.view.DisplayInfo`.
    pub fn display_info(display: &Display, logical_id: i32) -> (r: Vec<u8>)
        ensures
            r@ == display_info_bytes(*display, logical_id),
    {
        let w = display.width;
        let h = display.height;
        let mut out: Vec<u8> = Vec::new();
        push_le32(&mut out, 0);
        push_le32(&mut out, 0);
        push_le32(&mut out, TYPE_EXTERNAL as u32);
        push_le32(&mut out, logical_id as u32);
        push_le32(&mut out, 0);
        push_le32(&mut out, -1i32 as u32);
        push_le32(&mut out, -1i32 as u32);
        assert(out@ =~= info_head(logical_id));
        push_string8(&mut out, display.connector.as_str());
        push_info_middle(&mut out, display);
        let mut unique: Vec<char> = Vec::new();
        push_str(&mut unique, "mosaic:");
        push_str(&mut unique, display.connector.as_str());
        let unique = string_of(unique.as_slice());
        push_string8(&mut out, unique.as_str());
        push_info_tail(&mut out);
        out
    }

    /// The answer to a call, in `IDisplayManager`'s own shapes.
    pub fn answer(&mut self, code: u32, args: &[u8]) -> (a: Answer)
        ensures
            final(self).displays() == old(self).displays(),
            a.data@ == display_reply(old(self).displays(), code, args@),
            a.objects@.len() == 0,
            a.calls@.len() == 0,
            a.fds@.len() == 0,
    {
        let mut out: Vec<u8> = Vec::new();
        if code == GET_DISPLAY_INFO {
            match self.named(args) {
                Some(i) => {
                    push_le32(&mut out, 1);
                    let info = Self::display_info(&self.displays[i], Self::asked(args));
                    push_bytes(&mut out, info.as_slice());
                },
                None => push_le32(&mut out, 0),
            }
        } else if code == GET_DISPLAY_IDS {
            let n = self.displays.len();
            push_le32(&mut out, n as u32);
            let mut i: usize = 0;
            while i < n
                invariant
                    n == self.displays@.len(),
                    i <= n,
                    out@ == le32(n as u32) + index_words(i as nat),
                decreases n - i,
            {
                push_le32(&mut out, i as u32);
                i = i + 1;
            }
        } else if code == GET_STABLE_DISPLAY_SIZE {
            push_le32(&mut out, 1);
            push_le32(&mut out, if self.displays.len() > 0 { self.displays[0].width } else { 0 });
            push_le32(&mut out, if self.displays.len() > 0 { self.displays[0].height } else { 0 });
        } else if code == GET_BRIGHTNESS_INFO {
            push_le32(&mut out, 1);
            push_le32(&mut out, F32_HALF);
            push_le32(&mut out, F32_NAN);
            push_le32(&mut out, 0);
            push_le32(&mut out, F32_ONE);
            push_le32(&mut out, 0);
            push_le32(&mut out, F32_NAN);
            push_le32(&mut out, 0);
        } else if code == GET_BRIGHTNESS {
            push_le32(&mut out, F32_HALF);
        } else if code == IS_UID_PRESENT_ON_DISPLAY || code == ARE_USER_DISABLED_HDR_TYPES_ALLOWED {
            push_le32(&mut out, 1);
        } else if code == GET_WIFI_DISPLAY_STATUS || code == GET_REFRESH_RATE_SWITCHING_TYPE || code
            == GET_PREFERRED_WIDE_GAMUT_COLOR_SPACE_ID || code == GET_USER_DISABLED_HDR_TYPES || code
            == SHOULD_ALWAYS_RESPECT_APP_REQUESTED_MODE || code == IS_MINIMAL_POST_PROCESSING_REQUESTED {
            push_le32(&mut out, 0);
        } else if code == SET_BRIGHTNESS || code == SET_TEMPORARY_BRIGHTNESS || code
            == SET_TEMPORARY_AUTO_BRIGHTNESS_ADJUSTMENT || code == SET_USER_DISABLED_HDR_TYPES || code
            == SET_ARE_USER_DISABLED_HDR_TYPES_ALLOWED || code == SET_BRIGHTNESS_CONFIGURATION_FOR_USER || code
            == SET_BRIGHTNESS_CONFIGURATION_FOR_DISPLAY || code == SET_SHOULD_ALWAYS_RESPECT_APP_REQUESTED_MODE
            || code == SET_USER_PREFERRED_DISPLAY_MODE || code == SET_REFRESH_RATE_SWITCHING_TYPE || code
            == REQUEST_COLOR_MODE || code == REGISTER_CALLBACK || code == REGISTER_CALLBACK_WITH_EVENT_MASK || (
        START_WIFI_DISPLAY_SCAN <= code && code <= RESUME_WIFI_DISPLAY) {
        } else if code == GET_AMBIENT_BRIGHTNESS_STATS || code == GET_BRIGHTNESS_EVENTS || code
            == GET_BRIGHTNESS_CONFIGURATION_FOR_DISPLAY || code == GET_BRIGHTNESS_CONFIGURATION_FOR_USER || code
            == GET_DEFAULT_BRIGHTNESS_CONFIGURATION || code == GET_MINIMUM_BRIGHTNESS_CURVE || code
            == GET_USER_PREFERRED_DISPLAY_MODE || code == GET_SYSTEM_PREFERRED_DISPLAY_MODE || code
            == GET_DISPLAY_DECORATION_SUPPORT {
            push_le32(&mut out, -1i32 as u32);
        } else {
            out = refusal(AIDL, code);
        }
        assert(out@ =~= display_reply(self.displays@, code, args@));
        Answer::of(out)
    }

    /// Answer a call: its arguments are what follows the interface token.
    pub fn transact(&mut self, code: u32, data: &[u8]) -> (a: Answer)
        ensures
            final(self).displays() == old(self).displays(),
            a.data@ == display_reply(
                old(self).displays(),
                code,
                crate::binder::parcel::args_after_bytes(data@, crate::binder::parcel::token_bytes(AIDL@)),
            ),
            a.objects@.len() == 0,
            a.calls@.len() == 0,
            a.fds@.len() == 0,
    {
        proof {
            reveal_strlit("android.hardware.display.IDisplayManager");
        }
        let args = crate::binder::parcel::args_after(data, AIDL);
        self.answer(code, args)
    }
}

impl BinderObject for DisplayManager {
    fn transact(&mut self, code: u32, data: &[u8]) -> Result<Answer, String> {
        Ok(DisplayManager::transact(self, code, data))
    }

    fn descriptor(&self) -> String {
        let d = DisplayManager::descriptor(self);
        crate::text::string_of(crate::text::chars_of(d).as_slice())
    }
}

} // verus!
