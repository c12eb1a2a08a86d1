//! `ISurfaceComposer`, in both of the forms Android 13's framework speaks:
//! the AIDL interface and the older one whose tags are a different
//! numbering. Which one a request is for is decided by the interface token
//! it carries.

pub mod aidl;
pub mod event;
pub mod legacy;

use vstd::prelude::*;

use crate::binder::service::BinderObject;

use crate::binder::parcel::{
    args_after, args_after_bytes, binder_object_bytes, carries_token, first_occurrence,
    token_bytes, Parcel, BINDER_TYPE_BINDER, BINDER_TYPE_HANDLE, STABILITY_SYSTEM, STABILITY_UNDECLARED,
};
use crate::binder::{refusal, refusal_bytes, Answer, Handed, HandedView, Hosted};
use crate::device::surfaceflinger::aidl::{
    CLEAR_BOOT_DISPLAY_MODE, GET_BOOT_DISPLAY_MODE_SUPPORT, GET_DISPLAY_BRIGHTNESS_SUPPORT, GET_DISPLAY_STATE,
    GET_DISPLAY_STATS, GET_PHYSICAL_DISPLAY_IDS, GET_PHYSICAL_DISPLAY_TOKEN, GET_PRIMARY_PHYSICAL_DISPLAY_ID,
    IS_WIDE_COLOR_DISPLAY, NOTIFY_POWER_BOOST, SET_AUTO_LOW_LATENCY_MODE, SET_GAME_CONTENT_TYPE, SET_POWER_MODE,
};
use crate::device::surfaceflinger::event::{REQUEST_NEXT_VSYNC, SET_VSYNC_RATE, STEAL_RECEIVE_CHANNEL};
use crate::device::surfaceflinger::legacy::{
    BOOT_FINISHED, CREATE_CONNECTION, CREATE_DISPLAY_EVENT_CONNECTION, GET_COMPOSITION_PREFERENCE,
    GET_DESIRED_DISPLAY_MODE_SPECS, GET_DISPLAY_DECORATION_SUPPORT, GET_DISPLAY_NATIVE_PRIMARIES,
    GET_DYNAMIC_DISPLAY_INFO, GET_GPU_CONTEXT_PRIORITY, GET_MAX_ACQUIRED_BUFFER_COUNT,
    GET_PROTECTED_CONTENT_SUPPORT, GET_STATIC_DISPLAY_INFO,
};
use crate::octets::{get_le64, le32, le64, push_le32, push_le64, read_le64};
use crate::text::{
    chars_of, decimal_chars, find_chars, first_match, parse_u32, parse_u32_chars, push_decimal, push_str,
    slice_chars, string_of, trim, trim_chars,
};

verus! {

/// The name the framework looks up for the older interface.
pub const NAME: &'static str = "SurfaceFlinger";
/// And the one it looks up for the AIDL interface.
pub const AIDL_NAME: &'static str = "SurfaceFlingerAIDL";
/// The AIDL interface.
pub const AIDL: &'static str = "android.gui.ISurfaceComposer";
/// The older interface.
pub const LEGACY: &'static str = "android.ui.ISurfaceComposer";

/// The AIDL status for a method a service does not implement.
pub const EX_UNSUPPORTED_OPERATION: i32 = -7;
/// `NAME_NOT_FOUND`, for a display that is not there.
pub const NAME_NOT_FOUND: i32 = -22;
/// `ui::ColorMode::NATIVE`: the display's own mode, the only one a host output
/// has.
pub const COLOR_MODE_NATIVE: i32 = 0;
/// `ui::Dataspace::V0_SRGB`. For the wide-gamut slot this value means "no
/// wide color gamut support", which is the truth for a host compositor.
pub const DATASPACE_SRGB: i32 = 142671872;
/// `ui::PixelFormat::RGBA_8888`.
pub const PIXEL_FORMAT_RGBA_8888: i32 = 1;
/// `ui::DisplayConnectionType::External`: a desktop monitor is not an
/// internal panel.
pub const CONNECTION_TYPE_EXTERNAL: i32 = 1;
/// `ui::DisplayState::ON`.
pub const DISPLAY_STATE_ON: i32 = 2;
/// `ui::DisplayState::OFF`, for a display that is not there.
pub const DISPLAY_STATE_OFF: i32 = 1;
/// `ui::Rotation::Rotation0`.
pub const ROTATION_0: i32 = 0;
/// The refresh rate reported when the host does not say, 60 Hz, as the bits
/// of the `f32` the wire carries. DRM's sysfs has modes and no timings.
pub const DEFAULT_REFRESH_BITS: u32 = 0x4270_0000;
/// The density reported when the panel's size cannot be read, 160 dpi
/// (mdpi), as the bits of its `f32`.
pub const DEFAULT_DENSITY_BITS: u32 = 0x4320_0000;

/// The sRGB primaries, red, green, blue and white, x then y, as the bits of
/// their `f32`s: 0.64, 0.33, 0.30, 0.60, 0.15, 0.06, 0.3127, 0.3290.
pub open spec fn srgb_primaries_bytes() -> Seq<u8> {
    le32(0x3f23d70a) + le32(0x3ea8f5c3) + le32(0x3e99999a) + le32(0x3f19999a) + le32(0x3e19999a) + le32(0x3d75c28f)
        + le32(0x3ea01a37) + le32(0x3ea872b0)
}

/// One display, as this host has it.
#[derive(Debug, Clone, PartialEq, Eq)]
pub struct Display {
    /// Android's `PhysicalDisplayId`: the port in the high half, so it is
    /// stable across calls and never zero.
    pub id: u64,
    pub width: u32,
    pub height: u32,
    /// The refresh rate, as the bits of the `f32` the wire carries.
    pub refresh_bits: u32,
    /// The frame period that refresh rate gives, in nanoseconds.
    pub frame_period_ns: i64,
    /// The connector it came from.
    pub connector: String,
}

/// `ui::StaticDisplayInfo`, as `libs/ui/StaticDisplayInfo.cpp` writes it:
/// the connection type, the density, not secure, no product info, rotation.
pub open spec fn static_info_bytes(d: Display) -> Seq<u8> {
    le32(CONNECTION_TYPE_EXTERNAL as u32) + le32(DEFAULT_DENSITY_BITS) + le32(0) + le32(0) + le32(ROTATION_0 as u32)
}

/// `ui::DisplayMode`: id, resolution, the two dpis, the refresh rate, three
/// 64-bit offsets and the group.
pub open spec fn display_mode_bytes(d: Display, id: i32) -> Seq<u8> {
    le32(id as u32) + le32(d.width) + le32(d.height) + le32(DEFAULT_DENSITY_BITS) + le32(DEFAULT_DENSITY_BITS)
        + le32(d.refresh_bits) + le64(0) + le64(0) + le64(0) + le32(0)
}

/// `ui::DynamicDisplayInfo`: one mode and it active, one color mode and it
/// active, no HDR types and unknown luminance, neither low-latency nor game
/// content, and the one mode as the boot mode.
pub open spec fn dynamic_info_bytes(d: Display) -> Seq<u8> {
    le64(1) + display_mode_bytes(d, 0) + le32(0) + le64(1) + le32(COLOR_MODE_NATIVE as u32) + le32(
        COLOR_MODE_NATIVE as u32,
    ) + le32(0) + le32(0) + le32(0) + le32(0) + seq![0u8, 0u8] + le32(0)
}

/// The first display at or after `from` whose id is `id`.
pub open spec fn first_with(ds: Seq<Display>, id: u64, from: int) -> Option<int>
    decreases ds.len() - from,
{
    if from < 0 || from >= ds.len() {
        None
    } else if ds[from].id == id {
        Some(from)
    } else {
        first_with(ds, id, from + 1)
    }
}

/// The display whose id is `id`, first of them.
pub open spec fn display_with(ds: Seq<Display>, id: u64) -> Option<Display> {
    match first_with(ds, id, 0) {
        Some(i) => Some(ds[i]),
        None => None,
    }
}

/// The display a token names: the broker writes the node into the cookie of
/// the object word, and the node is the display's id. A word that is not
/// there, or a zero cookie, names none.
pub open spec fn token_id(args: Seq<u8>) -> Option<u64> {
    if args.len() >= 28 && get_le64(args, 16) != 0 {
        Some(get_le64(args, 16))
    } else {
        None
    }
}

/// Where the display a request names is: the one its token names, or the
/// primary one when it names none.
pub open spec fn named_index_of(ds: Seq<Display>, args: Seq<u8>) -> Option<int> {
    match token_id(args) {
        Some(id) => first_with(ds, id, 0),
        None => if ds.len() > 0 {
            Some(0)
        } else {
            None
        },
    }
}

/// The display a request names by token, or the primary one when it names
/// none.
pub open spec fn named_display_of(ds: Seq<Display>, args: Seq<u8>) -> Option<Display> {
    match named_index_of(ds, args) {
        Some(i) => Some(ds[i]),
        None => None,
    }
}

/// The handle word the broker fills in for a handed object.
pub open spec fn handle_word() -> Seq<u8> {
    binder_object_bytes(BINDER_TYPE_HANDLE, 0, 0, STABILITY_SYSTEM)
}

/// A null binder.
pub open spec fn null_word() -> Seq<u8> {
    binder_object_bytes(BINDER_TYPE_BINDER, 0, 0, STABILITY_UNDECLARED)
}

/// The refresh rate four times: the desired mode specs' ranges.
pub open spec fn four_rates(bits: u32) -> Seq<u8> {
    le32(bits) + le32(bits) + le32(bits) + le32(bits)
}

/// What the older interface answers, byte for byte.
pub open spec fn legacy_reply(ds: Seq<Display>, code: u32, args: Seq<u8>) -> Seq<u8> {
    if code == BOOT_FINISHED {
        Seq::empty()
    } else if code == CREATE_CONNECTION || code == CREATE_DISPLAY_EVENT_CONNECTION {
        handle_word()
    } else if code == GET_STATIC_DISPLAY_INFO {
        match named_display_of(ds, args) {
            Some(d) => le32(0) + le32(static_info_bytes(d).len() as u32) + static_info_bytes(d),
            None => le32(NAME_NOT_FOUND as u32),
        }
    } else if code == GET_DYNAMIC_DISPLAY_INFO {
        match named_display_of(ds, args) {
            Some(d) => le32(0) + le32(dynamic_info_bytes(d).len() as u32) + dynamic_info_bytes(d),
            None => le32(NAME_NOT_FOUND as u32),
        }
    } else if code == GET_COMPOSITION_PREFERENCE {
        le32(0) + le32(DATASPACE_SRGB as u32) + le32(PIXEL_FORMAT_RGBA_8888 as u32) + le32(DATASPACE_SRGB as u32)
            + le32(PIXEL_FORMAT_RGBA_8888 as u32)
    } else if code == GET_PROTECTED_CONTENT_SUPPORT {
        le32(0) + le32(0)
    } else if code == GET_DISPLAY_NATIVE_PRIMARIES {
        le32(0) + srgb_primaries_bytes()
    } else if code == GET_DESIRED_DISPLAY_MODE_SPECS {
        match named_display_of(ds, args) {
            Some(d) => le32(0) + four_rates(d.refresh_bits) + le32(0),
            None => le32(NAME_NOT_FOUND as u32),
        }
    } else if code == GET_GPU_CONTEXT_PRIORITY {
        le32(0)
    } else if code == GET_MAX_ACQUIRED_BUFFER_COUNT {
        le32(2)
    } else if code == GET_DISPLAY_DECORATION_SUPPORT {
        le32(0)
    } else {
        refusal_bytes(LEGACY@, code)
    }
}

/// The object the older interface hands back, if it hands one.
pub open spec fn legacy_object(code: u32) -> Option<Hosted> {
    if code == CREATE_CONNECTION {
        Some(Hosted::ComposerConnection)
    } else if code == CREATE_DISPLAY_EVENT_CONNECTION {
        Some(Hosted::DisplayEventConnection)
    } else {
        None
    }
}

/// The display ids, eight bytes each.
pub open spec fn ids_bytes(ds: Seq<Display>) -> Seq<u8>
    decreases ds.len(),
{
    if ds.len() == 0 {
        Seq::empty()
    } else {
        ids_bytes(ds.drop_last()) + le64(ds.last().id)
    }
}

/// The display id a token request asks for: its first eight bytes, or 0.
pub open spec fn asked_id(args: Seq<u8>) -> u64 {
    if args.len() >= 8 {
        get_le64(args, 0)
    } else {
        0
    }
}

/// The key a display's token is kept under, so that two requests for one
/// display get one object.
pub open spec fn token_key(id: u64) -> Seq<char> {
    NAME@ + ":token:"@ + decimal_chars(id as nat)
}

/// What the AIDL interface answers, byte for byte.
pub open spec fn aidl_reply(ds: Seq<Display>, code: u32, args: Seq<u8>) -> Seq<u8> {
    if code == GET_PHYSICAL_DISPLAY_IDS {
        le32(ds.len() as u32) + ids_bytes(ds)
    } else if code == GET_PRIMARY_PHYSICAL_DISPLAY_ID {
        le64(if ds.len() > 0 { ds[0].id } else { 0 })
    } else if code == GET_PHYSICAL_DISPLAY_TOKEN {
        match display_with(ds, asked_id(args)) {
            Some(_) => handle_word(),
            None => null_word(),
        }
    } else if code == GET_DISPLAY_STATE {
        le32(
            match named_display_of(ds, args) {
                Some(_) => DISPLAY_STATE_ON as u32,
                None => DISPLAY_STATE_OFF as u32,
            },
        )
    } else if code == GET_DISPLAY_STATS {
        le64(0) + le64(
            match named_display_of(ds, args) {
                Some(d) => d.frame_period_ns as u64,
                None => 0,
            },
        )
    } else if code == SET_POWER_MODE || code == CLEAR_BOOT_DISPLAY_MODE || code == SET_AUTO_LOW_LATENCY_MODE || code
        == SET_GAME_CONTENT_TYPE || code == NOTIFY_POWER_BOOST {
        Seq::empty()
    } else if code == GET_BOOT_DISPLAY_MODE_SUPPORT || code == IS_WIDE_COLOR_DISPLAY || code
        == GET_DISPLAY_BRIGHTNESS_SUPPORT {
        le32(0)
    } else {
        refusal_bytes(AIDL@, code)
    }
}

/// The object the AIDL interface hands back, if it hands one: a display's
/// token, kept under the display's key.
pub open spec fn aidl_object(ds: Seq<Display>, code: u32, args: Seq<u8>) -> Option<HandedView> {
    if code == GET_PHYSICAL_DISPLAY_TOKEN {
        match display_with(ds, asked_id(args)) {
            Some(d) => Some(HandedView::New { key: Some(token_key(d.id)), object: Hosted::DisplayToken { id: d.id } }),
            None => None,
        }
    } else {
        None
    }
}

/// What a request's interface token makes it: the older interface's, the
/// AIDL one's, or neither.
pub open spec fn carries(data: Seq<u8>, descriptor: Seq<char>) -> bool {
    token_bytes(descriptor).len() > 0 && first_occurrence(data, token_bytes(descriptor), 0) is Some
}

/// The size a DRM mode line gives: `1920x1080`, white space around it
/// allowed.
pub open spec fn mode_size_of(line: Seq<char>) -> Option<(u32, u32)> {
    let l = trim(line);
    match first_match(l, seq!['x'], 0) {
        Some(k) => match (parse_u32(l.take(k)), parse_u32(l.subrange(k + 1, l.len() as int))) {
            (Some(w), Some(h)) => Some((w, h)),
            _ => None,
        },
        None => None,
    }
}

/// A mode line from DRM, `1920x1080`, as a width and a height.
pub fn mode_size(line: &str) -> (r: Option<(u32, u32)>)
    ensures
        r == mode_size_of(line@),
{
    let raw = chars_of(line);
    let l = trim_chars(raw.as_slice());
    let x: Vec<char> = vec!['x'];
    assert(x@ =~= seq!['x']);
    let k = match find_chars(l.as_slice(), x.as_slice()) {
        Some(k) => k,
        None => return None,
    };
    proof {
        crate::text::lemma_first_match(l@, x@, 0);
        assert(first_match(l@, x@, 0) == Some(k as int));
        assert(k + 1 <= l@.len());
    }
    let left = slice_chars(l.as_slice(), 0, k);
    let n = l.len();
    assert(k < n);
    let right = slice_chars(l.as_slice(), k + 1, n);
    assert(left@ =~= l@.take(k as int));
    let w = match parse_u32_chars(left.as_slice()) {
        Some(w) => w,
        None => return None,
    };
    let h = match parse_u32_chars(right.as_slice()) {
        Some(h) => h,
        None => return None,
    };
    Some((w, h))
}


/// Append an `i32`, low byte first.
fn push_i32(out: &mut Vec<u8>, v: i32)
    ensures
        final(out)@ == old(out)@ + le32(v as u32),
{
    push_le32(out, v as u32);
}

/// The display a token in `args` names, if it names one.
fn token_of(args: &[u8]) -> (r: Option<u64>)
    ensures
        r == token_id(args@),
{
    if args.len() >= 28 {
        let cookie = read_le64(args, 16);
        if cookie != 0 {
            return Some(cookie);
        }
    }
    None
}

/// The object a display's identity stands for on the wire.
///
/// The framework keeps the token from `getPhysicalDisplayToken` and hands it
/// back to ask about that display; it answers nothing itself.
pub struct DisplayToken {
    pub id: u64,
}

/// What a display token says to every call.
pub open spec fn token_refusal(code: u32) -> Seq<u8> {
    crate::binder::parcel::string16_after(
        le32(EX_UNSUPPORTED_OPERATION as u32),
        "a display token answers nothing (code "@ + decimal_chars(code as nat) + ")"@,
    ) + le32(0)
}

impl DisplayToken {
    /// The interface this object is.
    pub fn descriptor(&self) -> (r: &'static str)
        ensures
            r@ == "android.gui.IDisplayToken"@,
    {
        "android.gui.IDisplayToken"
    }

    /// Every call is refused: a token is an identity.
    pub fn transact(&mut self, code: u32, data: &[u8]) -> (a: Answer)
        ensures
            a.data@ == token_refusal(code),
            a.objects@.len() == 0,
            a.calls@.len() == 0,
            a.fds@.len() == 0,
    {
        let mut text: Vec<char> = Vec::new();
        push_str(&mut text, "a display token answers nothing (code ");
        push_decimal(&mut text, code as u64);
        push_str(&mut text, ")");
        let message = string_of(text.as_slice());
        let mut reply = Parcel::new();
        reply.i32(EX_UNSUPPORTED_OPERATION);
        reply.string16(message.as_str());
        reply.i32(0);
        Answer::of(reply.into_bytes())
    }
}

/// The connection `createConnection` returns. It carries an identity, not a
/// compositor: it creates surfaces that are identities too, and refuses the
/// rest.
pub struct SurfaceComposerConnection;

/// `createSurfaceChecked`'s code.
pub const CREATE_SURFACE: u32 = 1;

impl SurfaceComposerConnection {
    /// The interface this object is.
    pub fn descriptor(&self) -> (r: &'static str)
        ensures
            r@ == "android.ui.ISurfaceComposerClient"@,
    {
        "android.ui.ISurfaceComposerClient"
    }

    /// `createSurfaceChecked` answers a surface handle, a buffer producer, a
    /// layer id of 1, a transform hint and a status of 0; the rest is refused.
    pub fn transact(&mut self, code: u32, data: &[u8]) -> (a: Answer)
        ensures
            code == CREATE_SURFACE ==> {
                &&& a.data@ == handle_word() + handle_word() + le32(1) + le32(0) + le32(0)
                &&& a.objects@.len() == 2
                &&& a.objects@[0].offset == 0
                &&& a.objects@[0].object@ == HandedView::New { key: None, object: Hosted::SurfaceHandle }
                &&& a.objects@[1].offset == 28
                &&& a.objects@[1].object@ == HandedView::New { key: None, object: Hosted::BufferProducer }
            },
            code != CREATE_SURFACE ==> a.data@ == refusal_bytes("ISurfaceComposerClient"@, code) && a.objects@.len() == 0,
            a.calls@.len() == 0,
            a.fds@.len() == 0,
    {
        if code == CREATE_SURFACE {
            let mut reply = Parcel::new();
            let handle = reply.handle_binder(0);
            let producer = reply.handle_binder(0);
            reply.i32(1);
            reply.i32(0);
            reply.i32(0);
            let a = Answer::of(reply.into_bytes());
            let a = a.handing(handle, Handed::New { key: None, object: Hosted::SurfaceHandle });
            a.handing(producer, Handed::New { key: None, object: Hosted::BufferProducer })
        } else {
            Answer::of(refusal("ISurfaceComposerClient", code))
        }
    }
}

/// A surface created before there is a compositor: an identity with no
/// drawing behind it.
pub struct SurfaceHandle;

impl SurfaceHandle {
    /// The interface this object is.
    pub fn descriptor(&self) -> (r: &'static str)
        ensures
            r@ == "android.gui.ISurfaceControl"@,
    {
        "android.gui.ISurfaceControl"
    }

    /// Every call is refused.
    pub fn transact(&mut self, code: u32, data: &[u8]) -> (a: Answer)
        ensures
            a.data@ == refusal_bytes("ISurfaceControl"@, code),
            a.objects@.len() == 0,
            a.calls@.len() == 0,
            a.fds@.len() == 0,
    {
        Answer::of(refusal("ISurfaceControl", code))
    }
}

/// The producer identity in a surface-creation reply. No buffers are queued
/// through it until there is a compositor.
pub struct BufferProducer;

impl BufferProducer {
    /// The interface this object is.
    pub fn descriptor(&self) -> (r: &'static str)
        ensures
            r@ == "android.gui.IGraphicBufferProducer"@,
    {
        "android.gui.IGraphicBufferProducer"
    }

    /// Every call is refused.
    pub fn transact(&mut self, code: u32, data: &[u8]) -> (a: Answer)
        ensures
            a.data@ == refusal_bytes("IGraphicBufferProducer"@, code),
            a.objects@.len() == 0,
            a.calls@.len() == 0,
            a.fds@.len() == 0,
    {
        Answer::of(refusal("IGraphicBufferProducer", code))
    }
}

/// What `createDisplayEventConnection` hands back. Its receive channel is a
/// socket pair the host end creates; this decides where the two descriptors go
/// and that the read end is handed over once. Nothing is written into the
/// channel: the frame clock is the host compositor's.
pub struct DisplayEventConnection {
    stolen: bool,
}

impl DisplayEventConnection {
    /// A connection whose channel has not been handed over.
    pub fn new() -> (r: Self)
        ensures
            !r.is_stolen(),
    {
        DisplayEventConnection { stolen: false }
    }

    /// Whether the read end has been handed over.
    pub closed spec fn is_stolen(&self) -> bool {
        self.stolen
    }

    /// The interface this object is.
    pub fn descriptor(&self) -> (r: &'static str)
        ensures
            r@ == "android.gui.IDisplayEventConnection"@,
    {
        "android.gui.IDisplayEventConnection"
    }

    /// `stealReceiveChannel` answers the presence word and two descriptor
    /// words, the receive channel first; the descriptors go with the first
    /// answer only. The rate and the next-vsync request are accepted, and the
    /// rest is refused.
    pub fn transact(&mut self, code: u32, data: &[u8]) -> (a: Answer)
        ensures
            code == STEAL_RECEIVE_CHANNEL ==> {
                &&& a.data@ == le32(1) + crate::binder::parcel::zeros(24) + crate::binder::parcel::zeros(24)
                &&& final(self).is_stolen()
                &&& !old(self).is_stolen() ==> a.fds@ == seq![4u32, 28u32]
                &&& old(self).is_stolen() ==> a.fds@.len() == 0
            },
            (code == SET_VSYNC_RATE || code == REQUEST_NEXT_VSYNC) ==> a.data@.len() == 0 && a.fds@.len() == 0,
            !(code == STEAL_RECEIVE_CHANNEL || code == SET_VSYNC_RATE || code == REQUEST_NEXT_VSYNC) ==> a.data@
                == refusal_bytes("IDisplayEventConnection"@, code) && a.fds@.len() == 0,
            code != STEAL_RECEIVE_CHANNEL ==> final(self).is_stolen() == old(self).is_stolen(),
            a.objects@.len() == 0,
            a.calls@.len() == 0,
    {
        if code == STEAL_RECEIVE_CHANNEL {
            let mut reply = Parcel::new();
            reply.i32(1);
            let receive_at = reply.fd_placeholder();
            let send_at = reply.fd_placeholder();
            let a = Answer::of(reply.into_bytes());
            if self.stolen {
                a
            } else {
                self.stolen = true;
                let a = a.handing_fd(receive_at);
                let a = a.handing_fd(send_at);
                assert(a.fds@ =~= seq![4u32, 28u32]);
                a
            }
        } else if code == SET_VSYNC_RATE || code == REQUEST_NEXT_VSYNC {
            Answer::of(Vec::new())
        } else {
            Answer::of(refusal("IDisplayEventConnection", code))
        }
    }
}

/// The compositor's HAL: this host's displays, described in both of the
/// interface's forms.
pub struct SurfaceFlinger {
    displays: Vec<Display>,
    /// Which interface this object reports itself as. Two of these are hosted,
    /// one per name, and each answers the code space its request's token names.
    interface: &'static str,
}

impl SurfaceFlinger {
    /// The displays it describes.
    pub closed spec fn displays(&self) -> Seq<Display> {
        self.displays@
    }

    /// The interface it reports.
    pub closed spec fn interface(&self) -> Seq<char> {
        self.interface@
    }

    /// The service for these displays, reporting the AIDL interface.
    pub fn new(displays: Vec<Display>) -> (r: Self)
        ensures
            r.displays() == displays@,
            r.interface() == AIDL@,
    {
        Self::reporting(displays, AIDL)
    }

    /// The service for these displays, reporting `interface`.
    pub fn reporting(displays: Vec<Display>, interface: &'static str) -> (r: Self)
        ensures
            r.displays() == displays@,
            r.interface() == interface@,
    {
        SurfaceFlinger { displays, interface }
    }

    /// The interface this object is.
    pub fn descriptor(&self) -> (r: &'static str)
        ensures
            r@ == self.interface(),
    {
        self.interface
    }

    /// Where the display with this id is.
    fn display_index(&self, id: u64) -> (r: Option<usize>)
        ensures
            match r {
                Some(i) => first_with(self.displays@, id, 0) == Some(i as int),
                None => first_with(self.displays@, id, 0) is None,
            },
    {
        let mut i: usize = 0;
        while i < self.displays.len()
            invariant
                i <= self.displays@.len(),
                first_with(self.displays@, id, 0) == first_with(self.displays@, id, i as int),
            decreases self.displays@.len() - i,
        {
            if self.displays[i].id == id {
                return Some(i);
            }
            i = i + 1;
        }
        None
    }

    /// Where the display a request names is.
    fn named_index(&self, args: &[u8]) -> (r: Option<usize>)
        ensures
            match r {
                Some(i) => named_index_of(self.displays@, args@) == Some(i as int) && i < self.displays@.len(),
                None => named_index_of(self.displays@, args@) is None,
            },
    {
        match token_of(args) {
            Some(id) => {
                let r = self.display_index(id);
                proof {
                    if r is Some {
                        lemma_first_with_in_range(self.displays@, id, 0);
                    }
                }
                r
            },
            None => if self.displays.len() > 0 {
                Some(0)
            } else {
                None
            },
        }
    }

    /// `ui::StaticDisplayInfo` for a display.
    pub fn static_display_info(&self, display: &Display) -> (r: Vec<u8>)
        ensures
            r@ == static_info_bytes(*display),
    {
        let mut out: Vec<u8> = Vec::new();
        push_i32(&mut out, CONNECTION_TYPE_EXTERNAL);
        push_le32(&mut out, DEFAULT_DENSITY_BITS);
        push_i32(&mut out, 0);
        push_i32(&mut out, 0);
        push_i32(&mut out, ROTATION_0);
        assert(out@ =~= static_info_bytes(*display));
        out
    }

    /// `ui::DisplayMode` for a display, with this mode id.
    pub fn display_mode(&self, display: &Display, id: i32) -> (r: Vec<u8>)
        ensures
            r@ == display_mode_bytes(*display, id),
    {
        let mut out: Vec<u8> = Vec::new();
        push_i32(&mut out, id);
        push_le32(&mut out, display.width);
        push_le32(&mut out, display.height);
        push_le32(&mut out, DEFAULT_DENSITY_BITS);
        push_le32(&mut out, DEFAULT_DENSITY_BITS);
        push_le32(&mut out, display.refresh_bits);
        push_le64(&mut out, 0);
        push_le64(&mut out, 0);
        push_le64(&mut out, 0);
        push_le32(&mut out, 0);
        assert(out@ =~= display_mode_bytes(*display, id));
        out
    }

    /// `ui::DynamicDisplayInfo` for a display.
    pub fn dynamic_display_info(&self, display: &Display) -> (r: Vec<u8>)
        ensures
            r@ == dynamic_info_bytes(*display),
    {
        let mut out: Vec<u8> = Vec::new();
        push_le64(&mut out, 1);
        let mode = self.display_mode(display, 0);
        crate::octets::push_bytes(&mut out, mode.as_slice());
        push_le32(&mut out, 0);
        push_le64(&mut out, 1);
        push_i32(&mut out, COLOR_MODE_NATIVE);
        push_i32(&mut out, COLOR_MODE_NATIVE);
        push_le32(&mut out, 0);
        push_le32(&mut out, 0);
        push_le32(&mut out, 0);
        push_le32(&mut out, 0);
        out.push(0);
        out.push(0);
        push_le32(&mut out, 0);
        assert(out@ =~= dynamic_info_bytes(*display));
        out
    }

    /// A refusal naming the interface and the method.
    fn refuse(&self, code: u32, interface: &str) -> (a: Answer)
        ensures
            a.data@ == refusal_bytes(interface@, code),
            a.objects@.len() == 0,
            a.calls@.len() == 0,
            a.fds@.len() == 0,
    {
        Answer::of(refusal(interface, code))
    }

    /// An info block behind a status of 0 and its length, or
    /// `NAME_NOT_FOUND` for a display that is not there.
    fn info_reply(info: Option<Vec<u8>>) -> (a: Answer)
        requires
            info matches Some(b) ==> b@.len() <= u32::MAX,
        ensures
            a.data@ == match info {
                Some(b) => le32(0) + le32(b@.len() as u32) + b@,
                None => le32(NAME_NOT_FOUND as u32),
            },
            a.objects@.len() == 0,
            a.calls@.len() == 0,
            a.fds@.len() == 0,
    {
        let mut reply = Parcel::new();
        match info {
            Some(b) => {
                reply.i32(0);
                reply.i32(b.len() as u32 as i32);
                reply.raw(b.as_slice());
                proof {
                    let n = b@.len() as u32;
                    assert((n as i32) as u32 == n) by (bit_vector);
                }
            },
            None => reply.i32(NAME_NOT_FOUND),
        }
        let a = Answer::of(reply.into_bytes());
        assert(a.data@ =~= match info {
            Some(b) => le32(0) + le32(b@.len() as u32) + b@,
            None => le32(NAME_NOT_FOUND as u32),
        });
        a
    }

    /// The older interface's methods, whose codes are the tags in
    /// `ISurfaceComposer.h` and whose replies are the sequences in
    /// `ISurfaceComposer.cpp`.
    pub fn legacy_transact(&mut self, code: u32, args: &[u8]) -> (a: Answer)
        ensures
            final(self).displays() == old(self).displays(),
            final(self).interface() == old(self).interface(),
            a.data@ == legacy_reply(old(self).displays(), code, args@),
            match legacy_object(code) {
                Some(h) => a.objects@.len() == 1 && a.objects@[0].offset == 0 && a.objects@[0].object@
                    == (HandedView::New { key: None, object: h }),
                None => a.objects@.len() == 0,
            },
            a.calls@.len() == 0,
            a.fds@.len() == 0,
    {
        if code == BOOT_FINISHED {
            Answer::of(Vec::new())
        } else if code == CREATE_CONNECTION || code == CREATE_DISPLAY_EVENT_CONNECTION {
            let mut reply = Parcel::new();
            let offset = reply.handle_binder(0);
            let object = if code == CREATE_CONNECTION {
                Hosted::ComposerConnection
            } else {
                Hosted::DisplayEventConnection
            };
            let a = Answer::of(reply.into_bytes());
            assert(a.data@ =~= handle_word());
            a.handing(offset, Handed::New { key: None, object })
        } else if code == GET_STATIC_DISPLAY_INFO || code == GET_DYNAMIC_DISPLAY_INFO {
            let info = match self.named_index(args) {
                Some(i) => {
                    let b = if code == GET_STATIC_DISPLAY_INFO {
                        self.static_display_info(&self.displays[i])
                    } else {
                        self.dynamic_display_info(&self.displays[i])
                    };
                    Some(b)
                },
                None => None,
            };
            Self::info_reply(info)
        } else if code == GET_COMPOSITION_PREFERENCE {
            let mut reply = Parcel::new();
            reply.i32(0);
            reply.i32(DATASPACE_SRGB);
            reply.i32(PIXEL_FORMAT_RGBA_8888);
            reply.i32(DATASPACE_SRGB);
            reply.i32(PIXEL_FORMAT_RGBA_8888);
            let a = Answer::of(reply.into_bytes());
            assert(a.data@ =~= legacy_reply(self.displays@, code, args@));
            a
        } else if code == GET_PROTECTED_CONTENT_SUPPORT {
            let mut reply = Parcel::new();
            reply.i32(0);
            reply.boolean(false);
            let a = Answer::of(reply.into_bytes());
            assert(a.data@ =~= legacy_reply(self.displays@, code, args@));
            a
        } else if code == GET_DISPLAY_NATIVE_PRIMARIES {
            let mut out: Vec<u8> = Vec::new();
            push_le32(&mut out, 0);
            push_le32(&mut out, 0x3f23d70a);
            push_le32(&mut out, 0x3ea8f5c3);
            push_le32(&mut out, 0x3e99999a);
            push_le32(&mut out, 0x3f19999a);
            push_le32(&mut out, 0x3e19999a);
            push_le32(&mut out, 0x3d75c28f);
            push_le32(&mut out, 0x3ea01a37);
            push_le32(&mut out, 0x3ea872b0);
            assert(out@ =~= legacy_reply(self.displays@, code, args@));
            Answer::of(out)
        } else if code == GET_DESIRED_DISPLAY_MODE_SPECS {
            let mut reply = Parcel::new();
            match self.named_index(args) {
                Some(i) => {
                    let bits = self.displays[i].refresh_bits;
                    reply.i32(0);
                    reply.i32(bits as i32);
                    reply.i32(bits as i32);
                    reply.i32(bits as i32);
                    reply.i32(bits as i32);
                    reply.boolean(false);
                    proof {
                        assert((bits as i32) as u32 == bits) by (bit_vector);
                    }
                },
                None => reply.i32(NAME_NOT_FOUND),
            }
            let a = Answer::of(reply.into_bytes());
            assert(a.data@ =~= legacy_reply(self.displays@, code, args@));
            a
        } else if code == GET_GPU_CONTEXT_PRIORITY || code == GET_MAX_ACQUIRED_BUFFER_COUNT || code
            == GET_DISPLAY_DECORATION_SUPPORT {
            let mut reply = Parcel::new();
            reply.i32(if code == GET_MAX_ACQUIRED_BUFFER_COUNT { 2 } else { 0 });
            let a = Answer::of(reply.into_bytes());
            assert(a.data@ =~= legacy_reply(self.displays@, code, args@));
            a
        } else {
            self.refuse(code, LEGACY)
        }
    }

    /// The AIDL interface's methods, whose codes are its declaration order.
    pub fn aidl_transact(&mut self, code: u32, args: &[u8]) -> (a: Answer)
        ensures
            final(self).displays() == old(self).displays(),
            final(self).interface() == old(self).interface(),
            a.data@ == aidl_reply(old(self).displays(), code, args@),
            match aidl_object(old(self).displays(), code, args@) {
                Some(h) => a.objects@.len() == 1 && a.objects@[0].offset == 0 && a.objects@[0].object@ == h,
                None => a.objects@.len() == 0,
            },
            a.calls@.len() == 0,
            a.fds@.len() == 0,
    {
        if code == GET_PHYSICAL_DISPLAY_IDS {
            let mut out: Vec<u8> = Vec::new();
            push_le32(&mut out, self.displays.len() as u32);
            let mut i: usize = 0;
            while i < self.displays.len()
                invariant
                    i <= self.displays@.len(),
                    out@ == le32(self.displays@.len() as u32) + ids_bytes(self.displays@.take(i as int)),
                decreases self.displays@.len() - i,
            {
                push_le64(&mut out, self.displays[i].id);
                proof {
                    assert(self.displays@.take(i + 1).drop_last() =~= self.displays@.take(i as int));
                }
                i = i + 1;
            }
            assert(self.displays@.take(i as int) =~= self.displays@);
            Answer::of(out)
        } else if code == GET_PRIMARY_PHYSICAL_DISPLAY_ID {
            let mut out: Vec<u8> = Vec::new();
            push_le64(&mut out, if self.displays.len() > 0 { self.displays[0].id } else { 0 });
            Answer::of(out)
        } else if code == GET_PHYSICAL_DISPLAY_TOKEN {
            let id = if args.len() >= 8 { read_le64(args, 0) } else { 0 };
            let mut reply = Parcel::new();
            match self.display_index(id) {
                Some(i) => {
                    proof {
                        lemma_first_with_in_range(self.displays@, id, 0);
                    }
                    let offset = reply.handle_binder(0);
                    let found = self.displays[i].id;
                    let mut key: Vec<char> = Vec::new();
                    push_str(&mut key, NAME);
                    push_str(&mut key, ":token:");
                    push_decimal(&mut key, found);
                    let a = Answer::of(reply.into_bytes());
                    assert(a.data@ =~= handle_word());
                    proof {
                        lemma_first_with_in_range(self.displays@, id, 0);
                    }
                    a.handing(offset, Handed::New { key: Some(string_of(key.as_slice())), object: Hosted::DisplayToken { id: found } })
                },
                None => {
                    reply.null_binder();
                    let a = Answer::of(reply.into_bytes());
                    assert(a.data@ =~= null_word());
                    a
                },
            }
        } else if code == GET_DISPLAY_STATE {
            let mut out: Vec<u8> = Vec::new();
            push_i32(&mut out, match self.named_index(args) {
                Some(_) => DISPLAY_STATE_ON,
                None => DISPLAY_STATE_OFF,
            });
            Answer::of(out)
        } else if code == GET_DISPLAY_STATS {
            let period: i64 = match self.named_index(args) {
                Some(i) => self.displays[i].frame_period_ns,
                None => 0,
            };
            let mut out: Vec<u8> = Vec::new();
            push_le64(&mut out, 0);
            push_le64(&mut out, period as u64);
            Answer::of(out)
        } else if code == SET_POWER_MODE || code == CLEAR_BOOT_DISPLAY_MODE || code == SET_AUTO_LOW_LATENCY_MODE
            || code == SET_GAME_CONTENT_TYPE || code == NOTIFY_POWER_BOOST {
            Answer::of(Vec::new())
        } else if code == GET_BOOT_DISPLAY_MODE_SUPPORT || code == IS_WIDE_COLOR_DISPLAY || code
            == GET_DISPLAY_BRIGHTNESS_SUPPORT {
            let mut out: Vec<u8> = Vec::new();
            push_le32(&mut out, 0);
            Answer::of(out)
        } else {
            self.refuse(code, AIDL)
        }
    }

    /// Answer a call in the code space its interface token names: the older
    /// interface's, the AIDL one's, or a refusal when it names neither.
    pub fn transact(&mut self, code: u32, data: &[u8]) -> (a: Answer)
        ensures
            carries(data@, LEGACY@) ==> a.data@ == legacy_reply(
                old(self).displays(),
                code,
                args_after_bytes(data@, token_bytes(LEGACY@)),
            ),
            !carries(data@, LEGACY@) && carries(data@, AIDL@) ==> a.data@ == aidl_reply(
                old(self).displays(),
                code,
                args_after_bytes(data@, token_bytes(AIDL@)),
            ),
            !carries(data@, LEGACY@) && !carries(data@, AIDL@) ==> a.data@ == refusal_bytes(
                "an interface this is not"@,
                code,
            ) && a.objects@.len() == 0,
            final(self).displays() == old(self).displays(),
            a.calls@.len() == 0,
            a.fds@.len() == 0,
    {
        proof {
            reveal_strlit("android.ui.ISurfaceComposer");
            reveal_strlit("android.gui.ISurfaceComposer");
        }
        if carries_token(data, LEGACY) {
            let args = args_after(data, LEGACY);
            self.legacy_transact(code, args)
        } else if carries_token(data, AIDL) {
            let args = args_after(data, AIDL);
            self.aidl_transact(code, args)
        } else {
            self.refuse(code, "an interface this is not")
        }
    }
}

/// The first display with an id is one of the displays.
proof fn lemma_first_with_in_range(ds: Seq<Display>, id: u64, from: int)
    ensures
        first_with(ds, id, from) matches Some(i) ==> from <= i < ds.len() && ds[i].id == id,
    decreases ds.len() - from,
{
    if 0 <= from < ds.len() && ds[from].id != id {
        lemma_first_with_in_range(ds, id, from + 1);
    }
}

impl BinderObject for DisplayToken {
    fn transact(&mut self, code: u32, data: &[u8]) -> Result<Answer, String> {
        Ok(DisplayToken::transact(self, code, data))
    }

    fn descriptor(&self) -> String {
        let d = DisplayToken::descriptor(self);
        crate::text::string_of(crate::text::chars_of(d).as_slice())
    }
}

impl BinderObject for SurfaceComposerConnection {
    fn transact(&mut self, code: u32, data: &[u8]) -> Result<Answer, String> {
        Ok(SurfaceComposerConnection::transact(self, code, data))
    }

    fn descriptor(&self) -> String {
        let d = SurfaceComposerConnection::descriptor(self);
        crate::text::string_of(crate::text::chars_of(d).as_slice())
    }
}

impl BinderObject for SurfaceHandle {
    fn transact(&mut self, code: u32, data: &[u8]) -> Result<Answer, String> {
        Ok(SurfaceHandle::transact(self, code, data))
    }

    fn descriptor(&self) -> String {
        let d = SurfaceHandle::descriptor(self);
        crate::text::string_of(crate::text::chars_of(d).as_slice())
    }
}

impl BinderObject for BufferProducer {
    fn transact(&mut self, code: u32, data: &[u8]) -> Result<Answer, String> {
        Ok(BufferProducer::transact(self, code, data))
    }

    fn descriptor(&self) -> String {
        let d = BufferProducer::descriptor(self);
        crate::text::string_of(crate::text::chars_of(d).as_slice())
    }
}

impl BinderObject for DisplayEventConnection {
    fn transact(&mut self, code: u32, data: &[u8]) -> Result<Answer, String> {
        Ok(DisplayEventConnection::transact(self, code, data))
    }

    fn descriptor(&self) -> String {
        let d = DisplayEventConnection::descriptor(self);
        crate::text::string_of(crate::text::chars_of(d).as_slice())
    }
}

impl BinderObject for SurfaceFlinger {
    fn transact(&mut self, code: u32, data: &[u8]) -> Result<Answer, String> {
        Ok(SurfaceFlinger::transact(self, code, data))
    }

    fn descriptor(&self) -> String {
        let d = SurfaceFlinger::descriptor(self);
        crate::text::string_of(crate::text::chars_of(d).as_slice())
    }
}

} // verus!
