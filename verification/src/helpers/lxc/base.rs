//! The base properties a container boots with: what the host's hardware,
//! its HALs and the config say about graphics, media, the camera and the
//! product, one `key=value` line each.

use vstd::prelude::*;

use crate::binder::parcel::utf8_lossy;
use crate::guest::{PRODUCT_PREFIX, PROP_SYSTEM_OTA, PROP_TOOLS_VERSION, PROP_UPDATER_DISABLED, PROP_VENDOR_OTA};
use crate::helpers::lxc::{or_default, texts};
use crate::text::{chars_of, is_space, push_str, same_text, space_char, starts_with_chars, string_of, trim};

verus! {

/// What the host and the config say, as far as the base properties ask.
pub struct BaseHost {
    /// Whether the host has `/dev/ashmem`.
    pub ashmem: bool,
    /// The host's `ro.hardware.egl`.
    pub egl: String,
    /// The GPU's render node, or empty.
    pub dri: String,
    /// The gralloc HAL the host ships, by the hardware name its blob carries,
    /// or empty.
    pub gralloc_hal: String,
    /// Whether the host's service manager lists the HIDL allocator, and its
    /// AIDL one the AIDL allocator.
    pub hidl_allocator: bool,
    pub aidl_allocator: bool,
    /// The host's `media.settings.xml`, `debug.stagefright.ccodec` and
    /// `ro.vendor.extension_library`.
    pub media_profiles: String,
    pub ccodec: String,
    pub extension_library: String,
    /// The Vulkan HAL the host ships, or empty; and the Vulkan driver for the
    /// render node's kernel driver.
    pub vulkan_hal: String,
    pub vulkan_driver: String,
    /// The host's `ro.treble.enabled`.
    pub treble: String,
    /// The camera HAL the host ships, or empty.
    pub camera_hal: String,
    /// The host's `ro.opengles.version`.
    pub opengles: String,
    /// The host's `ro.vendor.arm.egl.*` properties.
    pub arm_egl: Vec<(String, String)>,
    /// The host's `ro.product.vendor.<p>` for brand, device, manufacturer,
    /// model and name, in that order, and what `/proc/device-tree/<p>` holds
    /// where it is a file.
    pub vendor_products: Vec<String>,
    pub device_tree: Vec<Option<Vec<u8>>>,
    /// The host's `ro.vendor.build.fingerprint`.
    pub fingerprint: String,
    /// The work directory.
    pub work: String,
    /// The config's vendor type, images path and OTA channels.
    pub vendor_type: Option<String>,
    pub images_path: Option<String>,
    pub system_ota: Option<String>,
    pub vendor_ota: Option<String>,
    /// Where preinstalled images live.
    pub preinstalled: Vec<String>,
    /// The tools' version.
    pub tools_version: String,
    /// The config's `[properties]`, which override the rest.
    pub properties: Vec<(String, String)>,
}

/// The product fields, in the order the properties name them.
pub open spec fn product_names() -> Seq<Seq<char>> {
    seq!["brand"@, "device"@, "manufacturer"@, "model"@, "name"@]
}

/// `key=value`.
pub open spec fn kv(k: Seq<char>, v: Seq<char>) -> Seq<char> {
    k + "="@ + v
}

/// A line, when a condition holds.
pub open spec fn line_if(cond: bool, line: Seq<char>) -> Seq<Seq<char>> {
    if cond {
        seq![line]
    } else {
        Seq::empty()
    }
}

/// Every non-overlapping occurrence of `pat`, left to right, replaced by
/// `rep`: `str::replace`.
pub open spec fn replaced(s: Seq<char>, pat: Seq<char>, rep: Seq<char>) -> Seq<char>
    decreases s.len(),
{
    if s.len() == 0 {
        s
    } else if pat.len() > 0 && pat.is_prefix_of(s) {
        rep + replaced(s.skip(pat.len() as int), pat, rep)
    } else {
        seq![s[0]] + replaced(s.skip(1), pat, rep)
    }
}

/// A host path as the container sees it: the vendor and odm partitions are
/// bound under other names.
pub open spec fn in_container(p: Seq<char>) -> Seq<char> {
    replaced(replaced(p, "vendor/"@, "vendor_extra/"@), "odm/"@, "odm_extra/"@)
}

/// `c` gone from the start.
pub open spec fn strip_start(s: Seq<char>, c: char) -> Seq<char>
    decreases s.len(),
{
    if s.len() > 0 && s[0] == c {
        strip_start(s.drop_first(), c)
    } else {
        s
    }
}

/// `c` gone from the end.
pub open spec fn strip_end(s: Seq<char>, c: char) -> Seq<char>
    decreases s.len(),
{
    if s.len() > 0 && s.last() == c {
        strip_end(s.drop_last(), c)
    } else {
        s
    }
}

/// A device-tree value: its bytes as text, the NULs the kernel ends it with
/// and the white space round it taken off.
pub open spec fn tree_value(raw: Seq<u8>) -> Seq<char> {
    trim(strip_end(strip_start(crate::binder::parcel::lossy_utf8(raw), '\0'), '\0'))
}

/// Whether the vendor image is mainline.
pub open spec fn mainline(h: BaseHost) -> bool {
    or_default(h.vendor_type, "MAINLINE"@) == "MAINLINE"@
}

/// Which gralloc, and which EGL, and the lines the fallback adds: the host's
/// HAL; Android's own when the host's service manager has an allocator and
/// the vendor image is not mainline; GBM on the render node; or the software
/// renderer.
pub open spec fn graphics(h: BaseHost) -> (Seq<char>, Seq<char>, Seq<Seq<char>>) {
    if h.gralloc_hal@.len() > 0 {
        (h.gralloc_hal@, h.egl@, Seq::empty())
    } else if !mainline(h) && (h.hidl_allocator || h.aidl_allocator) {
        ("android"@, h.egl@, Seq::empty())
    } else if h.dri@.len() > 0 {
        ("gbm"@, "mesa"@, seq![kv("gralloc.gbm.device"@, h.dri@), kv("debug.stagefright.ccodec"@, "0"@)])
    } else {
        ("default"@, "swiftshader"@, seq![kv("debug.stagefright.ccodec"@, "0"@)])
    }
}

/// The Vulkan driver: the host's HAL, or the one for the render node.
pub open spec fn vulkan(h: BaseHost) -> Seq<char> {
    if h.vulkan_hal@.len() > 0 {
        h.vulkan_hal@
    } else if h.dri@.len() > 0 {
        h.vulkan_driver@
    } else {
        Seq::empty()
    }
}

/// The security lines, and shared memory by file where there is no ashmem.
pub open spec fn security_lines(h: BaseHost) -> Seq<Seq<char>> {
    line_if(!h.ashmem, kv("sys.use_memfd"@, "true"@)) + seq![kv("ro.adb.secure"@, "1"@), kv("ro.debuggable"@, "0"@)]
}

/// The gralloc and EGL lines.
pub open spec fn gralloc_lines(h: BaseHost) -> Seq<Seq<char>> {
    let (gralloc, egl, extra) = graphics(h);
    extra + seq![kv("ro.hardware.gralloc"@, gralloc)] + line_if(egl.len() > 0, kv("ro.hardware.egl"@, egl))
}

/// The media lines.
pub open spec fn media_lines(h: BaseHost) -> Seq<Seq<char>> {
    line_if(h.media_profiles@.len() > 0, kv("media.settings.xml"@, in_container(h.media_profiles@))) + line_if(
        h.ccodec@.len() > 0,
        kv("debug.stagefright.ccodec"@, h.ccodec@),
    ) + line_if(
        h.extension_library@.len() > 0,
        kv("ro.vendor.extension_library"@, in_container(h.extension_library@)),
    )
}

/// The graphics and media lines.
pub open spec fn graphics_lines(h: BaseHost) -> Seq<Seq<char>> {
    security_lines(h) + gralloc_lines(h) + media_lines(h) + line_if(
        vulkan(h).len() > 0,
        kv("ro.hardware.vulkan"@, vulkan(h)),
    )
}

/// The camera line: the host's HAL where the host is not Treble, V4L2 for a
/// mainline vendor image without one.
pub open spec fn camera_lines(h: BaseHost) -> Seq<Seq<char>> {
    if h.treble@ != "true"@ {
        if h.camera_hal@.len() > 0 {
            seq![kv("ro.hardware.camera"@, h.camera_hal@)]
        } else {
            line_if(mainline(h), kv("ro.hardware.camera"@, "v4l2"@))
        }
    } else {
        Seq::empty()
    }
}

/// The host's ARM EGL properties, as they are.
pub open spec fn pairs_lines(pairs: Seq<(String, String)>) -> Seq<Seq<char>>
    decreases pairs.len(),
{
    if pairs.len() == 0 {
        Seq::empty()
    } else {
        pairs_lines(pairs.drop_last()) + seq![kv(pairs.last().0@, pairs.last().1@)]
    }
}

/// The images in use.
pub open spec fn images_of(h: BaseHost) -> Seq<char> {
    match h.images_path {
        Some(p) => p@,
        None => h.work@ + "/images"@,
    }
}

/// The updater lines: the OTA channels for downloaded images, or the updater
/// off for preinstalled ones.
pub open spec fn updater_lines(h: BaseHost) -> Seq<Seq<char>> {
    if !texts(h.preinstalled@).contains(images_of(h)) {
        (match h.system_ota {
            Some(v) => seq![kv(PROP_SYSTEM_OTA@, v@)],
            None => Seq::empty(),
        }) + (match h.vendor_ota {
            Some(v) => seq![kv(PROP_VENDOR_OTA@, v@)],
            None => Seq::empty(),
        })
    } else {
        seq![kv(PROP_UPDATER_DISABLED@, "true"@)]
    }
}

/// One product field: the host's vendor property, or the device tree's value.
pub open spec fn product_line(h: BaseHost, i: int) -> Seq<Seq<char>> {
    let name = product_names()[i];
    if i < h.vendor_products@.len() && h.vendor_products@[i]@.len() > 0 {
        seq![kv(PRODUCT_PREFIX@ + name, h.vendor_products@[i]@)]
    } else if i < h.device_tree@.len() && h.device_tree@[i] is Some && tree_value(
        h.device_tree@[i]->Some_0@,
    ).len() > 0 {
        seq![kv(PRODUCT_PREFIX@ + name, tree_value(h.device_tree@[i]->Some_0@))]
    } else {
        Seq::empty()
    }
}

/// The product fields from the first `n`.
pub open spec fn product_lines(h: BaseHost, n: nat) -> Seq<Seq<char>>
    decreases n,
{
    if n == 0 {
        Seq::empty()
    } else {
        product_lines(h, (n - 1) as nat) + product_line(h, n - 1)
    }
}

/// The lines a config property replaces: those that set its key.
pub open spec fn keeps(k: Seq<char>) -> spec_fn(Seq<char>) -> bool {
    |l: Seq<char>| !(k + "="@).is_prefix_of(l)
}

/// The config's properties applied in order, each replacing any line that
/// sets its key and going last.
pub open spec fn with_overrides(lines: Seq<Seq<char>>, props: Seq<(String, String)>) -> Seq<Seq<char>>
    decreases props.len(),
{
    if props.len() == 0 {
        lines
    } else {
        let prev = with_overrides(lines, props.drop_last());
        prev.filter(keeps(props.last().0@)).push(kv(props.last().0@, props.last().1@))
    }
}

/// The base properties, before the config's.
pub open spec fn host_lines(h: BaseHost) -> Seq<Seq<char>> {
    graphics_lines(h) + camera_lines(h) + seq![
        kv("ro.opengles.version"@, if h.opengles@.len() > 0 { h.opengles@ } else { "196610"@ }),
    ] + pairs_lines(h.arm_egl@) + updater_lines(h) + seq![kv(PROP_TOOLS_VERSION@, h.tools_version@)] + line_if(
        mainline(h),
        kv("ro.vndk.lite"@, "true"@),
    ) + product_lines(h, 5) + line_if(h.fingerprint@.len() > 0, kv("ro.build.fingerprint"@, h.fingerprint@))
}

/// The base properties.
pub open spec fn base_props(h: BaseHost) -> Seq<Seq<char>> {
    with_overrides(host_lines(h), h.properties@)
}


/// Add `line` to `lines`.
fn push_line(lines: &mut Vec<String>, line: &Vec<char>)
    ensures
        texts(final(lines)@) == texts(old(lines)@).push(line@),
{
    let ghost before = lines@;
    lines.push(string_of(line.as_slice()));
    assert(texts(lines@) =~= texts(before).push(line@));
}

/// Add `key=value` to `lines`.
fn push_kv(lines: &mut Vec<String>, k: &str, v: &str)
    ensures
        texts(final(lines)@) == texts(old(lines)@).push(kv(k@, v@)),
{
    let mut line: Vec<char> = Vec::new();
    push_str(&mut line, k);
    push_str(&mut line, "=");
    push_str(&mut line, v);
    push_line(lines, &line);
}

/// Whether `pat` sits in `s` at `i`.
fn matches_at(s: &Vec<char>, i: usize, pat: &Vec<char>) -> (r: bool)
    requires
        i <= s@.len(),
    ensures
        r == pat@.is_prefix_of(s@.skip(i as int)),
{
    if pat.len() > s.len() - i {
        return false;
    }
    let mut k: usize = 0;
    while k < pat.len()
        invariant
            i + pat@.len() <= s@.len(),
            s@.len() == s.len(),
            k <= pat@.len(),
            forall|j: int| 0 <= j < k ==> pat@[j] == s@[i + j],
        decreases pat@.len() - k,
    {
        if pat[k] != s[i + k] {
            assert(s@.skip(i as int)[k as int] == s@[i + k]);
            return false;
        }
        k = k + 1;
    }
    true
}

/// `str::replace` for a pattern that is not empty.
fn replace_all(s: &str, pat: &str, rep: &str) -> (r: String)
    requires
        pat@.len() > 0,
    ensures
        r@ == replaced(s@, pat@, rep@),
{
    let v = chars_of(s);
    let p = chars_of(pat);
    let mut out: Vec<char> = Vec::new();
    let mut i: usize = 0;
    assert(v@.skip(0) =~= v@);
    while i < v.len()
        invariant
            v@ == s@,
            p@ == pat@,
            p@.len() > 0,
            i <= v@.len(),
            replaced(s@, pat@, rep@) == out@ + replaced(v@.skip(i as int), pat@, rep@),
        decreases v@.len() - i,
    {
        let ghost rest = v@.skip(i as int);
        if matches_at(&v, i, &p) {
            push_str(&mut out, rep);
            proof {
                assert(rest.skip(pat@.len() as int) =~= v@.skip(i + p@.len()));
            }
            i = i + p.len();
        } else {
            out.push(v[i]);
            proof {
                assert(rest.skip(1) =~= v@.skip(i + 1));
                assert(seq![rest[0]] =~= seq![v@[i as int]]);
            }
            i = i + 1;
        }
    }
    proof {
        assert(v@.skip(i as int).len() == 0);
        assert(out@ + v@.skip(i as int) =~= out@);
    }
    string_of(out.as_slice())
}

/// A host path as the container sees it.
fn to_container(p: &str) -> (r: String)
    ensures
        r@ == in_container(p@),
{
    proof {
        reveal_strlit("vendor/");
        reveal_strlit("odm/");
    }
    let a = replace_all(p, "vendor/", "vendor_extra/");
    replace_all(a.as_str(), "odm/", "odm_extra/")
}

proof fn lemma_strip_start_from(s: Seq<char>, c: char, i: int)
    requires
        0 <= i <= s.len(),
        forall|k: int| 0 <= k < i ==> s[k] == c,
    ensures
        strip_start(s, c) == strip_start(s.subrange(i, s.len() as int), c),
    decreases i,
{
    if i > 0 {
        lemma_strip_start_from(s.drop_first(), c, i - 1);
        assert(s.drop_first().subrange(i - 1, s.len() - 1) =~= s.subrange(i, s.len() as int));
    } else {
        assert(s.subrange(0, s.len() as int) =~= s);
    }
}

proof fn lemma_strip_end_to(s: Seq<char>, c: char, j: int)
    requires
        0 <= j <= s.len(),
        forall|k: int| j <= k < s.len() ==> s[k] == c,
    ensures
        strip_end(s, c) == strip_end(s.take(j), c),
    decreases s.len() - j,
{
    if j < s.len() {
        lemma_strip_end_to(s.drop_last(), c, j);
        assert(s.drop_last().take(j) =~= s.take(j));
    } else {
        assert(s.take(j) =~= s);
    }
}

/// A device-tree value as text.
fn tree_text(raw: &Vec<u8>) -> (r: Vec<char>)
    ensures
        r@ == tree_value(raw@),
{
    let text = utf8_lossy(raw.as_slice());
    let s = chars_of(text.as_str());
    let mut i: usize = 0;
    while i < s.len() && s[i] == '\0'
        invariant
            i <= s@.len(),
            forall|k: int| 0 <= k < i ==> s@[k] == '\0',
        decreases s@.len() - i,
    {
        i = i + 1;
    }
    let ghost rest = s@.subrange(i as int, s@.len() as int);
    proof {
        lemma_strip_start_from(s@, '\0', i as int);
        if rest.len() > 0 {
            assert(rest[0] != '\0');
        }
        assert(strip_start(rest, '\0') == rest);
    }
    let mut j: usize = s.len();
    while j > i && s[j - 1] == '\0'
        invariant
            i <= j <= s@.len(),
            forall|k: int| j <= k < s@.len() ==> s@[k] == '\0',
        decreases j,
    {
        j = j - 1;
    }
    let middle = crate::text::slice_chars(s.as_slice(), i, j);
    proof {
        let js = (j - i) as int;
        lemma_strip_end_to(rest, '\0', js);
        assert(rest.take(js) =~= middle@);
        if middle@.len() > 0 {
            assert(middle@.last() != '\0');
        }
        assert(strip_end(middle@, '\0') == middle@);
    }
    crate::text::trim_chars(middle.as_slice())
}

/// The lines that do not set `k`.
fn drop_key(lines: &Vec<String>, k: &str) -> (r: Vec<String>)
    ensures
        texts(r@) == texts(lines@).filter(keeps(k@)),
{
    let mut prefix: Vec<char> = Vec::new();
    push_str(&mut prefix, k);
    push_str(&mut prefix, "=");
    let mut out: Vec<String> = Vec::new();
    let mut i: usize = 0;
    while i < lines.len()
        invariant
            i <= lines@.len(),
            prefix@ == k@ + "="@,
            texts(out@) == texts(lines@).take(i as int).filter(keeps(k@)),
        decreases lines@.len() - i,
    {
        let line = chars_of(lines[i].as_str());
        let ghost before = out@;
        proof {
            reveal(Seq::filter);
            assert(texts(lines@).take(i + 1).drop_last() =~= texts(lines@).take(i as int));
            assert(texts(lines@).take(i + 1).last() == lines@[i as int]@);
        }
        if !starts_with_chars(line.as_slice(), prefix.as_slice()) {
            out.push(lines[i].clone());
            assert(texts(out@) =~= texts(before).push(lines@[i as int]@));
        }
        i = i + 1;
    }
    assert(texts(lines@).take(i as int) =~= texts(lines@));
    out
}

/// The security lines.
fn push_security(lines: &mut Vec<String>, h: &BaseHost)
    ensures
        texts(final(lines)@) == texts(old(lines)@) + security_lines(*h),
{
    let ghost start = texts(lines@);
    if !h.ashmem {
        push_kv(lines, "sys.use_memfd", "true");
    }
    push_kv(lines, "ro.adb.secure", "1");
    push_kv(lines, "ro.debuggable", "0");
    assert(texts(lines@) =~= start + security_lines(*h));
}

/// Whether the vendor image is mainline.
fn is_mainline(h: &BaseHost) -> (r: bool)
    ensures
        r == mainline(*h),
{
    proof {
        reveal_strlit("MAINLINE");
    }
    match &h.vendor_type {
        Some(v) => same_text(v.as_str(), "MAINLINE"),
        None => true,
    }
}

/// The gralloc and EGL lines.
fn push_gralloc(lines: &mut Vec<String>, h: &BaseHost)
    ensures
        texts(final(lines)@) == texts(old(lines)@) + gralloc_lines(*h),
{
    let ghost start = texts(lines@);
    let mainline = is_mainline(h);
    let (gralloc, egl): (&str, &str) = if !h.gralloc_hal.as_str().is_empty() {
        (h.gralloc_hal.as_str(), h.egl.as_str())
    } else if !mainline && (h.hidl_allocator || h.aidl_allocator) {
        ("android", h.egl.as_str())
    } else if !h.dri.as_str().is_empty() {
        push_kv(lines, "gralloc.gbm.device", h.dri.as_str());
        push_kv(lines, "debug.stagefright.ccodec", "0");
        ("gbm", "mesa")
    } else {
        push_kv(lines, "debug.stagefright.ccodec", "0");
        ("default", "swiftshader")
    };
    let ghost extra = texts(lines@);
    assert(extra =~= start + graphics(*h).2);
    push_kv(lines, "ro.hardware.gralloc", gralloc);
    if !egl.is_empty() {
        push_kv(lines, "ro.hardware.egl", egl);
    }
    assert(texts(lines@) =~= start + gralloc_lines(*h));
}

/// The media lines.
fn push_media(lines: &mut Vec<String>, h: &BaseHost)
    ensures
        texts(final(lines)@) == texts(old(lines)@) + media_lines(*h),
{
    let ghost start = texts(lines@);
    if !h.media_profiles.as_str().is_empty() {
        let m = to_container(h.media_profiles.as_str());
        push_kv(lines, "media.settings.xml", m.as_str());
    }
    if !h.ccodec.as_str().is_empty() {
        push_kv(lines, "debug.stagefright.ccodec", h.ccodec.as_str());
    }
    if !h.extension_library.as_str().is_empty() {
        let e = to_container(h.extension_library.as_str());
        push_kv(lines, "ro.vendor.extension_library", e.as_str());
    }
    assert(texts(lines@) =~= start + media_lines(*h));
}

/// The graphics and media lines.
fn push_graphics(lines: &mut Vec<String>, h: &BaseHost)
    ensures
        texts(final(lines)@) == texts(old(lines)@) + graphics_lines(*h),
{
    let ghost start = texts(lines@);
    push_security(lines, h);
    push_gralloc(lines, h);
    push_media(lines, h);
    let ghost mid = texts(lines@);
    let vulkan: &str = if !h.vulkan_hal.as_str().is_empty() {
        h.vulkan_hal.as_str()
    } else if !h.dri.as_str().is_empty() {
        h.vulkan_driver.as_str()
    } else {
        ""
    };
    proof {
        reveal_strlit("");
    }
    if !vulkan.is_empty() {
        push_kv(lines, "ro.hardware.vulkan", vulkan);
    }
    assert(texts(lines@) =~= start + graphics_lines(*h));
}


/// The camera line.
fn push_camera(lines: &mut Vec<String>, h: &BaseHost)
    ensures
        texts(final(lines)@) == texts(old(lines)@) + camera_lines(*h),
{
    let ghost start = texts(lines@);
    proof {
        reveal_strlit("true");
    }
    if !same_text(h.treble.as_str(), "true") {
        if !h.camera_hal.as_str().is_empty() {
            push_kv(lines, "ro.hardware.camera", h.camera_hal.as_str());
        } else if is_mainline(h) {
            push_kv(lines, "ro.hardware.camera", "v4l2");
        }
    }
    assert(texts(lines@) =~= start + camera_lines(*h));
}

/// Each of `pairs` as `key=value`.
fn push_pairs(lines: &mut Vec<String>, pairs: &Vec<(String, String)>)
    ensures
        texts(final(lines)@) == texts(old(lines)@) + pairs_lines(pairs@),
{
    let ghost start = texts(lines@);
    let mut i: usize = 0;
    while i < pairs.len()
        invariant
            i <= pairs@.len(),
            texts(lines@) == start + pairs_lines(pairs@.take(i as int)),
        decreases pairs@.len() - i,
    {
        push_kv(lines, pairs[i].0.as_str(), pairs[i].1.as_str());
        proof {
            let t = pairs@.take(i + 1);
            assert(t.drop_last() =~= pairs@.take(i as int));
        }
        i = i + 1;
    }
    assert(pairs@.take(i as int) =~= pairs@);
}

/// The updater lines.
fn push_updater(lines: &mut Vec<String>, h: &BaseHost)
    ensures
        texts(final(lines)@) == texts(old(lines)@) + updater_lines(*h),
{
    let ghost start = texts(lines@);
    let images: String = match &h.images_path {
        Some(p) => p.clone(),
        None => {
            let mut v: Vec<char> = Vec::new();
            push_str(&mut v, h.work.as_str());
            push_str(&mut v, "/images");
            string_of(v.as_slice())
        },
    };
    let mut preinstalled = false;
    let mut i: usize = 0;
    while i < h.preinstalled.len()
        invariant
            i <= h.preinstalled@.len(),
            preinstalled == exists|k: int| 0 <= k < i && h.preinstalled@[k]@ == images@,
        decreases h.preinstalled@.len() - i,
    {
        if same_text(h.preinstalled[i].as_str(), images.as_str()) {
            preinstalled = true;
        }
        i = i + 1;
    }
    proof {
        assert(images@ == images_of(*h));
        if preinstalled {
            let k = choose|k: int| 0 <= k < i && h.preinstalled@[k]@ == images@;
            assert(texts(h.preinstalled@)[k] == images@);
        } else {
            if texts(h.preinstalled@).contains(images_of(*h)) {
                let k = choose|k: int| 0 <= k < texts(h.preinstalled@).len() && texts(h.preinstalled@)[k] == images_of(*h);
                assert(h.preinstalled@[k]@ == images@);
            }
        }
    }
    if !preinstalled {
        match &h.system_ota {
            Some(v) => push_kv(lines, PROP_SYSTEM_OTA, v.as_str()),
            None => {},
        }
        match &h.vendor_ota {
            Some(v) => push_kv(lines, PROP_VENDOR_OTA, v.as_str()),
            None => {},
        }
    } else {
        push_kv(lines, PROP_UPDATER_DISABLED, "true");
    }
    assert(texts(lines@) =~= start + updater_lines(*h));
}

/// One product field.
fn push_product(lines: &mut Vec<String>, h: &BaseHost, i: usize, name: &str)
    requires
        i < 5,
        name@ == product_names()[i as int],
    ensures
        texts(final(lines)@) == texts(old(lines)@) + product_line(*h, i as int),
{
    let ghost start = texts(lines@);
    let mut key: Vec<char> = Vec::new();
    push_str(&mut key, PRODUCT_PREFIX);
    push_str(&mut key, name);
    let key = string_of(key.as_slice());
    if i < h.vendor_products.len() && !h.vendor_products[i].as_str().is_empty() {
        push_kv(lines, key.as_str(), h.vendor_products[i].as_str());
    } else if i < h.device_tree.len() {
        match &h.device_tree[i] {
            Some(raw) => {
                let value = tree_text(raw);
                if value.len() > 0 {
                    let value = string_of(value.as_slice());
                    push_kv(lines, key.as_str(), value.as_str());
                }
            },
            None => {},
        }
    }
    assert(texts(lines@) =~= start + product_line(*h, i as int));
}

/// The product fields.
fn push_products(lines: &mut Vec<String>, h: &BaseHost)
    ensures
        texts(final(lines)@) == texts(old(lines)@) + product_lines(*h, 5),
{
    let ghost start = texts(lines@);
    proof {
        reveal_with_fuel(product_lines, 6);
    }
    push_product(lines, h, 0, "brand");
    let ghost a = texts(lines@);
    push_product(lines, h, 1, "device");
    let ghost b = texts(lines@);
    push_product(lines, h, 2, "manufacturer");
    let ghost c = texts(lines@);
    push_product(lines, h, 3, "model");
    let ghost d = texts(lines@);
    push_product(lines, h, 4, "name");
    proof {
        assert(a =~= start + product_lines(*h, 1));
        assert(b =~= start + product_lines(*h, 2));
        assert(c =~= start + product_lines(*h, 3));
        assert(d =~= start + product_lines(*h, 4));
    }
    assert(texts(lines@) =~= start + product_lines(*h, 5));
}

/// The base properties before the config's.
fn push_host_lines(lines: &mut Vec<String>, h: &BaseHost)
    ensures
        texts(final(lines)@) == texts(old(lines)@) + host_lines(*h),
{
    let ghost start = texts(lines@);
    push_graphics(lines, h);
    push_camera(lines, h);
    let opengles: &str = if !h.opengles.as_str().is_empty() { h.opengles.as_str() } else { "196610" };
    push_kv(lines, "ro.opengles.version", opengles);
    let ghost gl = texts(lines@);
    push_pairs(lines, &h.arm_egl);
    push_updater(lines, h);
    push_kv(lines, PROP_TOOLS_VERSION, h.tools_version.as_str());
    if is_mainline(h) {
        push_kv(lines, "ro.vndk.lite", "true");
    }
    let ghost tools = texts(lines@);
    push_products(lines, h);
    if !h.fingerprint.as_str().is_empty() {
        push_kv(lines, "ro.build.fingerprint", h.fingerprint.as_str());
    }
    assert(texts(lines@) =~= start + host_lines(*h));
}

/// The base properties a container boots with: graphics and media from the
/// host's HALs and render node, the camera, the OpenGL ES version, the host's
/// ARM EGL properties, the updater's channels, the tools' version, the
/// product, the fingerprint, and then the config's own properties, each
/// replacing any line that set its key.
pub fn make_base_props(h: &BaseHost) -> (r: Vec<String>)
    ensures
        texts(r@) == base_props(*h),
{
    let mut lines: Vec<String> = Vec::new();
    assert(texts(lines@) =~= Seq::<Seq<char>>::empty());
    push_host_lines(&mut lines, h);
    assert(texts(lines@) =~= host_lines(*h));
    let mut i: usize = 0;
    while i < h.properties.len()
        invariant
            i <= h.properties@.len(),
            texts(lines@) == with_overrides(host_lines(*h), h.properties@.take(i as int)),
        decreases h.properties@.len() - i,
    {
        let kept = drop_key(&lines, h.properties[i].0.as_str());
        lines = kept;
        push_kv(&mut lines, h.properties[i].0.as_str(), h.properties[i].1.as_str());
        proof {
            let t = h.properties@.take(i + 1);
            assert(t.drop_last() =~= h.properties@.take(i as int));
        }
        i = i + 1;
    }
    assert(h.properties@.take(i as int) =~= h.properties@);
    lines
}

} // verus!
