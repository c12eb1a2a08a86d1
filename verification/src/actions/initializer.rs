//! Which vendor a host's Android properties say it has.

use vstd::prelude::*;

use crate::guest::OTA_PATH_PREFIX;
use crate::text::{chars_of, decimal_chars, parse_u32, parse_u32_chars, push_decimal, push_str, string_of};

verus! {

/// A property read as a positive `i32`, as far as the vendor type cares:
/// every value it acts on is above 19, and a negative or unreadable one is
/// treated alike.
pub open spec fn small_number(s: Seq<char>) -> Option<u32> {
    match parse_u32(s) {
        Some(v) => if v <= i32::MAX {
            Some(v)
        } else {
            None
        },
        None => None,
    }
}

/// The vendor type a host's VNDK version and vendor API level say: Halium
/// and its version where one of them names a Halium vendor, `MAINLINE`
/// otherwise. The VNDK version decides when it is set.
pub open spec fn vendor_type_of(vndk: Seq<char>, vendorapi: Seq<char>) -> Seq<char> {
    if vndk.len() > 0 {
        match small_number(vndk) {
            Some(v) => if v > 19 {
                let halium = if v > 31 { v - 20 } else { v - 19 };
                "HALIUM_"@ + decimal_chars(halium as nat) + if v == 32 { "L"@ } else { Seq::empty() }
            } else {
                "MAINLINE"@
            },
            None => "MAINLINE"@,
        }
    } else if vendorapi.len() > 0 {
        match small_number(vendorapi) {
            Some(v) => if v > 32 {
                "HALIUM_"@ + decimal_chars((v - 20) as nat)
            } else {
                "MAINLINE"@
            },
            None => "MAINLINE"@,
        }
    } else {
        "MAINLINE"@
    }
}

/// A host whose VNDK version reads as `v` has a Halium vendor when `v` is
/// above 19: Halium `v - 19` up to VNDK 31 (Android 11's VNDK 30 is Halium
/// 11), `12L` for VNDK 32, and `v - 20` above it; at 19 or below it is
/// mainline. The vendor API level is not looked at.
pub proof fn lemma_vndk_names_halium(vndk: Seq<char>, vendorapi: Seq<char>, v: u32)
    requires
        vndk.len() > 0,
        parse_u32(vndk) == Some(v),
        v <= i32::MAX,
    ensures
        19 < v <= 31 ==> vendor_type_of(vndk, vendorapi) == "HALIUM_"@ + decimal_chars((v - 19) as nat),
        v == 32 ==> vendor_type_of(vndk, vendorapi) == "HALIUM_"@ + decimal_chars(12) + "L"@,
        v > 32 ==> vendor_type_of(vndk, vendorapi) == "HALIUM_"@ + decimal_chars((v - 20) as nat),
        v <= 19 ==> vendor_type_of(vndk, vendorapi) == "MAINLINE"@,
{
    assert(small_number(vndk) == Some(v));
}

/// A host with no VNDK version has a Halium vendor when its vendor API
/// level reads as `a` above 32: Halium `a - 20`; at 32 or below it is
/// mainline.
pub proof fn lemma_vendor_api_names_halium(vendorapi: Seq<char>, a: u32)
    requires
        vendorapi.len() > 0,
        parse_u32(vendorapi) == Some(a),
        a <= i32::MAX,
    ensures
        a > 32 ==> vendor_type_of(Seq::empty(), vendorapi) == "HALIUM_"@ + decimal_chars((a - 20) as nat),
        a <= 32 ==> vendor_type_of(Seq::empty(), vendorapi) == "MAINLINE"@,
{
    assert(small_number(vendorapi) == Some(a));
}

/// A host whose properties do not read as a version is mainline: a VNDK
/// version that is set but is not a number a signed 32-bit value holds, or,
/// with no VNDK version, such a vendor API level, or neither property set.
pub proof fn lemma_unreadable_is_mainline(vndk: Seq<char>, vendorapi: Seq<char>)
    ensures
        vndk.len() > 0 && !(parse_u32(vndk) matches Some(v) && v <= i32::MAX) ==> vendor_type_of(vndk, vendorapi)
            == "MAINLINE"@,
        vndk.len() == 0 && vendorapi.len() > 0 && !(parse_u32(vendorapi) matches Some(a) && a <= i32::MAX)
            ==> vendor_type_of(vndk, vendorapi) == "MAINLINE"@,
        vndk.len() == 0 && vendorapi.len() == 0 ==> vendor_type_of(vndk, vendorapi) == "MAINLINE"@,
{
}

/// The vendor type for a host's `ro.vndk.version` and
/// `ro.vendor.build.version.sdk`.
pub fn get_vendor_type(vndk: &str, vendorapi: &str) -> (r: String)
    ensures
        r@ == vendor_type_of(vndk@, vendorapi@),
{
    let a = chars_of(vndk);
    let b = chars_of(vendorapi);
    let mut v: Vec<char> = Vec::new();
    if a.len() > 0 {
        match parse_u32_chars(a.as_slice()) {
            Some(n) if n <= 0x7fff_ffff => {
                if n > 19 {
                    let halium = if n > 31 { n - 20 } else { n - 19 };
                    push_str(&mut v, "HALIUM_");
                    push_decimal(&mut v, halium as u64);
                    if n == 32 {
                        push_str(&mut v, "L");
                    }
                    return string_of(v.as_slice());
                }
            },
            _ => {},
        }
    } else if b.len() > 0 {
        match parse_u32_chars(b.as_slice()) {
            Some(n) if n <= 0x7fff_ffff => {
                if n > 32 {
                    push_str(&mut v, "HALIUM_");
                    push_decimal(&mut v, (n - 20) as u64);
                    return string_of(v.as_slice());
                }
            },
            _ => {},
        }
    }
    "MAINLINE".to_owned()
}


/// The system image's OTA channel:
/// `<channel>/<rom type>/waydroid_<arch>/<system type>.json`.
pub open spec fn system_ota_of(channel: Seq<char>, rom_type: Seq<char>, arch: Seq<char>, system_type: Seq<char>) -> Seq<char> {
    channel + "/"@ + rom_type + "/"@ + OTA_PATH_PREFIX@ + arch + "/"@ + system_type + ".json"@
}

/// A vendor's name as a file name: its spaces become underscores.
pub open spec fn underscored(s: Seq<char>) -> Seq<char> {
    s.map_values(|c: char| if c == ' ' { '_' } else { c })
}

/// The vendor image's OTA channel: `<channel>/waydroid_<arch>/<vendor>.json`.
pub open spec fn vendor_ota_of(channel: Seq<char>, arch: Seq<char>, vendor: Seq<char>) -> Seq<char> {
    channel + "/"@ + OTA_PATH_PREFIX@ + arch + "/"@ + underscored(vendor) + ".json"@
}

/// Where the system image's OTA description is fetched from.
pub fn system_ota_url(channel: &str, rom_type: &str, arch: &str, system_type: &str) -> (r: String)
    ensures
        r@ == system_ota_of(channel@, rom_type@, arch@, system_type@),
{
    let mut v: Vec<char> = Vec::new();
    push_str(&mut v, channel);
    push_str(&mut v, "/");
    push_str(&mut v, rom_type);
    push_str(&mut v, "/");
    push_str(&mut v, OTA_PATH_PREFIX);
    push_str(&mut v, arch);
    push_str(&mut v, "/");
    push_str(&mut v, system_type);
    push_str(&mut v, ".json");
    assert(v@ =~= system_ota_of(channel@, rom_type@, arch@, system_type@));
    string_of(v.as_slice())
}

/// Where a vendor image's OTA description is fetched from.
pub fn vendor_ota_url(channel: &str, arch: &str, vendor: &str) -> (r: String)
    ensures
        r@ == vendor_ota_of(channel@, arch@, vendor@),
{
    let mut v: Vec<char> = Vec::new();
    push_str(&mut v, channel);
    push_str(&mut v, "/");
    push_str(&mut v, OTA_PATH_PREFIX);
    push_str(&mut v, arch);
    push_str(&mut v, "/");
    let name = chars_of(vendor);
    let ghost head = v@;
    let mut i: usize = 0;
    while i < name.len()
        invariant
            i <= name@.len(),
            name@ == vendor@,
            v@ == head + underscored(name@.take(i as int)),
        decreases name@.len() - i,
    {
        let c = name[i];
        v.push(if c == ' ' { '_' } else { c });
        i = i + 1;
        assert(underscored(name@.take(i as int)) =~= underscored(name@.take(i - 1)).push(
            if c == ' ' { '_' } else { c },
        ));
        assert(v@ =~= head + underscored(name@.take(i as int)));
    }
    assert(name@.take(name@.len() as int) =~= name@);
    push_str(&mut v, ".json");
    assert(v@ =~= vendor_ota_of(channel@, arch@, vendor@));
    string_of(v.as_slice())
}

/// The vendor names a vendor OTA is looked for under, in order: the
/// device's codename, then the vendor type, leaving out an empty one.
pub fn vendor_candidates(device_codename: &str, vendor_type: &str) -> (r: Vec<String>)
    ensures
        r@.map_values(|s: String| s@) == seq![device_codename@, vendor_type@].filter(
            |s: Seq<char>| s.len() > 0,
        ),
{
    let mut r: Vec<String> = Vec::new();
    if !device_codename.is_empty() {
        r.push(device_codename.to_owned());
    }
    if !vendor_type.is_empty() {
        r.push(vendor_type.to_owned());
    }
    proof {
        let s = seq![device_codename@, vendor_type@];
        reveal_with_fuel(Seq::filter, 3);
        assert(s.drop_last() =~= seq![device_codename@]);
        assert(s.drop_last().drop_last() =~= Seq::<Seq<char>>::empty());
    }
    assert(r@.map_values(|s: String| s@) =~= seq![device_codename@, vendor_type@].filter(
        |s: Seq<char>| s.len() > 0,
    ));
    r
}

} // verus!
