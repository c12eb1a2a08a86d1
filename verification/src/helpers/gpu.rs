//! DRM render nodes and the drivers behind them, so the guest picks the
//! right gralloc, EGL and Vulkan path.

use vstd::prelude::*;

use crate::helpers::props::prop_in_lines;
use crate::helpers::props::prop_value;
use crate::text::{
    chars_of, lines_chars, lines_of, parse_i32, parse_i32_chars, push_str, same_text, starts_with_chars, string_of,
    trim, trim_chars, words_chars, words_of,
};

verus! {

broadcast use vstd::string::group_string_axioms;

/// Where the kernel describes a DRM device.
pub fn drm_uevent_path(dev: &str) -> (r: String)
    ensures
        r@ == "/sys/class/drm/"@ + dev@ + "/uevent"@,
{
    let mut v: Vec<char> = Vec::new();
    push_str(&mut v, "/sys/class/drm/");
    push_str(&mut v, dev);
    push_str(&mut v, "/uevent");
    string_of(v.as_slice())
}

/// Where the kernel describes the device behind a DRM node.
pub fn drm_device_uevent_path(dev: &str) -> (r: String)
    ensures
        r@ == "/sys/class/drm/"@ + dev@ + "/device/uevent"@,
{
    let mut v: Vec<char> = Vec::new();
    push_str(&mut v, "/sys/class/drm/");
    push_str(&mut v, dev);
    push_str(&mut v, "/device/uevent");
    string_of(v.as_slice())
}

/// A key of a uevent file's text, empty when the file could not be read or
/// does not set it.
pub open spec fn uevent_field(uevent: Option<Seq<char>>, key: Seq<char>) -> Seq<char> {
    match uevent {
        Some(text) => match prop_in_lines(lines_of(text), key, 0) {
            Some(v) => v,
            None => Seq::empty(),
        },
        None => Seq::empty(),
    }
}

/// The minor number of a DRM node, from the text of its uevent file.
pub fn get_minor(uevent: Option<&str>) -> (r: String)
    ensures
        r@ == uevent_field(
            match uevent {
                Some(t) => Some(t@),
                None => None,
            },
            "MINOR"@,
        ),
{
    match uevent {
        Some(text) => match prop_value(text, "MINOR") {
            Some(v) => v,
            None => String::new(),
        },
        None => String::new(),
    }
}

/// The kernel driver of a DRM node's device, from the text of its uevent
/// file.
pub fn get_kernel_driver(uevent: Option<&str>) -> (r: String)
    ensures
        r@ == uevent_field(
            match uevent {
                Some(t) => Some(t@),
                None => None,
            },
            "DRIVER"@,
        ),
{
    match uevent {
        Some(text) => match prop_value(text, "DRIVER") {
            Some(v) => v,
            None => String::new(),
        },
        None => String::new(),
    }
}

/// Whether a kernel driver is one the guest can not drive.
pub fn is_unsupported_driver(driver: &str) -> (r: bool)
    ensures
        r == (driver@ == "nvidia"@),
{
    same_text(driver, "nvidia")
}

/// The Vulkan driver the guest expects for a kernel driver; Intel parts
/// older than generation 9 take the one that still drives them.
pub open spec fn vulkan_for(kernel_driver: Seq<char>, intel_before_gen9: bool) -> Seq<char> {
    if kernel_driver == "i915"@ && intel_before_gen9 {
        "intel_hasvk"@
    } else if kernel_driver == "i915"@ || kernel_driver == "xe"@ {
        "intel"@
    } else if kernel_driver == "amdgpu"@ {
        "radeon"@
    } else if kernel_driver == "panfrost"@ {
        "panfrost"@
    } else if kernel_driver == "msm"@ || kernel_driver == "msm_dpu"@ {
        "freedreno"@
    } else if kernel_driver == "vc4"@ {
        "broadcom"@
    } else if kernel_driver == "nouveau"@ {
        "nouveau"@
    } else {
        Seq::empty()
    }
}

/// The Vulkan driver name the guest expects for a kernel driver.
pub fn vulkan_driver_for(kernel_driver: &str, intel_before_gen9: bool) -> (r: String)
    ensures
        r@ == vulkan_for(kernel_driver@, intel_before_gen9),
{
    let k = kernel_driver;
    if same_text(k, "i915") && intel_before_gen9 {
        "intel_hasvk".to_owned()
    } else if same_text(k, "i915") || same_text(k, "xe") {
        "intel".to_owned()
    } else if same_text(k, "amdgpu") {
        "radeon".to_owned()
    } else if same_text(k, "panfrost") {
        "panfrost".to_owned()
    } else if same_text(k, "msm") || same_text(k, "msm_dpu") {
        "freedreno".to_owned()
    } else if same_text(k, "vc4") {
        "broadcom".to_owned()
    } else if same_text(k, "nouveau") {
        "nouveau".to_owned()
    } else {
        String::new()
    }
}


/// Whether a line of the i915 capabilities names the graphics generation.
pub open spec fn names_generation(l: Seq<char>) -> bool {
    "graphics version:"@.is_prefix_of(l) || "gen:"@.is_prefix_of(l)
}

/// Whether a capabilities line gives a generation below 9: the number that
/// is its last word.
pub open spec fn before_gen9_line(line: Seq<char>) -> bool {
    let l = trim(line);
    names_generation(l) && words_of(l).len() > 0 && match parse_i32(words_of(l).last()) {
        Some(g) => g < 9,
        None => false,
    }
}

/// Whether the i915 capabilities describe a part older than generation 9.
pub open spec fn intel_before_gen9_of(caps: Seq<char>) -> bool {
    exists|i: int| 0 <= i < lines_of(caps).len() && before_gen9_line(#[trigger] lines_of(caps)[i])
}

/// Whether an Intel GPU is older than generation 9, from the text of its
/// `i915_capabilities`: such a part needs the Vulkan driver that still
/// drives it.
pub fn intel_before_gen9(caps: &str) -> (r: bool)
    ensures
        r == intel_before_gen9_of(caps@),
{
    proof {
        reveal_strlit("graphics version:");
        reveal_strlit("gen:");
    }
    let text = chars_of(caps);
    let lines = lines_chars(text.as_slice());
    let version = chars_of("graphics version:");
    let gen = chars_of("gen:");
    let ghost ls = lines_of(caps@);
    let mut i: usize = 0;
    while i < lines.len()
        invariant
            ls == lines_of(caps@),
            text@ == caps@,
            version@ == "graphics version:"@,
            gen@ == "gen:"@,
            lines@.len() == ls.len(),
            forall|k: int| 0 <= k < ls.len() ==> (#[trigger] lines@[k])@ == ls[k],
            i <= ls.len(),
            forall|k: int| 0 <= k < i ==> !before_gen9_line(#[trigger] ls[k]),
        decreases ls.len() - i,
    {
        let l = trim_chars(lines[i].as_slice());
        if starts_with_chars(l.as_slice(), version.as_slice()) || starts_with_chars(l.as_slice(), gen.as_slice()) {
            let words = words_chars(l.as_slice());
            proof {
                assert(words@.map_values(|w: Vec<char>| w@).len() == words@.len());
            }
            if words.len() > 0 {
                let last = &words[words.len() - 1];
                proof {
                    assert(last@ == words_of(l@).last());
                }
                match parse_i32_chars(last.as_slice()) {
                    Some(g) => {
                        if g < 9 {
                            assert(before_gen9_line(ls[i as int]));
                            return true;
                        }
                    },
                    None => {},
                }
            }
        }
        assert(!before_gen9_line(ls[i as int]));
        i = i + 1;
    }
    false
}

} // verus!
