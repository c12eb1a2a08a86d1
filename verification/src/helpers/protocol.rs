//! Which Binder protocols a guest speaks.

use vstd::prelude::*;

verus! {

/// The Binder protocol and the service manager protocol for an Android API
/// level.
pub open spec fn protocols_for(api: u32) -> (Seq<char>, Seq<char>) {
    if api < 28 {
        ("aidl"@, "aidl"@)
    } else if api < 30 {
        ("aidl2"@, "aidl2"@)
    } else if api < 31 {
        ("aidl3"@, "aidl3"@)
    } else if api < 33 {
        ("aidl4"@, "aidl3"@)
    } else if api < 35 {
        ("aidl3"@, "aidl3"@)
    } else if api < 36 {
        ("aidl3"@, "aidl5"@)
    } else {
        ("aidl3"@, "aidl6"@)
    }
}

/// The Binder protocol and the service manager protocol a guest of this
/// Android API level speaks.
pub fn aidl_protocols(android_api: u32) -> (r: (&'static str, &'static str))
    ensures
        (r.0@, r.1@) == protocols_for(android_api),
{
    if android_api < 28 {
        ("aidl", "aidl")
    } else if android_api < 30 {
        ("aidl2", "aidl2")
    } else if android_api < 31 {
        ("aidl3", "aidl3")
    } else if android_api < 33 {
        ("aidl4", "aidl3")
    } else if android_api < 35 {
        ("aidl3", "aidl3")
    } else if android_api < 36 {
        ("aidl3", "aidl5")
    } else {
        ("aidl3", "aidl6")
    }
}

} // verus!
