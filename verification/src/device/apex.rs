//! `apexd`, in userspace: the apex service.
//!
//! The framework asks it over binder for the active apexes, and the package
//! manager scans the packages inside them. There is no mounting here and
//! nothing to stage: what it has is the list of apexes the runtime bundle
//! carries, which it answers with. Staging sessions, rollbacks, snapshots and
//! the like are refused by name.

pub mod code;

use vstd::prelude::*;

use crate::binder::service::BinderObject;

use crate::binder::parcel::{step_string, string16_after, Parcel, Reader};
use crate::binder::{refusal, refusal_bytes, Answer};
use crate::device::apex::code::{
    ABORT_STAGED_SESSION, GET_ACTIVE_PACKAGE, GET_ACTIVE_PACKAGES, GET_ALL_PACKAGES, GET_SESSIONS,
    MARK_BOOT_COMPLETED, REVERT_ACTIVE_SESSIONS,
};
use crate::octets::{le32, le64};
use crate::broker::registry::{names_in_order, sort_names};
use crate::text::{
    chars_of, lines_chars, lines_of, parse_i64, parse_i64_chars, push_str, same_text, slice_chars, starts_with_chars,
    string_of, trim, trim_chars,
};

verus! {

broadcast use vstd::string::group_string_axioms;

/// The name the framework looks up.
pub const NAME: &'static str = "apexservice";

/// The interface's own token.
pub const DESCRIPTOR: &'static str = "android.apex.IApexService";

/// One apex the bundle carries.
#[derive(Debug, Clone, PartialEq, Eq)]
pub struct Apex {
    pub module_name: String,
    /// The path the framework reads the module from.
    pub location: String,
    pub version_code: i64,
    pub version_name: String,
}

/// An apex as a value.
pub struct ApexView {
    pub module_name: Seq<char>,
    pub location: Seq<char>,
    pub version_code: i64,
    pub version_name: Seq<char>,
}

impl View for Apex {
    type V = ApexView;

    open spec fn view(&self) -> ApexView {
        ApexView {
            module_name: self.module_name@,
            location: self.location@,
            version_code: self.version_code,
            version_name: self.version_name@,
        }
    }
}

/// One `android.apex.ApexInfo` written after `before`: the module name, its
/// path twice (the preinstalled path is the same here), the version code and
/// name, then factory and active set and the two staging flags clear.
pub open spec fn apex_info_after(before: Seq<u8>, a: ApexView) -> Seq<u8> {
    let p = string16_after(
        string16_after(string16_after(before, a.module_name), a.location),
        a.location,
    ) + le64(a.version_code as u64);
    string16_after(p, a.version_name) + le32(1) + le32(1) + le32(0) + le32(0)
}

/// The apexes written one after another after `before`.
pub open spec fn apexes_after(before: Seq<u8>, s: Seq<ApexView>) -> Seq<u8>
    decreases s.len(),
{
    if s.len() == 0 {
        before
    } else {
        apex_info_after(apexes_after(before, s.drop_last()), s.last())
    }
}

/// The first apex with this module name.
pub open spec fn apex_named(s: Seq<ApexView>, name: Seq<char>, from: int) -> Option<int>
    decreases s.len() - from,
{
    if from < 0 || from >= s.len() {
        None
    } else if s[from].module_name == name {
        Some(from)
    } else {
        apex_named(s, name, from + 1)
    }
}

/// The apex service, answering with the apexes it was given.
pub struct ApexService {
    apexes: Vec<Apex>,
}

impl View for ApexService {
    type V = Seq<ApexView>;

    closed spec fn view(&self) -> Seq<ApexView> {
        self.apexes@.map_values(|a: Apex| a@)
    }
}

impl ApexService {
    /// A service answering with these apexes, in this order.
    pub fn new(apexes: Vec<Apex>) -> (r: ApexService)
        ensures
            r@ == apexes@.map_values(|a: Apex| a@),
    {
        ApexService { apexes }
    }

    /// The interface this object is.
    pub fn descriptor(&self) -> (r: &'static str)
        ensures
            r@ == DESCRIPTOR@,
    {
        DESCRIPTOR
    }

    fn apex_info(&self, i: usize, out: &mut Parcel)
        requires
            i < self@.len(),
        ensures
            final(out)@ == apex_info_after(old(out)@, self@[i as int]),
    {
        let apex = &self.apexes[i];
        assert(apex@ == self@[i as int]);
        out.string16(apex.module_name.as_str());
        let path = &apex.location;
        out.string16(path.as_str());
        out.string16(path.as_str());
        out.i64(apex.version_code);
        out.string16(apex.version_name.as_str());
        out.boolean(true);
        out.boolean(true);
        out.boolean(false);
        out.boolean(false);
    }

    fn packages(&self, out: &mut Parcel)
        ensures
            final(out)@ == apexes_after(old(out)@ + le32(self@.len() as i32 as u32), self@),
    {
        out.i32(self.apexes.len() as i32);
        let ghost start = out@;
        let mut i: usize = 0;
        while i < self.apexes.len()
            invariant
                i <= self@.len(),
                self@.len() == self.apexes@.len(),
                out@ == apexes_after(start, self@.take(i as int)),
            decreases self@.len() - i,
        {
            self.apex_info(i, out);
            proof {
                let t = self@.take(i + 1);
                assert(t.drop_last() =~= self@.take(i as int));
                assert(t.last() == self@[i as int]);
            }
            i = i + 1;
        }
        assert(self@.take(self@.len() as int) =~= self@);
    }

    /// The answer to a call: the apexes for the package queries, one apex
    /// (or its absence) by name, an empty session list, nothing to say for
    /// the boot and the staging calls that have nothing to act on, and a
    /// refusal for the rest.
    pub fn transact(&mut self, code: u32, data: &[u8]) -> (a: Answer)
        ensures
            final(self)@ == old(self)@,
            a.objects@.len() == 0,
            a.calls@.len() == 0,
            a.fds@.len() == 0,
            (code == GET_ACTIVE_PACKAGES || code == GET_ALL_PACKAGES) ==> a.data@ == apexes_after(
                le32(old(self)@.len() as i32 as u32),
                old(self)@,
            ),
            code == GET_ACTIVE_PACKAGE ==> {
                let name = match step_string(data@, 0).0 {
                    Some(t) => t,
                    None => Seq::empty(),
                };
                a.data@ == match apex_named(old(self)@, name, 0) {
                    Some(i) => apex_info_after(le32(1), old(self)@[i]),
                    None => le32(0),
                }
            },
            code == GET_SESSIONS ==> a.data@ == le32(0),
            (code == MARK_BOOT_COMPLETED || code == ABORT_STAGED_SESSION || code == REVERT_ACTIVE_SESSIONS)
                ==> a.data@.len() == 0,
            !(code == GET_ACTIVE_PACKAGES || code == GET_ALL_PACKAGES || code == GET_ACTIVE_PACKAGE || code
                == GET_SESSIONS || code == MARK_BOOT_COMPLETED || code == ABORT_STAGED_SESSION || code
                == REVERT_ACTIVE_SESSIONS) ==> a.data@ == refusal_bytes("IApexService"@, code),
    {
        if code == GET_ACTIVE_PACKAGES || code == GET_ALL_PACKAGES {
            let mut reply = Parcel::new();
            self.packages(&mut reply);
            assert(Seq::<u8>::empty() + le32(self@.len() as i32 as u32) =~= le32(self@.len() as i32 as u32));
            Answer::of(reply.into_bytes())
        } else if code == GET_ACTIVE_PACKAGE {
            let mut reader = Reader::new(data);
            let name = match reader.string() {
                Some(t) => t,
                None => String::new(),
            };
            let mut reply = Parcel::new();
            let mut i: usize = 0;
            assert(name@ == match step_string(data@, 0).0 {
                Some(t) => t,
                None => Seq::<char>::empty(),
            });
            while i < self.apexes.len()
                invariant
                    i <= self@.len(),
                    self@.len() == self.apexes@.len(),
                    self@ == old(self)@,
                    code == GET_ACTIVE_PACKAGE,
                    reply@ == Seq::<u8>::empty(),
                    name@ == match step_string(data@, 0).0 {
                        Some(t) => t,
                        None => Seq::<char>::empty(),
                    },
                    apex_named(self@, name@, 0) == apex_named(self@, name@, i as int),
                decreases self@.len() - i,
            {
                assert(self.apexes@[i as int]@ == self@[i as int]);
                if same_text(self.apexes[i].module_name.as_str(), name.as_str()) {
                    reply.boolean(true);
                    self.apex_info(i, &mut reply);
                    assert(Seq::<u8>::empty() + le32(1) =~= le32(1));
                    return Answer::of(reply.into_bytes());
                }
                i = i + 1;
            }
            reply.boolean(false);
            assert(Seq::<u8>::empty() + le32(0) =~= le32(0));
            Answer::of(reply.into_bytes())
        } else if code == MARK_BOOT_COMPLETED || code == ABORT_STAGED_SESSION || code == REVERT_ACTIVE_SESSIONS {
            Answer::of(Vec::new())
        } else if code == GET_SESSIONS {
            let mut reply = Parcel::new();
            reply.i32(0);
            assert(Seq::<u8>::empty() + le32(0) =~= le32(0));
            Answer::of(reply.into_bytes())
        } else {
            Answer::of(refusal("IApexService", code))
        }
    }
}


/// The build id and SDK level a `build.prop` sets, the last line for each
/// winning; `unknown` and 33 where none does. An SDK line that does not read
/// as a number reads as 33.
pub open spec fn build_fields(lines: Seq<Seq<char>>) -> (Seq<char>, i64)
    decreases lines.len(),
{
    if lines.len() == 0 {
        ("unknown"@, 33)
    } else {
        let (id, sdk) = build_fields(lines.drop_last());
        let l = trim(lines.last());
        if "ro.build.id="@.is_prefix_of(l) {
            (trim(l.skip(12)), sdk)
        } else if "ro.build.version.sdk="@.is_prefix_of(l) {
            (
                id,
                match parse_i64(trim(l.skip(21))) {
                    Some(v) => v,
                    None => 33,
                },
            )
        } else {
            (id, sdk)
        }
    }
}

/// The version every apex reports: the SDK level in the high half of the
/// code, a build counter's place below it, and the build id as its name.
pub open spec fn build_version_of(content: Option<Seq<char>>) -> (i64, Seq<char>) {
    let (id, sdk) = match content {
        Some(t) => build_fields(lines_of(t)),
        None => ("unknown"@, 33i64),
    };
    (((sdk as u64) << 24u64) as i64, id)
}

/// The version the bundle's `etc/build.prop` (its text, or none) gives
/// every apex.
pub fn build_version(content: Option<&str>) -> (r: (i64, String))
    ensures
        (r.0, r.1@) == build_version_of(
            match content {
                Some(t) => Some(t@),
                None => None,
            },
        ),
{
    proof {
        reveal_strlit("unknown");
        reveal_strlit("ro.build.id=");
        reveal_strlit("ro.build.version.sdk=");
    }
    let mut id: Vec<char> = chars_of("unknown");
    let mut sdk: i64 = 33;
    match content {
        None => {},
        Some(text) => {
            let chars = chars_of(text);
            let lines = lines_chars(chars.as_slice());
            let id_key = chars_of("ro.build.id=");
            let sdk_key = chars_of("ro.build.version.sdk=");
            let ghost ls = lines_of(text@);
            assert(id_key@.len() == 12 && sdk_key@.len() == 21);
            let mut i: usize = 0;
            while i < lines.len()
                invariant
                    ls == lines_of(text@),
                    chars@ == text@,
                    id_key@ == "ro.build.id="@,
                    sdk_key@ == "ro.build.version.sdk="@,
                    id_key@.len() == 12,
                    sdk_key@.len() == 21,
                    lines@.len() == ls.len(),
                    forall|k: int| 0 <= k < ls.len() ==> (#[trigger] lines@[k])@ == ls[k],
                    i <= ls.len(),
                    (id@, sdk) == build_fields(ls.take(i as int)),
                decreases ls.len() - i,
            {
                let l = trim_chars(lines[i].as_slice());
                proof {
                    let t = ls.take(i + 1);
                    assert(t.drop_last() =~= ls.take(i as int));
                    assert(t.last() == ls[i as int]);
                }
                if starts_with_chars(l.as_slice(), id_key.as_slice()) {
                    let rest = slice_chars(l.as_slice(), 12, l.len());
                    assert(rest@ =~= l@.skip(12));
                    id = trim_chars(rest.as_slice());
                } else if starts_with_chars(l.as_slice(), sdk_key.as_slice()) {
                    let rest = slice_chars(l.as_slice(), 21, l.len());
                    assert(rest@ =~= l@.skip(21));
                    let value = trim_chars(rest.as_slice());
                    sdk = match parse_i64_chars(value.as_slice()) {
                        Some(v) => v,
                        None => 33,
                    };
                }
                i = i + 1;
            }
            assert(ls.take(ls.len() as int) =~= ls);
        },
    }
    let code = ((sdk as u64) << 24u64) as i64;
    (code, string_of(id.as_slice()))
}

/// The path an apex is read from: `/system/apex/<name>`.
pub open spec fn apex_location(name: Seq<char>) -> Seq<char> {
    "/system/apex/"@ + name
}

/// One apex of the bundle, by its directory's name.
pub open spec fn apex_named_view(name: Seq<char>, version_code: i64, version_name: Seq<char>) -> ApexView {
    ApexView { module_name: name, location: apex_location(name), version_code, version_name }
}

/// The apexes a bundle carries, one per directory under its `apex`, in
/// name order, all at the bundle's version.
pub fn apexes_from(names: Vec<String>, version_code: i64, version_name: &str) -> (r: Vec<Apex>)
    ensures
        exists|sorted: Seq<Seq<char>>|
            names_in_order(sorted) && sorted.to_multiset() == names@.map_values(|s: String| s@).to_multiset()
                && r@.map_values(|a: Apex| a@) == sorted.map_values(
                |n: Seq<char>| apex_named_view(n, version_code, version_name@),
            ),
{
    proof {
        reveal_strlit("/system/apex/");
    }
    let sorted = sort_names(names);
    let ghost want = sorted@.map_values(|s: String| s@);
    let mut r: Vec<Apex> = Vec::new();
    let mut i: usize = 0;
    while i < sorted.len()
        invariant
            i <= sorted@.len(),
            want == sorted@.map_values(|s: String| s@),
            r@.len() == i,
            forall|k: int| 0 <= k < i ==> (#[trigger] r@[k])@ == apex_named_view(want[k], version_code, version_name@),
        decreases sorted@.len() - i,
    {
        let name = sorted[i].as_str();
        let mut path: Vec<char> = Vec::new();
        push_str(&mut path, "/system/apex/");
        push_str(&mut path, name);
        let apex = Apex {
            module_name: name.to_owned(),
            location: string_of(path.as_slice()),
            version_code,
            version_name: version_name.to_owned(),
        };
        assert(apex@ == apex_named_view(want[i as int], version_code, version_name@));
        r.push(apex);
        i = i + 1;
    }
    assert(r@.map_values(|a: Apex| a@) =~= want.map_values(|n: Seq<char>| apex_named_view(n, version_code, version_name@)));
    r
}

impl BinderObject for ApexService {
    fn transact(&mut self, code: u32, data: &[u8]) -> Result<Answer, String> {
        Ok(ApexService::transact(self, code, data))
    }

    fn descriptor(&self) -> String {
        let d = ApexService::descriptor(self);
        crate::text::string_of(crate::text::chars_of(d).as_slice())
    }
}

} // verus!
