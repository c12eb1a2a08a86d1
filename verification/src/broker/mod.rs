//! The broker's logic: the package registry, where its socket is, the name an
//! APK is installed under, and the answers it gives about packages.

pub mod protocol;
pub mod registry;

use vstd::prelude::*;

use crate::broker::registry::{
    in_name_order, resolve_of, uid_taken, Package, PackageView, Registry, ResolveError,
    ResolveErrorView,
};
use crate::octets::{be32, get_be32, push_be32, push_bytes, read_be32};
use crate::text::{chars_of, decimal_chars, push_decimal, push_str, same_text, string_of};

verus! {

broadcast use vstd::string::group_string_axioms;

/// `dir` followed by `/` and `leaf`.
pub open spec fn under(dir: Seq<char>, leaf: Seq<char>) -> Seq<char> {
    dir + "/"@ + leaf
}

/// `dir/leaf` as a string.
pub fn path_under(dir: &str, leaf: &str) -> (r: String)
    ensures
        r@ == under(dir@, leaf@),
{
    let mut v: Vec<char> = Vec::new();
    push_str(&mut v, dir);
    push_str(&mut v, "/");
    push_str(&mut v, leaf);
    string_of(v.as_slice())
}

/// Where the broker binds when systemd is not handing it a socket: the
/// user's runtime directory when there is one, the work directory otherwise.
pub fn bind_path_in(work: &str, runtime: Option<&str>) -> (r: String)
    ensures
        r@ == match runtime {
            Some(dir) => under(dir@, "mosaic/broker.sock"@),
            None => under(work@, "broker.sock"@),
        },
{
    match runtime {
        Some(dir) => path_under(dir, "mosaic/broker.sock"),
        None => path_under(work, "broker.sock"),
    }
}

/// The socket path from what the environment gives: `MOSAIC_SOCKET` when it
/// is set, else the user's runtime directory when it is set and not empty,
/// else the work directory.
pub fn bind_path_from(work: &str, socket: Option<&str>, runtime: Option<&str>) -> (r: String)
    ensures
        r@ == match socket {
            Some(p) => p@,
            None => match runtime {
                Some(dir) => if dir@.len() > 0 {
                    under(dir@, "mosaic/broker.sock"@)
                } else {
                    under(work@, "broker.sock"@)
                },
                None => under(work@, "broker.sock"@),
            },
        },
{
    match socket {
        Some(p) => string_of(chars_of(p).as_slice()),
        None => match runtime {
            Some(dir) => if chars_of(dir).len() > 0 {
                bind_path_in(work, Some(dir))
            } else {
                bind_path_in(work, None)
            },
            None => bind_path_in(work, None),
        },
    }
}

/// Every path a client should try, most likely first: the path the broker
/// binds, then the work directory's socket when that is another path.
pub fn socket_candidates(work: &str, bound: &str) -> (r: Vec<String>)
    ensures
        r@.len() >= 1,
        r@[0]@ == bound@,
        bound@ == under(work@, "broker.sock"@) ==> r@.len() == 1,
        bound@ != under(work@, "broker.sock"@) ==> r@.len() == 2 && r@[1]@ == under(
            work@,
            "broker.sock"@,
        ),
{
    let mut paths: Vec<String> = Vec::new();
    paths.push(bound.to_owned());
    let fallback = path_under(work, "broker.sock");
    if !same_text(bound, fallback.as_str()) {
        paths.push(fallback);
    }
    paths
}

/// `Path::file_stem`: the last component of a path without its extension,
/// if the path names a file.
pub uninterp spec fn file_stem_of(path: Seq<char>) -> Option<Seq<char>>;

/// `Path::file_stem`, read back as a string.
///
/// std documents the stem as the file name without its final extension, or
/// none where the path has no file name; the rules for dots and trailing
/// separators are left to the name.
#[verifier::external_body]
fn file_stem(path: &str) -> (r: Option<String>)
    ensures
        match r {
            Some(s) => file_stem_of(path@) == Some(s@),
            None => file_stem_of(path@) is None,
        },
{
    match std::path::Path::new(path).file_stem() {
        Some(stem) => Some(stem.to_string_lossy().into_owned()),
        None => None,
    }
}

/// What a character of a file stem becomes in a package name: ASCII letters,
/// digits and dots stay, anything else is a dot.
pub open spec fn name_char(c: char) -> char {
    if ('a' <= c <= 'z') || ('A' <= c <= 'Z') || ('0' <= c <= '9') || c == '.' {
        c
    } else {
        '.'
    }
}

/// A package name can not be made from this path.
#[derive(Debug, Clone, PartialEq, Eq)]
pub struct NameError {
    pub apk: String,
}

impl NameError {
    /// The error as a sentence.
    pub fn message(&self) -> (s: String)
        ensures
            s@ == "cannot derive a package name from "@ + self.apk@,
    {
        let mut v: Vec<char> = Vec::new();
        push_str(&mut v, "cannot derive a package name from ");
        push_str(&mut v, self.apk.as_str());
        string_of(v.as_slice())
    }
}

/// The package name a file stem gives: each character through [`name_char`],
/// and an error when nothing is left.
pub fn name_from_stem(stem: Option<&str>, apk: &str) -> (r: Result<String, NameError>)
    ensures
        match stem {
            Some(s) if s@.len() > 0 => r is Ok && r->Ok_0@ == s@.map_values(|c: char| name_char(c)),
            _ => r is Err && r->Err_0.apk@ == apk@,
        },
{
    let stem = match stem {
        Some(s) => s,
        None => return Err(NameError { apk: apk.to_owned() }),
    };
    let chars = chars_of(stem);
    let mut out: Vec<char> = Vec::new();
    let mut i: usize = 0;
    while i < chars.len()
        invariant
            chars@ == stem@,
            i <= chars@.len(),
            out@ == chars@.take(i as int).map_values(|c: char| name_char(c)),
        decreases chars@.len() - i,
    {
        let c = chars[i];
        let kept = if ('a' <= c && c <= 'z') || ('A' <= c && c <= 'Z') || ('0' <= c && c <= '9') || c
            == '.' {
            c
        } else {
            '.'
        };
        out.push(kept);
        i = i + 1;
        assert(out@ =~= chars@.take(i as int).map_values(|c: char| name_char(c)));
    }
    assert(chars@.take(chars@.len() as int) =~= chars@);
    if out.len() == 0 {
        return Err(NameError { apk: apk.to_owned() });
    }
    Ok(string_of(out.as_slice()))
}

/// The package name an APK is installed under, derived from its file name
/// until manifests are read.
pub fn apk_package_name(apk: &str) -> (r: Result<String, NameError>)
    ensures
        match file_stem_of(apk@) {
            Some(s) if s.len() > 0 => r is Ok && r->Ok_0@ == s.map_values(|c: char| name_char(c)),
            _ => r is Err && r->Err_0.apk@ == apk@,
        },
{
    let stem = file_stem(apk);
    match stem {
        Some(s) => name_from_stem(Some(s.as_str()), apk),
        None => name_from_stem(None, apk),
    }
}

/// Why a package could not be planned.
#[derive(Debug, Clone, PartialEq, Eq)]
pub struct NoFreeUid {
    pub start: u32,
    pub end: u32,
}

impl NoFreeUid {
    /// The error as a sentence.
    pub fn message(&self) -> (s: String)
        ensures
            s@ == "no free UID in the reserved range "@ + crate::text::decimal_chars(self.start as nat)
                + "-"@ + crate::text::decimal_chars(self.end as nat),
    {
        let mut v: Vec<char> = Vec::new();
        push_str(&mut v, "no free UID in the reserved range ");
        push_decimal(&mut v, self.start as u64);
        push_str(&mut v, "-");
        push_decimal(&mut v, self.end as u64);
        string_of(v.as_slice())
    }
}

/// Reserve the next UID and a data directory for a package, or report the
/// package as already installed (`true`) when it is.
///
/// The broker is the allocation authority because it owns the registry, but
/// nothing privileged happens here; a reservation is not an install.
pub fn plan_package(
    registry: &Registry,
    name: &str,
    work: &str,
    apk: &str,
    installed_at: u64,
    start: u32,
    end: u32,
) -> (r: Result<(Package, bool), NoFreeUid>)
    ensures
        match r {
            Ok((p, true)) => registry@.contains(p@) && p@.name == name@,
            Ok((p, false)) => {
                &&& forall|i: int| 0 <= i < registry@.len() ==> #[trigger] registry@[i].name != name@
                &&& p@.name == name@
                &&& start <= p.uid <= end
                &&& !uid_taken(registry@, p.uid)
                &&& forall|v: u32| start <= v < p.uid ==> uid_taken(registry@, v)
                &&& p@.data_dir == under(under(work@, "apps"@), name@)
                &&& p@.apk == apk@
                &&& p.installed_at == installed_at
            },
            Err(e) => {
                &&& forall|i: int| 0 <= i < registry@.len() ==> #[trigger] registry@[i].name != name@
                &&& e.start == start && e.end == end
                &&& forall|v: u32| start <= v <= end ==> uid_taken(registry@, v)
            },
        },
{
    match registry.get(name) {
        Some(existing) => {
            return Ok((existing.clone(), true));
        },
        None => {},
    }
    let uid = match registry.next_uid(start, end) {
        Some(uid) => uid,
        None => return Err(NoFreeUid { start, end }),
    };
    let apps = path_under(work, "apps");
    let data_dir = path_under(apps.as_str(), name);
    Ok((Package { name: name.to_owned(), uid, data_dir, apk: apk.to_owned(), installed_at }, false))
}

/// Remove the package a selector resolves to, and hand it back.
pub fn uninstall_selected(registry: &mut Registry, selector: &str) -> (r: Result<Package, ResolveError>)
    ensures
        match r {
            Ok(p) => {
                &&& resolve_of(old(registry)@, selector@) == Ok::<PackageView, ResolveErrorView>(p@)
                &&& forall|q: PackageView| #[trigger] final(registry)@.contains(q) <==> (old(registry)@.contains(q) && q.name != p@.name)
            },
            Err(e) => resolve_of(old(registry)@, selector@) == Err::<PackageView, ResolveErrorView>(e@)
                && final(registry)@ == old(registry)@,
        },
{
    let name = match registry.resolve(selector) {
        Ok(p) => p.name.clone(),
        Err(e) => return Err(e),
    };
    let ghost chosen = match resolve_of(registry@, selector@) {
        Ok(p) => p,
        Err(_) => arbitrary(),
    };
    proof {
        lemma_resolved_is_installed(registry@, selector@);
    }
    match registry.remove(name.as_str()) {
        Some(p) => {
            proof {
                lemma_one_per_name(old(registry)@, p@, chosen);
            }
            Ok(p)
        },
        None => {
            assert(false);
            Err(ResolveError::Missing { selector: selector.to_owned(), installed: Vec::new() })
        },
    }
}

/// What a resolved selector names is installed.
proof fn lemma_resolved_is_installed(s: Seq<PackageView>, selector: Seq<char>)
    ensures
        resolve_of(s, selector) is Ok ==> s.contains(resolve_of(s, selector)->Ok_0),
{
    let exact = s.filter(crate::broker::registry::named(selector));
    let folded = crate::text::lowercase(selector);
    let prefixed = s.filter(crate::broker::registry::by_prefix(folded));
    let containing = s.filter(crate::broker::registry::by_substring(folded));
    if exact.len() > 0 {
        crate::broker::registry::lemma_filter_kept(s, crate::broker::registry::named(selector), 0);
    } else if prefixed.len() == 1 {
        crate::broker::registry::lemma_filter_kept(s, crate::broker::registry::by_prefix(folded), 0);
    } else if containing.len() == 1 && prefixed.len() == 0 {
        crate::broker::registry::lemma_filter_kept(s, crate::broker::registry::by_substring(folded), 0);
    }
}

/// In name order, two packages with one name are the same package.
proof fn lemma_one_per_name(s: Seq<PackageView>, p: PackageView, q: PackageView)
    requires
        in_name_order(s),
        s.contains(p),
        s.contains(q),
        p.name == q.name,
    ensures
        p == q,
{
    let i = choose|i: int| 0 <= i < s.len() && s[i] == p;
    let j = choose|j: int| 0 <= j < s.len() && s[j] == q;
    if i < j {
        assert(crate::broker::registry::name_before(s[i].name, s[j].name));
        crate::broker::registry::lemma_name_irreflexive(p.name);
    } else if j < i {
        assert(crate::broker::registry::name_before(s[j].name, s[i].name));
        crate::broker::registry::lemma_name_irreflexive(p.name);
    }
}

/// The packages a query answers with: the one a selector resolves to, or
/// nothing when it resolves to none; every package when there is no
/// selector. A query that matches nothing is an answer, not a failure.
pub fn query_answer(registry: &Registry, selector: Option<&str>) -> (r: Vec<Package>)
    ensures
        match selector {
            Some(s) => match resolve_of(registry@, s@) {
                Ok(p) => r@.len() == 1 && r@[0]@ == p,
                Err(_) => r@.len() == 0,
            },
            None => r@.map_values(|p: Package| p@) == registry@,
        },
{
    match selector {
        Some(s) => match registry.resolve(s) {
            Ok(p) => {
                let mut out: Vec<Package> = Vec::new();
                out.push(p.clone());
                out
            },
            Err(_) => Vec::new(),
        },
        None => registry.list(),
    }
}


/// The largest control frame either side accepts: an absurd length prefix
/// is refused rather than allocated for.
pub const MAX_CONTROL_FRAME: usize = 0x100_0000;

/// What a frame over the limit is reported as.
pub open spec fn too_large_text(len: nat) -> Seq<char> {
    "frame too large: "@ + decimal_chars(len) + " bytes"@
}

fn too_large(len: u64) -> (s: String)
    ensures
        s@ == too_large_text(len as nat),
{
    let mut v: Vec<char> = Vec::new();
    push_str(&mut v, "frame too large: ");
    push_decimal(&mut v, len);
    push_str(&mut v, " bytes");
    string_of(v.as_slice())
}

/// How long a control frame's body is, from the four bytes in front of it:
/// a big-endian length, refused over [`MAX_CONTROL_FRAME`].
pub fn control_frame_length(prefix: &[u8; 4]) -> (r: Result<usize, String>)
    ensures
        get_be32(prefix@, 0) <= MAX_CONTROL_FRAME ==> r == Ok::<usize, String>(get_be32(prefix@, 0) as usize),
        get_be32(prefix@, 0) > MAX_CONTROL_FRAME ==> r is Err && r->Err_0@ == too_large_text(get_be32(prefix@, 0) as nat),
{
    let len = read_be32(prefix.as_slice(), 0);
    if len as usize <= MAX_CONTROL_FRAME {
        Ok(len as usize)
    } else {
        Err(too_large(len as u64))
    }
}

/// A control frame for a body: its length, big-endian, then the body.
pub fn control_frame(body: &[u8]) -> (r: Result<Vec<u8>, String>)
    ensures
        body@.len() <= MAX_CONTROL_FRAME ==> r is Ok && r->Ok_0@ == be32(body@.len() as u32) + body@,
        body@.len() > MAX_CONTROL_FRAME ==> r is Err && r->Err_0@ == too_large_text(body@.len()),
{
    if body.len() > MAX_CONTROL_FRAME {
        return Err(too_large(body.len() as u64));
    }
    let mut out: Vec<u8> = Vec::new();
    push_be32(&mut out, body.len() as u32);
    push_bytes(&mut out, body);
    Ok(out)
}

} // verus!
