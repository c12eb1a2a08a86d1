//! Runtime bundles: the archive a runtime is shipped in, and the version its
//! name carries.

use vstd::prelude::*;

use crate::text::{
    chars_of, contains_chars, find_chars, first_match, lines_chars, lines_of, occurs_in, same_chars, slice_chars,
    starts_with_chars, text_of, trim, trim_chars,
};

verus! {

/// Whether `suffix` ends `s`.
pub open spec fn ends_with(s: Seq<char>, suffix: Seq<char>) -> bool {
    suffix.len() <= s.len() && s.subrange(s.len() - suffix.len(), s.len() as int) == suffix
}

/// Whether `s` ends with `suffix`.
pub fn ends_with_str(s: &str, suffix: &str) -> (r: bool)
    ensures
        r == ends_with(s@, suffix@),
{
    let a = chars_of(s);
    let b = chars_of(suffix);
    if b.len() > a.len() {
        return false;
    }
    let off = a.len() - b.len();
    let mut i: usize = 0;
    while i < b.len()
        invariant
            a@ == s@,
            b@ == suffix@,
            off + b@.len() == a@.len(),
            a@.len() == a.len(),
            i <= b@.len(),
            forall|k: int| 0 <= k < i ==> a@[off + k] == b@[k],
        decreases b@.len() - i,
    {
        if a[off + i] != b[i] {
            proof {
                assert(a@.subrange(off as int, a@.len() as int)[i as int] == a@[off + i]);
            }
            return false;
        }
        i = i + 1;
    }
    assert(a@.subrange(off as int, a@.len() as int) =~= b@);
    true
}

/// Whether a file is an unpackable bundle rather than a system image.
pub fn is_archive(path: &str) -> (r: bool)
    ensures
        r == (ends_with(path@, ".tar.xz"@) || ends_with(path@, ".tar.zst"@) || ends_with(path@, ".tar.gz"@)),
{
    ends_with_str(path, ".tar.xz") || ends_with_str(path, ".tar.zst") || ends_with_str(path, ".tar.gz")
}

/// Where `c` last occurs in `s`.
pub open spec fn last_index(s: Seq<char>, c: char) -> Option<int>
    decreases s.len(),
{
    if s.len() == 0 {
        None
    } else if s.last() == c {
        Some(s.len() - 1)
    } else {
        last_index(s.drop_last(), c)
    }
}

/// The version in a bundle archive's name, if it is named the way bundles
/// are named, `runtime-<version>-<arch>.tar.<compression>`: after the
/// `runtime-` prefix and before the first `.tar.`, everything up to the last
/// dash, when that is not empty.
pub open spec fn version_of_name(name: Seq<char>) -> Option<Seq<char>> {
    let p = "runtime-"@;
    if !(p.len() <= name.len() && name.take(p.len() as int) == p) {
        None
    } else {
        let rest = name.skip(p.len() as int);
        let stem = match first_match(rest, ".tar."@, 0) {
            Some(k) => rest.take(k),
            None => rest,
        };
        match last_index(stem, '-') {
            Some(d) => if d > 0 {
                Some(stem.take(d))
            } else {
                None
            },
            None => None,
        }
    }
}

/// The version in a bundle archive's name, if it is named the way bundles
/// are: `runtime-<version>-<arch>.tar.xz`.
pub fn version_name(name: &str) -> (r: Option<String>)
    ensures
        match version_of_name(name@) {
            Some(v) => r is Some && r->0@ == v,
            None => r is None,
        },
{
    let s = chars_of(name);
    let prefix = chars_of("runtime-");
    let marker = chars_of(".tar.");
    if prefix.len() > s.len() {
        return None;
    }
    let mut i: usize = 0;
    while i < prefix.len()
        invariant
            s@ == name@,
            prefix@ == "runtime-"@,
            prefix@.len() <= s@.len(),
            i <= prefix@.len(),
            forall|k: int| 0 <= k < i ==> s@[k] == prefix@[k],
        decreases prefix@.len() - i,
    {
        if s[i] != prefix[i] {
            proof {
                assert(s@.take(prefix@.len() as int)[i as int] == s@[i as int]);
            }
            return None;
        }
        i = i + 1;
    }
    assert(s@.take(prefix@.len() as int) =~= prefix@);
    let rest = slice_chars(s.as_slice(), prefix.len(), s.len());
    assert(rest@ =~= s@.skip(prefix@.len() as int));
    let stem = match find_chars(rest.as_slice(), marker.as_slice()) {
        Some(k) => {
            proof {
                crate::text::lemma_first_match(rest@, marker@, 0);
            }
            let t = slice_chars(rest.as_slice(), 0, k);
            assert(t@ =~= rest@.take(k as int));
            t
        },
        None => rest,
    };
    let mut j: usize = stem.len();
    assert(stem@.take(stem@.len() as int) =~= stem@);
    while j > 0 && stem[j - 1] != '-'
        invariant
            j <= stem@.len(),
            last_index(stem@, '-') == last_index(stem@.take(j as int), '-'),
        decreases j,
    {
        proof {
            let t = stem@.take(j as int);
            assert(t.drop_last() =~= stem@.take(j - 1));
        }
        j = j - 1;
    }
    if j == 0 {
        proof {
            assert(stem@.take(0) =~= Seq::<char>::empty());
        }
        return None;
    }
    proof {
        assert(stem@.take(j as int).last() == '-');
        assert(last_index(stem@.take(j as int), '-') == Some(j - 1));
    }
    if j - 1 == 0 {
        return None;
    }
    let v = slice_chars(stem.as_slice(), 0, j - 1);
    assert(v@ =~= stem@.take(j - 1));
    Some(text_of(&v))
}

/// Whether an archive name is one `is_archive` takes.
pub open spec fn archive_name(path: Seq<char>) -> bool {
    ends_with(path, ".tar.xz"@) || ends_with(path, ".tar.zst"@) || ends_with(path, ".tar.gz"@)
}

/// Whether what `runtime install` was given is a URL to fetch first.
pub open spec fn url_given(given: Seq<char>) -> bool {
    "http://"@.is_prefix_of(given) || "https://"@.is_prefix_of(given)
}

/// What `runtime install` makes of what it was given.
#[derive(Debug, Clone, Copy, PartialEq, Eq)]
pub enum InstallKind {
    /// An unpacked bundle, linked in place.
    Directory,
    /// A bundle archive, unpacked.
    Archive,
    /// A system image, from which a bundle is built.
    Image,
}

/// Whether what was given is a URL: it starts `http://` or `https://`.
pub fn is_url(given: &str) -> (r: bool)
    ensures
        r == url_given(given@),
{
    let s = chars_of(given);
    let http = chars_of("http://");
    let https = chars_of("https://");
    starts_with_chars(s.as_slice(), http.as_slice()) || starts_with_chars(s.as_slice(), https.as_slice())
}

/// How a runtime is installed from `local`, the file or directory on disk,
/// having been given `given`: a directory is linked; an archive, by either
/// name, is unpacked; anything else is an image to build from.
pub fn install_kind(given: &str, local: &str, local_is_dir: bool) -> (k: InstallKind)
    ensures
        k == if local_is_dir {
            InstallKind::Directory
        } else if archive_name(given@) || archive_name(local@) {
            InstallKind::Archive
        } else {
            InstallKind::Image
        },
{
    if local_is_dir {
        InstallKind::Directory
    } else if is_archive(given) || is_archive(local) {
        InstallKind::Archive
    } else {
        InstallKind::Image
    }
}

/// The version a runtime is installed as: the one asked for, unless that is
/// `local`, in which case the one the file's name carries, or `local`.
pub fn install_version(requested: &str, file_name: Option<&str>) -> (v: String)
    ensures
        v@ == if requested@ != "local"@ {
            requested@
        } else {
            match file_name {
                Some(n) => match version_of_name(n@) {
                    Some(x) => x,
                    None => "local"@,
                },
                None => "local"@,
            }
        },
{
    let r = chars_of(requested);
    let l = chars_of("local");
    if !same_chars(r.as_slice(), l.as_slice()) {
        return text_of(&r);
    }
    match file_name {
        Some(n) => match version_name(n) {
            Some(x) => x,
            None => text_of(&l),
        },
        None => text_of(&l),
    }
}

/// Whether a line of the runtime's output reports ART's version.
pub open spec fn reports_version(line: Seq<char>) -> bool {
    occurs_in("ART version"@, line)
}

/// The version line of what the runtime printed: the first line that
/// reports ART's version, trimmed, or none when no line does.
pub fn art_version(output: &str) -> (r: Option<String>)
    ensures
        match r {
            Some(v) => exists|i: int|
                0 <= i < lines_of(output@).len() && reports_version(#[trigger] lines_of(output@)[i]) && v@ == trim(
                    lines_of(output@)[i],
                ) && forall|j: int| 0 <= j < i ==> !reports_version(#[trigger] lines_of(output@)[j]),
            None => forall|j: int| 0 <= j < lines_of(output@).len() ==> !reports_version(#[trigger] lines_of(output@)[j]),
        },
{
    let text = chars_of(output);
    let lines = lines_chars(text.as_slice());
    let needle = chars_of("ART version");
    let mut i: usize = 0;
    while i < lines.len()
        invariant
            text@ == output@,
            needle@ == "ART version"@,
            i <= lines@.len(),
            lines@.len() == lines_of(output@).len(),
            forall|k: int| 0 <= k < lines@.len() ==> (#[trigger] lines@[k])@ == lines_of(output@)[k],
            forall|j: int| 0 <= j < i ==> !reports_version(#[trigger] lines_of(output@)[j]),
        decreases lines@.len() - i,
    {
        if contains_chars(lines[i].as_slice(), needle.as_slice()) {
            let t = trim_chars(lines[i].as_slice());
            assert(reports_version(lines_of(output@)[i as int]));
            return Some(text_of(&t));
        }
        i = i + 1;
    }
    None
}

} // verus!
