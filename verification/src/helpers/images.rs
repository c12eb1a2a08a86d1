//! The image channels: which published build to take, and whether an image
//! is one a channel lists.

use vstd::prelude::*;

use crate::helpers::http::{hex_encode, hex_of, sha256, sha256_of};
use crate::text::{chars_of, parse_i64, parse_i64_chars, same_text};

verus! {

broadcast use vstd::string::group_string_axioms;

/// One build a channel publishes.
#[derive(Debug, Clone, PartialEq, Eq)]
pub struct OtaBuild {
    /// When it was built, in seconds.
    pub datetime: i64,
    pub url: String,
    pub filename: String,
    /// The SHA-256 of the image, in hexadecimal.
    pub id: String,
}

impl OtaBuild {
    /// A build from the fields a channel's entry gives, each it leaves out
    /// taken as nothing: time 0, no URL, the channel's own archive name
    /// (`system.zip` or `vendor.zip`), no id.
    pub fn from_fields(
        datetime: Option<i64>,
        url: Option<String>,
        filename: Option<String>,
        id: Option<String>,
        archive: &str,
    ) -> (b: OtaBuild)
        ensures
            b.datetime == match datetime { Some(d) => d, None => 0 },
            b.url@ == match url { Some(u) => u@, None => Seq::empty() },
            b.filename@ == match filename { Some(f) => f@, None => archive@ },
            b.id@ == match id { Some(i) => i@, None => Seq::empty() },
    {
        OtaBuild {
            datetime: match datetime { Some(d) => d, None => 0 },
            url: match url { Some(u) => u, None => String::new() },
            filename: match filename { Some(f) => f, None => archive.to_string() },
            id: match id { Some(i) => i, None => String::new() },
        }
    }
}

/// The build time the configuration records, as a number; none, or one
/// that does not read as one, is 0.
pub open spec fn recorded_datetime_of(value: Option<Seq<char>>) -> i64 {
    match value {
        Some(v) => match parse_i64(v) {
            Some(n) => n,
            None => 0,
        },
        None => 0,
    }
}

/// The build time the configuration records.
pub fn recorded_datetime(value: Option<&str>) -> (r: i64)
    ensures
        r == recorded_datetime_of(match value { Some(v) => Some(v@), None => None }),
{
    match value {
        Some(v) => match parse_i64_chars(chars_of(v).as_slice()) {
            Some(n) => n,
            None => 0,
        },
        None => 0,
    }
}

/// The first build newer than the one in place, by position in the channel.
pub fn newer_build(builds: &Vec<OtaBuild>, current: i64) -> (r: Option<usize>)
    ensures
        match r {
            Some(i) => i < builds@.len() && builds@[i as int].datetime > current && forall|j: int|
                0 <= j < i ==> #[trigger] builds@[j].datetime <= current,
            None => forall|j: int| 0 <= j < builds@.len() ==> #[trigger] builds@[j].datetime <= current,
        },
{
    let mut i: usize = 0;
    while i < builds.len()
        invariant
            i <= builds@.len(),
            forall|j: int| 0 <= j < i ==> #[trigger] builds@[j].datetime <= current,
        decreases builds@.len() - i,
    {
        if builds[i].datetime > current {
            return Some(i);
        }
        i = i + 1;
    }
    None
}

/// Why a channel offers nothing to install.
#[derive(Debug, Clone, Copy, PartialEq, Eq)]
pub enum ChannelError {
    /// Its listing names no build at all.
    NoImages,
}

/// The build of a channel to install next: a listing with no builds is
/// refused; otherwise the first build newer than the one in place, if any.
pub fn update_from(builds: &Vec<OtaBuild>, current: i64) -> (r: Result<Option<usize>, ChannelError>)
    ensures
        builds@.len() == 0 <==> r == Err::<Option<usize>, ChannelError>(ChannelError::NoImages),
        r matches Ok(Some(i)) ==> i < builds@.len() && builds@[i as int].datetime > current && forall|j: int|
            0 <= j < i ==> #[trigger] builds@[j].datetime <= current,
        r matches Ok(None) ==> forall|j: int| 0 <= j < builds@.len() ==> #[trigger] builds@[j].datetime <= current,
{
    if builds.len() == 0 {
        return Err(ChannelError::NoImages);
    }
    Ok(newer_build(builds, current))
}

/// The digest a channel lists an image under: its SHA-256, in lowercase
/// hexadecimal.
pub fn image_digest(data: &[u8]) -> (r: String)
    ensures
        r@ == hex_of(sha256_of(data@)),
{
    let d = sha256(data);
    hex_encode(d.as_slice())
}

/// Whether some build the channel lists has this digest as its id.
pub fn build_listed(builds: &Vec<OtaBuild>, digest: &str) -> (r: bool)
    ensures
        r == exists|j: int| 0 <= j < builds@.len() && #[trigger] builds@[j].id@ == digest@,
{
    let mut i: usize = 0;
    while i < builds.len()
        invariant
            i <= builds@.len(),
            forall|j: int| 0 <= j < i ==> #[trigger] builds@[j].id@ != digest@,
        decreases builds@.len() - i,
    {
        if same_text(builds[i].id.as_str(), digest) {
            return true;
        }
        i = i + 1;
    }
    false
}

/// Whether a downloaded image is the build it was fetched as: its digest is
/// the id the channel gave the build.
pub fn image_matches(build: &OtaBuild, data: &[u8]) -> (r: bool)
    ensures
        r == (hex_of(sha256_of(data@)) == build.id@),
{
    let digest = image_digest(data);
    same_text(digest.as_str(), build.id.as_str())
}

/// Whether an image is one the channel lists: some build's id is the
/// image's digest.
pub fn image_listed(builds: &Vec<OtaBuild>, data: &[u8]) -> (r: bool)
    ensures
        r == exists|j: int| 0 <= j < builds@.len() && #[trigger] builds@[j].id@ == hex_of(sha256_of(data@)),
{
    let digest = image_digest(data);
    build_listed(builds, digest.as_str())
}

} // verus!
