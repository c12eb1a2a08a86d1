//! The HTTP cache layout: `<work>/cache_http/<prefix>_<sha256(url)>`.

use vstd::prelude::*;

use crate::text::{chars_of, push_str, string_of};

verus! {

broadcast use vstd::string::group_string_axioms;

/// The SHA-256 digest of some bytes.
pub uninterp spec fn sha256_of(data: Seq<u8>) -> Seq<u8>;

/// `Sha256::digest`, as a vector of bytes.
///
/// The sha2 crate computes the digest FIPS 180-4 defines, which is 32 bytes
/// long; what those bytes are is left to the name.
#[verifier::external_body]
pub(crate) fn sha256(data: &[u8]) -> (r: Vec<u8>)
    ensures
        r@ == sha256_of(data@),
        r@.len() == 32,
{
    <sha2::Sha256 as sha2::Digest>::digest(data).to_vec()
}

/// A lowercase hexadecimal digit.
pub open spec fn hex_digit(n: u8) -> char {
    if n < 10 {
        ((48 + n) as u8) as char
    } else {
        ((87 + n) as u8) as char
    }
}

/// Bytes in lowercase hexadecimal, two digits each, the high half first.
pub open spec fn hex_of(b: Seq<u8>) -> Seq<char>
    decreases b.len(),
{
    if b.len() == 0 {
        Seq::empty()
    } else {
        hex_of(b.drop_last()) + seq![hex_digit(b.last() >> 4u8), hex_digit(b.last() & 0x0f)]
    }
}

/// `hex::encode`: each byte as two lowercase hexadecimal digits, the high
/// half first, as the hex crate's lowercase table writes them.
#[verifier::external_body]
pub(crate) fn hex_encode(b: &[u8]) -> (r: String)
    ensures
        r@ == hex_of(b@),
{
    hex::encode(b)
}

/// Every `/` of a prefix as `_`.
pub open spec fn flat_prefix(prefix: Seq<char>) -> Seq<char> {
    prefix.map_values(|c: char| if c == '/' { '_' } else { c })
}

/// Where a download of `url` is cached.
pub open spec fn cache_path_of(work: Seq<char>, prefix: Seq<char>, url: Seq<char>) -> Seq<char> {
    work + "/cache_http/"@ + flat_prefix(prefix) + "_"@ + hex_of(sha256_of(vstd::utf8::encode_utf8(url)))
}

/// Where a download of `url` is cached: the prefix with its slashes made
/// underscores, then the SHA-256 of the URL in hexadecimal.
pub fn cache_path(work: &str, prefix: &str, url: &str) -> (r: String)
    ensures
        r@ == cache_path_of(work@, prefix@, url@),
{
    let p = chars_of(prefix);
    let mut flat: Vec<char> = Vec::new();
    let mut i: usize = 0;
    while i < p.len()
        invariant
            p@ == prefix@,
            i <= p@.len(),
            flat@ == p@.take(i as int).map_values(|c: char| if c == '/' { '_' } else { c }),
        decreases p@.len() - i,
    {
        let c = p[i];
        flat.push(if c == '/' { '_' } else { c });
        i = i + 1;
        assert(flat@ =~= p@.take(i as int).map_values(|c: char| if c == '/' { '_' } else { c }));
    }
    assert(p@.take(p@.len() as int) =~= p@);
    let digest = sha256(url.as_bytes());
    let hex = hex_encode(digest.as_slice());
    let mut v: Vec<char> = Vec::new();
    push_str(&mut v, work);
    push_str(&mut v, "/cache_http/");
    let ghost before = v@;
    let mut j: usize = 0;
    while j < flat.len()
        invariant
            j <= flat@.len(),
            v@ == before + flat@.take(j as int),
        decreases flat@.len() - j,
    {
        v.push(flat[j]);
        j = j + 1;
        assert(v@ =~= before + flat@.take(j as int));
    }
    assert(flat@.take(flat@.len() as int) =~= flat@);
    push_str(&mut v, "_");
    push_str(&mut v, hex.as_str());
    assert(v@ =~= cache_path_of(work@, prefix@, url@));
    string_of(v.as_slice())
}

} // verus!
