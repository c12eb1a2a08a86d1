//! Version numbers as tuples of integers.

use vstd::prelude::*;

use crate::text::{chars_of, parse_u32, parse_u32_chars, split_chars, split_on};

verus! {

/// The parts of a dotted version that are numbers, in order; the others
/// are left out.
pub open spec fn version_parts(v: Seq<char>) -> Seq<u32> {
    split_on(v, '.').filter_map(|part: Seq<char>| parse_u32(part))
}

/// `"1.3.4"` as `[1, 3, 4]`: the dot-separated parts that read as numbers.
pub fn versiontuple(v: &str) -> (r: Vec<u32>)
    ensures
        r@ == version_parts(v@),
{
    let chars = chars_of(v);
    let parts = split_chars(chars.as_slice(), '.');
    let ghost p = split_on(v@, '.');
    let mut out: Vec<u32> = Vec::new();
    let mut i: usize = 0;
    while i < parts.len()
        invariant
            p == split_on(v@, '.'),
            parts@.len() == p.len(),
            forall|k: int| 0 <= k < parts@.len() ==> (#[trigger] parts@[k])@ == p[k],
            i <= parts@.len(),
            out@ == p.take(i as int).filter_map(|part: Seq<char>| parse_u32(part)),
        decreases parts@.len() - i,
    {
        let n = parse_u32_chars(parts[i].as_slice());
        proof {
            let t = p.take(i + 1);
            assert(t.drop_last() =~= p.take(i as int));
            assert(t.last() == p[i as int]);
        }
        match n {
            Some(x) => {
                out.push(x);
                proof {
                    let t = p.take(i + 1);
                    assert(t.filter_map(|part: Seq<char>| parse_u32(part)) =~= p.take(i as int).filter_map(
                        |part: Seq<char>| parse_u32(part),
                    ) + seq![x]);
                }
            },
            None => {},
        }
        i = i + 1;
    }
    assert(p.take(p.len() as int) =~= p);
    out
}

/// The major and minor number of a kernel release string: the first two
/// dot-separated parts, each read as a number, or `5` and `0` where they do
/// not read.
pub open spec fn release_version(release: Seq<char>) -> (u32, u32) {
    let p = split_on(release, '.');
    let major = match parse_u32(p[0]) {
        Some(x) => x,
        None => 5,
    };
    let minor = if p.len() > 1 {
        match parse_u32(p[1]) {
            Some(x) => x,
            None => 0,
        }
    } else {
        0
    };
    (major, minor)
}

/// The `(major, minor)` of a kernel release such as `6.8.0-arch1`.
pub fn kernel_version_of(release: &str) -> (r: (u32, u32))
    ensures
        r == release_version(release@),
{
    let chars = chars_of(release);
    let parts = split_chars(chars.as_slice(), '.');
    proof {
        crate::text::lemma_split_nonempty(release@, '.');
    }
    let major = match parse_u32_chars(parts[0].as_slice()) {
        Some(x) => x,
        None => 5,
    };
    let minor = if parts.len() > 1 {
        match parse_u32_chars(parts[1].as_slice()) {
            Some(x) => x,
            None => 0,
        }
    } else {
        0
    };
    (major, minor)
}

} // verus!
