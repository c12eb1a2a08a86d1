//! Which mounts sit under a directory, read from a mount table such as
//! `/proc/mounts`: the ones to take down, deepest first, before the
//! directory itself can go.

use vstd::prelude::*;

use crate::actions::runtime_cmd::{ends_with, ends_with_str};
use crate::broker::registry::{name_before, sort_names};
use crate::text::{
    chars_of, lines_chars, lines_of, push_str, slice_chars, starts_with_chars, string_of, words_chars,
    words_of,
};

verus! {

broadcast use vstd::string::group_string_axioms;

/// What the kernel appends to a mount point whose directory was removed
/// (an escaped space, then `(deleted)`).
pub const DELETED_MARKER: &'static str = "\\040(deleted)";

/// A mount point without the removed-directory marker.
pub open spec fn without_marker(m: Seq<char>) -> Seq<char> {
    if ends_with(m, DELETED_MARKER@) {
        m.take(m.len() - DELETED_MARKER@.len())
    } else {
        m
    }
}

/// Whether a table line has the mount point where it should be: a source
/// and then the point, separated by white space.
pub open spec fn parsable(line: Seq<char>) -> bool {
    words_of(line).len() >= 2
}

/// The mount points, in table order, of the lines whose point starts with
/// `prefix`, each without the removed-directory marker.
pub open spec fn points_under(prefix: Seq<char>, lines: Seq<Seq<char>>) -> Seq<Seq<char>>
    decreases lines.len(),
{
    if lines.len() == 0 {
        Seq::empty()
    } else {
        let rest = points_under(prefix, lines.drop_last());
        let m = words_of(lines.last())[1];
        if prefix.is_prefix_of(m) {
            rest.push(without_marker(m))
        } else {
            rest
        }
    }
}

/// Later ones never come after earlier ones: the reverse of name order.
pub open spec fn descending(s: Seq<Seq<char>>) -> bool {
    forall|i: int, j: int| 0 <= i < j < s.len() ==> !name_before(#[trigger] s[i], #[trigger] s[j])
}

/// What a line that is not a mount table line is reported as.
pub open spec fn parse_error_text(source: Seq<char>, line: Seq<char>) -> Seq<char> {
    "Failed to parse line in "@ + source + ": "@ + line
}

/// The error for a line that is not a table line.
fn parse_error(source: &str, line: &Vec<char>) -> (e: String)
    ensures
        e@ == parse_error_text(source@, line@),
{
    let mut v: Vec<char> = Vec::new();
    push_str(&mut v, "Failed to parse line in ");
    push_str(&mut v, source);
    push_str(&mut v, ": ");
    let ghost head = v@;
    let mut j: usize = 0;
    while j < line.len()
        invariant
            j <= line@.len(),
            v@ == head + line@.take(j as int),
        decreases line@.len() - j,
    {
        v.push(line[j]);
        j = j + 1;
        assert(v@ =~= head + line@.take(j as int));
    }
    assert(line@.take(line@.len() as int) =~= line@);
    assert(v@ =~= parse_error_text(source@, line@));
    string_of(v.as_slice())
}

/// The same strings, last first.
fn reversed(v: Vec<String>) -> (r: Vec<String>)
    ensures
        r@.len() == v@.len(),
        forall|j: int| 0 <= j < v@.len() ==> (#[trigger] r@[j])@ == v@[v@.len() - 1 - j]@,
{
    let mut r: Vec<String> = Vec::new();
    let n = v.len();
    let mut k: usize = n;
    while k > 0
        invariant
            k <= n,
            n == v@.len(),
            r@.len() == n - k,
            forall|j: int| 0 <= j < n - k ==> (#[trigger] r@[j])@ == v@[n - 1 - j]@,
        decreases k,
    {
        k = k - 1;
        r.push(v[k].clone());
    }
    r
}

/// The mount points under `prefix` in the table `content` read from
/// `source`, deepest first: in reverse name order, so a mount inside another
/// comes before it. The first line that is not a table line is an error that
/// quotes it.
pub fn mounts_under(prefix: &str, source: &str, content: &str) -> (r: Result<Vec<String>, String>)
    ensures
        r is Ok <==> forall|k: int| 0 <= k < lines_of(content@).len() ==> parsable(#[trigger] lines_of(content@)[k]),
        match r {
            Ok(v) => {
                &&& descending(v@.map_values(|s: String| s@))
                &&& v@.map_values(|s: String| s@).to_multiset() == points_under(prefix@, lines_of(content@)).to_multiset()
            },
            Err(e) => exists|k: int|
                0 <= k < lines_of(content@).len() && !parsable(#[trigger] lines_of(content@)[k]) && (forall|j: int|
                    0 <= j < k ==> parsable(#[trigger] lines_of(content@)[j])) && e@ == parse_error_text(
                    source@,
                    lines_of(content@)[k],
                ),
        },
{
    proof {
        reveal_strlit("\\040(deleted)");
        assert(DELETED_MARKER@.len() == 13);
    }
    let text = chars_of(content);
    let lines = lines_chars(text.as_slice());
    let ghost ls = lines_of(content@);
    let pre = chars_of(prefix);
    let mut found: Vec<String> = Vec::new();
    let mut i: usize = 0;
    while i < lines.len()
        invariant
            ls == lines_of(content@),
            DELETED_MARKER@.len() == 13,
            text@ == content@,
            pre@ == prefix@,
            lines@.len() == ls.len(),
            forall|k: int| 0 <= k < ls.len() ==> (#[trigger] lines@[k])@ == ls[k],
            i <= ls.len(),
            forall|k: int| 0 <= k < i ==> parsable(#[trigger] ls[k]),
            found@.map_values(|s: String| s@) == points_under(prefix@, ls.take(i as int)),
        decreases ls.len() - i,
    {
        let words = words_chars(lines[i].as_slice());
        proof {
            assert(words@.map_values(|w: Vec<char>| w@).len() == words@.len());
        }
        if words.len() < 2 {
            let e = parse_error(source, &lines[i]);
            proof {
                let k = i as int;
                assert(!parsable(ls[k]));
                assert(0 <= k < lines_of(content@).len() && !parsable(lines_of(content@)[k]) && (forall|j: int|
                    0 <= j < k ==> parsable(#[trigger] lines_of(content@)[j])) && e@ == parse_error_text(
                    source@,
                    lines_of(content@)[k],
                ));
            }
            return Err(e);
        }
        let point = &words[1];
        proof {
            assert(point@ == words_of(ls[i as int])[1]);
            assert(ls.take(i + 1).drop_last() =~= ls.take(i as int));
            assert(ls.take(i + 1).last() == ls[i as int]);
        }
        if starts_with_chars(point.as_slice(), pre.as_slice()) {
            let whole = string_of(point.as_slice());
            let kept = if ends_with_str(whole.as_str(), DELETED_MARKER) {
                let cut = slice_chars(point.as_slice(), 0, point.len() - 13);
                assert(cut@ =~= point@.take(point@.len() - DELETED_MARKER@.len()));
                string_of(cut.as_slice())
            } else {
                whole
            };
            found.push(kept);
            assert(found@.map_values(|s: String| s@) =~= points_under(prefix@, ls.take(i + 1)));
        } else {
            assert(found@.map_values(|s: String| s@) =~= points_under(prefix@, ls.take(i + 1)));
        }
        i = i + 1;
    }
    assert(ls.take(ls.len() as int) =~= ls);
    let ascending = sort_names(found);
    let ghost a = ascending@.map_values(|s: String| s@);
    let r = reversed(ascending);
    proof {
        let rv = r@.map_values(|s: String| s@);
        assert(rv =~= a.reverse());
        a.lemma_reverse_to_multiset();
        let n = a.len();
        assert forall|i: int, j: int| 0 <= i < j < rv.len() implies !name_before(#[trigger] rv[i], #[trigger] rv[j]) by {
            assert(rv[i] == a[n - 1 - i]);
            assert(rv[j] == a[n - 1 - j]);
        }
    }
    Ok(r)
}

} // verus!
