//! Android properties: the `[key]: [value]` lines `getprop` prints, and the
//! `key=value` lines of a `build.prop`.

use vstd::prelude::*;

use crate::text::{
    chars_of, find_chars, first_match, lines_chars, lines_of, same_chars, slice_chars, text_of,
    trim, trim_chars,
};

verus! {

/// The key and value of a `getprop` line, `[key]: [value]`.
pub open spec fn getprop_line_of(line: Seq<char>) -> Option<(Seq<char>, Seq<char>)> {
    let l = trim(line);
    if l.len() == 0 || l[0] != '[' {
        None
    } else {
        match first_match(l, seq![']', ':'], 0) {
            None => None,
            Some(k) => {
                let v = trim(l.subrange(k + 2, l.len() as int));
                if v.len() > 0 && v[0] == '[' && v.last() == ']' {
                    Some((l.subrange(1, k), v.subrange(1, v.len() - 1)))
                } else {
                    None
                }
            },
        }
    }
}

/// The key and value of a line `getprop` prints: `[key]: [value]`.
pub fn parse_getprop_line(line: &str) -> (r: Option<(String, String)>)
    ensures
        match getprop_line_of(line@) {
            Some((k, v)) => r is Some && (r->0).0@ == k && (r->0).1@ == v,
            None => r is None,
        },
{
    let raw = chars_of(line);
    let l = trim_chars(raw.as_slice());
    if l.len() == 0 || l[0] != '[' {
        return None;
    }
    let needle: Vec<char> = vec![']', ':'];
    assert(needle@ =~= seq![']', ':']);
    let key_end = match find_chars(l.as_slice(), needle.as_slice()) {
        Some(k) => k,
        None => return None,
    };
    proof {
        crate::text::lemma_first_match(l@, needle@, 0);
        if key_end == 0 {
            assert(l@.subrange(0, 2)[0] == l@[0]);
        }
    }
    let key = slice_chars(l.as_slice(), 1, key_end);
    let after = slice_chars(l.as_slice(), key_end + 2, l.len());
    let v = trim_chars(after.as_slice());
    if v.len() > 0 && v[0] == '[' && v[v.len() - 1] == ']' {
        let val = slice_chars(v.as_slice(), 1, v.len() - 1);
        Some((text_of(&key), text_of(&val)))
    } else {
        None
    }
}

/// The value a `key=value` line gives `key`: the line trimmed, not empty and
/// not a `#` comment, split at its first `=`, both sides trimmed.
pub open spec fn prop_of_line(line: Seq<char>, key: Seq<char>) -> Option<Seq<char>> {
    let l = trim(line);
    if l.len() == 0 || l[0] == '#' {
        None
    } else {
        match first_match(l, seq!['='], 0) {
            None => None,
            Some(e) => if trim(l.take(e)) == key {
                Some(trim(l.subrange(e + 1, l.len() as int)))
            } else {
                None
            },
        }
    }
}

/// The first value lines from `i` on give `key`.
pub open spec fn prop_in_lines(lines: Seq<Seq<char>>, key: Seq<char>, i: int) -> Option<Seq<char>>
    decreases lines.len() - i,
{
    if i < 0 || i >= lines.len() {
        None
    } else {
        match prop_of_line(lines[i], key) {
            Some(v) => Some(v),
            None => prop_in_lines(lines, key, i + 1),
        }
    }
}

/// The value of `key` in the text of a property file: the first line that
/// sets it wins.
pub fn prop_value(content: &str, key: &str) -> (r: Option<String>)
    ensures
        match prop_in_lines(lines_of(content@), key@, 0) {
            Some(v) => r is Some && r->0@ == v,
            None => r is None,
        },
{
    let text = chars_of(content);
    let want = chars_of(key);
    let lines = lines_chars(text.as_slice());
    let ghost ls = lines_of(content@);
    let eq: Vec<char> = vec!['='];
    assert(eq@ =~= seq!['=']);
    let mut i: usize = 0;
    while i < lines.len()
        invariant
            ls == lines_of(content@),
            lines@.len() == ls.len(),
            forall|k: int| 0 <= k < lines@.len() ==> (#[trigger] lines@[k])@ == ls[k],
            want@ == key@,
            eq@ == seq!['='],
            i <= lines@.len(),
            prop_in_lines(ls, key@, 0) == prop_in_lines(ls, key@, i as int),
        decreases lines@.len() - i,
    {
        let l = trim_chars(lines[i].as_slice());
        if l.len() > 0 && l[0] != '#' {
            match find_chars(l.as_slice(), eq.as_slice()) {
                Some(e) => {
                    proof {
                        crate::text::lemma_first_match(l@, eq@, 0);
                    }
                    let left = slice_chars(l.as_slice(), 0, e);
                    let k = trim_chars(left.as_slice());
                    proof {
                        assert(left@ =~= l@.take(e as int));
                    }
                    if same_chars(k.as_slice(), want.as_slice()) {
                        let right = slice_chars(l.as_slice(), e + 1, l.len());
                        let v = trim_chars(right.as_slice());
                        proof {
                            assert(lines@[i as int]@ == ls[i as int]);
                            assert(first_match(l@, seq!['='], 0) == Some(e as int));
                            assert(prop_of_line(ls[i as int], key@) == Some(v@));
                        }
                        return Some(text_of(&v));
                    }
                },
                None => {},
            }
        }
        i = i + 1;
    }
    None
}

} // verus!
