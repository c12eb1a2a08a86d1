//! Reading the configuration file: a small INI reader and the merge of its
//! `[mosaic]` section over the defaults.

use vstd::prelude::*;

use crate::config::{config_keys, Defaults};
use crate::text::{
    chars_of, decimal, decimal_chars, find_chars, first_match, lines_chars, lines_of, parse_u32,
    parse_u32_chars, same_chars, same_text, slice_chars, text_of, trim, trim_chars,
};

verus! {

broadcast use vstd::string::group_string_axioms;

/// Whether a trimmed line says nothing: empty, or a `#` or `;` comment.
pub open spec fn blank_line(l: Seq<char>) -> bool {
    l.len() == 0 || l[0] == '#' || l[0] == ';'
}

/// The section a trimmed line opens, `[name]`, its name trimmed.
pub open spec fn header_of(l: Seq<char>) -> Option<Seq<char>> {
    if !blank_line(l) && l[0] == '[' && l.last() == ']' && l.len() >= 2 {
        Some(trim(l.subrange(1, l.len() - 1)))
    } else if !blank_line(l) && l[0] == '[' && l.last() == ']' {
        Some(Seq::empty())
    } else {
        None
    }
}

/// The key and value a trimmed line assigns: split at its first `=`, or its
/// first `:` when it has no `=`, both sides trimmed.
pub open spec fn assignment_of(l: Seq<char>) -> Option<(Seq<char>, Seq<char>)> {
    match first_match(l, seq!['='], 0) {
        Some(e) => Some((trim(l.take(e)), trim(l.subrange(e + 1, l.len() as int)))),
        None => match first_match(l, seq![':'], 0) {
            Some(e) => Some((trim(l.take(e)), trim(l.subrange(e + 1, l.len() as int)))),
            None => None,
        },
    }
}

/// The section the first `n` lines leave open: the name of the last header
/// among them, or none yet.
pub open spec fn section_after(lines: Seq<Seq<char>>, n: int) -> Seq<char>
    decreases n,
{
    if n <= 0 || n > lines.len() {
        Seq::empty()
    } else {
        let l = trim(lines[n - 1]);
        match header_of(l) {
            Some(name) if !blank_line(l) => name,
            _ => section_after(lines, n - 1),
        }
    }
}

/// What line `i` assigns inside section `section`, if anything.
pub open spec fn assigns_in(lines: Seq<Seq<char>>, i: int, section: Seq<char>) -> Option<(Seq<char>, Seq<char>)> {
    let l = trim(lines[i]);
    if blank_line(l) || header_of(l) is Some || section_after(lines, i).len() == 0 || section_after(
        lines,
        i,
    ) != section {
        None
    } else {
        assignment_of(l)
    }
}

/// The value the first `n` lines last give `key` in `section`.
pub open spec fn ini_value_in(lines: Seq<Seq<char>>, section: Seq<char>, key: Seq<char>, n: int) -> Option<Seq<char>>
    decreases n,
{
    if n <= 0 || n > lines.len() {
        None
    } else {
        match assigns_in(lines, n - 1, section) {
            Some((k, v)) if k == key => Some(v),
            _ => ini_value_in(lines, section, key, n - 1),
        }
    }
}

/// The value an INI text gives `key` in `section`: the last assignment to it
/// under a header of that name.
pub open spec fn ini_value(content: Seq<char>, section: Seq<char>, key: Seq<char>) -> Option<Seq<char>> {
    let lines = lines_of(content);
    ini_value_in(lines, section, key, lines.len() as int)
}

/// The value an INI text gives `key` in `section`.
pub fn ini_lookup(content: &str, section: &str, key: &str) -> (r: Option<String>)
    ensures
        match ini_value(content@, section@, key@) {
            Some(v) => r is Some && r->0@ == v,
            None => r is None,
        },
{
    let text = chars_of(content);
    let want_section = chars_of(section);
    let want_key = chars_of(key);
    let lines = lines_chars(text.as_slice());
    let ghost ls = lines_of(content@);
    let eq: Vec<char> = vec!['='];
    let colon: Vec<char> = vec![':'];
    assert(eq@ =~= seq!['=']);
    assert(colon@ =~= seq![':']);
    let mut current: Vec<char> = Vec::new();
    let mut found: Option<Vec<char>> = None;
    let mut i: usize = 0;
    assert(section_after(ls, 0) =~= Seq::<char>::empty());
    while i < lines.len()
        invariant
            ls == lines_of(content@),
            lines@.len() == ls.len(),
            forall|k: int| 0 <= k < lines@.len() ==> (#[trigger] lines@[k])@ == ls[k],
            want_section@ == section@,
            want_key@ == key@,
            eq@ == seq!['='],
            colon@ == seq![':'],
            i <= lines@.len(),
            current@ == section_after(ls, i as int),
            match ini_value_in(ls, section@, key@, i as int) {
                Some(v) => found is Some && found->0@ == v,
                None => found is None,
            },
        decreases lines@.len() - i,
    {
        let l = trim_chars(lines[i].as_slice());
        let ghost lv = trim(ls[i as int]);
        assert(l@ == lv);
        let blank = l.len() == 0 || l[0] == '#' || l[0] == ';';
        if !blank && l[0] == '[' && l[l.len() - 1] == ']' {
            if l.len() >= 2 {
                let inner = slice_chars(l.as_slice(), 1, l.len() - 1);
                current = trim_chars(inner.as_slice());
            } else {
                current = Vec::new();
            }
            proof {
                assert(section_after(ls, i + 1) == current@);
                assert(assigns_in(ls, i as int, section@) is None);
            }
        } else {
            proof {
                assert(header_of(lv) is None);
                assert(section_after(ls, i + 1) == section_after(ls, i as int));
            }
            if !blank && current.len() > 0 && same_chars(current.as_slice(), want_section.as_slice()) {
                let at = match find_chars(l.as_slice(), eq.as_slice()) {
                    Some(e) => Some(e),
                    None => find_chars(l.as_slice(), colon.as_slice()),
                };
                proof {
                    crate::text::lemma_first_match(l@, eq@, 0);
                    crate::text::lemma_first_match(l@, colon@, 0);
                }
                match at {
                    Some(e) => {
                        let left = slice_chars(l.as_slice(), 0, e);
                        let k = trim_chars(left.as_slice());
                        let right = slice_chars(l.as_slice(), e + 1, l.len());
                        let v = trim_chars(right.as_slice());
                        proof {
                            assert(left@ =~= l@.take(e as int));
                            assert(assigns_in(ls, i as int, section@) == Some((k@, v@)));
                        }
                        if same_chars(k.as_slice(), want_key.as_slice()) {
                            found = Some(v);
                        }
                    },
                    None => {
                        proof {
                            assert(assigns_in(ls, i as int, section@) is None);
                        }
                    },
                }
            } else {
                proof {
                    assert(assigns_in(ls, i as int, section@) is None);
                }
            }
        }
        i = i + 1;
    }
    match found {
        Some(v) => Some(text_of(&v)),
        None => None,
    }
}

/// A configuration: one value for each of the keys it holds.
#[derive(Debug, Clone)]
pub struct MosaicConfig {
    entries: Vec<(String, String)>,
}

/// The value the first entry with `key` has.
pub open spec fn entry_value(entries: Seq<(Seq<char>, Seq<char>)>, key: Seq<char>) -> Option<Seq<char>>
    decreases entries.len(),
{
    if entries.len() == 0 {
        None
    } else if entries[0].0 == key {
        Some(entries[0].1)
    } else {
        entry_value(entries.drop_first(), key)
    }
}

impl View for MosaicConfig {
    type V = Seq<(Seq<char>, Seq<char>)>;

    closed spec fn view(&self) -> Seq<(Seq<char>, Seq<char>)> {
        self.entries@.map_values(|e: (String, String)| (e.0@, e.1@))
    }
}

/// What a configuration gives `key`.
pub open spec fn config_value(c: Seq<(Seq<char>, Seq<char>)>, key: Seq<char>) -> Option<Seq<char>> {
    entry_value(c, key)
}

/// A number a configuration gives `key`, or `fallback` where it gives none
/// or one that does not read as a number.
pub open spec fn number_or(c: Seq<(Seq<char>, Seq<char>)>, key: Seq<char>, fallback: u32) -> u32 {
    match config_value(c, key) {
        Some(v) => match parse_u32(v) {
            Some(n) => n,
            None => fallback,
        },
        None => fallback,
    }
}

impl MosaicConfig {
    /// The value of a key.
    pub fn get(&self, key: &str) -> (r: Option<&String>)
        ensures
            match config_value(self@, key@) {
                Some(v) => r is Some && r->0@ == v,
                None => r is None,
            },
    {
        let mut i: usize = 0;
        assert(self@.skip(0) =~= self@);
        while i < self.entries.len()
            invariant
                i <= self@.len(),
                self@.len() == self.entries@.len(),
                config_value(self@, key@) == entry_value(self@.skip(i as int), key@),
            decreases self@.len() - i,
        {
            proof {
                let s = self@.skip(i as int);
                assert(s[0] == self@[i as int]);
                assert(s.drop_first() =~= self@.skip(i + 1));
                assert(self@[i as int] == (self.entries@[i as int].0@, self.entries@[i as int].1@));
            }
            if same_text(self.entries[i].0.as_str(), key) {
                return Some(&self.entries[i].1);
            }
            i = i + 1;
        }
        None
    }

    /// The keys it holds, in the order they were set.
    pub fn keys(&self) -> (r: Vec<String>)
        ensures
            r@.map_values(|s: String| s@) == self@.map_values(|e: (Seq<char>, Seq<char>)| e.0),
    {
        let mut r: Vec<String> = Vec::new();
        let mut i: usize = 0;
        while i < self.entries.len()
            invariant
                i <= self.entries@.len(),
                r@.len() == i,
                forall|k: int| 0 <= k < i ==> (#[trigger] r@[k])@ == self.entries@[k].0@,
            decreases self.entries@.len() - i,
        {
            r.push(self.entries[i].0.clone());
            i = i + 1;
        }
        assert(r@.map_values(|s: String| s@) =~= self@.map_values(|e: (Seq<char>, Seq<char>)| e.0));
        r
    }

    /// Set a key, replacing the value it had.
    pub fn set(&mut self, key: &str, value: &str)
        ensures
            config_value(final(self)@, key@) == Some(value@),
            forall|k: Seq<char>| k != key@ ==> config_value(final(self)@, k) == config_value(old(self)@, k),
    {
        let ghost s = self@;
        let mut i: usize = 0;
        while i < self.entries.len()
            invariant
                i <= s.len(),
                s == self@,
                s == old(self)@,
                s.len() == self.entries@.len(),
                forall|j: int| 0 <= j < i ==> s[j].0 != key@,
            decreases s.len() - i,
        {
            assert(s[i as int] == (self.entries@[i as int].0@, self.entries@[i as int].1@));
            if same_text(self.entries[i].0.as_str(), key) {
                self.entries.set(i, (key.to_owned(), value.to_owned()));
                proof {
                    let t = self@;
                    assert(t =~= s.update(i as int, (key@, value@)));
                    assert forall|k: Seq<char>| true implies config_value(t, k) == (if k == key@ {
                        Some(value@)
                    } else {
                        config_value(s, k)
                    }) by {
                        lemma_entry_update(s, i as int, key@, value@, k);
                    }
                }
                return;
            }
            i = i + 1;
        }
        self.entries.push((key.to_owned(), value.to_owned()));
        proof {
            let t = self@;
            assert(t =~= s.push((key@, value@)));
            assert forall|k: Seq<char>| true implies config_value(t, k) == (if k == key@ {
                Some(value@)
            } else {
                config_value(s, k)
            }) by {
                lemma_entry_push(s, key@, value@, k);
            }
        }
    }

    /// The UID range reserved for per-app users: the configured numbers, or
    /// the default range where they are missing or do not read.
    pub fn uid_range(&self) -> (r: (u32, u32))
        ensures
            r == (
                number_or(self@, "uid_range_start"@, crate::config::UID_RANGE_START),
                number_or(self@, "uid_range_end"@, crate::config::UID_RANGE_END),
            ),
    {
        let start = match self.get("uid_range_start") {
            Some(v) => {
                let c = chars_of(v.as_str());
                match parse_u32_chars(c.as_slice()) {
                    Some(n) => n,
                    None => crate::config::UID_RANGE_START,
                }
            },
            None => crate::config::UID_RANGE_START,
        };
        let end = match self.get("uid_range_end") {
            Some(v) => {
                let c = chars_of(v.as_str());
                match parse_u32_chars(c.as_slice()) {
                    Some(n) => n,
                    None => crate::config::UID_RANGE_END,
                }
            },
            None => crate::config::UID_RANGE_END,
        };
        (start, end)
    }

    /// The bundle version: the environment's when it sets a non-empty one,
    /// then the configuration's, then `local`.
    pub fn bundle_version(&self, env: Option<&str>) -> (r: String)
        ensures
            r@ == match env {
                Some(e) if e@.len() > 0 => e@,
                _ => match config_value(self@, "bundle_version"@) {
                    Some(v) => v,
                    None => "local"@,
                },
            },
    {
        match env {
            Some(e) if !e.is_empty() => {
                return e.to_owned();
            },
            _ => {},
        }
        match self.get("bundle_version") {
            Some(v) => v.clone(),
            None => "local".to_owned(),
        }
    }

    /// Where a published bundle is fetched from: the environment's when it
    /// sets a non-empty one, then the configuration's, then `0`.
    pub fn bundle_channel(&self, env: Option<&str>) -> (r: String)
        ensures
            r@ == match env {
                Some(e) if e@.len() > 0 => e@,
                _ => match config_value(self@, "bundle_channel"@) {
                    Some(v) => v,
                    None => "0"@,
                },
            },
    {
        match env {
            Some(e) if !e.is_empty() => {
                return e.to_owned();
            },
            _ => {},
        }
        match self.get("bundle_channel") {
            Some(v) => v.clone(),
            None => "0".to_owned(),
        }
    }
}

proof fn lemma_entry_update(s: Seq<(Seq<char>, Seq<char>)>, i: int, key: Seq<char>, value: Seq<char>, k: Seq<char>)
    requires
        0 <= i < s.len(),
        s[i].0 == key,
        forall|j: int| 0 <= j < i ==> s[j].0 != key,
    ensures
        entry_value(s.update(i, (key, value)), k) == (if k == key {
            Some(value)
        } else {
            entry_value(s, k)
        }),
    decreases i,
{
    let t = s.update(i, (key, value));
    if i > 0 {
        lemma_entry_update(s.drop_first(), i - 1, key, value, k);
        assert(t.drop_first() =~= s.drop_first().update(i - 1, (key, value)));
        assert(t[0] == s[0]);
    } else {
        assert(t.drop_first() =~= s.drop_first());
        assert(t[0] == (key, value));
    }
}

proof fn lemma_entry_push(s: Seq<(Seq<char>, Seq<char>)>, key: Seq<char>, value: Seq<char>, k: Seq<char>)
    requires
        forall|j: int| 0 <= j < s.len() ==> s[j].0 != key,
    ensures
        entry_value(s.push((key, value)), k) == (if k == key {
            Some(value)
        } else {
            entry_value(s, k)
        }),
    decreases s.len(),
{
    let t = s.push((key, value));
    if s.len() > 0 {
        lemma_entry_push(s.drop_first(), key, value, k);
        assert(t.drop_first() =~= s.drop_first().push((key, value)));
        assert(t[0] == s[0]);
    } else {
        assert(t.drop_first() =~= Seq::<(Seq<char>, Seq<char>)>::empty());
        assert(t[0] == (key, value));
        assert(entry_value(t.drop_first(), k) is None);
    }
}

/// The value a loaded configuration gives a key: the file's `[mosaic]`
/// section where it sets one, the default otherwise.
pub open spec fn loaded_value(content: Option<Seq<char>>, key: Seq<char>, default: Seq<char>) -> Seq<char> {
    match content {
        Some(text) => match ini_value(text, "mosaic"@, key) {
            Some(v) => v,
            None => default,
        },
        None => default,
    }
}

/// Load a configuration from the text of its file (`None` when there is no
/// file): the `[mosaic]` section over the defaults, each of the configuration
/// keys and nothing else, so an old file cannot bring back settings that no
/// longer exist.
pub fn load(content: Option<&str>, defaults: &Defaults) -> (c: MosaicConfig)
    ensures
        c@.len() == 4,
        forall|i: int| 0 <= i < 4 ==> (#[trigger] c@[i]).0 == config_keys()[i],
        c@[0].1 == loaded_value(
            match content { Some(t) => Some(t@), None => None },
            "bundle_channel"@,
            defaults.bundle_channel@,
        ),
        c@[1].1 == loaded_value(
            match content { Some(t) => Some(t@), None => None },
            "bundle_version"@,
            defaults.bundle_version@,
        ),
        c@[2].1 == loaded_value(
            match content { Some(t) => Some(t@), None => None },
            "uid_range_start"@,
            decimal_chars(defaults.uid_range_start as nat),
        ),
        c@[3].1 == loaded_value(
            match content { Some(t) => Some(t@), None => None },
            "uid_range_end"@,
            decimal_chars(defaults.uid_range_end as nat),
        ),
{
    let channel = pick(content, "bundle_channel", defaults.bundle_channel.clone());
    let version = pick(content, "bundle_version", defaults.bundle_version.clone());
    let start = pick(content, "uid_range_start", decimal(defaults.uid_range_start as u64));
    let end = pick(content, "uid_range_end", decimal(defaults.uid_range_end as u64));
    let mut entries: Vec<(String, String)> = Vec::new();
    entries.push(("bundle_channel".to_owned(), channel));
    entries.push(("bundle_version".to_owned(), version));
    entries.push(("uid_range_start".to_owned(), start));
    entries.push(("uid_range_end".to_owned(), end));
    let c = MosaicConfig { entries };
    assert(c@[0].0 == config_keys()[0]);
    assert(c@[1].0 == config_keys()[1]);
    assert(c@[2].0 == config_keys()[2]);
    assert(c@[3].0 == config_keys()[3]);
    c
}

/// The file's value for a key of the `[mosaic]` section, or the default.
fn pick(content: Option<&str>, key: &str, default: String) -> (r: String)
    ensures
        r@ == loaded_value(
            match content { Some(t) => Some(t@), None => None },
            key@,
            default@,
        ),
{
    match content {
        Some(text) => match ini_lookup(text, "mosaic", key) {
            Some(v) => v,
            None => default,
        },
        None => default,
    }
}

} // verus!
