//! Writing a configuration back: the text of its file.

use vstd::prelude::*;

use crate::broker::registry::{name_before, names_in_order, sort_names};
use crate::config::load::{config_value, entry_value, MosaicConfig};
use crate::config::load::{assignment_of, assigns_in, blank_line, header_of, ini_value, ini_value_in, section_after};
use crate::text::{first_match, is_space, lines_of, push_str, split_on, strip_cr, string_of, trim, trim_end, trim_start};

verus! {

broadcast use vstd::string::group_string_axioms;

/// One line of the file: `key = value`.
pub open spec fn setting_line(key: Seq<char>, value: Seq<char>) -> Seq<char> {
    key + " = "@ + value + "\n"@
}

/// The lines for these keys, in this order, each with the value the
/// configuration gives it.
pub open spec fn setting_lines(c: Seq<(Seq<char>, Seq<char>)>, keys: Seq<Seq<char>>) -> Seq<char>
    decreases keys.len(),
{
    if keys.len() == 0 {
        Seq::empty()
    } else {
        setting_lines(c, keys.drop_last()) + setting_line(
            keys.last(),
            match config_value(c, keys.last()) {
                Some(v) => v,
                None => Seq::empty(),
            },
        )
    }
}

/// The keys a configuration holds.
pub open spec fn keys_of(c: Seq<(Seq<char>, Seq<char>)>) -> Seq<Seq<char>> {
    c.map_values(|e: (Seq<char>, Seq<char>)| e.0)
}

impl MosaicConfig {
    /// The text of the configuration's file: the `[mosaic]` header, then a
    /// `key = value` line for each key, in name order.
    pub fn file_text(&self) -> (r: String)
        ensures
            exists|keys: Seq<Seq<char>>|
                names_in_order(keys) && keys.to_multiset() == keys_of(self@).to_multiset() && r@ == "[mosaic]\n"@
                    + setting_lines(self@, keys),
    {
        let names = self.keys();
        let sorted = sort_names(names);
        let ghost keys = sorted@.map_values(|s: String| s@);
        let mut v: Vec<char> = Vec::new();
        push_str(&mut v, "[mosaic]\n");
        let ghost head = v@;
        let mut i: usize = 0;
        while i < sorted.len()
            invariant
                i <= sorted@.len(),
                keys == sorted@.map_values(|s: String| s@),
                v@ == head + setting_lines(self@, keys.take(i as int)),
            decreases sorted@.len() - i,
        {
            let key = sorted[i].as_str();
            push_str(&mut v, key);
            push_str(&mut v, " = ");
            match self.get(key) {
                Some(value) => push_str(&mut v, value.as_str()),
                None => {},
            }
            push_str(&mut v, "\n");
            proof {
                let t = keys.take(i + 1);
                assert(t.drop_last() =~= keys.take(i as int));
                assert(t.last() == key@);
            }
            i = i + 1;
            assert(v@ =~= head + setting_lines(self@, keys.take(i as int)));
        }
        assert(keys.take(keys.len() as int) =~= keys);
        let r = string_of(v.as_slice());
        assert(names_in_order(keys) && keys.to_multiset() == keys_of(self@).to_multiset() && r@ == "[mosaic]\n"@
            + setting_lines(self@, keys));
        r
    }
}


/// A piece of text with no line feed in it.
pub open spec fn one_line(s: Seq<char>) -> bool {
    forall|i: int| 0 <= i < s.len() ==> s[i] != '\n'
}

/// No white space at either end.
pub open spec fn unpadded(s: Seq<char>) -> bool {
    s.len() > 0 ==> !is_space(s[0]) && !is_space(s.last())
}

/// A key the file can carry and give back: one line, not empty, no white
/// space at its ends, no `=` in it, and not starting like a comment or a
/// section header.
pub open spec fn plain_key(k: Seq<char>) -> bool {
    &&& k.len() > 0
    &&& unpadded(k)
    &&& one_line(k)
    &&& k[0] != '#' && k[0] != ';' && k[0] != '['
    &&& forall|i: int| 0 <= i < k.len() ==> k[i] != '='
}

/// A value the file can carry and give back: one line, no white space at
/// its ends.
pub open spec fn plain_value(v: Seq<char>) -> bool {
    unpadded(v) && one_line(v)
}

/// A line feed at the end starts an empty piece.
proof fn lemma_split_feed(p: Seq<char>)
    ensures
        split_on(p + seq!['\n'], '\n') == split_on(p, '\n').push(Seq::<char>::empty()),
{
    assert((p + seq!['\n']).drop_last() =~= p);
}

/// Text without a line feed extends the last piece.
proof fn lemma_split_line(p: Seq<char>, s: Seq<char>)
    requires
        one_line(s),
    ensures
        split_on(p + s, '\n') == split_on(p, '\n').update(
            split_on(p, '\n').len() - 1,
            split_on(p, '\n').last() + s,
        ),
    decreases s.len(),
{
    crate::text::lemma_split_nonempty(p, '\n');
    let sp = split_on(p, '\n');
    if s.len() == 0 {
        assert(p + s =~= p);
        assert(sp.last() + s =~= sp.last());
        assert(sp.update(sp.len() - 1, sp.last() + s) =~= sp);
    } else {
        let s0 = s.drop_last();
        assert(one_line(s0));
        lemma_split_line(p, s0);
        assert((p + s).drop_last() =~= p + s0);
        assert((p + s).last() == s.last());
        assert(s.last() != '\n');
        let rest = split_on(p + s0, '\n');
        assert(rest =~= sp.update(sp.len() - 1, sp.last() + s0));
        assert(rest.last() == sp.last() + s0);
        assert(rest.last().push(s.last()) =~= sp.last() + s);
        assert(rest.update(rest.len() - 1, rest.last().push(s.last())) =~= sp.update(sp.len() - 1, sp.last() + s));
    }
}


/// The value the file writes for a key.
pub open spec fn value_for(c: Seq<(Seq<char>, Seq<char>)>, k: Seq<char>) -> Seq<char> {
    match config_value(c, k) {
        Some(v) => v,
        None => Seq::empty(),
    }
}

/// A setting's line without its line feed.
pub open spec fn line_body(c: Seq<(Seq<char>, Seq<char>)>, k: Seq<char>) -> Seq<char> {
    k + " = "@ + value_for(c, k)
}

/// The lines of the file, its header first.
pub open spec fn file_lines(c: Seq<(Seq<char>, Seq<char>)>, keys: Seq<Seq<char>>) -> Seq<Seq<char>> {
    seq!["[mosaic]"@] + Seq::new(keys.len(), |i: int| line_body(c, keys[i]))
}

/// The file's text splits at its line feeds into the header, one piece per
/// setting, and the empty piece after the last line feed.
proof fn lemma_split_text(c: Seq<(Seq<char>, Seq<char>)>, keys: Seq<Seq<char>>, n: int)
    requires
        0 <= n <= keys.len(),
        forall|i: int| 0 <= i < keys.len() ==> one_line(#[trigger] line_body(c, keys[i])),
    ensures
        split_on("[mosaic]\n"@ + setting_lines(c, keys.take(n)), '\n') == file_lines(c, keys.take(n)).push(
            Seq::<char>::empty(),
        ),
    decreases n,
{
    reveal_strlit("[mosaic]\n");
    reveal_strlit("[mosaic]");
    reveal_strlit("\n");
    reveal_strlit(" = ");
    if n == 0 {
        let head = "[mosaic]"@;
        assert(one_line(head));
        assert(setting_lines(c, keys.take(0)) =~= Seq::<char>::empty());
        assert("[mosaic]\n"@ + setting_lines(c, keys.take(0)) =~= (Seq::<char>::empty() + head) + seq!['\n']);
        lemma_split_line(Seq::<char>::empty(), head);
        assert(split_on(Seq::<char>::empty(), '\n') =~= seq![Seq::<char>::empty()]);
        assert(split_on(Seq::<char>::empty() + head, '\n') =~= seq![head]);
        lemma_split_feed(Seq::<char>::empty() + head);
        assert(file_lines(c, keys.take(0)) =~= seq![head]);
    } else {
        lemma_split_text(c, keys, n - 1);
        let prev = "[mosaic]\n"@ + setting_lines(c, keys.take(n - 1));
        let k = keys[n - 1];
        let body = line_body(c, k);
        assert(keys.take(n).drop_last() =~= keys.take(n - 1));
        assert(keys.take(n).last() == k);
        assert(setting_lines(c, keys.take(n)) == setting_lines(c, keys.take(n - 1)) + setting_line(k, value_for(c, k)));
        assert("[mosaic]\n"@ + setting_lines(c, keys.take(n)) =~= (prev + body) + seq!['\n']);
        assert(one_line(body));
        lemma_split_line(prev, body);
        lemma_split_feed(prev + body);
        let sp = split_on(prev, '\n');
        assert(sp.last() == Seq::<char>::empty());
        assert(sp.update(sp.len() - 1, sp.last() + body) =~= file_lines(c, keys.take(n)));
    }
}


/// The file's lines: the header, then each setting's line.
proof fn lemma_lines_text(c: Seq<(Seq<char>, Seq<char>)>, keys: Seq<Seq<char>>)
    requires
        forall|i: int| 0 <= i < keys.len() ==> one_line(#[trigger] line_body(c, keys[i])),
        forall|i: int| 0 <= i < keys.len() ==> unpadded(#[trigger] value_for(c, keys[i])),
    ensures
        lines_of("[mosaic]\n"@ + setting_lines(c, keys)) == file_lines(c, keys),
{
    reveal_strlit("[mosaic]");
    reveal_strlit(" = ");
    lemma_split_text(c, keys, keys.len() as int);
    assert(keys.take(keys.len() as int) =~= keys);
    let fl = file_lines(c, keys);
    let p = fl.push(Seq::<char>::empty());
    assert forall|i: int| 0 <= i < fl.len() implies strip_cr(#[trigger] fl[i]) == fl[i] by {
        if i == 0 {
            assert(fl[0] == "[mosaic]"@);
            assert(fl[0].last() == ']');
        } else {
            let k = keys[i - 1];
            let v = value_for(c, k);
            assert(fl[i] == line_body(c, k));
            if v.len() > 0 {
                assert(fl[i].last() == v.last());
                assert(!is_space(v.last()));
            } else {
                assert(fl[i] =~= k + " = "@);
                assert(fl[i].last() == ' ');
            }
        }
    }
    let body = Seq::new((p.len() - 1) as nat, |i: int| strip_cr(p[i]));
    assert(body =~= fl);
}

/// Text with no white space at its ends trims to itself.
proof fn lemma_trim_unpadded(s: Seq<char>)
    requires
        unpadded(s),
    ensures
        trim(s) == s,
{
    assert(trim_start(s) == s);
    assert(trim_end(s) == s);
}

/// Where the first `=` is: at `j`, when there is none before it.
proof fn lemma_first_equals(l: Seq<char>, from: int, j: int)
    requires
        0 <= from <= j < l.len(),
        l[j] == '=',
        forall|m: int| from <= m < j ==> l[m] != '=',
    ensures
        first_match(l, seq!['='], from) == Some(j),
    decreases j - from,
{
    if from < j {
        assert(l.subrange(from, from + 1) != seq!['=']) by {
            assert(l.subrange(from, from + 1)[0] == l[from]);
        }
        lemma_first_equals(l, from + 1, j);
    } else {
        assert(l.subrange(from, from + 1) =~= seq!['=']);
    }
}


/// A setting's line, trimmed, is no comment and no header, and assigns its
/// value to its key.
proof fn lemma_setting_assigns(k: Seq<char>, v: Seq<char>)
    requires
        plain_key(k),
        plain_value(v),
    ensures
        !blank_line(trim(k + " = "@ + v)),
        header_of(trim(k + " = "@ + v)) is None,
        assignment_of(trim(k + " = "@ + v)) == Some((k, v)),
{
    reveal_strlit(" = ");
    reveal_strlit(" =");
    let body = k + " = "@ + v;
    let n = k.len() as int;
    let l = k + " ="@ + if v.len() > 0 { seq![' '] + v } else { Seq::<char>::empty() };
    if v.len() > 0 {
        assert(body =~= l);
        assert(body[0] == k[0]);
        assert(body.last() == v.last());
        lemma_trim_unpadded(body);
    } else {
        assert(body =~= k + " = "@);
        assert(body[0] == k[0]);
        assert(trim_start(body) == body);
        assert(body.last() == ' ');
        assert(body.drop_last() =~= l);
        assert(l.last() == '=');
        assert(trim_end(l) == l);
        assert(trim_end(body) == l);
    }
    assert(trim(body) == l);
    assert(l[0] == k[0]);
    assert(l[n] == ' ');
    assert(l[n + 1] == '=');
    assert forall|m: int| 0 <= m < n + 1 implies l[m] != '=' by {
        if m < n {
            assert(l[m] == k[m]);
        }
    }
    lemma_first_equals(l, 0, n + 1);
    let key_part = l.take(n + 1);
    assert(key_part =~= k.push(' '));
    assert(trim_start(key_part) == key_part);
    assert(key_part.drop_last() =~= k);
    assert(trim_end(k) == k);
    assert(trim_end(key_part) == k);
    let value_part = l.subrange(n + 2, l.len() as int);
    if v.len() > 0 {
        assert(value_part =~= seq![' '] + v);
        assert(value_part.drop_first() =~= v);
        assert(trim_start(v) == v);
        assert(trim_start(value_part) == v);
        assert(trim_end(v) == v);
    } else {
        assert(value_part =~= Seq::<char>::empty());
        assert(trim(value_part) =~= Seq::<char>::empty());
    }
}


/// Every setting's key and value are plain.
pub open spec fn plain_settings(c: Seq<(Seq<char>, Seq<char>)>, keys: Seq<Seq<char>>) -> bool {
    forall|i: int| 0 <= i < keys.len() ==> plain_key(#[trigger] keys[i]) && plain_value(value_for(c, keys[i]))
}

/// The header line opens the section `mosaic`.
proof fn lemma_header_line()
    ensures
        !blank_line(trim("[mosaic]"@)),
        header_of(trim("[mosaic]"@)) == Some("mosaic"@),
{
    reveal_strlit("[mosaic]");
    reveal_strlit("mosaic");
    let h = "[mosaic]"@;
    lemma_trim_unpadded(h);
    let inner = h.subrange(1, h.len() - 1);
    assert(inner =~= "mosaic"@);
    lemma_trim_unpadded(inner);
}

/// Below the header, every line is in the section `mosaic`.
proof fn lemma_sections(c: Seq<(Seq<char>, Seq<char>)>, keys: Seq<Seq<char>>, n: int)
    requires
        plain_settings(c, keys),
        1 <= n <= keys.len() + 1,
    ensures
        section_after(file_lines(c, keys), n) == "mosaic"@,
    decreases n,
{
    let lines = file_lines(c, keys);
    if n == 1 {
        lemma_header_line();
        assert(lines[0] == "[mosaic]"@);
    } else {
        let k = keys[n - 2];
        assert(lines[n - 1] == line_body(c, k));
        lemma_setting_assigns(k, value_for(c, k));
        lemma_sections(c, keys, n - 1);
    }
}

/// What each line of the file assigns in the section `mosaic`: nothing for
/// the header, its key and value for a setting.
proof fn lemma_assigns(c: Seq<(Seq<char>, Seq<char>)>, keys: Seq<Seq<char>>, i: int)
    requires
        plain_settings(c, keys),
        0 <= i <= keys.len(),
    ensures
        assigns_in(file_lines(c, keys), i, "mosaic"@) == if i == 0 {
            None
        } else {
            Some((keys[i - 1], value_for(c, keys[i - 1])))
        },
{
    let lines = file_lines(c, keys);
    if i == 0 {
        lemma_header_line();
        assert(lines[0] == "[mosaic]"@);
    } else {
        let k = keys[i - 1];
        assert(lines[i] == line_body(c, k));
        lemma_setting_assigns(k, value_for(c, k));
        lemma_sections(c, keys, i);
        reveal_strlit("mosaic");
    }
}

/// A key written once is read back with its value, once its line has been
/// read.
proof fn lemma_read_back(c: Seq<(Seq<char>, Seq<char>)>, keys: Seq<Seq<char>>, j: int, n: int)
    requires
        plain_settings(c, keys),
        keys.no_duplicates(),
        0 <= j < keys.len(),
        0 <= n <= keys.len() + 1,
    ensures
        ini_value_in(file_lines(c, keys), "mosaic"@, keys[j], n) == if n >= j + 2 {
            Some(value_for(c, keys[j]))
        } else {
            None::<Seq<char>>
        },
    decreases n,
{
    if n > 0 {
        lemma_assigns(c, keys, n - 1);
        lemma_read_back(c, keys, j, n - 1);
        if n - 1 >= 1 && n - 2 != j {
            assert(keys[n - 2] != keys[j]);
        }
    }
}


/// A key the entries hold has a value, and it is one of the entries'.
proof fn lemma_entry_found(e: Seq<(Seq<char>, Seq<char>)>, k: Seq<char>)
    requires
        keys_of(e).contains(k),
    ensures
        entry_value(e, k) is Some,
        exists|m: int| 0 <= m < e.len() && e[m] == (k, entry_value(e, k)->Some_0),
    decreases e.len(),
{
    let j = choose|j: int| 0 <= j < keys_of(e).len() && keys_of(e)[j] == k;
    if e[0].0 == k {
        assert(e[0] == (k, entry_value(e, k)->Some_0));
    } else {
        let rest = e.drop_first();
        assert(j > 0);
        assert(keys_of(rest)[j - 1] == k);
        lemma_entry_found(rest, k);
        let m = choose|m: int| 0 <= m < rest.len() && rest[m] == (k, entry_value(rest, k)->Some_0);
        assert(e[m + 1] == rest[m]);
    }
}

/// Saving a configuration and loading the file back gives each of its keys
/// the value it had, when its keys are distinct and every key and value is
/// text a line of the file can carry: one line, no white space at its ends,
/// and for a key, not empty, no `=` in it, and not starting like a comment
/// or a section. `keys` is the order the file lists them in.
pub proof fn lemma_saved_file_loads_back(c: Seq<(Seq<char>, Seq<char>)>, keys: Seq<Seq<char>>, key: Seq<char>)
    requires
        keys_of(c).no_duplicates(),
        forall|i: int| 0 <= i < c.len() ==> plain_key(#[trigger] c[i].0) && plain_value(c[i].1),
        keys.to_multiset() == keys_of(c).to_multiset(),
        keys_of(c).contains(key),
    ensures
        ini_value("[mosaic]\n"@ + setting_lines(c, keys), "mosaic"@, key) == config_value(c, key),
{
    broadcast use vstd::seq_lib::group_to_multiset_ensures;

    reveal_strlit(" = ");
    keys_of(c).lemma_multiset_has_no_duplicates();
    keys.lemma_multiset_has_no_duplicates_conv();
    assert forall|i: int| 0 <= i < keys.len() implies plain_key(#[trigger] keys[i]) && plain_value(
        value_for(c, keys[i]),
    ) by {
        let k = keys[i];
        assert(keys.contains(k));
        assert(keys.to_multiset().count(k) > 0);
        assert(keys_of(c).to_multiset().count(k) > 0);
        assert(keys_of(c).contains(k));
        let j = choose|j: int| 0 <= j < keys_of(c).len() && keys_of(c)[j] == k;
        assert(c[j].0 == k);
        lemma_entry_found(c, k);
        let m = choose|m: int| 0 <= m < c.len() && c[m] == (k, entry_value(c, k)->Some_0);
        assert(plain_key(c[m].0) && plain_value(c[m].1));
    }
    assert forall|i: int| 0 <= i < keys.len() implies one_line(#[trigger] line_body(c, keys[i])) by {
        let b = line_body(c, keys[i]);
        let n = keys[i].len() as int;
        assert forall|m: int| 0 <= m < b.len() implies b[m] != '\n' by {
            if m >= n + 3 {
                assert(b[m] == value_for(c, keys[i])[m - n - 3]);
            } else if m < n {
                assert(b[m] == keys[i][m]);
            }
        }
    }
    assert forall|i: int| 0 <= i < keys.len() implies unpadded(#[trigger] value_for(c, keys[i])) by {
        assert(plain_value(value_for(c, keys[i])));
    }
    lemma_lines_text(c, keys);
    assert(keys_of(c).to_multiset().count(key) > 0);
    assert(keys.to_multiset().count(key) > 0);
    assert(keys.contains(key));
    let j = choose|j: int| 0 <= j < keys.len() && keys[j] == key;
    lemma_read_back(c, keys, j, keys.len() + 1int);
    assert(file_lines(c, keys).len() == keys.len() + 1);
    lemma_entry_found(c, key);
}

} // verus!
