//! The package registry. The broker owns it, and it is the single source of
//! truth for what is installed.
//!
//! Packages are kept in name order, one per name, which is the order they are
//! listed in and the order a question about several of them names them in.

use vstd::prelude::*;

use crate::text::{
    chars_of, contains_chars, lowercase, occurs_in, push_decimal, push_str, same_text,
    starts_with_chars, string_of, to_lowercase,
};

verus! {

/// An installed app.
#[derive(Debug, PartialEq, Eq)]
pub struct Package {
    pub name: String,
    /// The app's own system UID.
    pub uid: u32,
    pub data_dir: String,
    pub apk: String,
    pub installed_at: u64,
}

/// A package as a value.
pub struct PackageView {
    pub name: Seq<char>,
    pub uid: u32,
    pub data_dir: Seq<char>,
    pub apk: Seq<char>,
    pub installed_at: u64,
}

impl View for Package {
    type V = PackageView;

    open spec fn view(&self) -> PackageView {
        PackageView {
            name: self.name@,
            uid: self.uid,
            data_dir: self.data_dir@,
            apk: self.apk@,
            installed_at: self.installed_at,
        }
    }
}

impl Clone for Package {
    fn clone(&self) -> (r: Self)
        ensures
            r@ == self@,
    {
        Package {
            name: self.name.clone(),
            uid: self.uid,
            data_dir: self.data_dir.clone(),
            apk: self.apk.clone(),
            installed_at: self.installed_at,
        }
    }
}

/// Whether `a` comes before `b` in code point order, from position `i` on:
/// the first difference decides, and a string that runs out first is the
/// smaller.
pub open spec fn before_from(a: Seq<char>, b: Seq<char>, i: int) -> bool
    decreases a.len() - i,
{
    if i < 0 || i >= a.len() {
        0 <= i < b.len()
    } else if i >= b.len() {
        false
    } else if (a[i] as u32) < (b[i] as u32) {
        true
    } else if (a[i] as u32) > (b[i] as u32) {
        false
    } else {
        before_from(a, b, i + 1)
    }
}

/// The order names are kept in: code point order, which is the byte order of
/// their UTF-8.
pub open spec fn name_before(a: Seq<char>, b: Seq<char>) -> bool {
    before_from(a, b, 0)
}

proof fn lemma_before_irreflexive(a: Seq<char>, i: int)
    requires
        0 <= i,
    ensures
        !before_from(a, a, i),
    decreases a.len() - i,
{
    if i < a.len() {
        lemma_before_irreflexive(a, i + 1);
    }
}

proof fn lemma_before_transitive(a: Seq<char>, b: Seq<char>, c: Seq<char>, i: int)
    requires
        0 <= i,
        before_from(a, b, i),
        before_from(b, c, i),
    ensures
        before_from(a, c, i),
    decreases a.len() - i,
{
    if i < a.len() && i < b.len() && i < c.len() {
        if (a[i] as u32) == (b[i] as u32) && (b[i] as u32) == (c[i] as u32) {
            lemma_before_transitive(a, b, c, i + 1);
        }
    }
}

proof fn lemma_before_total(a: Seq<char>, b: Seq<char>, i: int)
    requires
        0 <= i <= a.len(),
        i <= b.len(),
        !before_from(a, b, i),
        !before_from(b, a, i),
    ensures
        a.subrange(i, a.len() as int) == b.subrange(i, b.len() as int),
    decreases a.len() - i,
{
    if i < a.len() && i < b.len() {
        vstd::utf8::char_u32_cast(a[i], a[i] as u32);
        vstd::utf8::char_u32_cast(b[i], b[i] as u32);
        assert(a[i] == b[i]);
        lemma_before_total(a, b, i + 1);
        assert(a.subrange(i, a.len() as int) =~= seq![a[i]] + a.subrange(i + 1, a.len() as int));
        assert(b.subrange(i, b.len() as int) =~= seq![b[i]] + b.subrange(i + 1, b.len() as int));
    } else {
        assert(a.subrange(i, a.len() as int) =~= Seq::<char>::empty());
        assert(b.subrange(i, b.len() as int) =~= Seq::<char>::empty());
    }
}

/// No name comes before itself.
pub proof fn lemma_name_irreflexive(a: Seq<char>)
    ensures
        !name_before(a, a),
{
    lemma_before_irreflexive(a, 0);
}

/// Two names neither of which comes before the other are the same name.
pub(crate) proof fn lemma_name_total(a: Seq<char>, b: Seq<char>)
    ensures
        a != b ==> name_before(a, b) || name_before(b, a),
{
    if !name_before(a, b) && !name_before(b, a) {
        lemma_before_total(a, b, 0);
        assert(a =~= a.subrange(0, a.len() as int));
        assert(b =~= b.subrange(0, b.len() as int));
    }
}

/// Name order is transitive.
pub(crate) proof fn lemma_name_transitive(a: Seq<char>, b: Seq<char>, c: Seq<char>)
    requires
        name_before(a, b),
        name_before(b, c),
    ensures
        name_before(a, c),
{
    lemma_before_transitive(a, b, c, 0);
}

/// Names in name order, equal names side by side.
pub open spec fn names_in_order(s: Seq<Seq<char>>) -> bool {
    forall|i: int, j: int| 0 <= i < j < s.len() ==> !name_before(#[trigger] s[j], #[trigger] s[i])
}

/// The same names, put in name order.
pub fn sort_names(v: Vec<String>) -> (r: Vec<String>)
    ensures
        names_in_order(r@.map_values(|s: String| s@)),
        r@.map_values(|s: String| s@).to_multiset() == v@.map_values(|s: String| s@).to_multiset(),
{
    let mut r: Vec<String> = Vec::new();
    let mut i: usize = 0;
    assert(r@.map_values(|s: String| s@) =~= v@.take(0).map_values(|s: String| s@));
    while i < v.len()
        invariant
            i <= v@.len(),
            names_in_order(r@.map_values(|s: String| s@)),
            r@.map_values(|s: String| s@).to_multiset() == v@.take(i as int).map_values(|s: String| s@).to_multiset(),
        decreases v@.len() - i,
    {
        let x = v[i].clone();
        let ghost rv = r@.map_values(|s: String| s@);
        let mut p: usize = 0;
        while p < r.len() && !comes_before(x.as_str(), r[p].as_str())
            invariant
                rv == r@.map_values(|s: String| s@),
                p <= r@.len(),
                forall|k: int| 0 <= k < p ==> !name_before(x@, #[trigger] rv[k]),
            decreases r@.len() - p,
        {
            p = p + 1;
        }
        proof {
            assert forall|j: int| p <= j < rv.len() implies !name_before(#[trigger] rv[j], x@) by {
                assert(name_before(x@, rv[p as int]));
                if rv[j] != rv[p as int] {
                    lemma_name_total(rv[j], rv[p as int]);
                    lemma_name_transitive(x@, rv[p as int], rv[j]);
                }
                if name_before(rv[j], x@) {
                    lemma_name_transitive(x@, rv[j], x@);
                    lemma_name_irreflexive(x@);
                }
            }
        }
        r.insert(p, x);
        proof {
            let nv = r@.map_values(|s: String| s@);
            assert(nv =~= rv.insert(p as int, x@));
            let tv = v@.take(i as int).map_values(|s: String| s@);
            assert(v@.take(i + 1).map_values(|s: String| s@) =~= tv.push(v@[i as int]@));
            vstd::seq_lib::to_multiset_insert(rv, p as int, x@);
            vstd::seq_lib::to_multiset_build(tv, v@[i as int]@);
            assert forall|a: int, b: int| 0 <= a < b < nv.len() implies !name_before(#[trigger] nv[b], #[trigger] nv[a]) by {
                if a < p && b < p {
                } else if a < p && b == p {
                } else if a < p && b > p {
                    assert(nv[b] == rv[b - 1]);
                } else if a == p {
                    assert(nv[b] == rv[b - 1]);
                } else {
                    assert(nv[a] == rv[a - 1]);
                    assert(nv[b] == rv[b - 1]);
                }
            }
        }
        i = i + 1;
    }
    assert(v@.take(i as int) =~= v@);
    r
}

/// Packages in strictly increasing name order, so no name twice.
pub open spec fn in_name_order(s: Seq<PackageView>) -> bool {
    forall|i: int, j: int| 0 <= i < j < s.len() ==> name_before(#[trigger] s[i].name, #[trigger] s[j].name)
}

/// The packages whose name is `name`.
pub open spec fn named(name: Seq<char>) -> spec_fn(PackageView) -> bool {
    |p: PackageView| p.name == name
}

/// The packages whose lowercased name starts with `folded`.
pub open spec fn by_prefix(folded: Seq<char>) -> spec_fn(PackageView) -> bool {
    |p: PackageView| folded.is_prefix_of(lowercase(p.name))
}

/// The packages whose lowercased name contains `folded`.
pub open spec fn by_substring(folded: Seq<char>) -> spec_fn(PackageView) -> bool {
    |p: PackageView| occurs_in(folded, lowercase(p.name))
}

/// The names of packages.
pub open spec fn names_of(s: Seq<PackageView>) -> Seq<Seq<char>> {
    s.map_values(|p: PackageView| p.name)
}

/// Why a selector named no single package.
#[derive(Debug, PartialEq, Eq)]
pub enum ResolveError {
    /// Several packages match; these, in name order.
    Ambiguous { selector: String, names: Vec<String> },
    /// Nothing matches; this is what is installed, in name order.
    Missing { selector: String, installed: Vec<String> },
}

/// A resolve error as a value.
pub enum ResolveErrorView {
    Ambiguous { selector: Seq<char>, names: Seq<Seq<char>> },
    Missing { selector: Seq<char>, installed: Seq<Seq<char>> },
}

impl View for ResolveError {
    type V = ResolveErrorView;

    open spec fn view(&self) -> ResolveErrorView {
        match self {
            ResolveError::Ambiguous { selector, names } => ResolveErrorView::Ambiguous {
                selector: selector@,
                names: names@.map_values(|n: String| n@),
            },
            ResolveError::Missing { selector, installed } => ResolveErrorView::Missing {
                selector: selector@,
                installed: installed@.map_values(|n: String| n@),
            },
        }
    }
}

/// Names joined with a comma and a space.
pub open spec fn joined(names: Seq<Seq<char>>) -> Seq<char>
    decreases names.len(),
{
    if names.len() == 0 {
        Seq::empty()
    } else if names.len() == 1 {
        names[0]
    } else {
        joined(names.drop_last()) + ", "@ + names.last()
    }
}

/// What a resolve error says.
pub open spec fn resolve_error_text(e: ResolveErrorView) -> Seq<char> {
    match e {
        ResolveErrorView::Ambiguous { selector, names } => selector + " matches "@ + crate::text::decimal_chars(
            names.len(),
        ) + " packages: "@ + joined(names),
        ResolveErrorView::Missing { selector, installed } => if installed.len() == 0 {
            selector + " is not installed, and nothing is"@
        } else {
            selector + " is not installed. Installed: "@ + joined(installed)
        },
    }
}

/// Append `names` joined with a comma and a space.
fn push_joined(out: &mut Vec<char>, names: &Vec<String>)
    ensures
        final(out)@ == old(out)@ + joined(names@.map_values(|n: String| n@)),
{
    let ghost all = names@.map_values(|n: String| n@);
    let mut i: usize = 0;
    while i < names.len()
        invariant
            i <= names@.len(),
            all == names@.map_values(|n: String| n@),
            out@ == old(out)@ + joined(all.take(i as int)),
        decreases names@.len() - i,
    {
        let ghost before = out@;
        if i > 0 {
            push_str(out, ", ");
        }
        push_str(out, names[i].as_str());
        proof {
            let t = all.take(i + 1);
            assert(t.drop_last() =~= all.take(i as int));
            assert(t.last() == names@[i as int]@);
            if i == 0 {
                assert(t.len() == 1);
                assert(joined(t) == t[0]);
                assert(joined(all.take(0)) =~= Seq::<char>::empty());
                assert(out@ =~= old(out)@ + joined(t));
            } else {
                assert(out@ =~= old(out)@ + joined(t));
            }
        }
        i = i + 1;
    }
    assert(all.take(names@.len() as int) =~= all);
}

impl ResolveError {
    /// The error as a sentence.
    pub fn message(&self) -> (s: String)
        ensures
            s@ == resolve_error_text(self@),
    {
        let mut v: Vec<char> = Vec::new();
        match self {
            ResolveError::Ambiguous { selector, names } => {
                push_str(&mut v, selector.as_str());
                push_str(&mut v, " matches ");
                push_decimal(&mut v, names.len() as u64);
                push_str(&mut v, " packages: ");
                push_joined(&mut v, names);
            },
            ResolveError::Missing { selector, installed } => {
                push_str(&mut v, selector.as_str());
                if installed.len() == 0 {
                    push_str(&mut v, " is not installed, and nothing is");
                } else {
                    push_str(&mut v, " is not installed. Installed: ");
                    push_joined(&mut v, installed);
                }
            },
        }
        assert(v@ =~= resolve_error_text(self@));
        string_of(v.as_slice())
    }
}

/// The package a person means by `selector`: an exact name wins; failing
/// that a unique prefix of the lowercased name, the selector lowercased too;
/// failing that a unique substring. Several matches at a step are an error
/// that names them; none at any step is one that names what is installed.
pub open spec fn resolve_of(s: Seq<PackageView>, selector: Seq<char>) -> Result<PackageView, ResolveErrorView> {
    let exact = s.filter(named(selector));
    let folded = lowercase(selector);
    let prefixed = s.filter(by_prefix(folded));
    let containing = s.filter(by_substring(folded));
    if exact.len() > 0 {
        Ok(exact[0])
    } else if prefixed.len() == 1 {
        Ok(prefixed[0])
    } else if prefixed.len() > 1 {
        Err(ResolveErrorView::Ambiguous { selector, names: names_of(prefixed) })
    } else if containing.len() == 1 {
        Ok(containing[0])
    } else if containing.len() > 1 {
        Err(ResolveErrorView::Ambiguous { selector, names: names_of(containing) })
    } else {
        Err(ResolveErrorView::Missing { selector, installed: names_of(s) })
    }
}

/// Whether some package has this UID.
pub open spec fn uid_taken(s: Seq<PackageView>, uid: u32) -> bool {
    exists|i: int| 0 <= i < s.len() && #[trigger] s[i].uid == uid
}

/// What is installed, one package per name.
pub struct Registry {
    packages: Vec<Package>,
}

impl View for Registry {
    type V = Seq<PackageView>;

    closed spec fn view(&self) -> Seq<PackageView> {
        self.packages@.map_values(|p: Package| p@)
    }
}

impl Default for Registry {
    fn default() -> (r: Self)
        ensures
            r@ == Seq::<PackageView>::empty(),
    {
        let r = Registry { packages: Vec::new() };
        assert(r@ =~= Seq::<PackageView>::empty());
        r
    }
}

impl Registry {
    /// The packages are in name order.
    #[verifier::type_invariant]
    closed spec fn ordered(&self) -> bool {
        in_name_order(self@)
    }

    /// Indices of the packages whose lowercased name starts with, or
    /// contains, `folded`, in order.
    fn indices_where(&self, folded: &Vec<char>, substring: bool) -> (r: Vec<usize>)
        ensures
            r@.len() == (if substring { self@.filter(by_substring(folded@)) } else { self@.filter(by_prefix(folded@)) }).len(),
            forall|j: int| #![trigger r@[j]] 0 <= j < r@.len() ==> r@[j] < self@.len() && self@[r@[j] as int] == (if substring {
                self@.filter(by_substring(folded@))
            } else {
                self@.filter(by_prefix(folded@))
            })[j],
    {
        let ghost pred = if substring { by_substring(folded@) } else { by_prefix(folded@) };
        let ghost mut m: Seq<PackageView> = Seq::empty();
        let mut r: Vec<usize> = Vec::new();
        let mut k: usize = 0;
        proof {
            reveal(Seq::filter);
            assert(self@.take(0).filter(pred) =~= m);
        }
        while k < self.packages.len()
            invariant
                k <= self@.len(),
                self@.len() == self.packages@.len(),
                pred == (if substring { by_substring(folded@) } else { by_prefix(folded@) }),
                m == self@.take(k as int).filter(pred),
                r@.len() == m.len(),
                forall|j: int| #![trigger r@[j]] 0 <= j < r@.len() ==> r@[j] < self@.len() && self@[r@[j] as int] == m[j],
            decreases self@.len() - k,
        {
            let lower = to_lowercase(self.packages[k].name.as_str());
            let lower_chars = chars_of(lower.as_str());
            let hit = if substring {
                contains_chars(lower_chars.as_slice(), folded.as_slice())
            } else {
                starts_with_chars(lower_chars.as_slice(), folded.as_slice())
            };
            proof {
                assert(self@[k as int] == self.packages@[k as int]@);
                assert(hit == pred(self@[k as int]));
                let t = self@.take(k + 1);
                assert(t.drop_last() =~= self@.take(k as int));
                assert(t.last() == self@[k as int]);
                reveal(Seq::filter);
                assert(t.filter(pred) == if pred(self@[k as int]) { m.push(self@[k as int]) } else { m });
            }
            let ghost old_r = r@;
            let ghost old_m = m;
            if hit {
                r.push(k);
                proof {
                    m = m.push(self@[k as int]);
                }
            }
            proof {
                assert forall|j: int| #![trigger r@[j]] 0 <= j < r@.len() implies r@[j] < self@.len() && self@[r@[j] as int] == m[j] by {
                    if j < old_r.len() {
                        assert(r@[j] == old_r[j]);
                        assert(m[j] == old_m[j]);
                        assert(old_r[j] < self@.len() && self@[old_r[j] as int] == old_m[j]);
                    }
                }
            }
            k = k + 1;
        }
        assert(self@.take(self@.len() as int) =~= self@);
        r
    }

    /// The names of the packages at these indices.
    fn names_at(&self, at: &Vec<usize>) -> (r: Vec<String>)
        requires
            forall|j: int| 0 <= j < at@.len() ==> at@[j] < self@.len(),
        ensures
            r@.map_values(|n: String| n@) == at@.map_values(|i: usize| self@[i as int].name),
    {
        let mut r: Vec<String> = Vec::new();
        let mut j: usize = 0;
        while j < at.len()
            invariant
                j <= at@.len(),
                self@.len() == self.packages@.len(),
                forall|m: int| 0 <= m < at@.len() ==> at@[m] < self@.len(),
                r@.len() == j,
                forall|m: int| 0 <= m < j ==> (#[trigger] r@[m])@ == self@[at@[m] as int].name,
            decreases at@.len() - j,
        {
            let name = self.packages[at[j]].name.clone();
            proof {
                assert(self@[at@[j as int] as int] == self.packages@[at@[j as int] as int]@);
            }
            r.push(name);
            j = j + 1;
        }
        assert(r@.map_values(|n: String| n@) =~= at@.map_values(|i: usize| self@[i as int].name));
        r
    }

    /// Add a package, replacing one of the same name.
    pub fn add(&mut self, package: Package)
        ensures
            after_add(old(self)@, final(self)@, package@),
    {
        proof { use_type_invariant(&*self); }
        let ghost s = self@;
        let mut i: usize = 0;
        let mut replace = false;
        while i < self.packages.len()
            invariant_except_break
                !replace,
                i <= s.len(),
                s == self@,
                s.len() == self.packages@.len(),
                in_name_order(s),
                forall|j: int| 0 <= j < i ==> name_before(s[j].name, package@.name),
            ensures
                i <= s.len(),
                s == self@,
                s.len() == self.packages@.len(),
                in_name_order(s),
                forall|j: int| 0 <= j < i ==> name_before(s[j].name, package@.name),
                i < s.len() ==> !name_before(s[i as int].name, package@.name),
                replace ==> i < s.len() && s[i as int].name == package@.name,
                !replace && i < s.len() ==> s[i as int].name != package@.name,
            decreases s.len() - i,
        {
            let here = self.packages[i].name.as_str();
            let earlier = comes_before(here, package.name.as_str());
            assert(s[i as int] == self.packages@[i as int]@);
            if !earlier {
                replace = same_text(here, package.name.as_str());
                break;
            }
            i = i + 1;
        }
        let ghost p = package@;
        proof {
            // Everything after `i` comes after the new name too.
            assert forall|j: int| i <= j < s.len() && s[j].name != p.name implies name_before(p.name, #[trigger] s[j].name) by {
                lemma_name_total(s[i as int].name, p.name);
                if j > i {
                    if name_before(s[j].name, p.name) {
                        lemma_before_transitive(s[i as int].name, s[j].name, p.name, 0);
                    }
                    lemma_name_total(s[j].name, p.name);
                }
            }
            assert forall|j: int| i < j < s.len() implies name_before(p.name, #[trigger] s[j].name) by {
                lemma_name_total(s[i as int].name, p.name);
                if s[j].name == p.name {
                    if s[i as int].name != p.name {
                        lemma_before_transitive(p.name, s[i as int].name, s[j].name, 0);
                        lemma_before_irreflexive(p.name, 0);
                    } else {
                        lemma_before_irreflexive(p.name, 0);
                    }
                }
            }
        }
        let mut packages: Vec<Package> = Vec::new();
        std::mem::swap(&mut packages, &mut self.packages);
        if replace {
            packages.set(i, package);
            proof {
                let t = packages@.map_values(|p: Package| p@);
                assert(t =~= s.update(i as int, p));
                assert forall|q: PackageView| #[trigger] t.contains(q) <==> (q == p || (s.contains(q) && q.name != p.name)) by {
                    if t.contains(q) {
                        let j = choose|j: int| 0 <= j < t.len() && t[j] == q;
                        if j != i {
                            assert(s[j] == q);
                            if q.name == p.name {
                                if j < i {
                                    lemma_before_irreflexive(p.name, 0);
                                } else {
                                    lemma_before_irreflexive(p.name, 0);
                                }
                            }
                        }
                    }
                    if q == p {
                        assert(t[i as int] == q);
                    }
                    if s.contains(q) && q.name != p.name {
                        let j = choose|j: int| 0 <= j < s.len() && s[j] == q;
                        assert(j != i);
                        assert(t[j] == q);
                    }
                }
            }
        } else {
            packages.insert(i, package);
            proof {
                let t = packages@.map_values(|p: Package| p@);
                assert(t =~= s.insert(i as int, p));
                assert forall|q: PackageView| #[trigger] t.contains(q) <==> (q == p || (s.contains(q) && q.name != p.name)) by {
                    if t.contains(q) {
                        let j = choose|j: int| 0 <= j < t.len() && t[j] == q;
                        if j < i {
                            assert(s[j] == q);
                            if q.name == p.name {
                                lemma_before_irreflexive(p.name, 0);
                            }
                        } else if j > i {
                            assert(s[j - 1] == q);
                            if q.name == p.name {
                                lemma_before_irreflexive(p.name, 0);
                            }
                        }
                    }
                    if q == p {
                        assert(t[i as int] == q);
                    }
                    if s.contains(q) && q.name != p.name {
                        let j = choose|j: int| 0 <= j < s.len() && s[j] == q;
                        if j < i {
                            assert(t[j] == q);
                        } else {
                            assert(t[j + 1] == q);
                        }
                    }
                }
            }
        }
        proof {
            let t = packages@.map_values(|p: Package| p@);
            assert forall|a: int, b: int| 0 <= a < b < t.len() implies name_before(#[trigger] t[a].name, #[trigger] t[b].name) by {
                if replace {
                    if a == i && b > i {
                    } else if b == i {
                    } else {
                    }
                } else {
                    if a < i && b == i {
                    } else if a == i {
                        assert(t[b] == s[b - 1]);
                    } else if a < i && b > i {
                        assert(t[b] == s[b - 1]);
                    } else if a > i {
                        assert(t[a] == s[a - 1]);
                        assert(t[b] == s[b - 1]);
                    }
                }
            }
        }
        self.packages = packages;
    }

    /// Remove the package of this name, and hand it back.
    pub fn remove(&mut self, name: &str) -> (r: Option<Package>)
        ensures
            after_remove(old(self)@, final(self)@, name@),
            match r {
                Some(p) => old(self)@.contains(p@) && p@.name == name@,
                None => forall|i: int| 0 <= i < old(self)@.len() ==> #[trigger] old(self)@[i].name != name@,
            },
    {
        proof { use_type_invariant(&*self); }
        let ghost s = self@;
        let mut i: usize = 0;
        while i < self.packages.len()
            invariant
                i <= s.len(),
                s == self@,
                s.len() == self.packages@.len(),
                forall|j: int| 0 <= j < i ==> s[j].name != name@,
                in_name_order(s),
                s == old(self)@,
            decreases s.len() - i,
        {
            assert(s[i as int] == self.packages@[i as int]@);
            if same_text(self.packages[i].name.as_str(), name) {
                let mut packages: Vec<Package> = Vec::new();
                std::mem::swap(&mut packages, &mut self.packages);
                let p = packages.remove(i);
                proof {
                    let t = packages@.map_values(|p: Package| p@);
                    assert(t =~= s.remove(i as int));
                    assert(s[i as int] == p@);
                    assert forall|q: PackageView| #[trigger] t.contains(q) <==> (s.contains(q) && q.name != name@) by {
                        if t.contains(q) {
                            let j = choose|j: int| 0 <= j < t.len() && t[j] == q;
                            if j < i {
                                assert(s[j] == q);
                                assert(s.contains(q));
                            } else {
                                assert(s[j + 1] == q);
                                assert(s.contains(q));
                                assert(name_before(s[i as int].name, s[j + 1].name));
                                if q.name == name@ {
                                    lemma_before_irreflexive(name@, 0);
                                }
                            }
                        }
                        if s.contains(q) && q.name != name@ {
                            let j = choose|j: int| 0 <= j < s.len() && s[j] == q;
                            if j < i {
                                assert(t[j] == q);
                            } else {
                                assert(j != i);
                                assert(t[j - 1] == q);
                            }
                        }
                    }
                    assert forall|a: int, b: int| 0 <= a < b < t.len() implies name_before(#[trigger] t[a].name, #[trigger] t[b].name) by {
                        if b < i {
                        } else if a < i {
                            assert(t[b] == s[b + 1]);
                        } else {
                            assert(t[a] == s[a + 1]);
                            assert(t[b] == s[b + 1]);
                        }
                    }
                    assert(s.contains(p@));
                }
                self.packages = packages;
                return Some(p);
            }
            i = i + 1;
        }
        proof {
            assert forall|q: PackageView| #[trigger] s.contains(q) implies q.name != name@ by {
                let j = choose|j: int| 0 <= j < s.len() && s[j] == q;
            }
        }
        None
    }

    /// The package of this name.
    pub fn get(&self, name: &str) -> (r: Option<&Package>)
        ensures
            match r {
                Some(p) => self@.contains(p@) && p@.name == name@,
                None => forall|i: int| 0 <= i < self@.len() ==> #[trigger] self@[i].name != name@,
            },
    {
        let mut i: usize = 0;
        while i < self.packages.len()
            invariant
                i <= self@.len(),
                self@.len() == self.packages@.len(),
                forall|j: int| 0 <= j < i ==> self@[j].name != name@,
            decreases self@.len() - i,
        {
            assert(self@[i as int] == self.packages@[i as int]@);
            if same_text(self.packages[i].name.as_str(), name) {
                return Some(&self.packages[i]);
            }
            i = i + 1;
        }
        None
    }

    /// The package a person means by `selector`.
    ///
    /// Nobody wants to type a package's whole name, and the name is derived
    /// from its file anyway. An exact name wins; failing that a unique prefix;
    /// failing that a unique substring, both without regard to case.
    /// Anything else is an error that says what it matched, because "not
    /// found" and "several" need different things from the caller.
    pub fn resolve(&self, selector: &str) -> (r: Result<&Package, ResolveError>)
        ensures
            in_name_order(self@),
            match r {
                Ok(p) => resolve_of(self@, selector@) == Ok::<PackageView, ResolveErrorView>(p@),
                Err(e) => resolve_of(self@, selector@) == Err::<PackageView, ResolveErrorView>(e@),
            },
    {
        proof { use_type_invariant(self); }
        let ghost s = self@;
        let ghost exact = s.filter(named(selector@));
        let mut i: usize = 0;
        while i < self.packages.len()
            invariant
                i <= s.len(),
                s == self@,
                s.len() == self.packages@.len(),
                exact == s.filter(named(selector@)),
                s.take(i as int).filter(named(selector@)).len() == 0,
                in_name_order(s),
            decreases s.len() - i,
        {
            let hit = same_text(self.packages[i].name.as_str(), selector);
            proof {
                assert(s[i as int] == self.packages@[i as int]@);
                let t = s.take(i + 1);
                assert(t.drop_last() =~= s.take(i as int));
                assert(t.last() == s[i as int]);
            }
            if hit {
                proof {
                    lemma_filter_first(s, named(selector@), i as int);
                }
                return Ok(&self.packages[i]);
            }
            proof {
                let t = s.take(i + 1);
                reveal(Seq::filter);
                assert(!named(selector@)(s[i as int]));
                assert(t.filter(named(selector@)) == s.take(i as int).filter(named(selector@)));
            }
            i = i + 1;
        }
        assert(s.take(s.len() as int) =~= s);
        let folded_text = to_lowercase(selector);
        let folded = chars_of(folded_text.as_str());
        let prefixed = self.indices_where(&folded, false);
        if prefixed.len() == 1 {
            return Ok(&self.packages[prefixed[0]]);
        }
        if prefixed.len() > 1 {
            let names = self.names_at(&prefixed);
            proof {
                let f = s.filter(by_prefix(folded@));
                assert(prefixed@.map_values(|i: usize| s[i as int].name) =~= names_of(f));
            }
            return Err(ResolveError::Ambiguous { selector: selector.to_owned(), names });
        }
        let containing = self.indices_where(&folded, true);
        if containing.len() == 1 {
            return Ok(&self.packages[containing[0]]);
        }
        if containing.len() > 1 {
            let names = self.names_at(&containing);
            proof {
                let f = s.filter(by_substring(folded@));
                assert(containing@.map_values(|i: usize| s[i as int].name) =~= names_of(f));
            }
            return Err(ResolveError::Ambiguous { selector: selector.to_owned(), names });
        }
        let mut all: Vec<usize> = Vec::new();
        let mut k: usize = 0;
        while k < self.packages.len()
            invariant
                k <= s.len(),
                s == self@,
                s.len() == self.packages@.len(),
                all@ == Seq::new(k as nat, |j: int| j as usize),
            decreases s.len() - k,
        {
            all.push(k);
            k = k + 1;
            assert(all@ =~= Seq::new(k as nat, |j: int| j as usize));
        }
        let installed = self.names_at(&all);
        assert(all@.map_values(|i: usize| s[i as int].name) =~= names_of(s));
        Err(ResolveError::Missing { selector: selector.to_owned(), installed })
    }

    /// Every package, in name order.
    pub fn list(&self) -> (r: Vec<Package>)
        ensures
            r@.map_values(|p: Package| p@) == self@,
            in_name_order(r@.map_values(|p: Package| p@)),
    {
        proof { use_type_invariant(self); }
        let mut r: Vec<Package> = Vec::new();
        let mut i: usize = 0;
        while i < self.packages.len()
            invariant
                i <= self@.len(),
                self@.len() == self.packages@.len(),
                r@.len() == i,
                forall|m: int| 0 <= m < i ==> (#[trigger] r@[m])@ == self@[m],
            decreases self@.len() - i,
        {
            let p = self.packages[i].clone();
            r.push(p);
            i = i + 1;
        }
        assert(r@.map_values(|p: Package| p@) =~= self@);
        r
    }

    /// The first UID from `start` to `end`, both included, that no installed
    /// package has.
    pub fn next_uid(&self, start: u32, end: u32) -> (r: Option<u32>)
        ensures
            match r {
                Some(u) => start <= u <= end && !uid_taken(self@, u) && forall|v: u32|
                    start <= v < u ==> uid_taken(self@, v),
                None => forall|v: u32| start <= v <= end ==> uid_taken(self@, v),
            },
    {
        if start > end {
            return None;
        }
        let mut uid: u64 = start as u64;
        while uid <= end as u64
            invariant
                start <= uid <= end as u64 + 1,
                self@.len() == self.packages@.len(),
                forall|v: u32| start <= v < uid ==> uid_taken(self@, v),
            decreases end as u64 + 1 - uid,
        {
            let candidate = uid as u32;
            let mut taken = false;
            let mut i: usize = 0;
            while i < self.packages.len()
                invariant
                    i <= self@.len(),
                    self@.len() == self.packages@.len(),
                    taken ==> uid_taken(self@, candidate),
                    !taken ==> forall|j: int| 0 <= j < i ==> self@[j].uid != candidate,
                decreases self@.len() - i,
            {
                assert(self@[i as int] == self.packages@[i as int]@);
                if self.packages[i].uid == candidate {
                    taken = true;
                    assert(self@[i as int].uid == candidate);
                }
                i = i + 1;
            }
            if !taken {
                return Some(candidate);
            }
            uid = uid + 1;
        }
        None
    }
}

/// The first match of a filter is the first element it holds of, when all
/// the ones before it do not hold.
proof fn lemma_filter_first(s: Seq<PackageView>, pred: spec_fn(PackageView) -> bool, i: int)
    requires
        0 <= i < s.len(),
        pred(s[i]),
        s.take(i).filter(pred).len() == 0,
    ensures
        s.filter(pred).len() > 0,
        s.filter(pred)[0] == s[i],
    decreases s.len() - i,
{
    reveal(Seq::filter);
    let d = s.drop_last();
    if i == s.len() - 1 {
        assert(d =~= s.take(i));
        assert(s.filter(pred) == d.filter(pred).push(s.last()));
    } else {
        assert(d.take(i) =~= s.take(i));
        lemma_filter_first(d, pred, i);
        assert(d[i] == s[i]);
        assert(s.filter(pred) == if pred(s.last()) { d.filter(pred).push(s.last()) } else { d.filter(pred) });
    }
}

/// A filter keeps nothing of a sequence none of whose elements it takes.
proof fn lemma_filter_none(t: Seq<PackageView>, pred: spec_fn(PackageView) -> bool)
    requires
        forall|k: int| 0 <= k < t.len() ==> !pred(#[trigger] t[k]),
    ensures
        t.filter(pred).len() == 0,
    decreases t.len(),
{
    reveal(Seq::filter);
    if t.len() > 0 {
        let d = t.drop_last();
        assert forall|k: int| 0 <= k < d.len() implies !pred(#[trigger] d[k]) by {
            assert(d[k] == t[k]);
        }
        lemma_filter_none(d, pred);
        assert(!pred(t[t.len() - 1]));
    }
}

/// A selector that is some installed package's whole name resolves to that
/// package, whatever other names it is a prefix or a part of.
pub proof fn lemma_exact_name_wins(s: Seq<PackageView>, selector: Seq<char>, i: int)
    requires
        in_name_order(s),
        0 <= i < s.len(),
        s[i].name == selector,
    ensures
        resolve_of(s, selector) == Ok::<PackageView, ResolveErrorView>(s[i]),
{
    let t = s.take(i);
    assert forall|k: int| 0 <= k < t.len() implies !named(selector)(#[trigger] t[k]) by {
        assert(t[k] == s[k]);
        if s[k].name == selector {
            lemma_unique_name(s, k, i);
        }
    }
    lemma_filter_none(t, named(selector));
    lemma_filter_first(s, named(selector), i);
}

/// Whether a package answers to a selector at all: by its whole name, or by
/// its lowercased name starting with or containing the lowercased selector.
pub open spec fn answers_to(p: PackageView, selector: Seq<char>) -> bool {
    ||| p.name == selector
    ||| lowercase(selector).is_prefix_of(lowercase(p.name))
    ||| occurs_in(lowercase(selector), lowercase(p.name))
}

/// Every one of `names` is the name of an installed package that answers to
/// the selector.
pub open spec fn names_answering(s: Seq<PackageView>, selector: Seq<char>, names: Seq<Seq<char>>) -> bool {
    forall|k: int| 0 <= k < names.len() ==> #[trigger] name_answering(s, selector, names[k])
}

/// `name` is the name of an installed package that answers to the selector.
pub open spec fn name_answering(s: Seq<PackageView>, selector: Seq<char>, name: Seq<char>) -> bool {
    exists|i: int| 0 <= i < s.len() && (#[trigger] s[i]).name == name && answers_to(s[i], selector)
}

proof fn lemma_filter_names_answer(s: Seq<PackageView>, selector: Seq<char>, pred: spec_fn(PackageView) -> bool)
    requires
        forall|p: PackageView| #[trigger] pred(p) ==> answers_to(p, selector),
    ensures
        names_answering(s, selector, names_of(s.filter(pred))),
{
    broadcast use vstd::seq_lib::group_filter_ensures;

    let f = s.filter(pred);
    assert forall|k: int| 0 <= k < names_of(f).len() implies #[trigger] name_answering(s, selector, names_of(f)[k]) by {
        let q = f[k];
        lemma_filter_kept(s, pred, k);
        assert(pred(q));
        assert(names_of(f)[k] == q.name);
        let i = choose|i: int| 0 <= i < s.len() && s[i] == q;
        assert(s[i].name == names_of(f)[k] && answers_to(s[i], selector));
    }
}

/// What a selector resolves to is an installed package that answers to it;
/// a selector is missing only when no installed package answers to it, and
/// the refusal then lists every installed name; an ambiguous one names at
/// least two installed packages that answer to it.
pub proof fn lemma_resolve_outcomes(s: Seq<PackageView>, selector: Seq<char>)
    ensures
        resolve_of(s, selector) matches Ok(p) ==> s.contains(p) && answers_to(p, selector),
        resolve_of(s, selector) matches Err(ResolveErrorView::Missing { selector: sel, installed }) ==> {
            &&& sel == selector
            &&& installed == names_of(s)
            &&& forall|i: int| 0 <= i < s.len() ==> !answers_to(#[trigger] s[i], selector)
        },
        resolve_of(s, selector) matches Err(ResolveErrorView::Ambiguous { selector: sel, names }) ==> {
            &&& sel == selector
            &&& names.len() >= 2
            &&& names_answering(s, selector, names)
        },
{
    broadcast use vstd::seq_lib::group_filter_ensures;

    let folded = lowercase(selector);
    let exact = s.filter(named(selector));
    let prefixed = s.filter(by_prefix(folded));
    let containing = s.filter(by_substring(folded));
    if exact.len() > 0 {
        lemma_filter_kept(s, named(selector), 0);
        assert(named(selector)(exact[0]));
    } else if prefixed.len() == 1 {
        lemma_filter_kept(s, by_prefix(folded), 0);
        assert(by_prefix(folded)(prefixed[0]));
    } else if prefixed.len() > 1 {
        assert forall|p: PackageView| #[trigger] by_prefix(folded)(p) implies answers_to(p, selector) by {}
        lemma_filter_names_answer(s, selector, by_prefix(folded));
    } else if containing.len() == 1 {
        lemma_filter_kept(s, by_substring(folded), 0);
        assert(by_substring(folded)(containing[0]));
    } else if containing.len() > 1 {
        assert forall|p: PackageView| #[trigger] by_substring(folded)(p) implies answers_to(p, selector) by {}
        lemma_filter_names_answer(s, selector, by_substring(folded));
    } else {
        assert forall|i: int| 0 <= i < s.len() implies !answers_to(#[trigger] s[i], selector) by {
            if named(selector)(s[i]) {
                assert(exact.contains(s[i]));
            }
            if by_prefix(folded)(s[i]) {
                assert(prefixed.contains(s[i]));
            }
            if by_substring(folded)(s[i]) {
                assert(containing.contains(s[i]));
            }
        }
    }
}

/// A selector that is no installed package's whole name, and that starts
/// the lowercased name of exactly one package, resolves to that package.
pub proof fn lemma_unique_prefix_wins(s: Seq<PackageView>, selector: Seq<char>, j: int)
    requires
        0 <= j < s.len(),
        forall|i: int| 0 <= i < s.len() ==> (#[trigger] s[i]).name != selector,
        lowercase(selector).is_prefix_of(lowercase(s[j].name)),
        forall|i: int| 0 <= i < s.len() && i != j ==> !lowercase(selector).is_prefix_of(lowercase((#[trigger] s[i]).name)),
    ensures
        resolve_of(s, selector) == Ok::<PackageView, ResolveErrorView>(s[j]),
{
    broadcast use vstd::seq_lib::group_filter_ensures;

    let folded = lowercase(selector);
    lemma_filter_none(s, named(selector));
    let pre = s.take(j);
    let post = s.skip(j + 1);
    assert forall|k: int| 0 <= k < pre.len() implies !by_prefix(folded)(#[trigger] pre[k]) by {
        assert(pre[k] == s[k]);
    }
    assert forall|k: int| 0 <= k < post.len() implies !by_prefix(folded)(#[trigger] post[k]) by {
        assert(post[k] == s[j + 1 + k]);
    }
    lemma_filter_none(pre, by_prefix(folded));
    lemma_filter_none(post, by_prefix(folded));
    lemma_filter_first(s, by_prefix(folded), j);
    assert(s =~= pre + seq![s[j]] + post);
    Seq::filter_distributes_over_add(pre + seq![s[j]], post, by_prefix(folded));
    Seq::filter_distributes_over_add(pre, seq![s[j]], by_prefix(folded));
    reveal(Seq::filter);
    assert(seq![s[j]].drop_last() =~= Seq::<PackageView>::empty());
    assert(seq![s[j]].filter(by_prefix(folded)).len() == 1);
}

/// What a filter keeps was in the sequence.
pub proof fn lemma_filter_kept(s: Seq<PackageView>, pred: spec_fn(PackageView) -> bool, i: int)
    requires
        0 <= i < s.filter(pred).len(),
    ensures
        s.contains(s.filter(pred)[i]),
    decreases s.len(),
{
    reveal(Seq::filter);
    let d = s.drop_last();
    if s.len() > 0 {
        if pred(s.last()) && i == d.filter(pred).len() {
            assert(s[s.len() - 1] == s.last());
        } else {
            lemma_filter_kept(d, pred, i);
            let j = choose|j: int| 0 <= j < d.len() && d[j] == d.filter(pred)[i];
            assert(s[j] == d[j]);
        }
    }
}

/// Whether name `a` comes before name `b`.
pub(crate) fn comes_before(a: &str, b: &str) -> (r: bool)
    ensures
        r == name_before(a@, b@),
{
    let x = chars_of(a);
    let y = chars_of(b);
    let mut i: usize = 0;
    while i < x.len() && i < y.len()
        invariant
            x@ == a@,
            y@ == b@,
            i <= x@.len(),
            i <= y@.len(),
            name_before(a@, b@) == before_from(a@, b@, i as int),
        decreases x@.len() - i,
    {
        let p = x[i] as u32;
        let q = y[i] as u32;
        if p < q {
            return true;
        }
        if p > q {
            return false;
        }
        proof {
            vstd::utf8::char_u32_cast(x@[i as int], p);
            vstd::utf8::char_u32_cast(y@[i as int], q);
        }
        i = i + 1;
    }
    i >= x.len() && i < y.len()
}

/// What a registry holds after removing the name `name` from one that held
/// `before`: the other packages, in name order. This is what
/// [`Registry::remove`] ensures.
pub open spec fn after_remove(before: Seq<PackageView>, after: Seq<PackageView>, name: Seq<char>) -> bool {
    &&& in_name_order(after)
    &&& forall|q: PackageView| #[trigger] after.contains(q) <==> (before.contains(q) && q.name != name)
}

/// What a registry holds after adding `p` to one that held `before`: the
/// new package, and every other package whose name is not its name, in name
/// order. This is what [`Registry::add`] ensures.
pub open spec fn after_add(before: Seq<PackageView>, after: Seq<PackageView>, p: PackageView) -> bool {
    &&& in_name_order(after)
    &&& forall|q: PackageView| #[trigger] after.contains(q) <==> (q == p || (before.contains(q) && q.name != p.name))
}

/// In name order, a package is the only one with its name.
pub proof fn lemma_unique_name(s: Seq<PackageView>, i: int, j: int)
    requires
        in_name_order(s),
        0 <= i < s.len(),
        0 <= j < s.len(),
        s[i].name == s[j].name,
    ensures
        i == j,
{
    if i < j {
        assert(name_before(s[i].name, s[j].name));
        lemma_name_irreflexive(s[i].name);
    } else if j < i {
        assert(name_before(s[j].name, s[i].name));
        lemma_name_irreflexive(s[i].name);
    }
}

/// Two registries in name order that hold the same packages are the same
/// registry.
pub proof fn lemma_same_packages_same_registry(a: Seq<PackageView>, b: Seq<PackageView>)
    requires
        in_name_order(a),
        in_name_order(b),
        forall|q: PackageView| #[trigger] a.contains(q) <==> b.contains(q),
    ensures
        a == b,
    decreases a.len(),
{
    if a.len() == 0 {
        if b.len() > 0 {
            assert(b.contains(b[0]));
            assert(a.contains(b[0]));
        }
        assert(a =~= b);
    } else {
        assert(a.contains(a[0]));
        assert(b.len() > 0);
        assert(b.contains(b[0]));
        assert(b.contains(a[0]));
        assert(a.contains(b[0]));
        let j = choose|j: int| 0 <= j < b.len() && b[j] == a[0];
        let i = choose|i: int| 0 <= i < a.len() && a[i] == b[0];
        if j > 0 {
            assert(name_before(b[0].name, b[j].name));
            if i > 0 {
                assert(name_before(a[0].name, a[i].name));
                lemma_before_transitive(a[0].name, a[i].name, a[0].name, 0);
                lemma_name_irreflexive(a[0].name);
            } else {
                lemma_name_irreflexive(a[0].name);
            }
        }
        assert(a[0] == b[0]);
        let ta = a.drop_first();
        let tb = b.drop_first();
        assert(in_name_order(ta)) by {
            assert forall|x: int, y: int| 0 <= x < y < ta.len() implies name_before(#[trigger] ta[x].name, #[trigger] ta[y].name) by {
                assert(ta[x] == a[x + 1] && ta[y] == a[y + 1]);
            }
        }
        assert(in_name_order(tb)) by {
            assert forall|x: int, y: int| 0 <= x < y < tb.len() implies name_before(#[trigger] tb[x].name, #[trigger] tb[y].name) by {
                assert(tb[x] == b[x + 1] && tb[y] == b[y + 1]);
            }
        }
        assert forall|q: PackageView| #[trigger] ta.contains(q) <==> tb.contains(q) by {
            if ta.contains(q) {
                let x = choose|x: int| 0 <= x < ta.len() && ta[x] == q;
                assert(a[x + 1] == q);
                assert(a.contains(q));
                assert(b.contains(q));
                let y = choose|y: int| 0 <= y < b.len() && b[y] == q;
                if y == 0 {
                    lemma_unique_name(a, 0, x + 1);
                }
                assert(tb[y - 1] == q);
            }
            if tb.contains(q) {
                let y = choose|y: int| 0 <= y < tb.len() && tb[y] == q;
                assert(b[y + 1] == q);
                assert(b.contains(q));
                assert(a.contains(q));
                let x = choose|x: int| 0 <= x < a.len() && a[x] == q;
                if x == 0 {
                    lemma_unique_name(b, 0, y + 1);
                }
                assert(ta[x - 1] == q);
            }
        }
        lemma_same_packages_same_registry(ta, tb);
        assert(a =~= seq![a[0]] + ta);
        assert(b =~= seq![b[0]] + tb);
    }
}

/// After a package is added, looking its name up finds that package.
pub proof fn lemma_add_then_get(before: Seq<PackageView>, after: Seq<PackageView>, p: PackageView, found: PackageView)
    requires
        after_add(before, after, p),
        after.contains(found),
        found.name == p.name,
    ensures
        found == p,
{
}

/// Adding the same package twice leaves the registry as adding it once did:
/// committing again after a lost reply lands in the same state.
pub proof fn lemma_add_twice(s: Seq<PackageView>, t: Seq<PackageView>, u: Seq<PackageView>, p: PackageView)
    requires
        after_add(s, t, p),
        after_add(t, u, p),
    ensures
        u == t,
{
    assert forall|q: PackageView| #[trigger] u.contains(q) <==> t.contains(q) by {
        if t.contains(q) && q != p {
            assert(q.name != p.name);
        }
    }
    lemma_same_packages_same_registry(u, t);
}

/// After a name is removed no package has it, and every other package is
/// still there.
pub proof fn lemma_remove_then_get(before: Seq<PackageView>, after: Seq<PackageView>, name: Seq<char>)
    requires
        forall|q: PackageView| #[trigger] after.contains(q) <==> (before.contains(q) && q.name != name),
    ensures
        forall|i: int| 0 <= i < after.len() ==> #[trigger] after[i].name != name,
        forall|q: PackageView| before.contains(q) && q.name != name ==> #[trigger] after.contains(q),
{
    assert forall|i: int| 0 <= i < after.len() implies #[trigger] after[i].name != name by {
        assert(after.contains(after[i]));
    }
}


/// [`Registry::add`] of a package under a name nobody has, then
/// [`Registry::remove`] of that name, gives the registry back as it was; what
/// the removal hands back under that name is the package that was added.
pub proof fn lemma_add_then_remove(
    before: Seq<PackageView>,
    added: Seq<PackageView>,
    removed: Seq<PackageView>,
    p: PackageView,
)
    requires
        in_name_order(before),
        forall|i: int| 0 <= i < before.len() ==> #[trigger] before[i].name != p.name,
        after_add(before, added, p),
        after_remove(added, removed, p.name),
    ensures
        removed == before,
        forall|q: PackageView| #[trigger] added.contains(q) && q.name == p.name ==> q == p,
{
    assert forall|q: PackageView| #[trigger] removed.contains(q) <==> before.contains(q) by {
        if before.contains(q) {
            let i = choose|i: int| 0 <= i < before.len() && before[i] == q;
            assert(before[i].name != p.name);
        }
    }
    lemma_same_packages_same_registry(removed, before);
}

} // verus!
