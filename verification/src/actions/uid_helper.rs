//! The system user each installed app runs as.

use vstd::prelude::*;

use crate::helpers::lxc::texts;
use crate::text::{chars_of, decimal, decimal_chars, lines_chars, lines_of, push_str, string_of, trim, trim_chars};

verus! {

/// What a character of a package name becomes in a user name: ASCII letters
/// and digits stay, anything else is a dash.
pub open spec fn user_char(c: char) -> char {
    if ('a' <= c <= 'z') || ('A' <= c <= 'Z') || ('0' <= c <= '9') {
        c
    } else {
        '-'
    }
}

/// The characters without dashes at the start.
pub open spec fn trim_dashes_start(s: Seq<char>) -> Seq<char>
    decreases s.len(),
{
    if s.len() > 0 && s[0] == '-' {
        trim_dashes_start(s.drop_first())
    } else {
        s
    }
}

/// The characters without dashes at the end.
pub open spec fn trim_dashes_end(s: Seq<char>) -> Seq<char>
    decreases s.len(),
{
    if s.len() > 0 && s.last() == '-' {
        trim_dashes_end(s.drop_last())
    } else {
        s
    }
}

/// The system user name for a package: `mosaic-` and the package name with
/// every character that is not an ASCII letter or digit made a dash, dashes
/// trimmed from both ends, all of it cut to 31 characters.
pub open spec fn user_name_of(package: Seq<char>) -> Seq<char> {
    let compact = package.map_values(|c: char| user_char(c));
    let name = "mosaic-"@ + trim_dashes_end(trim_dashes_start(compact));
    if name.len() <= 31 {
        name
    } else {
        name.take(31)
    }
}

proof fn lemma_trim_dashes_start(s: Seq<char>, i: int)
    requires
        0 <= i <= s.len(),
        forall|k: int| 0 <= k < i ==> s[k] == '-',
    ensures
        trim_dashes_start(s) == trim_dashes_start(s.subrange(i, s.len() as int)),
    decreases i,
{
    if i > 0 {
        lemma_trim_dashes_start(s.drop_first(), i - 1);
        assert(s.drop_first().subrange(i - 1, s.len() - 1) =~= s.subrange(i, s.len() as int));
    } else {
        assert(s.subrange(0, s.len() as int) =~= s);
    }
}

proof fn lemma_trim_dashes_end(s: Seq<char>, j: int)
    requires
        0 <= j <= s.len(),
        forall|k: int| j <= k < s.len() ==> s[k] == '-',
    ensures
        trim_dashes_end(s) == trim_dashes_end(s.take(j)),
    decreases s.len() - j,
{
    if j < s.len() {
        lemma_trim_dashes_end(s.drop_last(), j);
        assert(s.drop_last().take(j) =~= s.take(j));
    } else {
        assert(s.take(j) =~= s);
    }
}

/// Whether a character is an ASCII letter or digit.
pub open spec fn alnum(c: char) -> bool {
    ('a' <= c <= 'z') || ('A' <= c <= 'Z') || ('0' <= c <= '9')
}

/// The ASCII letters and digits of `s`, in order.
pub open spec fn alnums(s: Seq<char>) -> Seq<char>
    decreases s.len(),
{
    if s.len() == 0 {
        Seq::empty()
    } else {
        alnums(s.drop_last()) + if alnum(s.last()) {
            seq![s.last()]
        } else {
            Seq::<char>::empty()
        }
    }
}

proof fn lemma_alnums_add(a: Seq<char>, b: Seq<char>)
    ensures
        alnums(a + b) == alnums(a) + alnums(b),
    decreases b.len(),
{
    if b.len() == 0 {
        assert(a + b =~= a);
        assert(alnums(a) + alnums(b) =~= alnums(a));
    } else {
        lemma_alnums_add(a, b.drop_last());
        assert((a + b).drop_last() =~= a + b.drop_last());
        assert((a + b).last() == b.last());
        assert(alnums(a + b) =~= alnums(a) + alnums(b));
    }
}

proof fn lemma_alnums_mapped(s: Seq<char>)
    ensures
        alnums(s.map_values(|c: char| user_char(c))) == alnums(s),
    decreases s.len(),
{
    let m = s.map_values(|c: char| user_char(c));
    if s.len() > 0 {
        lemma_alnums_mapped(s.drop_last());
        assert(m.drop_last() =~= s.drop_last().map_values(|c: char| user_char(c)));
        assert(m.last() == user_char(s.last()));
    }
}

proof fn lemma_alnums_trim_start(s: Seq<char>)
    ensures
        alnums(trim_dashes_start(s)) == alnums(s),
    decreases s.len(),
{
    if s.len() > 0 && s[0] == '-' {
        lemma_alnums_trim_start(s.drop_first());
        assert(s =~= seq!['-'] + s.drop_first());
        lemma_alnums_add(seq!['-'], s.drop_first());
        let dash = seq!['-'];
        assert(dash.drop_last() =~= Seq::<char>::empty());
        assert(dash.last() == '-');
        assert(!alnum('-'));
        assert(alnums(Seq::<char>::empty()) =~= Seq::<char>::empty());
        assert(alnums(dash) =~= Seq::<char>::empty());
        assert(alnums(seq!['-']) + alnums(s.drop_first()) =~= alnums(s.drop_first()));
    }
}

proof fn lemma_alnums_trim_end(s: Seq<char>)
    ensures
        alnums(trim_dashes_end(s)) == alnums(s),
    decreases s.len(),
{
    if s.len() > 0 && s.last() == '-' {
        lemma_alnums_trim_end(s.drop_last());
        assert(alnums(s) =~= alnums(s.drop_last()));
    }
}

proof fn lemma_trim_start_edge(s: Seq<char>)
    ensures
        trim_dashes_start(s).len() > 0 ==> trim_dashes_start(s)[0] != '-',
    decreases s.len(),
{
    if s.len() > 0 && s[0] == '-' {
        lemma_trim_start_edge(s.drop_first());
    }
}

proof fn lemma_trim_end_edge(s: Seq<char>)
    ensures
        trim_dashes_end(s).len() > 0 ==> trim_dashes_end(s).last() != '-',
        trim_dashes_end(s).is_prefix_of(s),
    decreases s.len(),
{
    if s.len() > 0 && s.last() == '-' {
        lemma_trim_end_edge(s.drop_last());
        let t = trim_dashes_end(s.drop_last());
        assert forall|k: int| 0 <= k < t.len() implies t[k] == s[k] by {
            assert(t[k] == s.drop_last()[k]);
        }
    }
}

/// Letters, digits and dashes only.
pub open spec fn dashed(s: Seq<char>) -> bool {
    forall|k: int| 0 <= k < s.len() ==> alnum(#[trigger] s[k]) || s[k] == '-'
}

proof fn lemma_dashed_trim(s: Seq<char>)
    requires
        dashed(s),
    ensures
        dashed(trim_dashes_start(s)),
        dashed(trim_dashes_end(s)),
    decreases s.len(),
{
    if s.len() > 0 {
        let f = s.drop_first();
        let l = s.drop_last();
        assert forall|k: int| 0 <= k < f.len() implies alnum(#[trigger] f[k]) || f[k] == '-' by {
            assert(f[k] == s[k + 1]);
        }
        assert forall|k: int| 0 <= k < l.len() implies alnum(#[trigger] l[k]) || l[k] == '-' by {
            assert(l[k] == s[k]);
        }
        lemma_dashed_trim(f);
        lemma_dashed_trim(l);
    }
}

/// A user name is `mosaic-` and then the package name's letters and digits,
/// every one of them and in order, with dashes where anything else stood:
/// no letter or digit is lost or changed, and no dash begins it or, below
/// the cut, ends it. Where the cut to 31 characters shortens it, what
/// remains is a start of those letters and digits.
pub proof fn lemma_user_name_keeps_letters_and_digits(package: Seq<char>)
    ensures
        user_name_of(package).len() <= 31,
        user_name_of(package).take(7) == "mosaic-"@,
        dashed(user_name_of(package).skip(7)),
        alnums(user_name_of(package).skip(7)).is_prefix_of(alnums(package)),
        user_name_of(package).len() < 31 ==> alnums(user_name_of(package).skip(7)) == alnums(package),
        user_name_of(package).len() > 7 ==> user_name_of(package)[7] != '-',
        7 < user_name_of(package).len() < 31 ==> user_name_of(package).last() != '-',
{
    reveal_strlit("mosaic-");
    let compact = package.map_values(|c: char| user_char(c));
    let core = trim_dashes_end(trim_dashes_start(compact));
    let name = "mosaic-"@ + core;
    assert(dashed(compact)) by {
        assert forall|k: int| 0 <= k < compact.len() implies alnum(#[trigger] compact[k]) || compact[k] == '-' by {
            assert(compact[k] == user_char(package[k]));
        }
    }
    lemma_dashed_trim(compact);
    lemma_dashed_trim(trim_dashes_start(compact));
    lemma_trim_start_edge(compact);
    lemma_trim_end_edge(trim_dashes_start(compact));
    if core.len() > 0 {
        assert(core[0] == trim_dashes_start(compact)[0]);
    }
    lemma_alnums_mapped(package);
    lemma_alnums_trim_start(compact);
    lemma_alnums_trim_end(trim_dashes_start(compact));
    assert(alnums(core) == alnums(package));
    let u = user_name_of(package);
    if name.len() <= 31 {
        assert(u == name);
        assert(u.skip(7) =~= core);
        assert(u.take(7) =~= "mosaic-"@);
        if u.len() > 7 {
            assert(u[7] == core[0]);
            assert(u.last() == core.last());
        }
    } else {
        assert(u == name.take(31));
        let kept = core.take(24);
        assert(u.skip(7) =~= kept);
        assert(u.take(7) =~= "mosaic-"@);
        assert(u[7] == core[0]);
        assert(core =~= kept + core.skip(24));
        lemma_alnums_add(kept, core.skip(24));
        assert forall|k: int| 0 <= k < kept.len() implies alnum(#[trigger] kept[k]) || kept[k] == '-' by {
            assert(kept[k] == core[k]);
        }
    }
}

/// A package name's part from its first letter or digit, at `a`, to its
/// last, at `b`, with every other character a dash.
pub open spec fn span_dashed(package: Seq<char>, a: int, b: int) -> Seq<char> {
    Seq::new((b + 1 - a) as nat, |k: int| if alnum(package[a + k]) { package[a + k] } else { '-' })
}

proof fn lemma_trim_start_at(s: Seq<char>, a: int)
    requires
        0 <= a < s.len(),
        s[a] != '-',
        forall|k: int| 0 <= k < a ==> s[k] == '-',
    ensures
        trim_dashes_start(s) == s.subrange(a, s.len() as int),
{
    lemma_trim_dashes_start(s, a);
}

proof fn lemma_trim_end_at(s: Seq<char>, b: int)
    requires
        0 <= b < s.len(),
        s[b] != '-',
        forall|k: int| b < k < s.len() ==> s[k] == '-',
    ensures
        trim_dashes_end(s) == s.take(b + 1),
{
    lemma_trim_dashes_end(s, b + 1);
    assert(s.take(b + 1).last() == s[b]);
}

/// A package name whose letters and digits run from `a` to `b` gets the user
/// name `mosaic-` and that stretch, each letter and digit kept where it
/// stands and everything else between them a dash, cut to 31 characters.
pub proof fn lemma_user_name_is_the_lettered_span(package: Seq<char>, a: int, b: int)
    requires
        0 <= a <= b < package.len(),
        alnum(package[a]),
        alnum(package[b]),
        forall|k: int| 0 <= k < a ==> !alnum(#[trigger] package[k]),
        forall|k: int| b < k < package.len() ==> !alnum(#[trigger] package[k]),
    ensures
        user_name_of(package) == ("mosaic-"@ + span_dashed(package, a, b)).take(
            if 7 + b + 1 - a <= 31 { 7 + b + 1 - a } else { 31 },
        ),
{
    reveal_strlit("mosaic-");
    let compact = package.map_values(|c: char| user_char(c));
    assert forall|k: int| 0 <= k < compact.len() implies #[trigger] compact[k] == (if alnum(package[k]) {
        package[k]
    } else {
        '-'
    }) by {}
    assert forall|k: int| 0 <= k < a implies #[trigger] compact[k] == '-' by {
        assert(!alnum(package[k]));
    }
    lemma_trim_start_at(compact, a);
    let ts = compact.subrange(a, compact.len() as int);
    assert forall|k: int| b - a < k < ts.len() implies #[trigger] ts[k] == '-' by {
        assert(ts[k] == compact[a + k]);
        assert(!alnum(package[a + k]));
    }
    assert(ts[b - a] == compact[b]);
    lemma_trim_end_at(ts, b - a);
    let core = ts.take(b - a + 1);
    assert(core =~= span_dashed(package, a, b));
    let name = "mosaic-"@ + core;
    assert(name.len() == 7 + b + 1 - a);
    if name.len() <= 31 {
        assert(name.take(name.len() as int) =~= name);
    }
}

/// A package name without a letter or digit gets the bare user name
/// `mosaic-`.
pub proof fn lemma_user_name_without_letters(package: Seq<char>)
    requires
        forall|k: int| 0 <= k < package.len() ==> !alnum(#[trigger] package[k]),
    ensures
        user_name_of(package) == "mosaic-"@,
{
    reveal_strlit("mosaic-");
    let compact = package.map_values(|c: char| user_char(c));
    assert forall|k: int| 0 <= k < compact.len() implies #[trigger] compact[k] == '-' by {
        assert(!alnum(package[k]));
    }
    lemma_trim_dashes_start(compact, compact.len() as int);
    assert(compact.subrange(compact.len() as int, compact.len() as int) =~= Seq::<char>::empty());
    assert(trim_dashes_end(Seq::<char>::empty()) == Seq::<char>::empty());
    assert("mosaic-"@ + Seq::<char>::empty() =~= "mosaic-"@);
}

/// The system user name for a package. Android package names contain dots,
/// which are not valid in a user name.
pub fn user_name(package: &str) -> (r: String)
    ensures
        r@ == user_name_of(package@),
        r@.len() <= 31,
{
    let chars = chars_of(package);
    let ghost compact = package@.map_values(|c: char| user_char(c));
    let mut mapped: Vec<char> = Vec::new();
    let mut i: usize = 0;
    while i < chars.len()
        invariant
            chars@ == package@,
            i <= chars@.len(),
            mapped@ == chars@.take(i as int).map_values(|c: char| user_char(c)),
        decreases chars@.len() - i,
    {
        let c = chars[i];
        let m = if ('a' <= c && c <= 'z') || ('A' <= c && c <= 'Z') || ('0' <= c && c <= '9') {
            c
        } else {
            '-'
        };
        mapped.push(m);
        i = i + 1;
        assert(mapped@ =~= chars@.take(i as int).map_values(|c: char| user_char(c)));
    }
    assert(chars@.take(chars@.len() as int) =~= chars@);
    assert(mapped@ == compact);
    let mut a: usize = 0;
    while a < mapped.len() && mapped[a] == '-'
        invariant
            a <= mapped@.len(),
            forall|k: int| 0 <= k < a ==> mapped@[k] == '-',
        decreases mapped@.len() - a,
    {
        a = a + 1;
    }
    let mut b: usize = mapped.len();
    while b > a && mapped[b - 1] == '-'
        invariant
            a <= b <= mapped@.len(),
            forall|k: int| b <= k < mapped@.len() ==> mapped@[k] == '-',
        decreases b,
    {
        b = b - 1;
    }
    let ghost core = mapped@.subrange(a as int, b as int);
    proof {
        lemma_trim_dashes_start(compact, a as int);
        let rest = compact.subrange(a as int, compact.len() as int);
        if rest.len() > 0 {
            assert(rest[0] == compact[a as int]);
        }
        assert(trim_dashes_start(rest) == rest);
        lemma_trim_dashes_end(rest, (b - a) as int);
        assert(rest.take((b - a) as int) =~= core);
        if core.len() > 0 {
            assert(core.last() == compact[b - 1]);
        }
        assert(trim_dashes_end(core) == core);
    }
    let mut name: Vec<char> = Vec::new();
    push_str(&mut name, "mosaic-");
    let ghost prefix = name@;
    let mut k: usize = a;
    while k < b && name.len() < 31
        invariant
            a <= k <= b,
            b <= mapped@.len(),
            name@ == prefix + mapped@.subrange(a as int, k as int),
            name@.len() <= 31 || k == a,
        decreases b - k,
    {
        name.push(mapped[k]);
        k = k + 1;
        assert(name@ =~= prefix + mapped@.subrange(a as int, k as int));
    }
    proof {
        reveal_strlit("mosaic-");
        let full = "mosaic-"@ + core;
        assert(prefix == "mosaic-"@);
        if k == b {
            assert(name@ =~= full);
        } else {
            assert(name@ =~= full.take(31));
        }
    }
    string_of(name.as_slice())
}

/// The arguments the helper is run with to set an app's user up: the work
/// directory, the package, its uid and data directory, and the APK where
/// one is to be installed.
pub open spec fn setup_args(
    work: Seq<char>,
    package: Seq<char>,
    uid: u32,
    apk: Option<Seq<char>>,
    data_dir: Seq<char>,
) -> Seq<Seq<char>> {
    seq!["--work"@, work, "uid-helper"@, package, "--uid"@, decimal_chars(uid as nat), "--data-dir"@, data_dir]
        + match apk {
        Some(a) => seq!["--apk"@, a],
        None => Seq::empty(),
    }
}

/// The arguments the helper is run with to remove an app's data.
pub open spec fn remove_args(work: Seq<char>, package: Seq<char>, data_dir: Seq<char>) -> Seq<Seq<char>> {
    seq!["--work"@, work, "uid-helper"@, package, "--remove"@, "--data-dir"@, data_dir]
}

/// How the helper gets root: it already is, or `sudo -n` where no one can
/// be asked for a password, or `pkexec` where it is installed; otherwise it
/// cannot.
pub open spec fn elevation_words(is_root: bool, noninteractive: bool, pkexec: bool, exe: Seq<char>) -> Option<
    Seq<Seq<char>>,
> {
    if is_root {
        Some(seq![exe])
    } else if noninteractive {
        Some(seq!["sudo"@, "-n"@, exe])
    } else if pkexec {
        Some(seq!["pkexec"@, exe])
    } else {
        None
    }
}

/// The arguments that set an app's user up.
pub fn setup_arguments(work: &str, package: &str, uid: u32, apk: Option<&str>, data_dir: &str) -> (r: Vec<String>)
    ensures
        texts(r@) == setup_args(work@, package@, uid, match apk { Some(a) => Some(a@), None => None }, data_dir@),
{
    let mut r: Vec<String> = Vec::new();
    r.push("--work".to_string());
    r.push(work.to_string());
    r.push("uid-helper".to_string());
    r.push(package.to_string());
    r.push("--uid".to_string());
    r.push(decimal(uid as u64));
    r.push("--data-dir".to_string());
    r.push(data_dir.to_string());
    match apk {
        Some(a) => {
            r.push("--apk".to_string());
            r.push(a.to_string());
        },
        None => {},
    }
    assert(texts(r@) =~= setup_args(work@, package@, uid, match apk { Some(a) => Some(a@), None => None }, data_dir@));
    r
}

/// The arguments that remove an app's data.
pub fn remove_arguments(work: &str, package: &str, data_dir: &str) -> (r: Vec<String>)
    ensures
        texts(r@) == remove_args(work@, package@, data_dir@),
{
    let mut r: Vec<String> = Vec::new();
    r.push("--work".to_string());
    r.push(work.to_string());
    r.push("uid-helper".to_string());
    r.push(package.to_string());
    r.push("--remove".to_string());
    r.push("--data-dir".to_string());
    r.push(data_dir.to_string());
    assert(texts(r@) =~= remove_args(work@, package@, data_dir@));
    r
}

/// The words the helper's command line begins with, or `None` where it
/// cannot get root.
pub fn elevation(is_root: bool, noninteractive: bool, pkexec: bool, exe: &str) -> (r: Option<Vec<String>>)
    ensures
        match r {
            Some(w) => elevation_words(is_root, noninteractive, pkexec, exe@) == Some(texts(w@)),
            None => elevation_words(is_root, noninteractive, pkexec, exe@) is None,
        },
{
    let mut w: Vec<String> = Vec::new();
    if is_root {
        w.push(exe.to_string());
    } else if noninteractive {
        w.push("sudo".to_string());
        w.push("-n".to_string());
        w.push(exe.to_string());
    } else if pkexec {
        w.push("pkexec".to_string());
        w.push(exe.to_string());
    } else {
        return None;
    }
    proof {
        let want = elevation_words(is_root, noninteractive, pkexec, exe@)->Some_0;
        assert(texts(w@) =~= want);
    }
    Some(w)
}

/// Why the helper refused: the last line of what it wrote to stderr, or
/// that it wrote nothing.
pub open spec fn refusal_text(stderr: Seq<char>) -> Seq<char> {
    let lines = lines_of(trim(stderr));
    "uid helper refused: "@ + if lines.len() == 0 {
        "no output"@
    } else {
        lines.last()
    }
}

/// What a run of the helper comes to: done when it exited with status 0,
/// and otherwise refused, in the words of its last line of stderr.
pub fn helper_outcome(succeeded: bool, stderr: &str) -> (r: Result<(), String>)
    ensures
        succeeded ==> r is Ok,
        !succeeded ==> (r matches Err(e) && e@ == refusal_text(stderr@)),
{
    if succeeded {
        return Ok(());
    }
    let text = chars_of(stderr);
    let trimmed = trim_chars(text.as_slice());
    let lines = lines_chars(trimmed.as_slice());
    let mut out: Vec<char> = Vec::new();
    push_str(&mut out, "uid helper refused: ");
    if lines.len() == 0 {
        push_str(&mut out, "no output");
    } else {
        let last = &lines[lines.len() - 1];
        let mut j: usize = 0;
        let ghost before = out@;
        while j < last.len()
            invariant
                j <= last@.len(),
                out@ == before + last@.take(j as int),
            decreases last@.len() - j,
        {
            out.push(last[j]);
            j = j + 1;
            assert(out@ =~= before + last@.take(j as int));
        }
        assert(last@.take(last@.len() as int) =~= last@);
    }
    assert(out@ =~= refusal_text(stderr@));
    Err(string_of(out.as_slice()))
}

} // verus!
