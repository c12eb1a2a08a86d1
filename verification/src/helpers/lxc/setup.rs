//! The container's own LXC configuration: which snippets it is assembled
//! from, and the commands that assemble it in the work directory.

use vstd::prelude::*;

use crate::helpers::lxc::texts;
use crate::text::{join, push_join, push_str, same_text, string_of};

verus! {

broadcast use vstd::string::group_string_axioms;

/// The AppArmor profile the container runs under where the host has it.
pub const LXC_APPARMOR_PROFILE: &'static str = "lxc-mosaic";

/// Where the configuration snippets live: the prefix each snippet's name
/// follows.
pub open spec fn config_prefix(tools_src: Seq<char>) -> Seq<char> {
    tools_src + "/data/configs/config_"@
}

/// The snippets the configuration is made of, in order: the base, then for
/// LXC 1 and 2 the one for those versions, and for later versions the
/// snippet of each version from 3 up to the installed one, where it is
/// shipped.
pub open spec fn snippet_paths(tools_src: Seq<char>, lxc_ver: u32, present: Seq<Seq<char>>) -> Seq<Seq<char>> {
    let p = config_prefix(tools_src);
    if lxc_ver <= 2 {
        seq![p + "base"@, p + "1"@]
    } else {
        seq![p + "base"@] + (if present.contains(p + "3"@) {
            seq![p + "3"@]
        } else {
            Seq::empty()
        }) + (if lxc_ver >= 4 && present.contains(p + "4"@) {
            seq![p + "4"@]
        } else {
            Seq::empty()
        })
    }
}

/// `s` between double quotes.
pub open spec fn quoted(s: Seq<char>) -> Seq<char> {
    seq!['"'] + s + seq!['"']
}

/// Where the container's configuration directory is.
pub open spec fn lxc_dir(work: Seq<char>) -> Seq<char> {
    work + "/lxc/mosaic"@
}

/// The shell line that writes the snippets, in order, into the
/// configuration file.
pub open spec fn cat_line(snippets: Seq<Seq<char>>, lxc_path: Seq<char>) -> Seq<char> {
    "cat "@ + join(snippets.map_values(|s: Seq<char>| quoted(s)), " "@) + " > "@ + quoted(lxc_path + "/config"@)
}

/// The commands that assemble the configuration, in order: make the
/// directory, write the snippets into it, put in the host's architecture and
/// the post-stop hook, copy the seccomp profile, and, where AppArmor is on,
/// confine the container by its profile.
pub open spec fn setup_commands(
    work: Seq<char>,
    tools_src: Seq<char>,
    snippets: Seq<Seq<char>>,
    arch: Seq<char>,
    apparmor: bool,
) -> Seq<Seq<Seq<char>>> {
    let dir = lxc_dir(work);
    let config = dir + "/config"@;
    let base = seq![
        seq!["mkdir"@, "-p"@, dir],
        seq!["sh"@, "-c"@, cat_line(snippets, dir)],
        seq!["sed"@, "-i"@, "s/LXCARCH/"@ + arch + "/"@, config],
        seq!["sed"@, "-i"@, "s#LXCPOSTSTOP#"@ + tools_src + "/data/scripts/mosaic-post-stop.sh#"@, config],
        seq!["cp"@, "-fpr"@, tools_src + "/data/configs/mosaic.seccomp"@, dir + "/mosaic.seccomp"@],
    ];
    if apparmor {
        base.push(seq!["sed"@, "-i"@, "-E"@, "/lxc.aa_profile|lxc.apparmor.profile/ s/unconfined/"@ + LXC_APPARMOR_PROFILE@ + "/g"@, config])
    } else {
        base
    }
}

/// The command that moves the generated device nodes in beside the
/// configuration.
pub open spec fn nodes_move(work: Seq<char>) -> Seq<Seq<char>> {
    seq!["mv"@, work + "/config_nodes"@, lxc_dir(work)]
}

/// `a` then `b`.
fn concat(a: &str, b: &str) -> (s: String)
    ensures
        s@ == a@ + b@,
{
    let mut out: Vec<char> = Vec::new();
    push_str(&mut out, a);
    push_str(&mut out, b);
    string_of(out.as_slice())
}

/// `a`, `b`, then `c`.
fn concat3(a: &str, b: &str, c: &str) -> (s: String)
    ensures
        s@ == a@ + b@ + c@,
{
    let mut out: Vec<char> = Vec::new();
    push_str(&mut out, a);
    push_str(&mut out, b);
    push_str(&mut out, c);
    string_of(out.as_slice())
}

/// Whether `s` is one of `present`.
fn listed(present: &Vec<String>, s: &str) -> (r: bool)
    ensures
        r == texts(present@).contains(s@),
{
    let mut i: usize = 0;
    while i < present.len()
        invariant
            i <= present@.len(),
            forall|j: int| 0 <= j < i ==> #[trigger] present@[j]@ != s@,
        decreases present@.len() - i,
    {
        if same_text(present[i].as_str(), s) {
            assert(texts(present@)[i as int] == s@);
            return true;
        }
        i = i + 1;
    }
    assert forall|j: int| 0 <= j < texts(present@).len() implies #[trigger] texts(present@)[j] != s@ by {
        assert(present@[j]@ != s@);
    }
    false
}

/// The snippets the container's configuration is made of, given the LXC
/// version and which snippet files are shipped.
pub fn lxc_snippets(tools_src: &str, lxc_ver: u32, present: &Vec<String>) -> (r: Vec<String>)
    ensures
        texts(r@) == snippet_paths(tools_src@, lxc_ver, texts(present@)),
{
    let prefix = concat(tools_src, "/data/configs/config_");
    let ghost p = config_prefix(tools_src@);
    let mut r: Vec<String> = Vec::new();
    r.push(concat(prefix.as_str(), "base"));
    if lxc_ver <= 2 {
        r.push(concat(prefix.as_str(), "1"));
    } else {
        let three = concat(prefix.as_str(), "3");
        if listed(present, three.as_str()) {
            r.push(three);
        }
        if lxc_ver >= 4 {
            let four = concat(prefix.as_str(), "4");
            if listed(present, four.as_str()) {
                r.push(four);
            }
        }
    }
    assert(texts(r@) =~= snippet_paths(tools_src@, lxc_ver, texts(present@)));
    r
}

/// The shell line that writes the snippets into `lxc_path`'s configuration.
pub fn cat_line_of(snippets: &Vec<String>, lxc_path: &str) -> (s: String)
    ensures
        s@ == cat_line(texts(snippets@), lxc_path@),
{
    let ghost want = texts(snippets@).map_values(|x: Seq<char>| quoted(x));
    let mut parts: Vec<Vec<char>> = Vec::new();
    let mut i: usize = 0;
    while i < snippets.len()
        invariant
            i <= snippets@.len(),
            want == texts(snippets@).map_values(|x: Seq<char>| quoted(x)),
            parts@.len() == i,
            parts@.map_values(|p: Vec<char>| p@) == want.take(i as int),
        decreases snippets@.len() - i,
    {
        let mut q: Vec<char> = Vec::new();
        q.push('"');
        push_str(&mut q, snippets[i].as_str());
        q.push('"');
        assert(q@ =~= quoted(snippets@[i as int]@));
        let ghost before = parts@;
        parts.push(q);
        proof {
            assert(want[i as int] == quoted(snippets@[i as int]@));
            assert forall|k: int| 0 <= k < i + 1 implies #[trigger] parts@[k]@ == want[k] by {
                if k < i {
                    assert(parts@[k] == before[k]);
                    assert(before.map_values(|p: Vec<char>| p@)[k] == want.take(i as int)[k]);
                }
            }
        }
        i = i + 1;
        assert(parts@.map_values(|p: Vec<char>| p@) =~= want.take(i as int));
    }
    assert(want.take(snippets@.len() as int) =~= want);
    let mut out: Vec<char> = Vec::new();
    push_str(&mut out, "cat ");
    push_join(&mut out, &parts, " ");
    push_str(&mut out, " > ");
    out.push('"');
    push_str(&mut out, lxc_path);
    push_str(&mut out, "/config");
    out.push('"');
    assert(out@ =~= cat_line(texts(snippets@), lxc_path@));
    string_of(out.as_slice())
}

/// The commands that assemble the container's configuration in the work
/// directory.
pub fn lxc_setup_commands(work: &str, tools_src: &str, snippets: &Vec<String>, arch: &str, apparmor: bool) -> (r: Vec<Vec<String>>)
    ensures
        r@.map_values(|c: Vec<String>| texts(c@)) == setup_commands(work@, tools_src@, texts(snippets@), arch@, apparmor),
{
    let ghost want = setup_commands(work@, tools_src@, texts(snippets@), arch@, apparmor);
    let dir = concat(work, "/lxc/mosaic");
    let config = concat(dir.as_str(), "/config");
    let mut r: Vec<Vec<String>> = Vec::new();

    let mut c: Vec<String> = Vec::new();
    c.push("mkdir".to_string());
    c.push("-p".to_string());
    c.push(dir.clone());
    assert(texts(c@) =~= want[0]);
    r.push(c);

    let mut c: Vec<String> = Vec::new();
    c.push("sh".to_string());
    c.push("-c".to_string());
    c.push(cat_line_of(snippets, dir.as_str()));
    assert(texts(c@) =~= want[1]);
    r.push(c);

    let mut c: Vec<String> = Vec::new();
    c.push("sed".to_string());
    c.push("-i".to_string());
    c.push(concat3("s/LXCARCH/", arch, "/"));
    c.push(config.clone());
    assert(texts(c@) =~= want[2]);
    r.push(c);

    let mut c: Vec<String> = Vec::new();
    c.push("sed".to_string());
    c.push("-i".to_string());
    c.push(concat3("s#LXCPOSTSTOP#", tools_src, "/data/scripts/mosaic-post-stop.sh#"));
    c.push(config.clone());
    assert(texts(c@) =~= want[3]);
    r.push(c);

    let mut c: Vec<String> = Vec::new();
    c.push("cp".to_string());
    c.push("-fpr".to_string());
    c.push(concat(tools_src, "/data/configs/mosaic.seccomp"));
    c.push(concat(dir.as_str(), "/mosaic.seccomp"));
    assert(texts(c@) =~= want[4]);
    r.push(c);

    if apparmor {
        let mut c: Vec<String> = Vec::new();
        c.push("sed".to_string());
        c.push("-i".to_string());
        c.push("-E".to_string());
        c.push(concat3("/lxc.aa_profile|lxc.apparmor.profile/ s/unconfined/", LXC_APPARMOR_PROFILE, "/g"));
        c.push(config.clone());
        assert(texts(c@) =~= want[5]);
        r.push(c);
    }
    assert(r@.map_values(|c: Vec<String>| texts(c@)) =~= want);
    r
}

/// The command that moves the generated device nodes in beside the
/// configuration.
pub fn nodes_move_command(work: &str) -> (c: Vec<String>)
    ensures
        texts(c@) == nodes_move(work@),
{
    let mut c: Vec<String> = Vec::new();
    c.push("mv".to_string());
    c.push(concat(work, "/config_nodes"));
    c.push(concat(work, "/lxc/mosaic"));
    assert(texts(c@) =~= nodes_move(work@));
    c
}

} // verus!
