//! Command lines: how a command and its environment are written out for a
//! shell.

use vstd::prelude::*;

use crate::helpers::lxc::texts;
use crate::text::{chars_of, join, push_join, push_str, string_of, text_of};

verus! {

broadcast use vstd::string::group_string_axioms;

/// Whether a word has to be quoted for the shell: it holds a space, a
/// double or single quote, or a dollar sign.
pub open spec fn needs_quotes(s: Seq<char>) -> bool {
    exists|i: int| 0 <= i < s.len() && (#[trigger] s[i] == ' ' || s[i] == '"' || s[i] == '\'' || s[i] == '$')
}

/// Every single quote written as `'\''`: close the quote, an escaped quote,
/// open it again.
pub open spec fn quote_quotes(s: Seq<char>) -> Seq<char>
    decreases s.len(),
{
    if s.len() == 0 {
        Seq::empty()
    } else if s.last() == '\'' {
        quote_quotes(s.drop_last()) + seq!['\'', '\\', '\'', '\'']
    } else {
        quote_quotes(s.drop_last()).push(s.last())
    }
}

/// A word as the shell should see it: as it is, or in single quotes.
pub open spec fn shell_word(s: Seq<char>) -> Seq<char> {
    if needs_quotes(s) {
        seq!['\''] + quote_quotes(s) + seq!['\'']
    } else {
        s
    }
}

/// Append `s` as a shell word.
fn push_shell_word(out: &mut Vec<char>, s: &str)
    ensures
        final(out)@ == old(out)@ + shell_word(s@),
{
    let chars = chars_of(s);
    let mut quote = false;
    let mut i: usize = 0;
    while i < chars.len()
        invariant
            chars@ == s@,
            i <= chars@.len(),
            quote == exists|k: int| 0 <= k < i && (#[trigger] chars@[k] == ' ' || chars@[k] == '"' || chars@[k] == '\'' || chars@[k] == '$'),
        decreases chars@.len() - i,
    {
        let c = chars[i];
        if c == ' ' || c == '"' || c == '\'' || c == '$' {
            quote = true;
        }
        i = i + 1;
    }
    if !quote {
        push_str(out, s);
        return;
    }
    let ghost before = out@;
    out.push('\'');
    let mut j: usize = 0;
    while j < chars.len()
        invariant
            chars@ == s@,
            j <= chars@.len(),
            out@ == before + seq!['\''] + quote_quotes(chars@.take(j as int)),
        decreases chars@.len() - j,
    {
        let c = chars[j];
        if c == '\'' {
            out.push('\'');
            out.push('\\');
            out.push('\'');
            out.push('\'');
        } else {
            out.push(c);
        }
        proof {
            let t = chars@.take(j + 1);
            assert(t.drop_last() =~= chars@.take(j as int));
            assert(t.last() == c);
        }
        j = j + 1;
        assert(out@ =~= before + seq!['\''] + quote_quotes(chars@.take(j as int)));
    }
    out.push('\'');
    assert(chars@.take(chars@.len() as int) =~= chars@);
    assert(out@ =~= before + shell_word(s@));
}

/// `s` as a shell word.
pub fn shell_escape(s: &str) -> (r: String)
    ensures
        r@ == shell_word(s@),
{
    let mut v: Vec<char> = Vec::new();
    push_shell_word(&mut v, s);
    assert(v@ =~= shell_word(s@));
    string_of(v.as_slice())
}

/// The words of a command line: each variable as `name=value` with the value
/// a shell word, then each argument as a shell word.
pub open spec fn command_words(cmd: Seq<Seq<char>>, env: Seq<(Seq<char>, Seq<char>)>) -> Seq<Seq<char>> {
    env.map_values(|kv: (Seq<char>, Seq<char>)| kv.0 + seq!['='] + shell_word(kv.1)) + cmd.map_values(
        |c: Seq<char>| shell_word(c),
    )
}

/// A command as one line a shell runs: the words joined with spaces, after
/// `cd DIR;` when there is a working directory.
pub open spec fn command_line(
    cmd: Seq<Seq<char>>,
    working_dir: Option<Seq<char>>,
    env: Seq<(Seq<char>, Seq<char>)>,
) -> Seq<char> {
    let line = join(command_words(cmd, env), seq![' ']);
    match working_dir {
        Some(wd) => seq!['c', 'd', ' '] + shell_word(wd) + seq![';'] + line,
        None => line,
    }
}

/// A command written out as one line for a shell, with its environment in
/// front in the order given.
pub fn flat_cmd(cmd: &Vec<String>, working_dir: Option<&str>, env: &Vec<(String, String)>) -> (r: String)
    ensures
        r@ == command_line(
            cmd@.map_values(|c: String| c@),
            match working_dir {
                Some(wd) => Some(wd@),
                None => None,
            },
            env@.map_values(|kv: (String, String)| (kv.0@, kv.1@)),
        ),
{
    let ghost envs = env@.map_values(|kv: (String, String)| (kv.0@, kv.1@));
    let ghost cmds = cmd@.map_values(|c: String| c@);
    let mut words: Vec<Vec<char>> = Vec::new();
    let mut i: usize = 0;
    while i < env.len()
        invariant
            i <= env@.len(),
            envs == env@.map_values(|kv: (String, String)| (kv.0@, kv.1@)),
            words@.len() == i,
            forall|k: int| 0 <= k < i ==> (#[trigger] words@[k])@ == envs[k].0 + seq!['='] + shell_word(envs[k].1),
        decreases env@.len() - i,
    {
        let mut w: Vec<char> = Vec::new();
        push_str(&mut w, env[i].0.as_str());
        w.push('=');
        push_shell_word(&mut w, env[i].1.as_str());
        words.push(w);
        i = i + 1;
    }
    let mut j: usize = 0;
    while j < cmd.len()
        invariant
            j <= cmd@.len(),
            cmds == cmd@.map_values(|c: String| c@),
            words@.len() == env@.len() + j,
            forall|k: int| 0 <= k < env@.len() ==> (#[trigger] words@[k])@ == envs[k].0 + seq!['='] + shell_word(envs[k].1),
            forall|k: int| 0 <= k < j ==> (#[trigger] words@[env@.len() + k])@ == shell_word(cmds[k]),
        decreases cmd@.len() - j,
    {
        let mut w: Vec<char> = Vec::new();
        push_shell_word(&mut w, cmd[j].as_str());
        words.push(w);
        j = j + 1;
    }
    proof {
        let cw = command_words(cmds, envs);
        assert forall|k: int| 0 <= k < words@.len() implies (#[trigger] words@[k])@ == cw[k] by {
            if k >= env@.len() {
                assert(words@[env@.len() + (k - env@.len())] == words@[k]);
            }
        }
        assert(words@.map_values(|p: Vec<char>| p@) =~= cw);
    }
    let mut out: Vec<char> = Vec::new();
    match working_dir {
        Some(wd) => {
            push_str(&mut out, "cd ");
            push_shell_word(&mut out, wd);
            out.push(';');
            push_join(&mut out, &words, " ");
        },
        None => {
            push_join(&mut out, &words, " ");
        },
    }
    proof {
        reveal_strlit("cd ");
        reveal_strlit(" ");
        assert(" "@ =~= seq![' ']);
        assert("cd "@ =~= seq!['c', 'd', ' ']);
    }
    assert(out@ =~= command_line(
        cmds,
        match working_dir {
            Some(wd) => Some(wd@),
            None => None,
        },
        envs,
    ));
    text_of(&out)
}

/// The command run as root: `sudo` in front of it.
pub fn sudo_command(cmd: &Vec<String>) -> (r: Vec<String>)
    ensures
        texts(r@) == seq!["sudo"@] + texts(cmd@),
{
    let mut r: Vec<String> = Vec::new();
    r.push("sudo".to_string());
    let mut i: usize = 0;
    while i < cmd.len()
        invariant
            i <= cmd@.len(),
            r@.len() == i + 1,
            texts(r@) == seq!["sudo"@] + texts(cmd@).take(i as int),
        decreases cmd@.len() - i,
    {
        let ghost before = r@;
        r.push(cmd[i].clone());
        proof {
            let want = seq!["sudo"@] + texts(cmd@).take(i + 1);
            assert forall|k: int| 0 <= k < i + 2 implies #[trigger] texts(r@)[k] == want[k] by {
                if k < i + 1 {
                    assert(r@[k] == before[k]);
                    assert(texts(before)[k] == (seq!["sudo"@] + texts(cmd@).take(i as int))[k]);
                }
            }
        }
        i = i + 1;
        assert(texts(r@) =~= seq!["sudo"@] + texts(cmd@).take(i as int));
    }
    assert(texts(cmd@).take(cmd@.len() as int) =~= texts(cmd@));
    r
}

} // verus!
