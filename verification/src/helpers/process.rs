//! How a command's output is handled.

use vstd::prelude::*;

use crate::text::{
    chars_of, decimal, decimal_chars, lines_chars, lines_of, parse_u32, parse_u32_chars, push_str, same_chars, same_text,
    string_of, text_of, words_chars, words_of,
};

verus! {

/// Where a command's output goes.
#[derive(Debug, Clone, Copy, PartialEq, Eq, Structural)]
pub enum OutputMode {
    Log,
    Stdout,
    Interactive,
    Tui,
    Background,
    Pipe,
}

/// The mode an output name selects.
pub open spec fn mode_named(s: Seq<char>) -> Option<OutputMode> {
    if s == "log"@ {
        Some(OutputMode::Log)
    } else if s == "stdout"@ {
        Some(OutputMode::Stdout)
    } else if s == "interactive"@ {
        Some(OutputMode::Interactive)
    } else if s == "tui"@ {
        Some(OutputMode::Tui)
    } else if s == "background"@ {
        Some(OutputMode::Background)
    } else if s == "pipe"@ {
        Some(OutputMode::Pipe)
    } else {
        None
    }
}

impl OutputMode {
    /// The mode an output name selects, or an error naming the value.
    pub fn from_str(s: &str) -> (r: Result<OutputMode, String>)
        ensures
            match mode_named(s@) {
                Some(m) => r == Ok::<OutputMode, String>(m),
                None => r is Err && r->Err_0@ == "Invalid output value: "@ + s@,
            },
    {
        if same_text(s, "log") {
            Ok(OutputMode::Log)
        } else if same_text(s, "stdout") {
            Ok(OutputMode::Stdout)
        } else if same_text(s, "interactive") {
            Ok(OutputMode::Interactive)
        } else if same_text(s, "tui") {
            Ok(OutputMode::Tui)
        } else if same_text(s, "background") {
            Ok(OutputMode::Background)
        } else if same_text(s, "pipe") {
            Ok(OutputMode::Pipe)
        } else {
            let mut v: Vec<char> = Vec::new();
            push_str(&mut v, "Invalid output value: ");
            push_str(&mut v, s);
            Err(string_of(v.as_slice()))
        }
    }
}

/// The mode a command runs in, refusing the combinations that can not hand
/// output back: a background or a terminal UI process whose output is wanted.
pub fn checked_mode(output: &str, output_return: bool) -> (r: Result<OutputMode, String>)
    ensures
        match mode_named(output@) {
            Some(m) => if output_return && m == OutputMode::Background {
                r is Err && r->Err_0@ == "Can't use output_return with output: background"@
            } else if output_return && m == OutputMode::Tui {
                r is Err && r->Err_0@ == "Can't use output_return with output: tui"@
            } else {
                r == Ok::<OutputMode, String>(m)
            },
            None => r is Err && r->Err_0@ == "Invalid output value: "@ + output@,
        },
{
    let mode = match OutputMode::from_str(output) {
        Ok(m) => m,
        Err(e) => return Err(e),
    };
    if output_return && mode == OutputMode::Background {
        return Err("Can't use output_return with output: background".to_owned());
    }
    if output_return && mode == OutputMode::Tui {
        return Err("Can't use output_return with output: tui".to_owned());
    }
    Ok(mode)
}


/// What running a command would be refused for, before anything runs: the
/// output mode's refusals first, then an empty command. Otherwise the mode
/// it runs in.
pub fn checked_command(cmd: &Vec<String>, output: &str, output_return: bool) -> (r: Result<OutputMode, String>)
    ensures
        match mode_named(output@) {
            Some(m) => if output_return && m == OutputMode::Background {
                r is Err && r->Err_0@ == "Can't use output_return with output: background"@
            } else if output_return && m == OutputMode::Tui {
                r is Err && r->Err_0@ == "Can't use output_return with output: tui"@
            } else if cmd@.len() == 0 {
                r is Err && r->Err_0@ == "Empty command"@
            } else {
                r == Ok::<OutputMode, String>(m)
            },
            None => r is Err && r->Err_0@ == "Invalid output value: "@ + output@,
        },
{
    let mode = match checked_mode(output, output_return) {
        Ok(m) => m,
        Err(e) => return Err(e),
    };
    if cmd.len() == 0 {
        return Err("Empty command".to_owned());
    }
    Ok(mode)
}

/// A process table's rows as text: each process id beside its parent's.
pub open spec fn row_texts(rows: Seq<(String, String)>) -> Seq<(Seq<char>, Seq<char>)> {
    rows.map_values(|r: (String, String)| (r.0@, r.1@))
}

/// The processes to kill for `pid`, in the order they are killed: `pid`
/// first, then each child's tree in the order the table lists the children,
/// going no deeper than `depth` levels below `pid`.
pub open spec fn kill_order(rows: Seq<(Seq<char>, Seq<char>)>, pid: u32, depth: nat) -> Seq<u32>
    decreases depth, rows.len() + 1,
{
    seq![pid] + children_order(rows, pid, 0, depth)
}

/// The trees of `pid`'s children listed from row `i` on.
pub open spec fn children_order(rows: Seq<(Seq<char>, Seq<char>)>, pid: u32, i: int, depth: nat) -> Seq<u32>
    decreases depth, rows.len() - i,
{
    if i < 0 || i >= rows.len() || depth == 0 {
        Seq::empty()
    } else {
        (if rows[i].1 == decimal_chars(pid as nat) {
            match parse_u32(rows[i].0) {
                Some(child) => kill_order(rows, child, (depth - 1) as nat),
                None => Seq::empty(),
            }
        } else {
            Seq::empty()
        }) + children_order(rows, pid, i + 1, depth)
    }
}

/// Append the kill order of `pid`.
fn push_tree(rows: &Vec<(String, String)>, pid: u32, depth: usize, out: &mut Vec<u32>)
    ensures
        final(out)@ == old(out)@ + kill_order(row_texts(rows@), pid, depth as nat),
    decreases depth, rows@.len() + 1,
{
    out.push(pid);
    let ghost t = row_texts(rows@);
    let ghost before = old(out)@.push(pid);
    let name = decimal(pid as u64);
    let name_chars = chars_of(name.as_str());
    if depth == 0 {
        assert(children_order(t, pid, 0, 0) =~= Seq::<u32>::empty());
        assert(out@ =~= old(out)@ + kill_order(t, pid, depth as nat));
        return;
    }
    let mut i: usize = 0;
    while i < rows.len()
        invariant
            0 <= i <= rows@.len(),
            depth > 0,
            t == row_texts(rows@),
            name_chars@ == decimal_chars(pid as nat),
            out@ + children_order(t, pid, i as int, depth as nat) == before + children_order(t, pid, 0, depth as nat),
        decreases rows@.len() - i,
    {
        let ghost at = out@;
        let parent = chars_of(rows[i].1.as_str());
        if same_chars(parent.as_slice(), name_chars.as_slice()) {
            let child = chars_of(rows[i].0.as_str());
            match parse_u32_chars(child.as_slice()) {
                Some(c) => {
                    push_tree(rows, c, depth - 1, out);
                },
                None => {},
            }
        }
        proof {
            assert(t[i as int] == (rows@[i as int].0@, rows@[i as int].1@));
            assert(out@ + children_order(t, pid, i + 1, depth as nat) =~= at + children_order(t, pid, i as int, depth as nat));
        }
        i = i + 1;
    }
    assert(children_order(t, pid, rows@.len() as int, depth as nat) =~= Seq::<u32>::empty());
    assert(out@ =~= old(out)@ + kill_order(t, pid, depth as nat));
}

/// Every process to kill for `root`, in the order they are killed: a parent
/// before its children, the children in the order the process table lists
/// them. Each level down takes a row of the table, so a tree is never deeper
/// than the table is long; a table in which a process is its own ancestor is
/// walked that deep and no deeper.
pub fn tree_preorder(rows: &Vec<(String, String)>, root: u32) -> (r: Vec<u32>)
    ensures
        r@ == kill_order(row_texts(rows@), root, rows@.len()),
{
    let mut out: Vec<u32> = Vec::new();
    push_tree(rows, root, rows.len(), &mut out);
    assert(out@ =~= kill_order(row_texts(rows@), root, rows@.len()));
    out
}

/// The rows of `ps -e -o pid,ppid` output, after its header line: each
/// line of exactly two words, as the process id and its parent's.
pub open spec fn ps_rows_of(lines: Seq<Seq<char>>) -> Seq<(Seq<char>, Seq<char>)>
    decreases lines.len(),
{
    if lines.len() <= 1 {
        Seq::empty()
    } else {
        let rest = ps_rows_of(lines.drop_last());
        let w = words_of(lines.last());
        if w.len() == 2 {
            rest.push((w[0], w[1]))
        } else {
            rest
        }
    }
}

/// The process table `ps -e -o pid,ppid` printed.
pub fn ps_rows(text: &str) -> (r: Vec<(String, String)>)
    ensures
        row_texts(r@) == ps_rows_of(lines_of(text@)),
{
    let chars = chars_of(text);
    let lines = lines_chars(chars.as_slice());
    let ghost ls = lines_of(text@);
    let mut r: Vec<(String, String)> = Vec::new();
    if lines.len() == 0 {
        assert(row_texts(r@) =~= ps_rows_of(ls));
        return r;
    }
    let mut i: usize = 1;
    while i < lines.len()
        invariant
            1 <= i <= lines@.len(),
            chars@ == text@,
            ls == lines_of(text@),
            lines@.len() == ls.len(),
            forall|k: int| 0 <= k < lines@.len() ==> (#[trigger] lines@[k])@ == ls[k],
            row_texts(r@) == ps_rows_of(ls.take(i as int)),
        decreases lines@.len() - i,
    {
        let words = words_chars(lines[i].as_slice());
        let ghost before = r@;
        proof {
            assert(words@.map_values(|w: Vec<char>| w@).len() == words@.len());
        }
        if words.len() == 2 {
            proof {
                assert(words@.map_values(|w: Vec<char>| w@)[0] == words@[0]@);
                assert(words@.map_values(|w: Vec<char>| w@)[1] == words@[1]@);
            }
            r.push((text_of(&words[0]), text_of(&words[1])));
        }
        proof {
            let t = ls.take(i + 1);
            assert(t.drop_last() =~= ls.take(i as int));
            assert(t.last() == ls[i as int]);
            assert(row_texts(r@) =~= ps_rows_of(t));
        }
        i = i + 1;
    }
    assert(ls.take(lines@.len() as int) =~= ls);
    r
}

/// How a command that runs in the foreground is watched.
#[derive(Debug, Clone, Copy, PartialEq, Eq, Structural)]
pub struct RunPlan {
    /// Its output is echoed to the terminal as it comes.
    pub to_stdout: bool,
    /// It is killed when it goes quiet for too long.
    pub watch_silence: bool,
}

/// The watch a mode asks for: output echoed where the mode shows it and the
/// details are not already going to the terminal, and a silence limit for a
/// logged or shown command unless the caller turned it off.
pub open spec fn plan_for(mode: OutputMode, details_to_stdout: bool, disable_timeout: bool) -> RunPlan {
    RunPlan {
        to_stdout: !details_to_stdout && (mode == OutputMode::Stdout || mode == OutputMode::Interactive),
        watch_silence: (mode == OutputMode::Log || mode == OutputMode::Stdout) && !disable_timeout,
    }
}

/// How a foreground command in `mode` is watched.
pub fn run_plan(mode: OutputMode, details_to_stdout: bool, disable_timeout: bool) -> (r: RunPlan)
    ensures
        r == plan_for(mode, details_to_stdout, disable_timeout),
{
    RunPlan {
        to_stdout: !details_to_stdout && (mode == OutputMode::Stdout || mode == OutputMode::Interactive),
        watch_silence: (mode == OutputMode::Log || mode == OutputMode::Stdout) && !disable_timeout,
    }
}

/// What the host saw of a running command.
#[derive(Debug, Clone, Copy, PartialEq, Eq, Structural)]
pub enum RunEvent {
    /// It exited, successfully or not.
    Exited { success: bool },
    /// It is still running, and has written nothing for this many whole
    /// seconds.
    Running { silent_secs: u64 },
}

/// What to do next about a running command.
#[derive(Debug, Clone, Copy, PartialEq, Eq, Structural)]
pub enum RunAction {
    /// It is done: hand back its output.
    Done,
    /// It failed and failure was to be checked: report it.
    Failed,
    /// Look again in a moment.
    Wait,
    /// It went quiet for too long: kill it and its children, and report it.
    KillForSilence,
}

/// The decision for an event: an exit is done, or a failure where failures
/// are checked; a command still running is killed once it has been silent
/// for the whole limit, where silence is watched, and waited for otherwise.
pub open spec fn run_next(plan: RunPlan, timeout_secs: u64, check: bool, e: RunEvent) -> RunAction {
    match e {
        RunEvent::Exited { success } => if check && !success {
            RunAction::Failed
        } else {
            RunAction::Done
        },
        RunEvent::Running { silent_secs } => if plan.watch_silence && silent_secs >= timeout_secs {
            RunAction::KillForSilence
        } else {
            RunAction::Wait
        },
    }
}

/// What to do about a running command, given what was seen of it.
pub fn run_step(plan: RunPlan, timeout_secs: u64, check: bool, e: RunEvent) -> (r: RunAction)
    ensures
        r == run_next(plan, timeout_secs, check, e),
{
    match e {
        RunEvent::Exited { success } => if check && !success {
            RunAction::Failed
        } else {
            RunAction::Done
        },
        RunEvent::Running { silent_secs } => if plan.watch_silence && silent_secs >= timeout_secs {
            RunAction::KillForSilence
        } else {
            RunAction::Wait
        },
    }
}

/// How a failed command is reported: by the message it was logged under,
/// and whether it was killed for going silent.
pub open spec fn failure_text(log_message: Seq<char>, timed_out: bool) -> Seq<char> {
    "Command failed: "@ + log_message + if timed_out {
        " (timeout)"@
    } else {
        Seq::empty()
    }
}

/// The report of a failed command.
pub fn failure_message(log_message: &str, timed_out: bool) -> (r: String)
    ensures
        r@ == failure_text(log_message@, timed_out),
{
    let mut v: Vec<char> = Vec::new();
    push_str(&mut v, "Command failed: ");
    push_str(&mut v, log_message);
    if timed_out {
        push_str(&mut v, " (timeout)");
    }
    string_of(v.as_slice())
}

} // verus!
