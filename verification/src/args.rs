//! The command line: a verb for the broker (install, uninstall, launch,
//! query), the runtime bundle's subcommands, the daemon, and the privileged
//! UID helper the broker calls.

use vstd::prelude::*;

use crate::broker::{path_under, under};

verus! {

broadcast use vstd::string::group_string_axioms;

/// What was given on the command line.
#[derive(Debug, Clone)]
pub struct Cli {
    pub version: Option<bool>,
    pub log: Option<String>,
    pub details_to_stdout: bool,
    pub verbose: bool,
    pub quiet: bool,
    pub work: Option<String>,
    /// Seconds a command may go without output before it is killed.
    pub timeout: u64,
    pub action: Option<Action>,
}

/// The verb.
#[derive(Debug, Clone)]
pub enum Action {
    /// Install an APK and allocate the app its own system user.
    Install(InstallArgs),
    /// Remove an installed app and its user data.
    Uninstall(UninstallArgs),
    /// Launch an installed app.
    Launch(LaunchArgs),
    /// List installed apps, or describe one.
    Query(QueryArgs),
    /// Manage the host-native runtime bundle.
    Runtime(RuntimeArgs),
    /// Run the broker in the foreground.
    Daemon,
    /// Allocate a UID for an app; privileged, invoked by the broker.
    UidHelper(UidHelperArgs),
}

#[derive(Debug, Clone)]
pub struct InstallArgs {
    /// Path to the APK.
    pub apk: String,
    /// Skip the polkit prompt and pretend the user answered yes.
    pub yes: bool,
}

#[derive(Debug, Clone)]
pub struct UninstallArgs {
    pub package: String,
}

#[derive(Debug, Clone)]
pub struct LaunchArgs {
    pub package: String,
    /// Extra arguments passed to the app process.
    pub args: Vec<String>,
}

#[derive(Debug, Clone)]
pub struct QueryArgs {
    /// Package name; none lists everything.
    pub package: Option<String>,
}

#[derive(Debug, Clone)]
pub struct RuntimeArgs {
    pub subaction: RuntimeSubaction,
}

#[derive(Debug, Clone)]
pub enum RuntimeSubaction {
    /// Download and verify the runtime bundle.
    Fetch,
    /// Show whether a bundle is installed and which version.
    Status,
    /// Check that the installed bundle runs.
    Verify,
    /// Use a bundle built locally instead of downloading one.
    Use { directory: String, version: String },
}

#[derive(Debug, Clone)]
pub struct UidHelperArgs {
    /// Package name to allocate a user for.
    pub package: String,
    /// UID chosen by the broker, in the reserved range.
    pub uid: Option<u32>,
    /// APK to place in the app's data directory.
    pub apk: Option<String>,
    /// Remove the app's data directory and user instead of allocating.
    pub remove: bool,
    /// Data directory, with `remove`.
    pub data_dir: Option<String>,
}

/// The work directory and the paths derived from it, resolved once.
#[derive(Debug, Clone)]
pub struct MosaicArgs {
    pub cli: Cli,
    pub work: String,
    pub config: String,
    pub log: String,
    pub details_to_stdout: bool,
    pub verbose: bool,
    pub quiet: bool,
    pub timeout: u64,
}

/// The name of a verb as it is typed.
pub open spec fn action_word(a: Action) -> Seq<char> {
    match a {
        Action::Install(_) => "install"@,
        Action::Uninstall(_) => "uninstall"@,
        Action::Launch(_) => "launch"@,
        Action::Query(_) => "query"@,
        Action::Runtime(_) => "runtime"@,
        Action::Daemon => "daemon"@,
        Action::UidHelper(_) => "uid-helper"@,
    }
}

impl MosaicArgs {
    /// Resolve the command line: the work directory it names, or the
    /// default one; the configuration file in it; the log it names, or the
    /// one in the work directory.
    pub fn from_cli(cli: Cli, default_work: &str) -> (r: MosaicArgs)
        ensures
            r.work@ == match cli.work {
                Some(w) => w@,
                None => default_work@,
            },
            r.config@ == under(r.work@, "mosaic.cfg"@),
            r.log@ == match cli.log {
                Some(l) => l@,
                None => under(r.work@, "mosaic.log"@),
            },
            r.details_to_stdout == cli.details_to_stdout,
            r.verbose == cli.verbose,
            r.quiet == cli.quiet,
            r.timeout == cli.timeout,
    {
        let work = match &cli.work {
            Some(w) => w.clone(),
            None => default_work.to_owned(),
        };
        let config = path_under(work.as_str(), "mosaic.cfg");
        let log = match &cli.log {
            Some(l) => l.clone(),
            None => path_under(work.as_str(), "mosaic.log"),
        };
        let details_to_stdout = cli.details_to_stdout;
        let verbose = cli.verbose;
        let quiet = cli.quiet;
        let timeout = cli.timeout;
        MosaicArgs { cli, work, config, log, details_to_stdout, verbose, quiet, timeout }
    }

    /// The verb, as it is typed.
    pub fn action_name(&self) -> (r: Option<String>)
        ensures
            match self.cli.action {
                Some(a) => r is Some && r->0@ == action_word(a),
                None => r is None,
            },
    {
        match &self.cli.action {
            Some(a) => Some(
                match a {
                    Action::Install(_) => "install",
                    Action::Uninstall(_) => "uninstall",
                    Action::Launch(_) => "launch",
                    Action::Query(_) => "query",
                    Action::Runtime(_) => "runtime",
                    Action::Daemon => "daemon",
                    Action::UidHelper(_) => "uid-helper",
                }.to_owned(),
            ),
            None => None,
        }
    }
}

} // verus!
