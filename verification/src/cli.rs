//! The options that the program is started with.

use crate::glob::{bad_pattern, GlobError, GlobMatcher};
use crate::hooks::Hook;
use crate::maybe_async_command::ClonableCommand;
use crate::path::{FilePath, NormalPath};
use crate::text::texts;
use vstd::prelude::*;

verus! {

/// The options for watching files.
#[derive(Debug)]
pub struct WatchOpts {
    /// The paths to watch.
    pub paths: Vec<NormalPath>,
    /// How long changes are collected before they are reported, in milliseconds.
    pub debounce: u64,
    /// The interval for polling, in milliseconds, if changes are polled for.
    pub poll: Option<u64>,
    /// The patterns of paths that restart the session.
    pub restart_globs: Vec<String>,
    /// The patterns of paths that reload the session.
    pub reload_globs: Vec<String>,
}

/// Why options cannot be used.
#[derive(Debug, PartialEq, Eq)]
pub enum OptsError {
    /// A pattern is not well formed.
    Glob(GlobError),
    /// The working directory could not be found.
    NoWorkingDirectory,
}

impl WatchOpts {
    /// The first pattern that is not well formed. Those that restart the session come first.
    pub open spec fn bad_glob(self) -> Option<Seq<char>> {
        match bad_pattern(texts(self.restart_globs@)) {
            Some(pattern) => Some(pattern),
            None => bad_pattern(texts(self.reload_globs@)),
        }
    }

    /// The matcher for paths that restart the session.
    pub fn restart_globs(&self) -> (r: Result<GlobMatcher, GlobError>)
        ensures
            match r {
                Ok(matcher) => bad_pattern(texts(self.restart_globs@)) is None && matcher@ == texts(
                    self.restart_globs@,
                ),
                Err(error) => bad_pattern(texts(self.restart_globs@)) == Some(error.pattern@),
            },
    {
        GlobMatcher::from_globs(&self.restart_globs)
    }

    /// The matcher for paths that reload the session.
    pub fn reload_globs(&self) -> (r: Result<GlobMatcher, GlobError>)
        ensures
            match r {
                Ok(matcher) => bad_pattern(texts(self.reload_globs@)) is None && matcher@ == texts(
                    self.reload_globs@,
                ),
                Err(error) => bad_pattern(texts(self.reload_globs@)) == Some(error.pattern@),
            },
    {
        GlobMatcher::from_globs(&self.reload_globs)
    }
}

/// The options that the program is started with.
#[derive(Debug)]
pub struct Opts {
    /// The command that starts the session.
    pub command: Option<ClonableCommand>,
    /// The source to start the session with. It excludes a command.
    pub file: Option<NormalPath>,
    /// Where the error log is written.
    pub error_file: Option<FilePath>,
    /// Whether commands in sources are evaluated.
    pub enable_eval: bool,
    /// The socket for evaluation requests.
    pub eval_socket: FilePath,
    /// More directories to look for modules in.
    pub extra_module_search_paths: Vec<NormalPath>,
    /// The lifecycle hooks.
    pub hooks: Vec<Hook>,
    /// The commands that gate each start of the session.
    pub setup_shell: Vec<ClonableCommand>,
    /// The commands to run before the session is interrupted.
    pub before_interrupt: Vec<ClonableCommand>,
    /// The commands to run before the session is killed.
    pub before_kill: Vec<ClonableCommand>,
    /// The command that takes the place of adding new sources.
    pub replace_auto_add_shell: Option<ClonableCommand>,
    /// Whether a reload is not interrupted for a newer change.
    pub no_interrupt_reloads: bool,
    /// Whether a reload is interrupted as soon as an error is reported.
    pub interrupt_on_error: bool,
    /// Whether changes do not reload the session.
    pub no_auto_reload: bool,
    /// Whether the targets do not follow the sources.
    pub no_auto_targets: bool,
    /// Whether a new source restarts the session.
    pub restart_on_add: bool,
    /// Whether a session that keeps exiting is replaced without a change.
    pub restart_on_exit: bool,
    /// Whether the screen is cleared before reloads and restarts.
    pub clear: bool,
    /// Whether the terminal interface is asked for.
    pub tui: bool,
    /// Whether the progress display is asked for.
    pub progress: bool,
    /// The options for watching files.
    pub watch: WatchOpts,
}

/// Options are refused exactly if one of their patterns is not well formed, of either kind; the first is told.
pub proof fn all_patterns_are_looked_at(opts: WatchOpts)
    ensures
        opts.bad_glob() is None <==> bad_pattern(texts(opts.restart_globs@)) is None && bad_pattern(
            texts(opts.reload_globs@),
        ) is None,
        bad_pattern(texts(opts.restart_globs@)) is Some ==> opts.bad_glob() == bad_pattern(texts(opts.restart_globs@)),
{
}

} // verus!
