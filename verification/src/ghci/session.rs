//! The session itself: its options, its state, and what is done with it.

use crate::cli::Opts;
use crate::event_filter::{FileEvent, FileEventView};
use crate::ghci::classify::{asked, changed_paths_are_in_their_lists, classified, configures};
use crate::ghci::file_classifier::{ClassifierView, FileClassifier, NoWorkingDirectory};
use crate::ghci::module_set::{has_source, ModuleSet, ModuleView};
use crate::ghci::reload_actions::{
    complete_actions, edits_are_reloaded, gone_sources, haskell_paths, lists, planned, pushed_all,
    reconcile_events, reconciled, reconciled_all, recovery_follows_the_changed_sources, recovery_paths,
    restarts_are_exact, settling_adds_nothing, snapshot_settles_events, ActionsView, ReloadActions, ReloadOptions,
};
use crate::glob::{path_fits, GlobError, GlobMatcher};
use crate::haskell_source_file::haskell_source;
use crate::hooks::Hook;
use crate::maybe_async_command::{ClonableCommand, CommandView};
use crate::normal_path::normal;
use crate::path::{path_parts, FilePath, NormalPath, NormalPathView};
use crate::sorted::{lemma_with_adds_one, path_key, views, Key, Keyed, SortedMap, SortedSet};
use crate::text::{format_i32, signed_decimal, texts};
use vstd::prelude::*;

pub mod add;
pub mod eval;
pub mod finish;
pub mod initialize;

pub mod interrupt;
pub mod reload;
pub mod restart;
pub mod start;
pub mod targets;

verus! {

/// How long a compilation may go on without a sign of progress, in seconds.
pub const COMPILATION_INACTIVITY_TIMEOUT: u64 = 90;

/// How long a compilation that follows an interruption may, in seconds.
pub const RECOVERY_COMPILATION_INACTIVITY_TIMEOUT: u64 = 40;

/// Where the output of the session goes.
#[derive(Clone, Copy, Debug, PartialEq, Eq, Structural)]
pub enum OutputMode {
    /// Into the terminal interface.
    Tui,
    /// To standard output and standard error, with a progress display.
    Progress,
    /// To standard output and standard error.
    Standard,
}

/// The options of a session.
#[derive(Debug)]
pub struct GhciOpts {
    /// The command that starts the session.
    pub command: ClonableCommand,
    /// Where the error log is written.
    pub error_path: Option<FilePath>,
    /// Whether commands in sources are evaluated.
    pub enable_eval: bool,
    /// The socket for evaluation requests.
    pub eval_socket: FilePath,
    /// More directories to look for modules in.
    pub extra_search_paths: Vec<FilePath>,
    /// The lifecycle hooks.
    pub hooks: Vec<Hook>,
    /// The commands that gate each start of the session.
    pub setup_shell: Vec<ClonableCommand>,
    /// The commands to run before the session is interrupted.
    pub before_interrupt: Vec<ClonableCommand>,
    /// The commands to run before the session is killed.
    pub before_kill: Vec<ClonableCommand>,
    /// The command that takes the place of adding new sources.
    pub replace_auto_add_shell: Option<ClonableCommand>,
    /// The patterns of paths that restart the session.
    pub restart_globs: GlobMatcher,
    /// The patterns of paths that reload the session.
    pub reload_globs: GlobMatcher,
    /// Whether a reload is interrupted for a newer change.
    pub interrupt_reloads: bool,
    /// Whether a reload is interrupted as soon as an error is reported.
    pub interrupt_on_error: bool,
    /// How changes are treated.
    pub reload: ReloadOptions,
    /// Whether a session that keeps exiting is replaced without a change.
    pub restart_on_exit: bool,
    /// Where the output goes.
    pub output: OutputMode,
    /// Whether the screen is cleared before reloads and restarts.
    pub clear: bool,
}

/// The command that starts the session: GHCi on a source, the configured one, or Cabal's.
pub open spec fn session_command(file: Option<NormalPathView>, command: Option<CommandView>) -> CommandView {
    match (file, command) {
        (Some(file), _) => CommandView { program: "ghci"@, args: seq![file.relative] },
        (None, Some(command)) => command,
        (None, None) => CommandView { program: "cabal"@, args: seq!["repl"@] },
    }
}

/// The view of an optional value.
pub open spec fn option_view<T: View>(value: Option<T>) -> Option<T::V> {
    match value {
        Some(value) => Some(value@),
        None => None,
    }
}

/// Where the output goes. The terminal interface excludes the progress display, and that needs a
/// terminal.
pub open spec fn output_mode(tui: bool, progress: bool, is_terminal: bool) -> OutputMode {
    if tui {
        OutputMode::Tui
    } else if progress && is_terminal {
        OutputMode::Progress
    } else {
        OutputMode::Standard
    }
}

fn absolute_paths(paths: &Vec<NormalPath>) -> (r: Vec<FilePath>)
    ensures
        r@.len() == paths@.len(),
        forall|i: int| 0 <= i < r@.len() ==> (#[trigger] r@[i])@ == paths@[i]@.absolute,
{
    let mut r: Vec<FilePath> = Vec::new();
    let mut i: usize = 0;
    while i < paths.len()
        invariant
            i <= paths@.len(),
            r@.len() == i,
            forall|n: int| 0 <= n < i ==> (#[trigger] r@[n])@ == paths@[n]@.absolute,
        decreases paths@.len() - i,
    {
        r.push(paths[i].absolute().clone());
        i = i + 1;
    }
    r
}

impl GhciOpts {
    /// Whether these are the options of the session among those that the program was started with.
    pub open spec fn taken_from(self, opts: Opts, is_terminal: bool) -> bool {
        &&& self.command@ == session_command(option_view(opts.file), option_view(opts.command))
        &&& self.error_path == opts.error_file
        &&& self.enable_eval == opts.enable_eval
        &&& self.eval_socket == opts.eval_socket
        &&& self.extra_search_paths@.len() == opts.extra_module_search_paths@.len()
        &&& forall|i: int|
            0 <= i < self.extra_search_paths@.len() ==> (#[trigger] self.extra_search_paths@[i])@
                == opts.extra_module_search_paths@[i]@.absolute
        &&& self.hooks == opts.hooks
        &&& self.setup_shell == opts.setup_shell
        &&& self.before_interrupt == opts.before_interrupt
        &&& self.before_kill == opts.before_kill
        &&& self.replace_auto_add_shell == opts.replace_auto_add_shell
        &&& self.interrupt_reloads == !opts.no_interrupt_reloads
        &&& self.interrupt_on_error == opts.interrupt_on_error
        &&& self.reload == (ReloadOptions {
            auto_reload: !opts.no_auto_reload,
            auto_targets: !opts.no_auto_targets,
            restart_on_add: opts.restart_on_add,
            replace_auto_add: opts.replace_auto_add_shell is Some,
        })
        &&& self.restart_on_exit == opts.restart_on_exit
        &&& self.output == output_mode(opts.tui, opts.progress, is_terminal)
        &&& self.clear == opts.clear
        &&& self.restart_globs@ == texts(opts.watch.restart_globs@)
        &&& self.reload_globs@ == texts(opts.watch.reload_globs@)
    }

    /// The options of the session among those that the program was started with. `is_terminal` tells
    /// whether standard output is a terminal. A pattern that is not well formed is reported instead.
    pub fn from_cli(opts: Opts, is_terminal: bool) -> (r: Result<Self, GlobError>)
        requires
            opts.file is None || opts.command is None,
        ensures
            match r {
                Ok(r) => opts.watch.bad_glob() is None && r.taken_from(opts, is_terminal),
                Err(error) => opts.watch.bad_glob() == Some(error.pattern@),
            },
    {
        let restart_globs = match opts.watch.restart_globs() {
            Ok(matcher) => matcher,
            Err(error) => {
                return Err(error);
            },
        };
        let reload_globs = match opts.watch.reload_globs() {
            Ok(matcher) => matcher,
            Err(error) => {
                return Err(error);
            },
        };
        let command = match (&opts.file, opts.command) {
            (Some(file), _) => {
                let command = ClonableCommand::new("ghci").arg(file.relative().as_str());
                proof {
                    assert(command@.args =~= seq![file@.relative]);
                }
                command
            },
            (None, Some(command)) => command,
            (None, None) => {
                let command = ClonableCommand::new("cabal").arg("repl");
                proof {
                    assert(command@.args =~= seq!["repl"@]);
                }
                command
            },
        };
        let output = if opts.tui {
            OutputMode::Tui
        } else if opts.progress && is_terminal {
            OutputMode::Progress
        } else {
            OutputMode::Standard
        };
        let replace_auto_add = opts.replace_auto_add_shell.is_some();
        Ok(
            GhciOpts {
                command,
                error_path: opts.error_file,
                enable_eval: opts.enable_eval,
                eval_socket: opts.eval_socket,
                extra_search_paths: absolute_paths(&opts.extra_module_search_paths),
                hooks: opts.hooks,
                setup_shell: opts.setup_shell,
                before_interrupt: opts.before_interrupt,
                before_kill: opts.before_kill,
                replace_auto_add_shell: opts.replace_auto_add_shell,
                restart_globs,
                reload_globs,
                interrupt_reloads: !opts.no_interrupt_reloads,
                interrupt_on_error: opts.interrupt_on_error,
                reload: ReloadOptions {
                    auto_reload: !opts.no_auto_reload,
                    auto_targets: !opts.no_auto_targets,
                    restart_on_add: opts.restart_on_add,
                    replace_auto_add,
                },
                restart_on_exit: opts.restart_on_exit,
                output,
                clear: opts.clear,
            },
        )
    }

    /// The classifier with the patterns of these options. `cwd` is the working directory, if it could be
    /// found.
    pub fn file_classifier(&self, cwd: Option<FilePath>) -> (r: Result<FileClassifier, NoWorkingDirectory>)
        ensures
            match r {
                Ok(classifier) => cwd is Some && classifier@ == (ClassifierView {
                    restart: self.restart_globs@,
                    reload: self.reload_globs@,
                    cwd: (cwd->0)@,
                }),
                Err(_) => cwd is None,
            },
    {
        FileClassifier::new(self.restart_globs.clone(), self.reload_globs.clone(), cwd)
    }
}

/// A running session, as far as decisions depend on it.
#[derive(Debug)]
pub struct Ghci {
    /// The process created directly from the configured command.
    pub process_id: i32,
    /// The process group, which is interrupted to cancel what the session does.
    pub process_group_id: i32,
    /// The configured command, as it is shown.
    pub command: String,
    /// The working directory of the session.
    pub cwd: FilePath,
    /// The directories that the session looks for modules in, and the configured ones.
    pub search_paths: Vec<FilePath>,
    /// Tells what changed paths ask for.
    pub classifier: FileClassifier,
    /// How changes are treated.
    pub options: ReloadOptions,
    /// Whether commands in sources are evaluated.
    pub enable_eval: bool,
    /// The targets. One that fails to compile is a target all the same.
    pub targets: ModuleSet,
    /// The snapshot of the sources that the targets were last synchronized with.
    pub known_haskell_files: SortedSet<NormalPath>,
    /// Whether the session came up with a compilation that failed.
    pub start_failed: bool,
    /// The commands to evaluate, by the source that holds them.
    pub eval_commands: SortedMap<NormalPath, Vec<String>>,
    /// Makes the prompts that synchronize with the session differ from each other.
    pub sync_nonce: u64,
    /// Whether the session was force-killed because its prompt could not be trusted.
    pub recovery_restart_required: bool,
}

/// The model of a [`Ghci`].
pub struct GhciView {
    pub process_id: i32,
    pub process_group_id: i32,
    pub command: Seq<char>,
    pub cwd: Seq<char>,
    pub search_paths: Seq<Seq<char>>,
    pub classifier: ClassifierView,
    pub options: ReloadOptions,
    pub enable_eval: bool,
    pub targets: Seq<ModuleView>,
    pub known: Seq<NormalPathView>,
    pub start_failed: bool,
    /// The sources that hold commands to evaluate, in order.
    pub eval_paths: Seq<NormalPathView>,
    pub eval_commands: Map<Key, Vec<String>>,
    pub sync_nonce: u64,
    pub recovery_restart_required: bool,
}

impl View for Ghci {
    type V = GhciView;

    open spec fn view(&self) -> GhciView {
        GhciView {
            process_id: self.process_id,
            process_group_id: self.process_group_id,
            command: self.command@,
            cwd: self.cwd@,
            search_paths: views(self.search_paths@),
            classifier: self.classifier@,
            options: self.options,
            enable_eval: self.enable_eval,
            targets: self.targets@,
            known: self.known_haskell_files@,
            start_failed: self.start_failed,
            eval_paths: self.eval_commands.key_list(),
            eval_commands: self.eval_commands@,
            sync_nonce: self.sync_nonce,
            recovery_restart_required: self.recovery_restart_required,
        }
    }
}

impl GhciView {
    /// What is to be done about a batch of changes: what the changed paths ask for once the snapshot of
    /// the sources has settled their kinds, a restart for any changed source if the session failed to
    /// start, and what follows from comparing the snapshot with the last one.
    pub open spec fn reload_actions(self, events: Seq<FileEventView>, files: Seq<NormalPathView>) -> ActionsView {
        let settled = reconciled_all(events, self.classifier.paths_of(events), files);
        planned(
            self.classifier.actions(settled, self.targets),
            if self.start_failed {
                haskell_paths(settled, self.classifier.paths_of(settled))
            } else {
                Seq::empty()
            },
            self.options,
            files,
            self.known,
            self.targets,
        )
    }

    /// What is told of the session when it exits unexpectedly.
    pub open spec fn context(self) -> Seq<char> {
        "Component: configured GHCi --command process\nCommand process ID: "@ + signed_decimal(
            self.process_id as int,
        ) + "\nProcess group ID: "@ + signed_decimal(self.process_group_id as int)
            + "\nWorking directory: "@ + self.cwd + "\nCommand: "@ + self.command
    }
}

impl Ghci {
    /// What is told of the session when it exits unexpectedly.
    pub fn diagnostic_context(&self) -> (r: String)
        ensures
            r@ == self@.context(),
    {
        let mut r = "Component: configured GHCi --command process\nCommand process ID: ".to_owned();
        r.append(format_i32(self.process_id).as_str());
        r.append("\nProcess group ID: ");
        r.append(format_i32(self.process_group_id).as_str());
        r.append("\nWorking directory: ");
        r.append(self.cwd.as_str());
        r.append("\nCommand: ");
        r.append(self.command.as_str());
        r
    }

    /// The absolute paths of the snapshot that the targets were last synchronized with.
    pub fn known_haskell_files_absolute(&self) -> (r: Vec<FilePath>)
        ensures
            r@.len() == self@.known.len(),
            forall|i: int| 0 <= i < r@.len() ==> (#[trigger] r@[i])@ == self@.known[i].absolute,
    {
        let mut r: Vec<FilePath> = Vec::new();
        let mut i: usize = 0;
        let n: usize = self.known_haskell_files.len();
        while i < n
            invariant
                i <= n == self@.known.len(),
                r@.len() == i,
                forall|k: int| 0 <= k < i ==> (#[trigger] r@[k])@ == self@.known[k].absolute,
            decreases n - i,
        {
            r.push(self.known_haskell_files.at(i).absolute().clone());
            i = i + 1;
        }
        r
    }

    /// What is to be done about a batch of changes. `haskell_files` is the snapshot of the sources. It is
    /// newer than all notifications, so it settles which sources were changed and which removed.
    pub fn get_reload_actions(&self, events: &SortedSet<FileEvent>, haskell_files: &SortedSet<NormalPath>) -> (r:
        ReloadActions)
        ensures
            r@ == self@.reload_actions(events@, haskell_files@),
    {
        let paths = self.classifier.event_paths(events);
        proof {
            assert(views(paths@).len() == events@.len());
        }
        let events = reconcile_events(events, &paths, haskell_files);
        let paths = self.classifier.event_paths(&events);
        proof {
            assert(views(paths@).len() == events@.len());
        }
        let recovery = recovery_paths(self.start_failed, &events, &paths);
        let classified = self.classifier.classify(&events, &self.targets);
        complete_actions(
            classified,
            recovery,
            self.options,
            haskell_files,
            &self.known_haskell_files,
            &self.targets,
        )
    }
}

proof fn lemma_settled(
    classifier: ClassifierView,
    events: Seq<FileEventView>,
    files: Seq<NormalPathView>,
    v: FileEventView,
)
    requires
        reconciled_all(events, classifier.paths_of(events), files).contains(v),
        v is Remove,
        haskell_source(normal(classifier.cwd, v.path()).absolute),
    ensures
        !lists(files, normal(classifier.cwd, v.path())),
    decreases events.len(),
{
    let paths = classifier.paths_of(events);
    let first = events.drop_last();
    assert(paths.drop_last() =~= classifier.paths_of(first));
    let last = reconciled(events.last(), paths.last(), files);
    lemma_with_adds_one::<FileEvent>(reconciled_all(first, paths.drop_last(), files), last, v);
    if reconciled_all(first, paths.drop_last(), files).contains(v) {
        lemma_settled(classifier, first, files, v);
    }
}

proof fn lemma_removed(
    events: Seq<FileEventView>,
    paths: Seq<NormalPathView>,
    restarts: Seq<bool>,
    reloads: Seq<bool>,
    targets: Seq<ModuleView>,
    n: int,
    p: NormalPathView,
) -> (i: int)
    requires
        0 <= n <= events.len(),
        classified(events, paths, restarts, reloads, targets, n).removals.contains(p),
    ensures
        0 <= i < n,
        paths[i] == p,
        events[i] is Remove,
        haskell_source(p.absolute),
    decreases n,
{
    if n <= 0 {
        assert(false);
        0
    } else {
        let before = classified(events, paths, restarts, reloads, targets, n - 1).removals;
        let all = classified(events, paths, restarts, reloads, targets, n).removals;
        if before.contains(p) {
            lemma_removed(events, paths, restarts, reloads, targets, n - 1, p)
        } else {
            let k = choose|k: int| 0 <= k < all.len() && all[k] == p;
            assert(k < before.len() ==> before[k] == p);
            n - 1
        }
    }
}

proof fn lemma_pushed(s: Seq<NormalPathView>, items: Seq<NormalPathView>, p: NormalPathView)
    requires
        pushed_all(s, items).contains(p),
    ensures
        s.contains(p) || items.contains(p),
    decreases items.len(),
{
    if items.len() > 0 {
        let before = pushed_all(s, items.drop_last());
        let all = pushed_all(s, items);
        let k = choose|k: int| 0 <= k < all.len() && all[k] == p;
        if k < before.len() {
            assert(before[k] == p);
            lemma_pushed(s, items.drop_last(), p);
            if items.drop_last().contains(p) {
                let j = choose|j: int| 0 <= j < items.drop_last().len() && items.drop_last()[j] == p;
                assert(items[j] == p);
            }
        } else {
            assert(items[items.len() - 1] == p);
        }
    }
}

proof fn lemma_gone(
    files: Seq<NormalPathView>,
    known: Seq<NormalPathView>,
    targets: Seq<ModuleView>,
    p: NormalPathView,
)
    requires
        gone_sources(files, known, targets).contains(p),
    ensures
        !lists(files, p),
    decreases known.len(),
{
    if known.len() > 0 {
        let before = gone_sources(files, known.drop_last(), targets);
        let all = gone_sources(files, known, targets);
        let k = choose|k: int| 0 <= k < all.len() && all[k] == p;
        if k < before.len() {
            assert(before[k] == p);
            lemma_gone(files, known.drop_last(), targets, p);
        }
    }
}

/// A source that is in the snapshot stays a target, whatever the notifications say of it: one that tells
/// of its removal is older than the snapshot.
pub proof fn present_source_is_not_removed(
    session: GhciView,
    events: Seq<FileEventView>,
    files: Seq<NormalPathView>,
    p: NormalPathView,
)
    requires
        session.reload_actions(events, files).removals.contains(p),
    ensures
        !lists(files, p),
{
    let classifier = session.classifier;
    let settled = reconciled_all(events, classifier.paths_of(events), files);
    let paths = classifier.paths_of(settled);
    let restarts = ClassifierView::fitting(classifier.restart, paths);
    let reloads = ClassifierView::fitting(classifier.reload, paths);
    let asked = classifier.actions(settled, session.targets).removals;
    let gone = gone_sources(files, session.known, session.targets);
    lemma_pushed(asked, gone, p);
    if asked.contains(p) {
        let i = lemma_removed(settled, paths, restarts, reloads, session.targets, settled.len() as int, p);
        assert(settled.contains(settled[i]));
        lemma_settled(classifier, events, files, settled[i]);
    } else {
        lemma_gone(files, session.known, session.targets, p);
    }
}

/// An edited source that is a target, and that takes no restart, is reloaded, unless changes do not reload
/// the session. No other event of the batch is about the same path here.
pub proof fn edited_target_is_reloaded(
    session: GhciView,
    events: Seq<FileEventView>,
    files: Seq<NormalPathView>,
    i: int,
)
    requires
        0 <= i < events.len(),
        forall|j: int|
            0 <= j < events.len() && j != i ==> path_parts((#[trigger] events[j]).path()) != path_parts(
                events[i].path(),
            ),
        session.options.auto_reload,
        ({
            let p = normal(session.classifier.cwd, events[i].path());
            &&& haskell_source(p.absolute)
            &&& has_source(session.targets, p)
            &&& lists(files, p)
            &&& !configures(p.absolute)
            &&& !path_fits(session.classifier.restart, p)
        }),
    ensures
        lists(session.reload_actions(events, files).reload, normal(session.classifier.cwd, events[i].path())),
{
    let classifier = session.classifier;
    let p = normal(classifier.cwd, events[i].path());
    let paths = classifier.paths_of(events);
    let settled = reconciled_all(events, paths, files);
    let k = lemma_settled_place(events, paths, files, i);
    let later = classifier.paths_of(settled);
    let restarts = ClassifierView::fitting(classifier.restart, later);
    let reloads = ClassifierView::fitting(classifier.reload, later);
    changed_paths_are_in_their_lists(
        settled,
        later,
        restarts,
        reloads,
        session.targets,
        settled.len() as int,
        p,
    );
    assert(later[k] == p);
    assert(asked(settled, later, restarts, reloads, session.targets, k) is Reload);
    let actions = classifier.actions(settled, session.targets);
    let m = choose|m: int| 0 <= m < actions.reload.len() && actions.reload[m] == p;
    assert(NormalPath::key(actions.reload[m]) == path_key(p.absolute));
    let recovery = if session.start_failed {
        haskell_paths(settled, later)
    } else {
        Seq::empty()
    };
    edits_are_reloaded(actions, recovery, session.options, files, session.known, session.targets, p);
}

/// Where an event is once it is settled by the snapshot, if no other is about the same path.
proof fn lemma_settled_place(
    events: Seq<FileEventView>,
    paths: Seq<NormalPathView>,
    files: Seq<NormalPathView>,
    i: int,
) -> (k: int)
    requires
        events.len() == paths.len(),
        0 <= i < events.len(),
        forall|j: int|
            0 <= j < events.len() && j != i ==> path_parts((#[trigger] events[j]).path()) != path_parts(
                events[i].path(),
            ),
    ensures
        0 <= k < reconciled_all(events, paths, files).len(),
        reconciled_all(events, paths, files)[k] == reconciled(events[i], paths[i], files),
{
    let settled = reconciled_all(events, paths, files);
    let v = reconciled(events[i], paths[i], files);
    snapshot_settles_events(events, paths, files, i);
    let k = choose|k: int| 0 <= k < settled.len() && FileEvent::key(#[trigger] settled[k]) == FileEvent::key(v);
    assert(settled.contains(settled[k]));
    let j = settling_adds_nothing(events, paths, files, settled[k]);
    assert(path_parts(settled[k].path()) == path_parts(v.path()));
    assert(j == i);
    k
}

/// A changed file that configures the session, or that fits a pattern for it, restarts the session. No
/// other event of the batch is about the same path here.
pub proof fn changed_configuration_restarts(
    session: GhciView,
    events: Seq<FileEventView>,
    files: Seq<NormalPathView>,
    i: int,
)
    requires
        0 <= i < events.len(),
        forall|j: int|
            0 <= j < events.len() && j != i ==> path_parts((#[trigger] events[j]).path()) != path_parts(
                events[i].path(),
            ),
        ({
            let p = normal(session.classifier.cwd, events[i].path());
            configures(p.absolute) || path_fits(session.classifier.restart, p)
        }),
    ensures
        lists(session.reload_actions(events, files).restart, normal(session.classifier.cwd, events[i].path())),
{
    let classifier = session.classifier;
    let p = normal(classifier.cwd, events[i].path());
    let paths = classifier.paths_of(events);
    let settled = reconciled_all(events, paths, files);
    let k = lemma_settled_place(events, paths, files, i);
    let later = classifier.paths_of(settled);
    let restarts = ClassifierView::fitting(classifier.restart, later);
    let reloads = ClassifierView::fitting(classifier.reload, later);
    changed_paths_are_in_their_lists(
        settled,
        later,
        restarts,
        reloads,
        session.targets,
        settled.len() as int,
        p,
    );
    assert(later[k] == p);
    assert(asked(settled, later, restarts, reloads, session.targets, k) is Restart);
    let actions = classifier.actions(settled, session.targets);
    let m = choose|m: int| 0 <= m < actions.restart.len() && actions.restart[m] == p;
    assert(NormalPath::key(actions.restart[m]) == path_key(p.absolute));
    let recovery = if session.start_failed {
        haskell_paths(settled, later)
    } else {
        Seq::empty()
    };
    restarts_are_exact(actions, recovery, session.options, files, session.known, session.targets, p);
}

/// A session whose start failed is restarted for any changed source, and one whose start did not is not
/// restarted for it on that account.
pub proof fn failed_session_is_restarted_for_sources(
    session: GhciView,
    events: Seq<FileEventView>,
    files: Seq<NormalPathView>,
    i: int,
)
    requires
        session.start_failed,
        0 <= i < events.len(),
        forall|j: int|
            0 <= j < events.len() && j != i ==> path_parts((#[trigger] events[j]).path()) != path_parts(
                events[i].path(),
            ),
        haskell_source(events[i].path()),
    ensures
        lists(session.reload_actions(events, files).restart, normal(session.classifier.cwd, events[i].path())),
{
    let classifier = session.classifier;
    let p = normal(classifier.cwd, events[i].path());
    let paths = classifier.paths_of(events);
    let settled = reconciled_all(events, paths, files);
    let k = lemma_settled_place(events, paths, files, i);
    let later = classifier.paths_of(settled);
    assert(later[k] == p);
    let recovery = haskell_paths(settled, later);
    assert(haskell_source(settled[k].path()));
    recovery_follows_the_changed_sources(settled, later, p);
    let m = choose|m: int| 0 <= m < recovery.len() && recovery[m] == p;
    assert(NormalPath::key(recovery[m]) == path_key(p.absolute));
    let actions = classifier.actions(settled, session.targets);
    restarts_are_exact(actions, recovery, session.options, files, session.known, session.targets, p);
}

/// The options decide on the output: the terminal interface counts first, and the progress display only on
/// a terminal.
pub proof fn output_goes_where_the_options_say(tui: bool, progress: bool, is_terminal: bool)
    ensures
        output_mode(tui, progress, is_terminal) == OutputMode::Tui <==> tui,
        output_mode(tui, progress, is_terminal) == OutputMode::Progress <==> !tui && progress && is_terminal,
{
}

/// A configured command starts the session, a source starts GHCi on it, and Cabal's is used only if there
/// is neither.
pub proof fn session_starts_with_its_command(file: NormalPathView, command: CommandView)
    ensures
        session_command(None, Some(command)) == command,
        session_command(Some(file), None).program == "ghci"@,
        session_command(Some(file), None).args.len() == 1,
        session_command(Some(file), None).args[0] == file.relative,
        session_command(None, None).program == "cabal"@,
        session_command(None, None).args.len() == 1,
        session_command(None, None).args[0] == "repl"@,
{
}

/// The options are taken over as they are given; those that switch something off do so.
pub proof fn options_are_taken_over(taken: GhciOpts, opts: Opts, is_terminal: bool, i: int)
    requires
        taken.taken_from(opts, is_terminal),
    ensures
        taken.reload.auto_reload <==> !opts.no_auto_reload,
        taken.reload.auto_targets <==> !opts.no_auto_targets,
        taken.reload.restart_on_add <==> opts.restart_on_add,
        taken.reload.replace_auto_add <==> opts.replace_auto_add_shell is Some,
        taken.interrupt_reloads <==> !opts.no_interrupt_reloads,
        taken.interrupt_on_error == opts.interrupt_on_error,
        taken.enable_eval == opts.enable_eval,
        taken.restart_on_exit == opts.restart_on_exit,
        taken.clear == opts.clear,
        taken.error_path == opts.error_file,
        taken.eval_socket == opts.eval_socket,
        taken.hooks == opts.hooks,
        taken.setup_shell == opts.setup_shell,
        taken.before_interrupt == opts.before_interrupt,
        taken.before_kill == opts.before_kill,
        taken.replace_auto_add_shell == opts.replace_auto_add_shell,
        taken.restart_globs@ == texts(opts.watch.restart_globs@),
        taken.reload_globs@ == texts(opts.watch.reload_globs@),
        taken.extra_search_paths@.len() == opts.extra_module_search_paths@.len(),
        0 <= i < taken.extra_search_paths@.len() ==> taken.extra_search_paths@[i]@
            == opts.extra_module_search_paths@[i]@.absolute,
{
}

} // verus!
