use ghciwatch::cli::{Opts, OptsError, WatchOpts};
use ghciwatch::event_filter::FileEvent;
use ghciwatch::ghci::compilation_log::CompilationLog;
use ghciwatch::ghci::error_log::ErrorLog;
use ghciwatch::ghci::file_classifier::{FileClassifier, NoWorkingDirectory};
use ghciwatch::ghci::module_set::{LoadedModule, ModuleSet};
use ghciwatch::ghci::parse::ghc_message::compilation_summary::CompilationResult;
use ghciwatch::ghci::reload_actions::{reconcile_events, recovery_paths, ReloadActions, ReloadOptions};
use ghciwatch::ghci::session::add::{AddAction, AddInput};
use ghciwatch::ghci::session::eval::{eval_step, EvalAction, EvalPhase};
use ghciwatch::ghci::session::finish::{
    begin_hooks, hook_log_is_kept, order_hooks, run_hooks, run_shell_lifecycle_events, select_hooks,
    AfterHook, Finish, FinishAction, FinishInput, HookAction, HookInput, HookKind, HookPhase,
};
use ghciwatch::ghci::session::initialize::{
    record_failure, Initialize, InitializeAction, InitializeInput, InitializePhase,
};
use ghciwatch::ghci::session::interrupt::{
    fail_recovery, interrupt_and_retry_reload, send_sigint, send_sigint_inner, stop, sync_barrier,
    AfterSigint, Compiling, GiveUpAction, GiveUpPhase, RecoveryAction, RecoveryInput, RecoveryPhase,
    SigintAction, SigintInput, SigintPhase, StopAction, StopPhase, SyncAction, SyncPhase,
};
use ghciwatch::ghci::session::reload::{Reload, ReloadAction, ReloadInput};
use ghciwatch::ghci::session::restart::{
    record_start_failure, Closing, Restart, RestartAction, RestartInput, RestartKind,
};
use ghciwatch::ghci::session::start::{spawn_session, SpawnAction, SpawnInput, SpawnPhase};
use ghciwatch::ghci::session::{Ghci, GhciOpts, OutputMode};
use ghciwatch::ghci::setup::{
    begin_setup, execute, failure_log, run, run_failure, SetupAction, SetupInput,
};
use ghciwatch::ghci::report::{is_broken_pipe, is_recovery_failure, Cause, Report};
use ghciwatch::ghci::GhciReloadKind;
use ghciwatch::glob::{GlobError, GlobMatcher};
use ghciwatch::hooks::{Hook, HookCommand, LifecycleEvent, When};
use ghciwatch::maybe_async_command::MaybeAsyncCommand;
use ghciwatch::path::{FilePath, NormalPath};
use ghciwatch::sorted::SortedSet;
use ghciwatch::watcher::WatcherOpts;

fn path(text: &str) -> FilePath {
    FilePath::new(text.to_owned())
}

fn normal(name: &str) -> NormalPath {
    NormalPath::new(path(&format!("/p/{name}")), path(name))
}

fn files(names: &[&str]) -> SortedSet<NormalPath> {
    let mut set = SortedSet::new();
    for name in names {
        set.insert(normal(name));
    }
    set
}

fn names(paths: &Vec<NormalPath>) -> Vec<&str> {
    paths.iter().map(|path| path.relative().as_str()).collect()
}

const OPTIONS: ReloadOptions = ReloadOptions {
    auto_reload: true,
    auto_targets: true,
    restart_on_add: false,
    replace_auto_add: false,
};

fn globs(patterns: &[&str]) -> GlobMatcher {
    let patterns: Vec<String> = patterns.iter().map(|text| text.to_string()).collect();
    GlobMatcher::from_globs(&patterns).unwrap()
}

fn classifier() -> FileClassifier {
    FileClassifier::new(globs(&["*.yaml"]), globs(&["data/*"]), Some(path("/p"))).unwrap()
}

fn modified(names: &[&str]) -> SortedSet<FileEvent> {
    let mut events = SortedSet::new();
    for name in names {
        events.insert(FileEvent::Modify(path(&format!("/p/{name}"))));
    }
    events
}

fn session(options: ReloadOptions, targets: &[&str], known: &[&str]) -> Ghci {
    let mut ghci = Ghci::new(
        7,
        8,
        "cabal repl".to_owned(),
        path("/p"),
        vec![],
        classifier(),
        options,
        true,
    );
    let mut set = ModuleSet::new();
    for name in targets {
        set.insert_module(LoadedModule::new(normal(name)));
    }
    ghci.refresh_targets(set);
    ghci.accept_haskell_files(&files(known), &vec![]);
    ghci
}

fn nothing() -> ReloadActions {
    ReloadActions {
        needs_restart: vec![],
        needs_reload: vec![],
        needs_add: vec![],
        needs_remove: vec![],
    }
}

#[test]
fn snapshots_add_and_remove_sources() {
    let ghci = session(OPTIONS, &["A.hs", "B.hs"], &["A.hs", "B.hs"]);
    let actions = ghci.get_reload_actions(&SortedSet::new(), &files(&["B.hs", "C.hs"]));
    assert_eq!(names(&actions.needs_add), ["C.hs"]);
    assert_eq!(names(&actions.needs_remove), ["A.hs"]);
    assert!(!actions.needs_restart());
    assert!(actions.needs_modify());
}

#[test]
fn options_change_what_is_done() {
    let snapshot = files(&["B.hs", "C.hs"]);
    let plan = |options| {
        session(options, &["B.hs"], &["B.hs"]).get_reload_actions(&modified(&["B.hs"]), &snapshot)
    };
    let quiet = plan(ReloadOptions {
        auto_reload: false,
        ..OPTIONS
    });
    assert!(quiet.needs_reload.is_empty());
    assert_eq!(names(&quiet.needs_add), ["C.hs"]);
    let restarting = plan(ReloadOptions {
        restart_on_add: true,
        ..OPTIONS
    });
    assert_eq!(names(&restarting.needs_restart), ["C.hs"]);
    assert!(restarting.needs_add.is_empty());
    let fixed = plan(ReloadOptions {
        auto_targets: false,
        ..OPTIONS
    });
    assert!(fixed.needs_add.is_empty());
    assert_eq!(names(&fixed.needs_reload), ["B.hs"]);
}

#[test]
fn replaced_sources_are_reloaded_later() {
    let options = ReloadOptions {
        replace_auto_add: true,
        ..OPTIONS
    };
    let events = modified(&["C.hs"]);
    let first = session(options, &[], &[]).get_reload_actions(&events, &files(&["C.hs"]));
    assert_eq!(names(&first.needs_add), ["C.hs"]);
    let later = session(options, &[], &["C.hs"]).get_reload_actions(&events, &files(&["C.hs"]));
    assert!(later.needs_add.is_empty());
    assert_eq!(names(&later.needs_reload), ["C.hs"]);
}

#[test]
fn a_session_that_failed_to_start_is_restarted_for_any_source() {
    let mut events = SortedSet::new();
    events.insert(FileEvent::Modify(path("/p/A.hs")));
    events.insert(FileEvent::Modify(path("/p/notes.txt")));
    let paths = vec![normal("A.hs"), normal("notes.txt")];
    let recovery = recovery_paths(true, &events, &paths);
    assert_eq!(names(&recovery), ["A.hs"]);
    assert!(recovery_paths(false, &events, &paths).is_empty());
    let options = ReloadOptions {
        auto_reload: false,
        auto_targets: false,
        ..OPTIONS
    };
    let mut ghci = session(options, &["A.hs"], &["A.hs"]);
    assert!(!ghci.get_reload_actions(&events, &files(&["A.hs"])).needs_restart());
    ghci.start_failed = true;
    let actions = ghci.get_reload_actions(&events, &files(&["A.hs"]));
    assert_eq!(names(&actions.needs_restart), ["A.hs"]);
}

#[test]
fn a_batch_of_changes_is_planned_for() {
    let ghci = session(OPTIONS, &["A.hs", "B.hs", "Gone.hs"], &["A.hs", "B.hs", "Gone.hs"]);
    let mut events = modified(&["package.yaml", "data/words", "notes.txt", "New.hs", "Gone.hs", "src/../A.hs"]);
    // The source is there again: the removal is older than the snapshot.
    events.insert(FileEvent::Remove(path("/p/B.hs")));
    let actions = ghci.get_reload_actions(&events, &files(&["A.hs", "B.hs", "New.hs"]));
    assert_eq!(names(&actions.needs_restart), ["package.yaml"]);
    let mut reloads = names(&actions.needs_reload);
    reloads.sort();
    assert_eq!(reloads, ["A.hs", "B.hs", "data/words"]);
    assert_eq!(names(&actions.needs_add), ["New.hs"]);
    assert_eq!(names(&actions.needs_remove), ["Gone.hs"]);
}

#[test]
fn the_snapshot_settles_the_kind_of_an_event() {
    let mut events = SortedSet::new();
    events.insert(FileEvent::Modify(path("/p/Gone.hs")));
    events.insert(FileEvent::Remove(path("/p/There.hs")));
    events.insert(FileEvent::Remove(path("/p/x.txt")));
    let settled = reconcile_events(
        &events,
        &vec![normal("Gone.hs"), normal("There.hs"), normal("x.txt")],
        &files(&["There.hs"]),
    );
    let shown: Vec<String> = (0..settled.len()).map(|i| format!("{:?}", settled.at(i))).collect();
    assert_eq!(shown.len(), 3);
    assert!(shown[0].contains("Modify") && shown[0].contains("There.hs"));
    assert!(shown[1].contains("Remove") && shown[1].contains("Gone.hs"));
    assert!(shown[2].contains("Remove") && shown[2].contains("x.txt"));
}

fn reload_steps(ghci: &mut Ghci, run: &mut Reload, inputs: &[ReloadInput]) -> Vec<ReloadAction> {
    inputs
        .iter()
        .map(|input| ghci.reload(run, *input).unwrap().0)
        .collect()
}

#[test]
fn reload_hooks_surround_every_reload() {
    let mut ghci = session(OPTIONS, &["A.hs"], &["A.hs"]);
    let actions = ReloadActions {
        needs_restart: vec![],
        needs_reload: vec![normal("A.hs")],
        needs_add: vec![normal("B.hs")],
        needs_remove: vec![],
    };
    let mut run = Reload::new(&actions, false, files(&["A.hs", "B.hs"]));
    assert_eq!(
        ghci.reload(&mut run, ReloadInput::Ready),
        Some((ReloadAction::RunBeforeHooks, None))
    );
    assert_eq!(
        ghci.reload(&mut run, ReloadInput::Ready),
        Some((ReloadAction::Add, Some(GhciReloadKind::Reload)))
    );
    // A source that was not accepted is tried again later.
    run.reject(&vec![normal("B.hs")]);
    assert_eq!(
        reload_steps(
            &mut ghci,
            &mut run,
            &[ReloadInput::Ready, ReloadInput::Inactive]
        ),
        [ReloadAction::Reload, ReloadAction::InterruptAndRetry]
    );
    assert_eq!(ghci.known_haskell_files_absolute().len(), 1);
    assert_eq!(
        reload_steps(
            &mut ghci,
            &mut run,
            &[
                ReloadInput::Failed { broken_pipe: true },
                ReloadInput::Failed { broken_pipe: false }
            ]
        ),
        [
            ReloadAction::FinishCompilation {
                ghci_available: false,
                operation_succeeded: false
            },
            ReloadAction::FailOperation
        ]
    );
}

#[test]
fn errors_interrupt_a_reload_if_they_are_to() {
    let mut ghci = session(OPTIONS, &["A.hs"], &["A.hs"]);
    let actions = ReloadActions {
        needs_restart: vec![],
        needs_reload: vec![normal("A.hs")],
        needs_add: vec![],
        needs_remove: vec![],
    };
    let mut run = Reload::new(&actions, false, files(&["A.hs"]));
    assert_eq!(
        reload_steps(
            &mut ghci,
            &mut run,
            &[
                ReloadInput::Ready,
                ReloadInput::Ready,
                ReloadInput::ErrorReported,
                ReloadInput::Ready,
                ReloadInput::Ready
            ]
        ),
        [
            ReloadAction::RunBeforeHooks,
            ReloadAction::Reload,
            ReloadAction::Interrupt,
            ReloadAction::FinishCompilation {
                ghci_available: true,
                operation_succeeded: true
            },
            ReloadAction::Finish
        ]
    );
}

#[test]
fn a_reload_of_nothing_accepts_the_snapshot() {
    let mut ghci = session(OPTIONS, &[], &[]);
    let mut run = Reload::new(&nothing(), false, files(&["A.hs"]));
    assert_eq!(
        ghci.reload(&mut run, ReloadInput::Ready),
        Some((ReloadAction::Finish, Some(GhciReloadKind::Idle)))
    );
    assert_eq!(ghci.known_haskell_files_absolute()[0].as_str(), "/p/A.hs");
}

#[test]
fn names_come_before_paths() {
    let mut ghci = session(OPTIONS, &[], &[]);
    let mut log = CompilationLog::default();
    let (mut run, action) = ghci
        .begin_additions(
            vec![normal("A.hs"), normal("B.hs")],
            &vec![Some("A".to_owned()), None],
            &mut log,
        )
        .unwrap();
    assert_eq!(
        action,
        AddAction::SetForwarding {
            enabled: false,
            replay: false
        }
    );
    assert_eq!(
        ghci.add_modules(&mut run, &mut log, AddInput::Ready),
        Some(AddAction::AddNames)
    );
    assert_eq!(
        ghci.add_modules(&mut run, &mut log, AddInput::Ready),
        Some(AddAction::RefreshTargets)
    );
    let mut set = ModuleSet::new();
    set.insert_module(LoadedModule::new(normal("A.hs")));
    ghci.refresh_targets(set);
    assert_eq!(
        ghci.add_modules(&mut run, &mut log, AddInput::Ready),
        Some(AddAction::SetForwarding {
            enabled: true,
            replay: true
        })
    );
    assert_eq!(
        ghci.add_modules(&mut run, &mut log, AddInput::Ready),
        Some(AddAction::AddPaths)
    );
    assert_eq!(
        ghci.add_modules(&mut run, &mut log, AddInput::Ready),
        Some(AddAction::RefreshTargets)
    );
    assert_eq!(
        ghci.add_modules(&mut run, &mut log, AddInput::Ready),
        Some(AddAction::RefreshEvalCommands)
    );
    // The source that is no target makes the result a failure.
    assert_eq!(log.result(), Some(CompilationResult::Failure));
    assert!(ghci
        .begin_additions(vec![normal("A.hs")], &vec![None], &mut log)
        .is_none());
}

#[test]
fn every_lifecycle_event_has_its_hooks() {
    let mut log = CompilationLog::default();
    let (mut finish, action) = Finish::new(&mut log, 2, true, true, true);
    assert_eq!(action, FinishAction::Validate);
    let mut step = |input| finish.finish_compilation(input);
    assert_eq!(step(FinishInput::Ready), Some(FinishAction::Publish));
    assert_eq!(step(FinishInput::Failed), Some(FinishAction::RunHooks(0)));
    assert_eq!(step(FinishInput::Failed), Some(FinishAction::RunShellHooks(1)));
    assert_eq!(step(FinishInput::Ready), Some(FinishAction::FailPublish));
    assert_eq!(step(FinishInput::Ready), None);
}

#[test]
fn a_stale_result_is_not_published() {
    let mut log = CompilationLog::default();
    log.extend_stdout("Failed, no modules loaded.\n");
    let (mut finish, _) = Finish::new(&mut log, 1, true, true, true);
    let mut step = |input| finish.finish_compilation(input);
    assert_eq!(step(FinishInput::Stale), Some(FinishAction::RunHooks(0)));
    // A compilation that failed is followed by no tests.
    assert_eq!(step(FinishInput::Ready), Some(FinishAction::Finish));
}

#[test]
fn tests_follow_a_success() {
    let mut log = CompilationLog::default();
    log.extend_stdout("Ok, two modules loaded.\n");
    let (mut finish, action) = Finish::new(&mut log, 1, true, true, false);
    assert_eq!(action, FinishAction::Publish);
    let mut step = |input| finish.finish_compilation(input);
    assert_eq!(step(FinishInput::Ready), Some(FinishAction::RunHooks(0)));
    assert_eq!(step(FinishInput::Ready), Some(FinishAction::Evaluate));
    assert_eq!(step(FinishInput::Ready), Some(FinishAction::Test));
    assert_eq!(step(FinishInput::Ready), Some(FinishAction::Finish));
    assert!(hook_log_is_kept(LifecycleEvent::Test));
    assert!(!hook_log_is_kept(LifecycleEvent::Reload(When::After)));
}

#[test]
fn shell_hooks_come_first_before_a_reload() {
    let hook = |event, shell: bool| Hook {
        event,
        command: if shell {
            HookCommand::Shell(MaybeAsyncCommand::parse("true").unwrap())
        } else {
            HookCommand::Ghci("1".to_owned())
        },
    };
    let before = LifecycleEvent::Reload(When::Before);
    let after = LifecycleEvent::Reload(When::After);
    let hooks = vec![
        hook(before, false),
        hook(after, false),
        hook(before, true),
        hook(after, true),
    ];
    assert_eq!(order_hooks(&hooks, before), [0]);
    assert_eq!(select_hooks(&hooks, before, HookKind::Shell), [2]);
    assert_eq!(order_hooks(&hooks, after), [1, 3]);
    assert_eq!(select_hooks(&hooks, after, HookKind::Shell), [3]);
    // Their failure is returned before anything is asked of the prompt.
    let (phase, action) = begin_hooks(before, 1);
    assert_eq!(action, HookAction::RunShellHooks);
    assert_eq!(
        run_hooks(1, phase, HookInput::Failed),
        Some((HookPhase::Over, HookAction::Fail))
    );
    let (phase, action) = run_hooks(1, phase, HookInput::Ready).unwrap();
    assert_eq!(action, HookAction::Run(0));
    assert_eq!(
        run_hooks(1, phase, HookInput::Failed),
        Some((HookPhase::Over, HookAction::Fail))
    );
    assert_eq!(
        run_hooks(1, phase, HookInput::Ready),
        Some((HookPhase::Over, HookAction::Finish))
    );
    assert_eq!(run_hooks(1, HookPhase::Over, HookInput::Ready), None);
    // The failure of any other shell command changes nothing.
    let (phase, action) = begin_hooks(after, 2);
    assert_eq!(action, HookAction::Run(0));
    let (phase, action) = run_hooks(2, phase, HookInput::ShellFailed).unwrap();
    assert_eq!(action, HookAction::Run(1));
    assert_eq!(
        run_hooks(2, phase, HookInput::ShellFailed),
        Some((HookPhase::Over, HookAction::Finish))
    );
    assert_eq!(begin_hooks(after, 0), (HookPhase::Over, HookAction::Finish));
    assert_eq!(run_shell_lifecycle_events(2, 0, false), AfterHook::Next);
    assert_eq!(run_shell_lifecycle_events(2, 0, true), AfterHook::Fail);
    assert_eq!(run_shell_lifecycle_events(2, 1, false), AfterHook::Finish);
    assert_eq!(LifecycleEvent::Restart(When::After).event_noun(), "restarting");
}

#[test]
fn initialization_ends_with_its_hooks() {
    let ghci = session(OPTIONS, &[], &[]);
    let mut run = Initialize {
        has_files: true,
        phase: InitializePhase::Banner,
    };
    let mut step = |input| ghci.initialize(&mut run, input);
    assert_eq!(
        step(InitializeInput::Ready),
        Some(InitializeAction::SetPrompt)
    );
    assert_eq!(
        step(InitializeInput::Failed { broken_pipe: true }),
        Some(InitializeAction::DrainStderr)
    );
    assert_eq!(
        step(InitializeInput::Failed { broken_pipe: true }),
        Some(InitializeAction::FinishCompilation {
            ghci_available: false,
            operation_succeeded: false
        })
    );
    assert_eq!(
        step(InitializeInput::Ready),
        Some(InitializeAction::FailOperation)
    );
}

fn published(log: &CompilationLog) -> String {
    ErrorLog::new(Some(normal("ghcid.txt"))).write(log).unwrap()
}

#[test]
fn a_failed_start_is_remembered_and_published() {
    let mut ghci = session(OPTIONS, &[], &[]);
    let mut log = CompilationLog::default();
    record_failure(&mut log, Some("Error: plugin missing\n"), "broken pipe");
    ghci.settle_initialization(&mut log);
    assert!(ghci.start_failed);
    assert_eq!(published(&log), "Error: plugin missing\n");

    let mut blank = CompilationLog::default();
    record_failure(&mut blank, Some(" \n"), "broken pipe");
    assert!(published(&blank).contains("Configured GHCi command exited before startup completed\n"));
    let mut other = CompilationLog::default();
    record_failure(&mut other, None, "no targets");
    assert!(published(&other).contains("GHCi initialization failed: no targets\n"));
    let mut unstarted = CompilationLog::default();
    record_start_failure(&mut unstarted, "not found");
    assert!(published(&unstarted).contains("Failed to start configured GHCi command: not found\n"));

    let mut empty = CompilationLog::default();
    ghci.settle_initialization(&mut empty);
    assert!(!ghci.start_failed);
    assert_eq!(published(&empty), "All good (0 modules)\n");
    assert!(ErrorLog::new(None).write(&empty).is_none());
}

#[test]
fn diagnostics_are_published_once() {
    let mut log = CompilationLog::default();
    for _ in 0..2 {
        log.extend_stdout("src/A.hs:1:2: error: x\n    y\nFailed, no modules loaded.\n");
        log.extend_stderr("note\n");
    }
    log.deduplicate_diagnostics();
    assert_eq!(published(&log), "src/A.hs:1:2: error: x\n    y\nnote\n");
}

#[test]
fn diagnostics_are_published_once_within_standard_error() {
    let first = "src/A.hs:1:2: error: x\n    y\n";
    let second = "src/B.hs:3:4: warning: z\n";
    let mut log = CompilationLog::default();
    log.extend_stderr(&format!("start\n{first}"));
    log.extend_stderr(&format!("again\n{first}{second}{second}"));
    log.extend_stderr(first);
    log.deduplicate_diagnostics();
    assert_eq!(log.stderr.len(), 2);
    assert_eq!(published(&log), format!("start\n{first}again\n{second}"));

    // What standard output told is not told again.
    let mut log = CompilationLog::default();
    log.extend_stdout(first);
    log.extend_stderr(&format!("{first}note\n"));
    log.deduplicate_diagnostics();
    assert_eq!(published(&log), format!("{first}note\n"));

    // Other diagnostics stay, even those at the same place.
    let mut log = CompilationLog::default();
    log.extend_stderr(first);
    log.extend_stderr("src/A.hs:1:2: error: other\n");
    log.deduplicate_diagnostics();
    assert_eq!(published(&log), format!("{first}src/A.hs:1:2: error: other\n"));
}

#[test]
fn a_restart_is_balanced_by_hooks() {
    let (mut restart, action) = Restart::new(RestartKind::Running);
    assert_eq!(
        action,
        RestartAction::RunHooks(LifecycleEvent::Reload(When::Before))
    );
    assert_eq!(
        restart.restart(RestartInput::Ready),
        Some(RestartAction::RunHooks(LifecycleEvent::Restart(When::Before)))
    );
    assert_eq!(
        restart.restart(RestartInput::Failed),
        Some(RestartAction::RunShellEvents(Closing::RestartAndReload))
    );
    assert_eq!(
        restart.restart(RestartInput::Ready),
        Some(RestartAction::FailFirst)
    );
    assert_eq!(
        Closing::All.list(),
        [
            LifecycleEvent::Startup(When::After),
            LifecycleEvent::Restart(When::After),
            LifecycleEvent::Reload(When::After)
        ]
    );
    assert_eq!(Closing::StartupAndRestart.list().len(), 2);

    let ghci = session(OPTIONS, &[], &["A.hs"]);
    let ((mut killed, action), known) = ghci.restart_after_recovery_kill_with_known_files();
    assert_eq!(action, RestartAction::Stop);
    assert_eq!(known.len(), 1);
    killed.restart(RestartInput::Ready);
    assert_eq!(
        killed.restart(RestartInput::Failed),
        Some(RestartAction::FinishCompilation(Closing::StartupAndRestart))
    );
    let ((_, action), used) = ghci.startup_restart(Some(files(&[])));
    assert_eq!(
        action,
        RestartAction::RunShellHooks(LifecycleEvent::Reload(When::Before))
    );
    assert!(used.is_empty());
    assert_eq!(ghci.restart_for_memory_watchdog().1.len(), 1);
}

#[test]
fn setup_gates_every_start() {
    assert_eq!(begin_setup(0).1, SetupAction::Finish);
    let (phase, action) = begin_setup(2);
    assert_eq!(action, SetupAction::MarkUpdates);
    let (phase, action) = run(2, phase, SetupInput::Ready).unwrap();
    assert_eq!(action, SetupAction::Run(0));
    let (phase, action) = run(2, phase, SetupInput::Ready).unwrap();
    assert_eq!(action, SetupAction::Run(1));
    let (phase, action) = run(2, phase, SetupInput::Failed).unwrap();
    assert_eq!(action, SetupAction::Publish);
    let (phase, action) = run(2, phase, SetupInput::Ready).unwrap();
    assert_eq!(action, SetupAction::AwaitUpdate);
    // Everything begins again.
    let (phase, action) = run(2, phase, SetupInput::Ready).unwrap();
    assert_eq!(action, SetupAction::MarkUpdates);
    assert_eq!(run(2, phase, SetupInput::Ready).unwrap().1, SetupAction::Run(0));

    assert_eq!(execute("make", true, "exit status: 0", "", ""), None);
    let failed = execute("make", false, "exit status: 2", "out\n", "err\n").unwrap();
    assert_eq!(
        failed,
        "setup-shell command `make` failed (exit status: 2)\nout\nerr\n"
    );
    assert_eq!(
        run_failure("make", "not found"),
        "setup-shell command `make` failed: not found\n"
    );
    assert!(published(&failure_log(&failed)).ends_with(&failed));

    assert_eq!(
        spawn_session(SpawnPhase::Setup, SpawnInput::Ready),
        Some((SpawnPhase::Hooks, SpawnAction::RunShellHooks))
    );
    assert_eq!(
        spawn_session(
            SpawnPhase::Spawning,
            SpawnInput::Spawned {
                process_id: Some(5),
                process_group_id: None
            }
        ),
        Some((SpawnPhase::Over, SpawnAction::FailNoGroup))
    );
    assert_eq!(
        spawn_session(
            SpawnPhase::Spawning,
            SpawnInput::Spawned {
                process_id: None,
                process_group_id: Some(5)
            }
        ),
        Some((SpawnPhase::Over, SpawnAction::FailNoProcess))
    );
    assert_eq!(
        spawn_session(
            SpawnPhase::Spawning,
            SpawnInput::Spawned {
                process_id: Some(6),
                process_group_id: Some(5)
            }
        ),
        Some((
            SpawnPhase::Over,
            SpawnAction::Attach {
                process_id: 6,
                process_group_id: 5
            }
        ))
    );
}

#[test]
fn interrupts_are_repeated_until_a_prompt_is_seen() {
    let mut phase = SigintPhase::Showing;
    let mut step = |input| {
        let (next, action) = send_sigint_inner(phase, input).unwrap();
        phase = next;
        action
    };
    assert_eq!(step(SigintInput::Ready), SigintAction::RunBeforeInterrupt);
    assert_eq!(step(SigintInput::Ready), SigintAction::NextDelay);
    for _ in 0..2 {
        assert_eq!(step(SigintInput::Ready), SigintAction::SendSigint);
        assert_eq!(step(SigintInput::Ready), SigintAction::DrainPrompts);
        assert_eq!(step(SigintInput::Prompt(false)), SigintAction::NextDelay);
    }
    assert_eq!(step(SigintInput::Ready), SigintAction::SendSigint);
    assert_eq!(step(SigintInput::Ready), SigintAction::DrainPrompts);
    assert_eq!(step(SigintInput::Prompt(true)), SigintAction::SyncBarrier);
    assert_eq!(step(SigintInput::Ready), SigintAction::Finish);
    assert_eq!(send_sigint(true), AfterSigint::Finish);
    assert_eq!(send_sigint(false), AfterSigint::ForceKill);

    let (phase, action) = sync_barrier(SyncPhase::Writing, true).unwrap();
    assert_eq!(action, SyncAction::ReadUntilMarker);
    assert_eq!(sync_barrier(phase, false).unwrap().1, SyncAction::Fail);

    let mut ghci = session(OPTIONS, &[], &[]);
    assert_eq!(ghci.next_sync_marker(), "~~~GHCIWATCH-SYNC-1~~~");
    assert_eq!(ghci.next_sync_marker(), "~~~GHCIWATCH-SYNC-2~~~");
}

#[test]
fn a_wedged_session_is_given_up() {
    let (phase, action) =
        interrupt_and_retry_reload(RecoveryPhase::Running, RecoveryInput::Inactive).unwrap();
    assert_eq!(action, RecoveryAction::SendSigint);
    let (phase, action) = interrupt_and_retry_reload(phase, RecoveryInput::Ready).unwrap();
    assert_eq!(action, RecoveryAction::Reload);
    assert_eq!(
        interrupt_and_retry_reload(phase, RecoveryInput::Inactive).unwrap().1,
        RecoveryAction::ForceKill
    );

    let mut ghci = session(OPTIONS, &[], &[]);
    let (phase, action) = ghci.force_kill_for_recovery(GiveUpPhase::Starting).unwrap();
    assert_eq!(action, GiveUpAction::RunBeforeKill);
    assert!(ghci.recovery_restart_required);
    assert_eq!(
        ghci.force_kill_for_recovery(phase).unwrap().1,
        GiveUpAction::KillTree
    );
    let report = fail_recovery(Report::new(Cause::BrokenPipe), Ok(()));
    assert!(is_recovery_failure(&report) && is_broken_pipe(&report));
    let report = fail_recovery(Report::new(Cause::BrokenPipe), Err(Report::new(Cause::Other)));
    assert!(is_recovery_failure(&report) && !is_broken_pipe(&report));

    assert_eq!(
        ghci.inactive_details(Compiling::Addition, "  • A.hs"),
        "Component: target synchronization (:add)\nInactivity timeout: 90s\nProcess group ID: 8\nWorking directory: /p\nCommand: cabal repl\nAdded paths:\n  • A.hs\nRecovery: interrupting GHCi with process-group SIGINT, then retrying :reload with a 40s inactivity timeout"
    );
    assert_eq!(
        ghci.recovery_details(Compiling::Reload),
        "Component: recovery :reload after reload (:reload)\nInactivity timeout: 40s\nProcess group ID: 8\nWorking directory: /p\nCommand: cabal repl\nRecovery: force-killing the GHCi process tree; the manager will immediately initialize a fresh session"
    );
    assert_eq!(
        ghci.diagnostic_context(),
        "Component: configured GHCi --command process\nCommand process ID: 7\nProcess group ID: 8\nWorking directory: /p\nCommand: cabal repl"
    );
    assert_eq!(
        stop(StopPhase::Asking, true, true),
        Some((StopPhase::Over, StopAction::Finish))
    );
    assert_eq!(
        stop(StopPhase::Awaiting, true, false),
        Some((StopPhase::Over, StopAction::Fail))
    );
}

#[test]
fn commands_in_sources_are_evaluated_in_scope() {
    let mut ghci = session(OPTIONS, &["A.hs", "B.hs"], &[]);
    ghci.refresh_eval_commands(vec![vec!["1".to_owned()], vec![]]);
    let evaluations = ghci.eval();
    assert_eq!(evaluations.len(), 1);
    assert_eq!(evaluations[0].path.relative().as_str(), "A.hs");
    assert_eq!(evaluations[0].commands, ["1"]);
    ghci.refresh_eval_commands_for_path(&normal("B.hs"), Some(vec!["2".to_owned()]));
    ghci.refresh_eval_commands_for_path(&normal("A.hs"), None);
    assert_eq!(ghci.eval()[0].commands, ["2"]);
    ghci.remove_modules(&vec![normal("B.hs")]);
    assert!(ghci.eval().is_empty());
    assert!(!ghci.targets.contains_source_path(&normal("B.hs")));
    ghci.interpret_module(&normal("B.hs"));
    assert!(ghci.targets.contains_source_path(&normal("B.hs")));

    let (phase, action) = eval_step(1, EvalPhase::Interpreting, true).unwrap();
    assert_eq!(action, EvalAction::AddToScope);
    let (phase, action) = eval_step(1, phase, true).unwrap();
    assert_eq!(action, EvalAction::Run(0));
    let (phase, action) = eval_step(1, phase, true).unwrap();
    assert_eq!(action, EvalAction::RemoveFromScope);
    assert_eq!(eval_step(1, phase, true).unwrap().1, EvalAction::Finish);
}

#[test]
fn search_paths_are_completed() {
    let mut ghci = session(OPTIONS, &["A.hs"], &["A.hs", "Old.hs"]);
    ghci.refresh_paths(
        path("/q"),
        vec![path("/q/src")],
        &vec![path("/q/src/"), path("/q/test")],
    );
    let shown: Vec<&str> = ghci.search_paths.iter().map(|path| path.as_str()).collect();
    assert_eq!(shown, ["/q/src", "/q/test"]);
    let seen = ghci.classifier.relative_path(&path("A.hs"));
    assert_eq!(seen.absolute().as_str(), "/q/A.hs");
    let (gone, missing) = ghci.synchronize_haskell_files(&files(&["B.hs"]));
    assert_eq!(names(&gone), ["A.hs"]);
    assert_eq!(names(&missing), ["B.hs"]);
    assert_eq!(
        ghci.import_names(&vec![normal("A.hs"), normal("Z.hs")])[1].show(),
        "Z.hs"
    );
}

fn options() -> Opts {
    Opts {
        command: None,
        file: None,
        error_file: None,
        enable_eval: false,
        eval_socket: path("/tmp/s"),
        extra_module_search_paths: vec![normal("src")],
        hooks: vec![],
        setup_shell: vec![],
        before_interrupt: vec![],
        before_kill: vec![],
        replace_auto_add_shell: None,
        no_interrupt_reloads: false,
        interrupt_on_error: false,
        no_auto_reload: false,
        no_auto_targets: true,
        restart_on_add: false,
        restart_on_exit: false,
        clear: false,
        tui: false,
        progress: true,
        watch: WatchOpts {
            paths: vec![normal("src")],
            debounce: 500,
            poll: None,
            restart_globs: vec!["*.yaml".to_owned()],
            reload_globs: vec!["data/*".to_owned()],
        },
    }
}

#[test]
fn options_are_taken_from_the_command_line() {
    let opts = options();
    let watcher = WatcherOpts::from_cli(&opts, Some(path("/p"))).unwrap();
    assert_eq!(names(&watcher.watch), ["src"]);
    assert_eq!(watcher.debounce, 500);
    let relevant = |name: &str| {
        let event = FileEvent::Modify(path(name));
        watcher.file_classifier.is_potentially_relevant(&event)
    };
    assert!(relevant("/p/package.yaml"));
    assert!(relevant("data/words"));
    assert!(!relevant("/p/notes.txt"));
    assert_eq!(
        watcher.file_classifier.relevance(&modified(&["A.hs", "notes.txt", "x.cabal"])),
        [true, false, true]
    );
    let ghci = GhciOpts::from_cli(opts, false).unwrap();
    assert_eq!(ghci.command.program, "cabal");
    assert_eq!(ghci.command.args, ["repl"]);
    assert_eq!(ghci.extra_search_paths[0].as_str(), "/p/src");
    assert!(ghci.interrupt_reloads);
    assert!(!ghci.reload.auto_targets);
    assert_eq!(ghci.output, OutputMode::Standard);
    let mut opts = options();
    opts.file = Some(normal("Main.hs"));
    let ghci = GhciOpts::from_cli(opts, true).unwrap();
    assert_eq!(ghci.command.program, "ghci");
    assert_eq!(ghci.command.args, ["Main.hs"]);
    assert_eq!(ghci.output, OutputMode::Progress);
}

#[test]
fn options_that_cannot_be_used_are_refused() {
    let bad = |pattern: &str| GlobError { pattern: pattern.to_owned() };
    let mut opts = options();
    opts.watch.reload_globs = vec!["a".to_owned(), "b\\".to_owned(), "c\\".to_owned()];
    assert_eq!(
        WatcherOpts::from_cli(&opts, None).unwrap_err(),
        OptsError::Glob(bad("b\\"))
    );
    opts.watch.restart_globs = vec!["d\\".to_owned()];
    assert_eq!(
        WatcherOpts::from_cli(&opts, Some(path("/p"))).unwrap_err(),
        OptsError::Glob(bad("d\\"))
    );
    assert_eq!(GhciOpts::from_cli(opts, false).unwrap_err(), bad("d\\"));
    let opts = options();
    assert_eq!(
        WatcherOpts::from_cli(&opts, None).unwrap_err(),
        OptsError::NoWorkingDirectory
    );
    let ghci = GhciOpts::from_cli(opts, false).unwrap();
    assert_eq!(ghci.file_classifier(None).unwrap_err(), NoWorkingDirectory);
    let classifier = ghci.file_classifier(Some(path("/p"))).unwrap();
    let actions = classifier.classify(&modified(&["x.yaml", "data/y"]), &ModuleSet::new());
    assert_eq!(names(&actions.needs_restart), ["x.yaml"]);
    assert_eq!(names(&actions.needs_reload), ["data/y"]);
}

#[test]
fn a_source_keeps_the_path_that_its_commands_were_found_under() {
    let mut ghci = session(OPTIONS, &["A.hs"], &["A.hs"]);
    ghci.refresh_eval_commands(vec![vec!["1".to_owned()]]);
    let elsewhere = NormalPath::new(path("/p/./A.hs"), path("./A.hs"));
    ghci.refresh_eval_commands_for_path(&elsewhere, Some(vec!["2".to_owned()]));
    let evaluations = ghci.eval();
    assert_eq!(evaluations.len(), 1);
    assert_eq!(evaluations[0].path.relative().as_str(), "A.hs");
    assert_eq!(evaluations[0].commands, ["2"]);
    ghci.refresh_eval_commands_for_path(&elsewhere, None);
    ghci.refresh_eval_commands_for_path(&elsewhere, Some(vec!["3".to_owned()]));
    assert_eq!(ghci.eval()[0].path.relative().as_str(), "./A.hs");
}
