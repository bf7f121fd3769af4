use ghciwatch::event_filter::{file_states, FileEvent, FileState, Observation};
use ghciwatch::ghci::manager::details::{
    error_block, exit_status_diagnostic, exit_status_text, first_crash_details, next_crash_details,
    ExitInfo,
};
use ghciwatch::ghci::manager::handle::{
    GhciManager, HandleAction, HandleInput, HandleResult, Handling,
};
use ghciwatch::ghci::manager::restart::{Recovery, Retry, RetryAction, RetryInput, RetryResult};
use ghciwatch::ghci::manager::run::{
    after_handling, after_wait, run_ghci, should_interrupt, StartAction, StartInput, StartPhase, Turn,
    WaitAction, WaitInput, WaitPhase, WaitResult,
};
use ghciwatch::ghci::manager::WatcherEvent;
use ghciwatch::ghci::report::{is_broken_pipe, is_recovery_failure, Cause, Report};
use ghciwatch::ghci::GhciReloadKind;
use ghciwatch::path::FilePath;
use ghciwatch::sorted::{SortedMap, SortedSet};

fn path(text: &str) -> FilePath {
    FilePath::new(text.to_owned())
}

/// The event about a source with these contents.
fn event(name: &str, contents: &str) -> WatcherEvent {
    let mut events = SortedSet::new();
    events.insert(FileEvent::Modify(path(name)));
    let observed = || Observation::File {
        len: contents.len() as u64,
        contents: contents.as_bytes().to_vec(),
    };
    let states = file_states(&events, &vec![observed()]);
    let mut haskell_files = SortedSet::new();
    haskell_files.insert(path(name));
    let mut source_snapshot = SortedMap::new();
    source_snapshot.insert(path(name), FileState::capture(&observed()));
    WatcherEvent::Reload {
        events,
        states,
        haskell_files,
        source_snapshot,
        startup_retry: false,
    }
}

fn affected(event: &WatcherEvent) -> String {
    event.affected_paths().unwrap_or_default()
}

#[test]
fn delayed_duplicate_edit_is_discarded_after_reload() {
    let first = event("/tmp/First.hs", "module First where\nvalue = 1\n");
    let mut applied_states = SortedMap::new();
    let mut applied_haskell_files = None;
    first.mark_applied(&mut applied_states, &mut applied_haskell_files);

    // Keep the replacement the same length to ensure the content hash, rather than only file
    // size, distinguishes the edit.
    let latest = event("/tmp/First.hs", "module First where\nvalue = 2\n");
    let mut delayed_duplicate = latest.duplicate();
    assert!(!delayed_duplicate.discard_applied(&applied_states, &applied_haskell_files));

    latest.mark_applied(&mut applied_states, &mut applied_haskell_files);
    assert!(delayed_duplicate.discard_applied(&applied_states, &applied_haskell_files));
}

#[test]
fn merging_keeps_the_newest_event_of_each_path() {
    let mut merged = event("/d/A.hs", "a");
    let mut removal = event("/d/A.hs", "b");
    let WatcherEvent::Reload {
        events,
        startup_retry,
        ..
    } = &mut removal;
    *events = SortedSet::new();
    events.insert(FileEvent::Remove(path("/d/./A.hs")));
    *startup_retry = true;
    merged.merge(removal);
    merged.merge(event("/d/B.hs", "b"));
    assert_eq!(affected(&merged), "  - /d/B.hs\n  - /d/./A.hs");
    let WatcherEvent::Reload {
        events,
        states,
        haskell_files,
        source_snapshot,
        startup_retry,
    } = &merged;
    assert!(matches!(events.at(1), FileEvent::Remove(_)));
    assert_eq!(states.len(), 2);
    assert_eq!(haskell_files.at(0).as_str(), "/d/B.hs");
    assert_eq!(source_snapshot.len(), 1);
    assert!(*startup_retry);
}

/// Brings the handling of an event to its dispatch.
fn dispatching(manager: &mut GhciManager, event: WatcherEvent) -> Handling {
    let (mut handling, action) = Handling::new(event);
    assert!(matches!(action, HandleAction::BeginOperation));
    // The shell hooks before a reload wait for any evaluation that is running.
    assert!(matches!(
        manager.handle_event(&mut handling, HandleInput::Ready),
        Some(HandleAction::RunShellHooks)
    ));
    assert!(matches!(
        manager.handle_event(&mut handling, HandleInput::Ready),
        Some(HandleAction::Dispatch(_))
    ));
    handling
}

#[test]
fn events_during_a_dispatch_come_again() {
    let mut manager = GhciManager::new(false, false);
    let mut handling = dispatching(&mut manager, event("/d/A.hs", "a"));
    assert!(matches!(
        manager.handle_event(
            &mut handling,
            HandleInput::Watcher(event("/d/A.hs", "a"), vec![event("/d/B.hs", "b")])
        ),
        Some(HandleAction::Wait)
    ));
    assert!(matches!(
        manager.handle_event(&mut handling, HandleInput::WatchdogTick),
        Some(HandleAction::Wait)
    ));
    assert!(matches!(
        manager.handle_event(&mut handling, HandleInput::Dispatched),
        Some(HandleAction::RunMemoryWatchdog)
    ));
    assert!(matches!(
        manager.handle_event(&mut handling, HandleInput::Ready),
        Some(HandleAction::DrainWatcher)
    ));
    match manager.handle_event(&mut handling, HandleInput::Drained(vec![])) {
        Some(HandleAction::Finish(HandleResult::Interrupted(event))) => {
            // The change that the dispatch applied is dropped.
            assert_eq!(affected(&event), "  - /d/B.hs");
            assert!(matches!(
                after_handling(HandleResult::Interrupted(event)),
                Turn::Handle(_)
            ));
        }
        other => panic!("{other:?}"),
    }
    assert!(manager
        .handle_event(&mut handling, HandleInput::Ready)
        .is_none());
}

#[test]
fn a_dispatch_that_applied_everything_is_done() {
    let mut manager = GhciManager::new(true, false);
    let mut handling = dispatching(&mut manager, event("/d/A.hs", "a"));
    assert!(matches!(
        manager.handle_event(
            &mut handling,
            HandleInput::Watcher(event("/d/A.hs", "a"), vec![])
        ),
        Some(HandleAction::AwaitReloadKind)
    ));
    assert!(matches!(
        manager.handle_event(&mut handling, HandleInput::Answer(false)),
        Some(HandleAction::Wait)
    ));
    assert!(matches!(
        manager.handle_event(&mut handling, HandleInput::Dispatched),
        Some(HandleAction::DrainWatcher)
    ));
    assert!(matches!(
        manager.handle_event(&mut handling, HandleInput::Drained(vec![])),
        Some(HandleAction::Finish(HandleResult::Done))
    ));
}

#[test]
fn an_interrupted_reload_keeps_all_events() {
    let mut manager = GhciManager::new(true, false);
    let mut handling = dispatching(&mut manager, event("/d/A.hs", "a"));
    manager.handle_event(
        &mut handling,
        HandleInput::Watcher(event("/d/B.hs", "b"), vec![]),
    );
    assert!(matches!(
        manager.handle_event(&mut handling, HandleInput::Answer(true)),
        Some(HandleAction::AbortAndInterrupt)
    ));
    assert!(matches!(
        manager.handle_event(&mut handling, HandleInput::Ready),
        Some(HandleAction::FinishInterruptedReload(true))
    ));
    match manager.handle_event(&mut handling, HandleInput::Ready) {
        Some(HandleAction::Finish(HandleResult::Interrupted(event))) => {
            assert_eq!(affected(&event), "  - /d/A.hs\n  - /d/B.hs");
        }
        other => panic!("{other:?}"),
    }
}

#[test]
fn a_session_that_cannot_be_interrupted_is_replaced_at_once() {
    let mut manager = GhciManager::new(true, false);
    let mut handling = dispatching(&mut manager, event("/d/A.hs", "a"));
    manager.handle_event(
        &mut handling,
        HandleInput::Watcher(event("/d/B.hs", "b"), vec![]),
    );
    manager.handle_event(&mut handling, HandleInput::Answer(true));
    assert!(matches!(
        manager.handle_event(
            &mut handling,
            HandleInput::Failed(Report::new(Cause::RecoveryFailed))
        ),
        Some(HandleAction::FinishInterruptedReload(false))
    ));
    assert!(matches!(
        manager.handle_event(&mut handling, HandleInput::Ready),
        Some(HandleAction::ConsumeExit)
    ));
    match manager.handle_event(&mut handling, HandleInput::Exited(9)) {
        Some(HandleAction::RestartAfterRecoveryKill(files)) => {
            assert_eq!(files.at(0).as_str(), "/d/B.hs");
        }
        other => panic!("{other:?}"),
    }
}

#[test]
fn an_exit_during_a_dispatch_is_followed_by_a_retry() {
    let mut manager = GhciManager::new(true, false);
    let mut handling = dispatching(&mut manager, event("/d/A.hs", "a"));
    assert!(matches!(
        manager.handle_event(&mut handling, HandleInput::Exited(1)),
        Some(HandleAction::AwaitDispatch)
    ));
    assert!(matches!(
        manager.handle_event(
            &mut handling,
            HandleInput::DispatchFailed(Report::new(Cause::BrokenPipe).wrap(Cause::Other))
        ),
        Some(HandleAction::AskRecovery)
    ));
    assert!(matches!(
        manager.handle_event(&mut handling, HandleInput::Answer(false)),
        Some(HandleAction::WaitAndRestart(1, _))
    ));
    assert!(matches!(
        manager.handle_event(
            &mut handling,
            HandleInput::Restarted(Some(event("/d/A.hs", "a")))
        ),
        Some(HandleAction::Finish(HandleResult::Done))
    ));
    // What the replacement was started with counts as dispatched.
    let mut phase = WaitPhase::Waiting;
    assert!(matches!(
        manager.wait_for_event(&mut phase, WaitInput::Watcher(event("/d/A.hs", "a"))),
        Some(WaitAction::Wait)
    ));
}

#[test]
fn other_errors_end_the_handling() {
    let mut manager = GhciManager::new(true, false);
    let mut handling = dispatching(&mut manager, event("/d/A.hs", "a"));
    assert!(matches!(
        manager.handle_event(
            &mut handling,
            HandleInput::DispatchFailed(Report::new(Cause::Other))
        ),
        Some(HandleAction::Fail)
    ));
}

#[test]
fn a_crash_loop_waits_for_a_newer_change() {
    let (mut retry, action) = Retry::new(Some(event("/d/A.hs", "a")), false);
    assert!(matches!(action, RetryAction::Delay));
    assert!(matches!(
        retry.wait_and_restart(RetryInput::DelayOver),
        Some(RetryAction::Restart(Some(_)))
    ));
    assert!(matches!(
        retry.wait_and_restart(RetryInput::Restarted),
        Some(RetryAction::TryExit)
    ));
    assert!(matches!(
        retry.wait_and_restart(RetryInput::ExitStatus(Some(1))),
        Some(RetryAction::DrainWatcher)
    ));
    match retry.wait_and_restart(RetryInput::Drained(vec![event("/d/A.hs", "a")])) {
        Some(RetryAction::ReportAndDelay(1, affected, Recovery::CrashLoop)) => {
            assert_eq!(affected, Some("  - /d/A.hs".to_owned()));
        }
        other => panic!("{other:?}"),
    }
    assert!(matches!(
        retry.wait_and_restart(RetryInput::DelayOver),
        Some(RetryAction::AwaitWatcher)
    ));
    // The same contents again do not end the crash loop.
    retry.wait_and_restart(RetryInput::Watcher(event("/d/A.hs", "a")));
    assert!(matches!(
        retry.wait_and_restart(RetryInput::Drained(vec![])),
        Some(RetryAction::AwaitWatcher)
    ));
    retry.wait_and_restart(RetryInput::Watcher(event("/d/A.hs", "b")));
    assert!(matches!(
        retry.wait_and_restart(RetryInput::Drained(vec![])),
        Some(RetryAction::Restart(Some(_)))
    ));
    retry.wait_and_restart(RetryInput::Restarted);
    assert!(matches!(
        retry.wait_and_restart(RetryInput::ExitStatus(None)),
        Some(RetryAction::Finish(RetryResult::Restarted(Some(_))))
    ));
}

#[test]
fn persistent_recovery_needs_no_change() {
    let (mut retry, _) = Retry::new(None, true);
    assert!(matches!(
        retry.wait_and_restart(RetryInput::DelayOver),
        Some(RetryAction::Restart(None))
    ));
    assert!(matches!(
        retry.wait_and_restart(RetryInput::RestartFailed(Report::new(Cause::BrokenPipe))),
        Some(RetryAction::AwaitExit)
    ));
    assert!(matches!(
        retry.wait_and_restart(RetryInput::Exited(1)),
        Some(RetryAction::DrainWatcher)
    ));
    assert!(matches!(
        retry.wait_and_restart(RetryInput::Drained(vec![])),
        Some(RetryAction::ReportAndDelay(1, None, Recovery::Persistent))
    ));
    assert!(matches!(
        retry.wait_and_restart(RetryInput::DelayOver),
        Some(RetryAction::Restart(None))
    ));
    assert!(matches!(
        retry.wait_and_restart(RetryInput::RestartFailed(Report::new(Cause::Other))),
        Some(RetryAction::Fail)
    ));
}

#[test]
fn the_manager_runs_once_a_session_is_there() {
    let mut manager = GhciManager::new(true, false);
    let mut phase = StartPhase::Starting;
    let mut step = |input| run_ghci(&mut manager, &mut phase, input);
    assert!(matches!(step(StartInput::Ready), Some(StartAction::Initialize)));
    assert!(matches!(
        step(StartInput::Failed(Report::new(Cause::BrokenPipe))),
        Some(StartAction::AwaitExit)
    ));
    assert!(matches!(
        step(StartInput::Exited(1)),
        Some(StartAction::WaitAndRestart(1))
    ));
    assert!(matches!(
        step(StartInput::Restarted(None)),
        Some(StartAction::SpawnEvalSocket)
    ));
    assert!(matches!(step(StartInput::Ready), Some(StartAction::RunManager)));
}

#[test]
fn waiting_ends_with_an_event_or_a_shutdown() {
    let mut manager = GhciManager::new(true, false);
    let mut phase = WaitPhase::Waiting;
    assert!(matches!(
        manager.wait_for_event(&mut phase, WaitInput::WatchdogTick),
        Some(WaitAction::RunMemoryWatchdog)
    ));
    assert!(matches!(
        manager.wait_for_event(&mut phase, WaitInput::Answer(false)),
        Some(WaitAction::Wait)
    ));
    match manager.wait_for_event(&mut phase, WaitInput::Watcher(event("/d/A.hs", "a"))) {
        Some(WaitAction::Finish(result)) => {
            assert!(matches!(after_wait(result), Turn::Handle(_)));
        }
        other => panic!("{other:?}"),
    }
    let mut phase = WaitPhase::Waiting;
    assert!(matches!(
        manager.wait_for_event(&mut phase, WaitInput::WatcherClosed),
        Some(WaitAction::Stop)
    ));
    assert!(matches!(
        manager.wait_for_event(&mut phase, WaitInput::Ready),
        Some(WaitAction::Finish(WaitResult::Shutdown))
    ));
    let mut phase = WaitPhase::Waiting;
    manager.wait_for_event(&mut phase, WaitInput::Exited(2));
    assert!(matches!(
        manager.wait_for_event(&mut phase, WaitInput::Answer(true)),
        Some(WaitAction::RestartAfterRecoveryKill)
    ));
}

#[test]
fn only_a_compilation_gives_way() {
    assert_eq!(should_interrupt(Some(GhciReloadKind::Pending)), None);
    assert_eq!(should_interrupt(Some(GhciReloadKind::Idle)), Some(false));
    assert_eq!(should_interrupt(Some(GhciReloadKind::Restart)), Some(false));
    assert_eq!(should_interrupt(Some(GhciReloadKind::Reload)), Some(true));
    assert_eq!(should_interrupt(None), Some(false));
}

#[test]
fn errors_are_known_by_anything_that_led_to_them() {
    let report = Report::new(Cause::BrokenPipe)
        .wrap(Cause::Other)
        .wrap(Cause::RecoveryFailed);
    assert!(is_broken_pipe(&report));
    assert!(is_recovery_failure(&report));
    assert!(!is_broken_pipe(&Report::new(Cause::Other)));
}

#[test]
fn exits_are_described() {
    let exited = ExitInfo {
        text: "exit status: 3".to_owned(),
        code: Some(3),
        signal: None,
        core_dumped: false,
    };
    let note = "\nStatus note: this status belongs to the configured --command process; a wrapper such as cabal may translate a child GHC crash signal into its own exit code";
    assert_eq!(
        exit_status_diagnostic(&exited),
        format!("Command exit status: exit status: 3\nExit code: Some(3)\nTerminating signal: none\nCore dumped: false{note}")
    );
    let killed = ExitInfo {
        text: "signal: 9 (SIGKILL)".to_owned(),
        code: None,
        signal: Some(9),
        core_dumped: false,
    };
    let text = exit_status_diagnostic(&killed);
    assert!(text.contains("\nExit code: None\nTerminating signal: 9 (SIGKILL)\n"));
    assert!(text.contains("OOM killer"));
    let unknown = ExitInfo {
        text: "signal: 12345".to_owned(),
        code: None,
        signal: Some(12345),
        core_dumped: true,
    };
    assert!(exit_status_diagnostic(&unknown).contains("Terminating signal: 12345\nCore dumped: true\n"));
    let harmless = [
        (1, "SIGHUP"),
        (2, "SIGINT"),
        (3, "SIGQUIT"),
        (8, "SIGFPE"),
        (14, "SIGALRM"),
        (15, "SIGTERM"),
    ];
    for (number, name) in harmless {
        let ended = ExitInfo {
            text: format!("signal: {number}"),
            code: None,
            signal: Some(number),
            core_dumped: false,
        };
        let text = exit_status_diagnostic(&ended);
        assert!(text.contains(&format!("\nTerminating signal: {number} ({name})\n")));
        assert!(!text.contains("Diagnostic hint"));
    }
    for (number, name) in [(4, "SIGILL"), (6, "SIGABRT"), (11, "SIGSEGV")] {
        let crashed = ExitInfo {
            text: format!("signal: {number}"),
            code: None,
            signal: Some(number),
            core_dumped: true,
        };
        let text = exit_status_diagnostic(&crashed);
        assert!(text.contains(&format!("\nTerminating signal: {number} ({name})\n")));
        assert!(text.contains("native-code crash"));
    }
    for number in [0, -9] {
        let odd = ExitInfo {
            text: "odd".to_owned(),
            code: None,
            signal: Some(number),
            core_dumped: false,
        };
        assert!(exit_status_diagnostic(&odd).contains(&format!("\nTerminating signal: {number}\n")));
    }
    assert!(exit_status_text(&unknown, Some("SIGSEGV")).contains("native-code crash"));
}

#[test]
fn crashes_are_described() {
    assert_eq!(
        first_crash_details("during initial GHCi startup", "E", "C", &None, true),
        "Detected phase: during initial GHCi startup\nE\nC\nRecovery: persistently retrying with a fresh GHCi session after 10s, using the newest queued watched state"
    );
    assert_eq!(
        next_crash_details("E", "C", &Some("  - a".to_owned()), Recovery::Queued),
        "Detected phase: while starting a replacement GHCi session\nE\nC\nAffected paths:\n  - a\nRecovery: a newer watched state is already queued; retrying after 10s"
    );
    assert_eq!(
        error_block("12", "S", "D"),
        "\n==GHCIWATCH ERROR==\nTimestamp (Unix): 12\nSummary: S\nD\n==END GHCIWATCH ERROR==\n"
    );
}
