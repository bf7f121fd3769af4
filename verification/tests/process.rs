use std::collections::BTreeMap;

use ghciwatch::ghci::process::kill::{
    kill_process_group, signal_tracked_process, track_process, KillAction, KillFailure, KillInput,
    KillTree, SignalError, SignalWay, Tracking,
};
use ghciwatch::ghci::process::watch::{
    before_signal_commands, before_signal_environment, run_before_signal_commands, BeforeSignalAction,
    BeforeSignalInput, GhciProcess, ProcessAction, ProcessInput, ProcessPhase,
};
use ghciwatch::ghci::process::{parse_process_stat, process_snapshot, process_tree, ProcessStat, StatEntry};

fn stat(pid: i32, parent_pid: i32, process_group_id: i32) -> ProcessStat {
    ProcessStat {
        pid,
        parent_pid,
        process_group_id,
        start_time: pid as u64,
    }
}

fn entry(pid: i32, parent_pid: i32, process_group_id: i32) -> StatEntry {
    StatEntry {
        name: pid.to_string(),
        stat: Some(format!(
            "{pid} (x) S {parent_pid} {process_group_id} 3 4 5 6 7 8 9 10 11 12 13 14 15 16 17 18 {pid} 20"
        )),
    }
}

#[test]
fn parses_proc_stat_with_difficult_command_name() {
    let stat = "42 (ghc worker) name) S 7 2 3 4 5 6 7 8 9 10 11 12 13 14 15 16 17 18 99 20";
    let parsed = parse_process_stat(42, stat).unwrap();
    assert_eq!(parsed.pid, 42);
    assert_eq!(parsed.parent_pid, 7);
    assert_eq!(parsed.process_group_id, 2);
    assert_eq!(parsed.start_time, 99);
}

#[test]
fn finds_descendants_across_multiple_generations() {
    let snapshot = BTreeMap::from([
        (10, stat(10, 1, 10)),
        (20, stat(20, 10, 10)),
        (30, stat(30, 20, 30)),
        // A reparented original-group member still anchors its escaped child.
        (50, stat(50, 1, 10)),
        (60, stat(60, 50, 60)),
        (40, stat(40, 1, 40)),
    ]);
    let mut found = process_tree(10, 10, &snapshot)
        .into_iter()
        .map(|stat| stat.pid)
        .collect::<Vec<_>>();
    found.sort_unstable();
    assert_eq!(found, [10, 20, 30, 50, 60]);
}

#[test]
fn the_tree_is_in_the_order_of_discovery() {
    let snapshot = BTreeMap::from([
        // Found in the second sweep only: its parent has a higher process ID.
        (5, stat(5, 30, 5)),
        (10, stat(10, 1, 10)),
        (20, stat(20, 50, 20)),
        (30, stat(30, 20, 30)),
        (50, stat(50, 1, 10)),
        (60, stat(60, 5, 60)),
    ]);
    let found = |process_id: i32| {
        process_tree(process_id, 10, &snapshot)
            .into_iter()
            .map(|stat| stat.pid)
            .collect::<Vec<_>>()
    };
    assert_eq!(found(10), [10, 50, 20, 30, 5, 60]);
    // A command process that is gone still anchors its group.
    assert_eq!(found(11), [10, 50, 20, 30, 5, 60]);
}

#[test]
fn incomplete_entries_are_no_processes() {
    assert_eq!(parse_process_stat(1, "no parenthesis"), None);
    assert_eq!(parse_process_stat(1, "1 (x) S 2 3"), None);
    let snapshot = process_snapshot(&vec![
        entry(7, 1, 7),
        StatEntry {
            name: "self".to_owned(),
            stat: Some("7 (x) S 1 7".to_owned()),
        },
        StatEntry {
            name: "8".to_owned(),
            stat: None,
        },
    ]);
    assert_eq!(snapshot, BTreeMap::from([(7, stat(7, 1, 7))]));
}

#[test]
fn every_process_of_the_tree_is_stopped_and_killed() {
    let mut tree = KillTree::new(10, 10);
    let table = || vec![entry(10, 1, 10), entry(20, 10, 20), entry(40, 1, 40)];
    assert_eq!(tree.kill_process_tree(KillInput::TableFailed), None);
    assert_eq!(
        tree.kill_process_tree(KillInput::Answer(false)),
        Some(KillAction::ReadTable)
    );
    assert_eq!(
        tree.kill_process_tree(KillInput::Table(table())),
        Some(KillAction::Track(stat(10, 1, 10)))
    );
    assert_eq!(
        tree.kill_process_tree(KillInput::Answer(true)),
        Some(KillAction::Stop(stat(10, 1, 10)))
    );
    assert_eq!(
        tree.kill_process_tree(KillInput::Answer(true)),
        Some(KillAction::Track(stat(20, 10, 20)))
    );
    // A process that vanished makes another pass necessary.
    assert_eq!(
        tree.kill_process_tree(KillInput::Answer(false)),
        Some(KillAction::ReadTable)
    );
    assert_eq!(
        tree.kill_process_tree(KillInput::Table(table())),
        Some(KillAction::Track(stat(20, 10, 20)))
    );
    assert_eq!(
        tree.kill_process_tree(KillInput::Answer(true)),
        Some(KillAction::Stop(stat(20, 10, 20)))
    );
    assert_eq!(
        tree.kill_process_tree(KillInput::Answer(true)),
        Some(KillAction::ReadTable)
    );
    assert_eq!(
        tree.kill_process_tree(KillInput::Table(table())),
        Some(KillAction::Kill(stat(20, 10, 20)))
    );
    assert_eq!(
        tree.kill_process_tree(KillInput::Answer(false)),
        Some(KillAction::Kill(stat(10, 1, 10)))
    );
    assert_eq!(
        tree.kill_process_tree(KillInput::Answer(true)),
        Some(KillAction::KillGroup)
    );
    assert_eq!(
        tree.kill_process_tree(KillInput::Answer(false)),
        Some(KillAction::Finish(Some(KillFailure::Process(20))))
    );
    assert_eq!(tree.kill_process_tree(KillInput::Answer(true)), None);
}

#[test]
fn an_unreadable_table_leaves_the_group() {
    let mut tree = KillTree::new(10, 10);
    tree.kill_process_tree(KillInput::Answer(true));
    assert_eq!(
        tree.kill_process_tree(KillInput::TableFailed),
        Some(KillAction::KillGroup)
    );
    assert_eq!(
        tree.kill_process_tree(KillInput::Answer(false)),
        Some(KillAction::Finish(Some(KillFailure::Table)))
    );
}

#[test]
fn reused_process_ids_get_no_signal() {
    let expected = stat(10, 1, 10);
    let other = ProcessStat {
        start_time: 11,
        ..expected
    };
    assert_eq!(track_process(expected, Ok(()), Some(expected)), Tracking::Handle);
    assert_eq!(track_process(expected, Ok(()), Some(other)), Tracking::Gone);
    assert_eq!(
        track_process(expected, Err(SignalError::NoSuchProcess), None),
        Tracking::Gone
    );
    assert_eq!(
        track_process(expected, Err(SignalError::Other), None),
        Tracking::ProcessId
    );
    assert_eq!(signal_tracked_process(true, expected, None), SignalWay::Handle);
    assert_eq!(signal_tracked_process(false, expected, Some(other)), SignalWay::Skip);
    assert_eq!(
        signal_tracked_process(false, expected, Some(expected)),
        SignalWay::ProcessId
    );
    assert!(kill_process_group(Err(SignalError::NoSuchProcess)));
    assert!(!kill_process_group(Err(SignalError::Other)));
}

#[test]
fn commands_before_a_signal_never_withhold_it() {
    assert_eq!(before_signal_commands(0).1, BeforeSignalAction::Signal);
    let (phase, action) = before_signal_commands(2);
    assert_eq!(action, BeforeSignalAction::Start(0));
    let (phase, action) =
        run_before_signal_commands(2, phase, BeforeSignalInput::StartFailed).unwrap();
    assert_eq!(action, BeforeSignalAction::Start(1));
    let (phase, action) = run_before_signal_commands(2, phase, BeforeSignalInput::Started).unwrap();
    assert_eq!(action, BeforeSignalAction::Await(1));
    let (_, action) = run_before_signal_commands(2, phase, BeforeSignalInput::TimedOut).unwrap();
    assert_eq!(action, BeforeSignalAction::Signal);
    assert_eq!(
        before_signal_environment(12, -3),
        [
            ("GHCIWATCH_PID".to_owned(), "12".to_owned()),
            ("GHCIWATCH_PGID".to_owned(), "-3".to_owned())
        ]
    );
}

#[test]
fn the_end_of_a_process_is_told_once_it_is_gone() {
    let mut process = GhciProcess {
        process_id: 1,
        process_group_id: 1,
        phase: ProcessPhase::Watching,
    };
    let mut step = |input| process.run(input);
    assert_eq!(
        step(ProcessInput::StopRequested { requested: true }),
        Some(ProcessAction::RunBeforeKill)
    );
    assert_eq!(step(ProcessInput::Exited(0)), None);
    assert_eq!(step(ProcessInput::Ready), Some(ProcessAction::KillTree));
    assert_eq!(step(ProcessInput::Ready), Some(ProcessAction::AwaitExit));
    assert_eq!(step(ProcessInput::Exited(9)), Some(ProcessAction::Acknowledge));
    assert_eq!(step(ProcessInput::Ready), Some(ProcessAction::Finish));

    let mut other = GhciProcess {
        process_id: 1,
        process_group_id: 1,
        phase: ProcessPhase::Watching,
    };
    assert_eq!(
        other.run(ProcessInput::Exited(3)),
        Some(ProcessAction::ReportExit(3))
    );
}
