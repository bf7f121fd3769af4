//! Watching the process of a session: until it exits, or is to be ended.

use crate::text::{format_i32, signed_decimal};
use vstd::prelude::*;

verus! {

/// How long a command that runs before a signal may take, in seconds.
pub const BEFORE_SIGNAL_COMMAND_TIMEOUT: u64 = 30;

/// The environment variables that tell a command which runs before a signal what the signal goes to:
/// the command process and its process group.
pub fn before_signal_environment(process_id: i32, process_group_id: i32) -> (r: Vec<(String, String)>)
    ensures
        r@.len() == 2,
        r@[0].0@ == "GHCIWATCH_PID"@,
        r@[0].1@ == signed_decimal(process_id as int),
        r@[1].0@ == "GHCIWATCH_PGID"@,
        r@[1].1@ == signed_decimal(process_group_id as int),
{
    let mut r: Vec<(String, String)> = Vec::new();
    r.push(("GHCIWATCH_PID".to_owned(), format_i32(process_id)));
    r.push(("GHCIWATCH_PGID".to_owned(), format_i32(process_group_id)));
    r
}

/// What the commands before a signal wait for.
#[derive(Clone, Copy, Debug, PartialEq, Eq, Structural)]
pub enum BeforeSignalPhase {
    /// The command at this place was to be started.
    Starting(usize),
    /// The command at this place was started.
    Running(usize),
    /// All commands are done with.
    Over,
}

/// What is to be done next before a signal.
#[derive(Clone, Copy, Debug, PartialEq, Eq, Structural)]
pub enum BeforeSignalAction {
    /// Start the command at this place.
    Start(usize),
    /// Wait until the command at this place exits, but no longer than the timeout.
    Await(usize),
    /// Send the signal.
    Signal,
}

/// What came of it.
#[derive(Clone, Copy, Debug, PartialEq, Eq, Structural)]
pub enum BeforeSignalInput {
    /// The command was started.
    Started,
    /// The command could not be started.
    StartFailed,
    /// The command exited, or waiting for it failed.
    Ended,
    /// The command took too long. It was told to end, and is not waited for any more.
    TimedOut,
}

/// What begins at this place of `count` commands.
pub open spec fn before_signal_from(count: usize, at: int) -> (BeforeSignalPhase, BeforeSignalAction) {
    if at < count {
        (BeforeSignalPhase::Starting(at as usize), BeforeSignalAction::Start(at as usize))
    } else {
        (BeforeSignalPhase::Over, BeforeSignalAction::Signal)
    }
}

/// What happens next before a signal. Nothing, if the input does not answer what was last to be done.
pub open spec fn before_signal_next(count: usize, phase: BeforeSignalPhase, input: BeforeSignalInput) -> Option<
    (BeforeSignalPhase, BeforeSignalAction),
> {
    match (phase, input) {
        (BeforeSignalPhase::Starting(i), BeforeSignalInput::Started) => Some(
            (BeforeSignalPhase::Running(i), BeforeSignalAction::Await(i)),
        ),
        (BeforeSignalPhase::Starting(i), BeforeSignalInput::StartFailed) => Some(
            before_signal_from(count, i + 1),
        ),
        (BeforeSignalPhase::Running(i), BeforeSignalInput::Ended) => Some(before_signal_from(count, i + 1)),
        (BeforeSignalPhase::Running(i), BeforeSignalInput::TimedOut) => Some(
            before_signal_from(count, i + 1),
        ),
        _ => None,
    }
}

/// What is to be done first before a signal, with this many commands.
pub fn before_signal_commands(count: usize) -> (r: (BeforeSignalPhase, BeforeSignalAction))
    ensures
        r == before_signal_from(count, 0),
{
    if 0 < count {
        (BeforeSignalPhase::Starting(0), BeforeSignalAction::Start(0))
    } else {
        (BeforeSignalPhase::Over, BeforeSignalAction::Signal)
    }
}

/// Takes what came of what was last to be done before a signal and says what is to be done next.
pub fn run_before_signal_commands(count: usize, phase: BeforeSignalPhase, input: BeforeSignalInput) -> (r: Option<
    (BeforeSignalPhase, BeforeSignalAction),
>)
    ensures
        r == before_signal_next(count, phase, input),
{
    let done: usize = match (phase, input) {
        (BeforeSignalPhase::Starting(i), BeforeSignalInput::Started) => {
            return Some((BeforeSignalPhase::Running(i), BeforeSignalAction::Await(i)));
        },
        (BeforeSignalPhase::Starting(i), BeforeSignalInput::StartFailed) => i,
        (BeforeSignalPhase::Running(i), BeforeSignalInput::Ended) => i,
        (BeforeSignalPhase::Running(i), BeforeSignalInput::TimedOut) => i,
        _ => {
            return None;
        },
    };
    if done < count && done + 1 < count {
        Some((BeforeSignalPhase::Starting(done + 1), BeforeSignalAction::Start(done + 1)))
    } else {
        Some((BeforeSignalPhase::Over, BeforeSignalAction::Signal))
    }
}

/// How much is left to do before a signal.
pub open spec fn before_signal_left(count: usize, phase: BeforeSignalPhase) -> int {
    match phase {
        BeforeSignalPhase::Starting(i) => 2 * (count - i) + 1,
        BeforeSignalPhase::Running(i) => 2 * (count - i),
        BeforeSignalPhase::Over => 0,
    }
}

/// No command keeps the signal from being sent: whatever comes of each, every answer leaves less to
/// do, and nothing is left only when the signal is to be sent.
pub proof fn signal_is_never_withheld(count: usize, phase: BeforeSignalPhase, input: BeforeSignalInput)
    requires
        match phase {
            BeforeSignalPhase::Starting(i) => i < count,
            BeforeSignalPhase::Running(i) => i < count,
            BeforeSignalPhase::Over => true,
        },
        before_signal_next(count, phase, input) is Some,
    ensures
        ({
            let (after, action) = before_signal_next(count, phase, input)->0;
            &&& 0 <= before_signal_left(count, after) < before_signal_left(count, phase)
            &&& action == BeforeSignalAction::Signal <==> before_signal_left(count, after) == 0
            &&& match after {
                BeforeSignalPhase::Starting(i) => i < count,
                BeforeSignalPhase::Running(i) => i < count,
                BeforeSignalPhase::Over => true,
            }
        }),
{
}

/// What the watch over a process waits for.
#[derive(Clone, Copy, Debug, PartialEq, Eq, Structural)]
pub enum ProcessPhase {
    /// The process is running.
    Watching,
    /// The commands before a kill were to run. `requested` tells whether somebody waits to be told
    /// that the process is gone.
    BeforeKill { requested: bool },
    /// The process tree was to be killed.
    Killing { requested: bool },
    /// The exit of the process was to be awaited.
    Exiting { requested: bool },
    /// Who asked for the end, or the manager, was to be told of it.
    Telling,
    /// Nothing is left.
    Over,
}

/// What is to be done next about a process.
#[derive(Clone, Copy, Debug, PartialEq, Eq, Structural)]
pub enum ProcessAction {
    /// Run the commands before a kill.
    RunBeforeKill,
    /// Kill the process tree.
    KillTree,
    /// Wait until the process has exited.
    AwaitExit,
    /// Tell who asked for the end that the process is gone.
    Acknowledge,
    /// Tell the manager that the process exited unexpectedly, with this status.
    ReportExit(i32),
    /// Return.
    Finish,
    /// Return the error that was just reported.
    Fail,
}

/// What happened to a process.
#[derive(Clone, Copy, Debug, PartialEq, Eq, Structural)]
pub enum ProcessInput {
    /// A shutdown was requested.
    Shutdown,
    /// The session is to end. `requested` is false if nobody can ask for that any more.
    StopRequested { requested: bool },
    /// The process exited with this status.
    Exited(i32),
    /// What was to be done is done.
    Ready,
    /// What was to be done failed.
    Failed,
}

/// What happens next to a process. Nothing, if the input does not answer what was last to be done.
pub open spec fn process_next(phase: ProcessPhase, input: ProcessInput) -> Option<(ProcessPhase, ProcessAction)> {
    match (phase, input) {
        (ProcessPhase::Watching, ProcessInput::Shutdown) => Some(
            (ProcessPhase::BeforeKill { requested: false }, ProcessAction::RunBeforeKill),
        ),
        (ProcessPhase::Watching, ProcessInput::StopRequested { requested }) => Some(
            (ProcessPhase::BeforeKill { requested }, ProcessAction::RunBeforeKill),
        ),
        (ProcessPhase::Watching, ProcessInput::Exited(status)) => Some(
            (ProcessPhase::Telling, ProcessAction::ReportExit(status)),
        ),
        (ProcessPhase::BeforeKill { requested }, ProcessInput::Ready) => Some(
            (ProcessPhase::Killing { requested }, ProcessAction::KillTree),
        ),
        (ProcessPhase::Killing { requested }, ProcessInput::Ready) => Some(
            (ProcessPhase::Exiting { requested }, ProcessAction::AwaitExit),
        ),
        (ProcessPhase::Exiting { requested }, ProcessInput::Exited(_)) => if requested {
            Some((ProcessPhase::Telling, ProcessAction::Acknowledge))
        } else {
            Some((ProcessPhase::Over, ProcessAction::Finish))
        },
        (ProcessPhase::Telling, ProcessInput::Ready) => Some((ProcessPhase::Over, ProcessAction::Finish)),
        (ProcessPhase::Watching, ProcessInput::Failed) => Some((ProcessPhase::Over, ProcessAction::Fail)),
        (ProcessPhase::Killing { .. }, ProcessInput::Failed) => Some((ProcessPhase::Over, ProcessAction::Fail)),
        (ProcessPhase::Exiting { .. }, ProcessInput::Failed) => Some((ProcessPhase::Over, ProcessAction::Fail)),
        _ => None,
    }
}

/// The process of a session, as the watch over it sees it.
#[derive(Debug)]
pub struct GhciProcess {
    /// The process created directly from the configured command.
    pub process_id: i32,
    pub process_group_id: i32,
    pub phase: ProcessPhase,
}

impl GhciProcess {
    /// Takes what happened to the process and says what is to be done next. Nothing changes, and
    /// nothing is to be done, if the input does not answer what was last to be done.
    pub fn run(&mut self, input: ProcessInput) -> (r: Option<ProcessAction>)
        ensures
            final(self).process_id == old(self).process_id,
            final(self).process_group_id == old(self).process_group_id,
            match r {
                Some(action) => process_next(old(self).phase, input) == Some((final(self).phase, action)),
                None => process_next(old(self).phase, input) is None && *final(self) == *old(self),
            },
    {
        let (phase, action) = match (self.phase, input) {
            (ProcessPhase::Watching, ProcessInput::Shutdown) => (
                ProcessPhase::BeforeKill { requested: false },
                ProcessAction::RunBeforeKill,
            ),
            (ProcessPhase::Watching, ProcessInput::StopRequested { requested }) => (
                ProcessPhase::BeforeKill { requested },
                ProcessAction::RunBeforeKill,
            ),
            (ProcessPhase::Watching, ProcessInput::Exited(status)) => (
                ProcessPhase::Telling,
                ProcessAction::ReportExit(status),
            ),
            (ProcessPhase::BeforeKill { requested }, ProcessInput::Ready) => (
                ProcessPhase::Killing { requested },
                ProcessAction::KillTree,
            ),
            (ProcessPhase::Killing { requested }, ProcessInput::Ready) => (
                ProcessPhase::Exiting { requested },
                ProcessAction::AwaitExit,
            ),
            (ProcessPhase::Exiting { requested }, ProcessInput::Exited(_)) => if requested {
                (ProcessPhase::Telling, ProcessAction::Acknowledge)
            } else {
                (ProcessPhase::Over, ProcessAction::Finish)
            },
            (ProcessPhase::Telling, ProcessInput::Ready) => (ProcessPhase::Over, ProcessAction::Finish),
            (ProcessPhase::Watching, ProcessInput::Failed) => (ProcessPhase::Over, ProcessAction::Fail),
            (ProcessPhase::Killing { .. }, ProcessInput::Failed) => (ProcessPhase::Over, ProcessAction::Fail),
            (ProcessPhase::Exiting { .. }, ProcessInput::Failed) => (ProcessPhase::Over, ProcessAction::Fail),
            _ => {
                return None;
            },
        };
        self.phase = phase;
        Some(action)
    }
}

/// Who asked for the end of a session is told only once its process tree was killed and the process
/// has exited, so that the readers of its pipes live until then. The manager is told of an exit only
/// if nobody asked for one.
pub proof fn end_is_told_after_exit(phase: ProcessPhase, input: ProcessInput)
    requires
        process_next(phase, input) is Some,
    ensures
        (process_next(phase, input)->0).1 is Acknowledge ==> phase == (ProcessPhase::Exiting {
            requested: true,
        }) && input is Exited,
        (process_next(phase, input)->0).0 is Exiting ==> phase is Killing && input is Ready,
        (process_next(phase, input)->0).1 is KillTree ==> phase is BeforeKill,
        (process_next(phase, input)->0).1 is ReportExit ==> phase is Watching && input is Exited,
{
}

/// Each command before a signal is started in its turn and waited for; whatever comes of it the next follows, and after
/// the last the signal is sent.
pub proof fn commands_before_a_signal_run_in_turn(count: usize, i: usize, ended: bool)
    requires
        i < count,
    ensures
        before_signal_from(count, 0) == (BeforeSignalPhase::Starting(0), BeforeSignalAction::Start(0)),
        before_signal_from(0, 0).1 is Signal,
        before_signal_next(count, BeforeSignalPhase::Starting(i), BeforeSignalInput::Started) == Some(
            (BeforeSignalPhase::Running(i), BeforeSignalAction::Await(i)),
        ),
        ({
            let next = if i + 1 < count {
                Some((BeforeSignalPhase::Starting((i + 1) as usize), BeforeSignalAction::Start((i + 1) as usize)))
            } else {
                Some((BeforeSignalPhase::Over, BeforeSignalAction::Signal))
            };
            &&& before_signal_next(count, BeforeSignalPhase::Starting(i), BeforeSignalInput::StartFailed) == next
            &&& before_signal_next(count, BeforeSignalPhase::Running(i), BeforeSignalInput::Ended) == next
            &&& before_signal_next(count, BeforeSignalPhase::Running(i), BeforeSignalInput::TimedOut) == next
        }),
{
}

/// A process that is to end has its commands run and its tree killed, and is waited for; then who asked is told, if
/// somebody did. One that exits by itself is reported with its status. A step that fails is returned.
pub proof fn processes_end_as_asked(requested: bool, status: i32)
    ensures
        ({
            let (p1, a1) = process_next(ProcessPhase::Watching, ProcessInput::StopRequested { requested })->0;
            let (p2, a2) = process_next(p1, ProcessInput::Ready)->0;
            let (p3, a3) = process_next(p2, ProcessInput::Ready)->0;
            let (p4, a4) = process_next(p3, ProcessInput::Exited(status))->0;
            let shutdown = process_next(ProcessPhase::Watching, ProcessInput::Shutdown);
            &&& a1 is RunBeforeKill
            &&& a2 is KillTree
            &&& a3 is AwaitExit
            &&& a4 is Acknowledge <==> requested
            &&& a4 is Finish <==> !requested
            &&& requested ==> process_next(p4, ProcessInput::Ready) == Some((ProcessPhase::Over, ProcessAction::Finish))
            &&& !requested ==> shutdown == Some((p1, a1))
            &&& shutdown == process_next(ProcessPhase::Watching, ProcessInput::StopRequested { requested: false })
            &&& process_next(p2, ProcessInput::Failed) == Some((ProcessPhase::Over, ProcessAction::Fail))
            &&& process_next(p3, ProcessInput::Failed) == Some((ProcessPhase::Over, ProcessAction::Fail))
        }),
        ({
            let (p1, a1) = process_next(ProcessPhase::Watching, ProcessInput::Exited(status))->0;
            &&& a1 == ProcessAction::ReportExit(status)
            &&& process_next(p1, ProcessInput::Ready) == Some((ProcessPhase::Over, ProcessAction::Finish))
        }),
        process_next(ProcessPhase::Watching, ProcessInput::Failed) == Some((ProcessPhase::Over, ProcessAction::Fail)),
{
}

/// Each hook is waited for once it was started, and the signal is sent exactly when the hooks are over.
pub proof fn hooks_before_a_signal_are_waited_for(count: usize, phase: BeforeSignalPhase, input: BeforeSignalInput)
    requires
        before_signal_next(count, phase, input) is Some,
    ensures
        (before_signal_next(count, phase, input)->0).0 is Over <==> (before_signal_next(count, phase, input)->0).1 is Signal,
        (before_signal_next(count, phase, input)->0).0 is Starting <==> (before_signal_next(count, phase, input)->0).1 is Start,
        (before_signal_next(count, phase, input)->0).0 is Running <==> (before_signal_next(count, phase, input)->0).1 is Await,
{
}

/// The watch over the process waits for the end of what it does, and is over exactly when it returns.
pub proof fn watch_waits_for_what_it_does(phase: ProcessPhase, input: ProcessInput)
    requires
        process_next(phase, input) is Some,
    ensures
        (process_next(phase, input)->0).0 is Over <==> (process_next(phase, input)->0).1 is Finish || (process_next(phase, input)->0).1 is Fail,
        (process_next(phase, input)->0).0 is BeforeKill <==> (process_next(phase, input)->0).1 is RunBeforeKill,
        (process_next(phase, input)->0).0 is Killing <==> (process_next(phase, input)->0).1 is KillTree,
        (process_next(phase, input)->0).0 is Exiting <==> (process_next(phase, input)->0).1 is AwaitExit,
{
}

} // verus!
