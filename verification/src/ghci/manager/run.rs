//! The life of the manager: starting the first session, waiting for events, and going from one to
//! the next.

use crate::event_filter::{FileEvent, FileEventView};
use crate::ghci::manager::handle::{
    completed_dispatch_is_recorded, optional, GhciManager, HandleResult, HandlingView, InputView, ManagerView,
    ResultView,
};
use crate::ghci::manager::{
    applied_means_nothing_differs, lookup, only_applied_changes_are_dropped, same_files, ReloadView, WatcherEvent,
};
use crate::ghci::report::{is_broken_pipe, is_recovery_failure, Cause, Report};
use crate::ghci::GhciReloadKind;
use crate::sorted::{sorted, Key};
use vstd::prelude::*;

verus! {

/// Whether a reload gives way to a newer event, as far as its state tells: not yet known while it is
/// pending; yes while it compiles; no while nothing can be interrupted.
pub open spec fn gives_way(kind: GhciReloadKind) -> Option<bool> {
    match kind {
        GhciReloadKind::Pending => None,
        GhciReloadKind::Idle => Some(false),
        GhciReloadKind::Restart => Some(false),
        GhciReloadKind::Reload => Some(true),
    }
}

/// Whether a reload gives way to a newer event. `kind` is its state, and `None` if no state will be
/// reported any more. The answer is `None` if the next state is to be awaited.
pub fn should_interrupt(kind: Option<GhciReloadKind>) -> (r: Option<bool>)
    ensures
        r == (match kind {
            Some(kind) => gives_way(kind),
            None => Some(false),
        }),
{
    match kind {
        Some(GhciReloadKind::Pending) => None,
        Some(GhciReloadKind::Idle) => Some(false),
        Some(GhciReloadKind::Restart) => Some(false),
        Some(GhciReloadKind::Reload) => Some(true),
        None => Some(false),
    }
}

/// The result of waiting for an event.
#[derive(Debug)]
pub enum WaitResult {
    /// A watcher event came.
    Event(WatcherEvent),
    /// A shutdown was requested, or no event will come any more.
    Shutdown,
    /// The session died or used too much memory, and was replaced.
    Restarted,
}

/// What is to be done next while waiting.
#[derive(Debug)]
pub enum WaitAction {
    /// Wait for a shutdown, a watcher event, the exit of the process or a tick of the watchdog.
    Wait,
    /// Stop the session.
    Stop,
    /// Begin an operation and check the memory of the session.
    RunMemoryWatchdog,
    /// Begin an operation and ask the session whether it was killed because its prompt could not be
    /// trusted.
    AskRecovery,
    /// Within that operation, replace the killed session, with the Haskell files that it knew.
    RestartAfterRecoveryKill,
    /// Replace the session that exited with this status.
    WaitAndRestart(i32),
    /// Return this result.
    Finish(WaitResult),
    /// Return the error that was just reported.
    Fail,
}

/// What happened while waiting.
#[derive(Debug)]
pub enum WaitInput {
    /// What was to be done is done.
    Ready,
    /// What was to be done failed.
    Failed(Report),
    /// A shutdown was requested.
    Shutdown,
    /// A watcher event came.
    Watcher(WatcherEvent),
    /// No watcher event will come any more.
    WatcherClosed,
    /// The process exited with this status.
    Exited(i32),
    /// A check of the memory is due.
    WatchdogTick,
    /// The answer to what was asked, or whether the check of the memory led to a restart.
    Answer(bool),
    /// The session was replaced, using this event if any.
    Restarted(Option<WatcherEvent>),
}

/// What the waiting waits for.
#[derive(Clone, Copy, Debug, PartialEq, Eq, Structural)]
pub enum WaitPhase {
    Waiting,
    Stopping,
    Checking,
    Asking(i32),
    Replacing,
    Retrying,
    Over,
}

/// The model of a [`WaitResult`].
pub enum WaitResultView {
    Event(ReloadView),
    Shutdown,
    Restarted,
}

/// The model of a [`WaitAction`].
pub enum WaitActionView {
    Wait,
    Stop,
    RunMemoryWatchdog,
    AskRecovery,
    RestartAfterRecoveryKill,
    WaitAndRestart(i32),
    Finish(WaitResultView),
    Fail,
}

/// The model of a [`WaitInput`].
pub enum WaitInputView {
    Ready,
    Failed(Seq<Cause>),
    Shutdown,
    Watcher(ReloadView),
    WatcherClosed,
    Exited(i32),
    WatchdogTick,
    Answer(bool),
    Restarted(Option<ReloadView>),
}

impl View for WaitResult {
    type V = WaitResultView;

    open spec fn view(&self) -> WaitResultView {
        match self {
            WaitResult::Event(event) => WaitResultView::Event(event@),
            WaitResult::Shutdown => WaitResultView::Shutdown,
            WaitResult::Restarted => WaitResultView::Restarted,
        }
    }
}

impl View for WaitAction {
    type V = WaitActionView;

    open spec fn view(&self) -> WaitActionView {
        match self {
            WaitAction::Wait => WaitActionView::Wait,
            WaitAction::Stop => WaitActionView::Stop,
            WaitAction::RunMemoryWatchdog => WaitActionView::RunMemoryWatchdog,
            WaitAction::AskRecovery => WaitActionView::AskRecovery,
            WaitAction::RestartAfterRecoveryKill => WaitActionView::RestartAfterRecoveryKill,
            WaitAction::WaitAndRestart(status) => WaitActionView::WaitAndRestart(*status),
            WaitAction::Finish(result) => WaitActionView::Finish(result@),
            WaitAction::Fail => WaitActionView::Fail,
        }
    }
}

impl View for WaitInput {
    type V = WaitInputView;

    open spec fn view(&self) -> WaitInputView {
        match self {
            WaitInput::Ready => WaitInputView::Ready,
            WaitInput::Failed(report) => WaitInputView::Failed(report@),
            WaitInput::Shutdown => WaitInputView::Shutdown,
            WaitInput::Watcher(event) => WaitInputView::Watcher(event@),
            WaitInput::WatcherClosed => WaitInputView::WatcherClosed,
            WaitInput::Exited(status) => WaitInputView::Exited(*status),
            WaitInput::WatchdogTick => WaitInputView::WatchdogTick,
            WaitInput::Answer(answer) => WaitInputView::Answer(*answer),
            WaitInput::Restarted(event) => WaitInputView::Restarted(optional(*event)),
        }
    }
}

/// What happens next while waiting for an event. Nothing, if the input does not answer what was
/// last to be done. An event that is dispatched already is dropped.
pub open spec fn wait_next(phase: WaitPhase, m: ManagerView, input: WaitInputView) -> Option<
    (WaitPhase, ManagerView, WaitActionView),
> {
    match (phase, input) {
        (WaitPhase::Waiting, WaitInputView::Shutdown) => Some(
            (WaitPhase::Stopping, m, WaitActionView::Stop),
        ),
        (WaitPhase::Waiting, WaitInputView::WatcherClosed) => Some(
            (WaitPhase::Stopping, m, WaitActionView::Stop),
        ),
        (WaitPhase::Waiting, WaitInputView::Watcher(event)) => if event.is_applied(
            m.applied,
            m.applied_files,
        ) {
            Some((WaitPhase::Waiting, m, WaitActionView::Wait))
        } else {
            Some(
                (
                    WaitPhase::Over,
                    m,
                    WaitActionView::Finish(WaitResultView::Event(event.pruned(m.applied))),
                ),
            )
        },
        (WaitPhase::Waiting, WaitInputView::Exited(status)) => Some(
            (WaitPhase::Asking(status), m, WaitActionView::AskRecovery),
        ),
        (WaitPhase::Waiting, WaitInputView::WatchdogTick) => Some(
            (WaitPhase::Checking, m, WaitActionView::RunMemoryWatchdog),
        ),
        (WaitPhase::Stopping, WaitInputView::Ready) => Some(
            (WaitPhase::Over, m, WaitActionView::Finish(WaitResultView::Shutdown)),
        ),
        (WaitPhase::Checking, WaitInputView::Answer(restarted)) => if restarted {
            Some((WaitPhase::Over, m, WaitActionView::Finish(WaitResultView::Restarted)))
        } else {
            Some((WaitPhase::Waiting, m, WaitActionView::Wait))
        },
        (WaitPhase::Asking(status), WaitInputView::Answer(killed)) => if killed {
            Some((WaitPhase::Replacing, m, WaitActionView::RestartAfterRecoveryKill))
        } else {
            Some((WaitPhase::Retrying, m, WaitActionView::WaitAndRestart(status)))
        },
        (WaitPhase::Replacing, WaitInputView::Ready) => Some(
            (WaitPhase::Over, m, WaitActionView::Finish(WaitResultView::Restarted)),
        ),
        (WaitPhase::Retrying, WaitInputView::Restarted(used)) => Some(
            (
                WaitPhase::Over,
                match used {
                    Some(event) => m.marked(event),
                    None => m,
                },
                WaitActionView::Finish(WaitResultView::Restarted),
            ),
        ),
        (WaitPhase::Retrying, WaitInputView::Shutdown) => Some(
            (WaitPhase::Over, m, WaitActionView::Finish(WaitResultView::Shutdown)),
        ),
        (phase, WaitInputView::Failed(_)) => if phase is Waiting || phase is Over {
            None
        } else {
            Some((WaitPhase::Over, m, WaitActionView::Fail))
        },
        _ => None,
    }
}

impl GhciManager {
    /// Takes what happened while the manager waits for an event and says what is to be done next.
    /// Nothing changes, and nothing is to be done, if the input does not answer what was last to be
    /// done.
    pub fn wait_for_event(&mut self, phase: &mut WaitPhase, input: WaitInput) -> (r: Option<WaitAction>)
        ensures
            match r {
                Some(action) => wait_next(*old(phase), old(self)@, input@) == Some(
                    (*final(phase), final(self)@, action@),
                ),
                None => wait_next(*old(phase), old(self)@, input@) is None && *final(phase) == *old(phase)
                    && final(self)@ == old(self)@,
            },
    {
        match (*phase, input) {
            (WaitPhase::Waiting, WaitInput::Shutdown) => {
                *phase = WaitPhase::Stopping;
                Some(WaitAction::Stop)
            },
            (WaitPhase::Waiting, WaitInput::WatcherClosed) => {
                *phase = WaitPhase::Stopping;
                Some(WaitAction::Stop)
            },
            (WaitPhase::Waiting, WaitInput::Watcher(event)) => {
                let mut event = event;
                if self.discard_applied(&mut event) {
                    Some(WaitAction::Wait)
                } else {
                    *phase = WaitPhase::Over;
                    Some(WaitAction::Finish(WaitResult::Event(event)))
                }
            },
            (WaitPhase::Waiting, WaitInput::Exited(status)) => {
                *phase = WaitPhase::Asking(status);
                Some(WaitAction::AskRecovery)
            },
            (WaitPhase::Waiting, WaitInput::WatchdogTick) => {
                *phase = WaitPhase::Checking;
                Some(WaitAction::RunMemoryWatchdog)
            },
            (WaitPhase::Stopping, WaitInput::Ready) => {
                *phase = WaitPhase::Over;
                Some(WaitAction::Finish(WaitResult::Shutdown))
            },
            (WaitPhase::Checking, WaitInput::Answer(restarted)) => {
                if restarted {
                    *phase = WaitPhase::Over;
                    Some(WaitAction::Finish(WaitResult::Restarted))
                } else {
                    *phase = WaitPhase::Waiting;
                    Some(WaitAction::Wait)
                }
            },
            (WaitPhase::Asking(status), WaitInput::Answer(killed)) => {
                if killed {
                    *phase = WaitPhase::Replacing;
                    Some(WaitAction::RestartAfterRecoveryKill)
                } else {
                    *phase = WaitPhase::Retrying;
                    Some(WaitAction::WaitAndRestart(status))
                }
            },
            (WaitPhase::Replacing, WaitInput::Ready) => {
                *phase = WaitPhase::Over;
                Some(WaitAction::Finish(WaitResult::Restarted))
            },
            (WaitPhase::Retrying, WaitInput::Restarted(used)) => {
                match used {
                    Some(event) => {
                        self.mark_applied(&event);
                    },
                    None => {},
                }
                *phase = WaitPhase::Over;
                Some(WaitAction::Finish(WaitResult::Restarted))
            },
            (WaitPhase::Retrying, WaitInput::Shutdown) => {
                *phase = WaitPhase::Over;
                Some(WaitAction::Finish(WaitResult::Shutdown))
            },
            (WaitPhase::Waiting, WaitInput::Failed(_)) => None,
            (WaitPhase::Over, WaitInput::Failed(_)) => None,
            (_, WaitInput::Failed(_)) => {
                *phase = WaitPhase::Over;
                Some(WaitAction::Fail)
            },
            _ => None,
        }
    }
}

/// What the manager does next.
#[derive(Debug)]
pub enum Turn {
    /// Wait for an event.
    Wait,
    /// Handle this event.
    Handle(WatcherEvent),
    /// Return.
    Stop,
}

/// The model of a [`Turn`].
pub enum TurnView {
    Wait,
    Handle(ReloadView),
    Stop,
}

impl View for Turn {
    type V = TurnView;

    open spec fn view(&self) -> TurnView {
        match self {
            Turn::Wait => TurnView::Wait,
            Turn::Handle(event) => TurnView::Handle(event@),
            Turn::Stop => TurnView::Stop,
        }
    }
}

/// What the manager does after it has waited.
pub fn after_wait(result: WaitResult) -> (r: Turn)
    ensures
        r@ == (match result@ {
            WaitResultView::Event(event) => TurnView::Handle(event),
            WaitResultView::Shutdown => TurnView::Stop,
            WaitResultView::Restarted => TurnView::Wait,
        }),
{
    match result {
        WaitResult::Event(event) => Turn::Handle(event),
        WaitResult::Shutdown => Turn::Stop,
        WaitResult::Restarted => Turn::Wait,
    }
}

/// What the manager does after it has handled an event: one that was interrupted comes again first.
pub fn after_handling(result: HandleResult) -> (r: Turn)
    ensures
        r@ == (match result@ {
            ResultView::Done => TurnView::Wait,
            ResultView::Interrupted(event) => TurnView::Handle(event),
            ResultView::Shutdown => TurnView::Stop,
        }),
{
    match result {
        HandleResult::Done => Turn::Wait,
        HandleResult::Interrupted(event) => Turn::Handle(event),
        HandleResult::Shutdown => Turn::Stop,
    }
}

/// What the start of the first session waits for.
#[derive(Clone, Copy, Debug, PartialEq, Eq, Structural)]
pub enum StartPhase {
    Starting,
    Initializing,
    Stopping,
    CheckingExit,
    AwaitingExit,
    Retrying,
    Spawning,
    Over,
}

/// What is to be done next to start the first session.
#[derive(Debug)]
pub enum StartAction {
    /// Initialize the session, or notice a shutdown. The initialization goes on if the process
    /// exits, so that the rest of its output is read.
    Initialize,
    /// Stop the session.
    Stop,
    /// See whether the process has exited already.
    TryExit,
    /// Wait for the exit of the process or a shutdown.
    AwaitExit,
    /// Replace the session that exited with this status.
    WaitAndRestart(i32),
    /// Open the evaluation socket.
    SpawnEvalSocket,
    /// Run the manager.
    RunManager,
    /// Return.
    Finish,
    /// Return the error that was just reported.
    Fail,
}

/// What happened while the first session was started.
#[derive(Debug)]
pub enum StartInput {
    /// What was to be done is done.
    Ready,
    /// What was to be done failed.
    Failed(Report),
    /// A shutdown was requested.
    Shutdown,
    /// The status of the process, if it has exited already.
    ExitStatus(Option<i32>),
    /// The process exited with this status.
    Exited(i32),
    /// No exit will be reported any more.
    ExitChannelClosed,
    /// The session was replaced, using this event if any.
    Restarted(Option<WatcherEvent>),
}

/// The model of a [`StartAction`].
pub enum StartActionView {
    Initialize,
    Stop,
    TryExit,
    AwaitExit,
    WaitAndRestart(i32),
    SpawnEvalSocket,
    RunManager,
    Finish,
    Fail,
}

/// The model of a [`StartInput`].
pub enum StartInputView {
    Ready,
    Failed(Seq<Cause>),
    Shutdown,
    ExitStatus(Option<i32>),
    Exited(i32),
    ExitChannelClosed,
    Restarted(Option<ReloadView>),
}

impl View for StartAction {
    type V = StartActionView;

    open spec fn view(&self) -> StartActionView {
        match self {
            StartAction::Initialize => StartActionView::Initialize,
            StartAction::Stop => StartActionView::Stop,
            StartAction::TryExit => StartActionView::TryExit,
            StartAction::AwaitExit => StartActionView::AwaitExit,
            StartAction::WaitAndRestart(status) => StartActionView::WaitAndRestart(*status),
            StartAction::SpawnEvalSocket => StartActionView::SpawnEvalSocket,
            StartAction::RunManager => StartActionView::RunManager,
            StartAction::Finish => StartActionView::Finish,
            StartAction::Fail => StartActionView::Fail,
        }
    }
}

impl View for StartInput {
    type V = StartInputView;

    open spec fn view(&self) -> StartInputView {
        match self {
            StartInput::Ready => StartInputView::Ready,
            StartInput::Failed(report) => StartInputView::Failed(report@),
            StartInput::Shutdown => StartInputView::Shutdown,
            StartInput::ExitStatus(status) => StartInputView::ExitStatus(*status),
            StartInput::Exited(status) => StartInputView::Exited(*status),
            StartInput::ExitChannelClosed => StartInputView::ExitChannelClosed,
            StartInput::Restarted(event) => StartInputView::Restarted(optional(*event)),
        }
    }
}

/// What happens next while the first session is started. Nothing, if the input does not answer what
/// was last to be done. A session that exits while it starts is replaced before the manager runs.
pub open spec fn start_next(phase: StartPhase, m: ManagerView, input: StartInputView) -> Option<
    (StartPhase, ManagerView, StartActionView),
> {
    match (phase, input) {
        (StartPhase::Starting, StartInputView::Ready) => Some(
            (StartPhase::Initializing, m, StartActionView::Initialize),
        ),
        (StartPhase::Initializing, StartInputView::Shutdown) => Some(
            (StartPhase::Stopping, m, StartActionView::Stop),
        ),
        (StartPhase::Initializing, StartInputView::Ready) => Some(
            (StartPhase::CheckingExit, m, StartActionView::TryExit),
        ),
        (StartPhase::Initializing, StartInputView::Failed(causes)) => if causes.contains(
            Cause::BrokenPipe,
        ) || causes.contains(Cause::RecoveryFailed) {
            Some((StartPhase::AwaitingExit, m, StartActionView::AwaitExit))
        } else {
            Some((StartPhase::Over, m, StartActionView::Fail))
        },
        (StartPhase::Stopping, StartInputView::Ready) => Some(
            (StartPhase::Over, m, StartActionView::Finish),
        ),
        (StartPhase::CheckingExit, StartInputView::ExitStatus(Some(status))) => Some(
            (StartPhase::Retrying, m, StartActionView::WaitAndRestart(status)),
        ),
        (StartPhase::CheckingExit, StartInputView::ExitStatus(None)) => Some(
            (StartPhase::Spawning, m, StartActionView::SpawnEvalSocket),
        ),
        (StartPhase::AwaitingExit, StartInputView::Shutdown) => Some(
            (StartPhase::Over, m, StartActionView::Finish),
        ),
        (StartPhase::AwaitingExit, StartInputView::Exited(status)) => Some(
            (StartPhase::Retrying, m, StartActionView::WaitAndRestart(status)),
        ),
        (StartPhase::AwaitingExit, StartInputView::ExitChannelClosed) => Some(
            (StartPhase::Spawning, m, StartActionView::SpawnEvalSocket),
        ),
        (StartPhase::Retrying, StartInputView::Restarted(used)) => Some(
            (
                StartPhase::Spawning,
                match used {
                    Some(event) => m.marked(event),
                    None => m,
                },
                StartActionView::SpawnEvalSocket,
            ),
        ),
        (StartPhase::Retrying, StartInputView::Shutdown) => Some(
            (StartPhase::Over, m, StartActionView::Finish),
        ),
        (StartPhase::Spawning, StartInputView::Ready) => Some(
            (StartPhase::Over, m, StartActionView::RunManager),
        ),
        (phase, StartInputView::Failed(_)) => if phase is Starting || phase is Stopping
            || phase is Retrying || phase is Spawning {
            Some((StartPhase::Over, m, StartActionView::Fail))
        } else {
            None
        },
        _ => None,
    }
}

/// The manager runs only once a session has started and was not seen to exit, or its exit cannot be
/// seen any more.
pub proof fn manager_runs_with_a_session(phase: StartPhase, m: ManagerView, input: StartInputView)
    requires
        start_next(phase, m, input) is Some,
    ensures
        (start_next(phase, m, input)->0).2 is RunManager ==> phase is Spawning && input is Ready,
        (start_next(phase, m, input)->0).0 is Spawning ==> {
            ||| phase is CheckingExit && input == StartInputView::ExitStatus(None)
            ||| phase is AwaitingExit && input is ExitChannelClosed
            ||| phase is Retrying && input is Restarted
        },
{
}

/// Takes what happened while the first session is started and says what is to be done next.
/// Nothing changes, and nothing is to be done, if the input does not answer what was last to be
/// done.
pub fn run_ghci(manager: &mut GhciManager, phase: &mut StartPhase, input: StartInput) -> (r: Option<StartAction>)
    ensures
        match r {
            Some(action) => start_next(*old(phase), old(manager)@, input@) == Some(
                (*final(phase), final(manager)@, action@),
            ),
            None => start_next(*old(phase), old(manager)@, input@) is None && *final(phase) == *old(
                phase,
            ) && final(manager)@ == old(manager)@,
        },
{
    match (*phase, input) {
        (StartPhase::Starting, StartInput::Ready) => {
            *phase = StartPhase::Initializing;
            Some(StartAction::Initialize)
        },
        (StartPhase::Initializing, StartInput::Shutdown) => {
            *phase = StartPhase::Stopping;
            Some(StartAction::Stop)
        },
        (StartPhase::Initializing, StartInput::Ready) => {
            *phase = StartPhase::CheckingExit;
            Some(StartAction::TryExit)
        },
        (StartPhase::Initializing, StartInput::Failed(report)) => {
            if is_broken_pipe(&report) || is_recovery_failure(&report) {
                *phase = StartPhase::AwaitingExit;
                Some(StartAction::AwaitExit)
            } else {
                *phase = StartPhase::Over;
                Some(StartAction::Fail)
            }
        },
        (StartPhase::Stopping, StartInput::Ready) => {
            *phase = StartPhase::Over;
            Some(StartAction::Finish)
        },
        (StartPhase::CheckingExit, StartInput::ExitStatus(Some(status))) => {
            *phase = StartPhase::Retrying;
            Some(StartAction::WaitAndRestart(status))
        },
        (StartPhase::CheckingExit, StartInput::ExitStatus(None)) => {
            *phase = StartPhase::Spawning;
            Some(StartAction::SpawnEvalSocket)
        },
        (StartPhase::AwaitingExit, StartInput::Shutdown) => {
            *phase = StartPhase::Over;
            Some(StartAction::Finish)
        },
        (StartPhase::AwaitingExit, StartInput::Exited(status)) => {
            *phase = StartPhase::Retrying;
            Some(StartAction::WaitAndRestart(status))
        },
        (StartPhase::AwaitingExit, StartInput::ExitChannelClosed) => {
            *phase = StartPhase::Spawning;
            Some(StartAction::SpawnEvalSocket)
        },
        (StartPhase::Retrying, StartInput::Restarted(used)) => {
            match used {
                Some(event) => {
                    manager.mark_applied(&event);
                },
                None => {},
            }
            *phase = StartPhase::Spawning;
            Some(StartAction::SpawnEvalSocket)
        },
        (StartPhase::Retrying, StartInput::Shutdown) => {
            *phase = StartPhase::Over;
            Some(StartAction::Finish)
        },
        (StartPhase::Spawning, StartInput::Ready) => {
            *phase = StartPhase::Over;
            Some(StartAction::RunManager)
        },
        (StartPhase::Starting, StartInput::Failed(_)) => {
            *phase = StartPhase::Over;
            Some(StartAction::Fail)
        },
        (StartPhase::Stopping, StartInput::Failed(_)) => {
            *phase = StartPhase::Over;
            Some(StartAction::Fail)
        },
        (StartPhase::Retrying, StartInput::Failed(_)) => {
            *phase = StartPhase::Over;
            Some(StartAction::Fail)
        },
        (StartPhase::Spawning, StartInput::Failed(_)) => {
            *phase = StartPhase::Over;
            Some(StartAction::Fail)
        },
        _ => None,
    }
}

/// A reload gives way exactly while it compiles, and its answer is awaited exactly while it is pending.
pub proof fn only_compilations_give_way(kind: GhciReloadKind)
    ensures
        gives_way(kind) == Some(true) <==> kind is Reload,
        gives_way(kind) is None <==> kind is Pending,
        gives_way(kind) == Some(false) <==> kind is Idle || kind is Restart,
{
}

/// A watcher event is handed on exactly if one of its changes, or the set of files, differs from what is applied, and
/// without the changes that do not. Otherwise the manager waits on.
pub proof fn changes_are_handed_on(m: ManagerView, event: ReloadView, e: FileEventView)
    requires
        sorted::<FileEvent>(event.events),
    ensures
        ({
            let step = wait_next(WaitPhase::Waiting, m, WaitInputView::Watcher(event));
            let stale = m.applied_files is Some && same_files(m.applied_files->0, event.haskell_files) && forall|
                c: FileEventView,
            | #[trigger]
                event.events.contains(c) ==> lookup(event.states, c.path_key()) == lookup(m.applied, c.path_key());
            &&& step is Some && (step->0).1 == m
            &&& (step->0).2 is Wait <==> stale
            &&& (step->0).2 is Wait ==> (step->0).0 is Waiting
            &&& !stale ==> (step->0).2 is Finish && (step->0).2->Finish_0 is Event && {
                let handed = (step->0).2->Finish_0->Event_0;
                &&& handed.events.contains(e) <==> event.events.contains(e) && lookup(event.states, e.path_key())
                    != lookup(m.applied, e.path_key())
                &&& handed.states == event.states
                &&& handed.haskell_files == event.haskell_files
                &&& handed.source_snapshot == event.source_snapshot
                &&& handed.startup_retry == event.startup_retry
            }
        }),
{
    applied_means_nothing_differs(event, m.applied, m.applied_files);
    only_applied_changes_are_dropped(event, m.applied, e);
}

/// An event that was dispatched to its end is not handed on when it comes again.
pub proof fn dispatched_events_do_not_come_again(h: HandlingView, m: ManagerView)
    requires
        h.phase is Running,
        h.event.captured(),
    ensures
        ({
            let after = (h.next(m, InputView::Dispatched)->0).0;
            let step = wait_next(WaitPhase::Waiting, after, WaitInputView::Watcher(h.event));
            step is Some && (step->0).2 is Wait
        }),
{
    completed_dispatch_is_recorded(h, m, Key { tag: 0, parts: seq![] });
}

/// While it waits, the manager stops at a shutdown or once no event will come any more, checks the memory when that
/// is due, and replaces a session that exits: as one that was killed because its prompt could not be trusted, or
/// with its status. After a replacement it waits again; a step that fails is returned as the error.
pub proof fn waiting_takes_its_course(
    m: ManagerView,
    status: i32,
    restarted: bool,
    used: Option<ReloadView>,
    causes: Seq<Cause>,
)
    ensures
        ({
            let stop = wait_next(WaitPhase::Waiting, m, WaitInputView::Shutdown)->0;
            let closed = wait_next(WaitPhase::Waiting, m, WaitInputView::WatcherClosed)->0;
            let stopped = wait_next(stop.0, m, WaitInputView::Ready)->0;
            let check = wait_next(WaitPhase::Waiting, m, WaitInputView::WatchdogTick)->0;
            let checked = wait_next(check.0, m, WaitInputView::Answer(restarted))->0;
            let ask = wait_next(WaitPhase::Waiting, m, WaitInputView::Exited(status))->0;
            let killed = wait_next(ask.0, m, WaitInputView::Answer(true))->0;
            let died = wait_next(ask.0, m, WaitInputView::Answer(false))->0;
            let replaced = wait_next(killed.0, m, WaitInputView::Ready)->0;
            let retried = wait_next(died.0, m, WaitInputView::Restarted(used))->0;
            let given_up = wait_next(died.0, m, WaitInputView::Shutdown)->0;
            &&& stop.2 is Stop && closed == stop
            &&& stopped.2 == WaitActionView::Finish(WaitResultView::Shutdown)
            &&& check.2 is RunMemoryWatchdog
            &&& restarted ==> checked.2 == WaitActionView::Finish(WaitResultView::Restarted)
            &&& !restarted ==> checked.2 is Wait && checked.0 is Waiting
            &&& ask.2 is AskRecovery
            &&& killed.2 is RestartAfterRecoveryKill
            &&& died.2 == WaitActionView::WaitAndRestart(status)
            &&& replaced.2 == WaitActionView::Finish(WaitResultView::Restarted)
            &&& retried.2 == WaitActionView::Finish(WaitResultView::Restarted)
            &&& given_up.2 == WaitActionView::Finish(WaitResultView::Shutdown)
            &&& stopped.1 == m && checked.1 == m && killed.1 == m && died.1 == m && replaced.1 == m
            &&& given_up.1 == m
            &&& used is None ==> retried.1 == m
            &&& used is Some ==> retried.1.applied == m.applied.union_prefer_right(used->0.states)
                && retried.1.applied_files == Some(used->0.haskell_files) && retried.1.interrupt_reloads
                == m.interrupt_reloads && retried.1.restart_on_exit == m.restart_on_exit
            &&& (wait_next(stop.0, m, WaitInputView::Failed(causes))->0).2 is Fail
            &&& (wait_next(check.0, m, WaitInputView::Failed(causes))->0).2 is Fail
            &&& (wait_next(ask.0, m, WaitInputView::Failed(causes))->0).2 is Fail
            &&& (wait_next(killed.0, m, WaitInputView::Failed(causes))->0).2 is Fail
            &&& (wait_next(died.0, m, WaitInputView::Failed(causes))->0).2 is Fail
        }),
{
}

/// The manager runs once the first session is initialized and has not exited, and the evaluation socket is there. A
/// session that exited is replaced first, with its status. A shutdown stops the session and ends the start.
pub proof fn start_takes_its_course(
    m: ManagerView,
    status: i32,
    used: Option<ReloadView>,
    causes: Seq<Cause>,
)
    ensures
        ({
            let init = start_next(StartPhase::Starting, m, StartInputView::Ready)->0;
            let look = start_next(init.0, m, StartInputView::Ready)->0;
            let alive = start_next(look.0, m, StartInputView::ExitStatus(None))->0;
            let run = start_next(alive.0, m, StartInputView::Ready)->0;
            let gone = start_next(look.0, m, StartInputView::ExitStatus(Some(status)))->0;
            let retried = start_next(gone.0, m, StartInputView::Restarted(used))->0;
            let run_then = start_next(retried.0, retried.1, StartInputView::Ready)->0;
            let stop = start_next(init.0, m, StartInputView::Shutdown)->0;
            let stopped = start_next(stop.0, m, StartInputView::Ready)->0;
            let given_up = start_next(gone.0, m, StartInputView::Shutdown)->0;
            &&& init.2 is Initialize && init.1 == m
            &&& look.2 is TryExit && look.1 == m
            &&& alive.2 is SpawnEvalSocket && alive.1 == m
            &&& run.2 is RunManager && run.1 == m
            &&& gone.2 == StartActionView::WaitAndRestart(status) && gone.1 == m
            &&& retried.2 is SpawnEvalSocket
            &&& run_then.2 is RunManager && run_then.1 == retried.1
            &&& used is None ==> retried.1 == m
            &&& used is Some ==> retried.1.applied == m.applied.union_prefer_right(used->0.states)
                && retried.1.applied_files == Some(used->0.haskell_files) && retried.1.interrupt_reloads
                == m.interrupt_reloads && retried.1.restart_on_exit == m.restart_on_exit
            &&& stop.2 is Stop && stop.1 == m
            &&& stopped.2 is Finish && stopped.1 == m
            &&& given_up.2 is Finish && given_up.1 == m
            &&& (start_next(StartPhase::Starting, m, StartInputView::Failed(causes))->0).2 is Fail
            &&& (start_next(stop.0, m, StartInputView::Failed(causes))->0).2 is Fail
            &&& (start_next(gone.0, m, StartInputView::Failed(causes))->0).2 is Fail
            &&& (start_next(alive.0, m, StartInputView::Failed(causes))->0).2 is Fail
        }),
{
}

/// A first session that cannot be initialized because its pipe broke or its prompt could not be trusted is waited
/// for, and replaced once it exits; any other failure ends the start.
pub proof fn failed_initialization_waits_for_the_exit(m: ManagerView, status: i32, causes: Seq<Cause>)
    ensures
        ({
            let failed = start_next(StartPhase::Initializing, m, StartInputView::Failed(causes));
            let expected = causes.contains(Cause::BrokenPipe) || causes.contains(Cause::RecoveryFailed);
            &&& failed is Some && (failed->0).1 == m
            &&& (failed->0).2 is AwaitExit <==> expected
            &&& (failed->0).2 is Fail <==> !expected
            &&& expected ==> {
                let exited = start_next((failed->0).0, m, StartInputView::Exited(status));
                let closed = start_next((failed->0).0, m, StartInputView::ExitChannelClosed);
                let stopped = start_next((failed->0).0, m, StartInputView::Shutdown);
                &&& exited is Some && (exited->0).2 == StartActionView::WaitAndRestart(status)
                &&& closed is Some && (closed->0).2 is SpawnEvalSocket
                &&& stopped is Some && (stopped->0).2 is Finish
            }
        }),
{
}

/// While it waits, the manager waits for the end of what it does, and is done exactly when it returns.
pub proof fn waiting_ends_when_it_returns(phase: WaitPhase, m: ManagerView, input: WaitInputView)
    requires
        wait_next(phase, m, input) is Some,
    ensures
        (wait_next(phase, m, input)->0).0 is Over <==> (wait_next(phase, m, input)->0).2 is Finish || (wait_next(phase, m, input)->0).2 is Fail,
        (wait_next(phase, m, input)->0).0 is Waiting <==> (wait_next(phase, m, input)->0).2 is Wait,
        (wait_next(phase, m, input)->0).0 is Stopping <==> (wait_next(phase, m, input)->0).2 is Stop,
        (wait_next(phase, m, input)->0).0 is Checking <==> (wait_next(phase, m, input)->0).2 is RunMemoryWatchdog,
        (wait_next(phase, m, input)->0).0 is Asking <==> (wait_next(phase, m, input)->0).2 is AskRecovery,
        (wait_next(phase, m, input)->0).0 is Replacing <==> (wait_next(phase, m, input)->0).2 is RestartAfterRecoveryKill,
        (wait_next(phase, m, input)->0).0 is Retrying <==> (wait_next(phase, m, input)->0).2 is WaitAndRestart,
{
}

/// The start waits for the end of what it does, and is done exactly when the manager runs or the result is returned.
pub proof fn start_ends_when_it_returns(phase: StartPhase, m: ManagerView, input: StartInputView)
    requires
        start_next(phase, m, input) is Some,
    ensures
        (start_next(phase, m, input)->0).0 is Over <==> (start_next(phase, m, input)->0).2 is RunManager || (start_next(phase, m, input)->0).2 is Finish || (start_next(phase, m, input)->0).2 is Fail,
        (start_next(phase, m, input)->0).0 is Initializing <==> (start_next(phase, m, input)->0).2 is Initialize,
        (start_next(phase, m, input)->0).0 is Stopping <==> (start_next(phase, m, input)->0).2 is Stop,
        (start_next(phase, m, input)->0).0 is CheckingExit <==> (start_next(phase, m, input)->0).2 is TryExit,
        (start_next(phase, m, input)->0).0 is AwaitingExit <==> (start_next(phase, m, input)->0).2 is AwaitExit,
        (start_next(phase, m, input)->0).0 is Retrying <==> (start_next(phase, m, input)->0).2 is WaitAndRestart,
        (start_next(phase, m, input)->0).0 is Spawning <==> (start_next(phase, m, input)->0).2 is SpawnEvalSocket,
{
}

} // verus!
