//! Handling one watcher event: from the hooks before the reload until the event is applied, merged
//! with newer ones for another attempt, or overtaken by a shutdown.
//!
//! [`GhciManager::handle_event`] takes what happened and says what is to be done next. The caller
//! does that and comes back with what happened then.

use crate::ghci::manager::{
    files_view, lookup, marked_event_is_discarded, merging_is_associative, newest_event_stays, same_files, ReloadView,
    WatcherEvent,
};
use crate::ghci::report::{is_broken_pipe, is_recovery_failure, Cause, Report};
use crate::event_filter::{FileEvent, FileEventView, FileState};
use crate::path::FilePath;
use crate::sorted::{lemma_filter, sorted, Key, SortedMap, SortedSet};
use vstd::prelude::*;

verus! {

/// The result of handling an event.
#[derive(Debug)]
pub enum HandleResult {
    /// The event was dispatched, or the session died on it and was replaced.
    Done,
    /// The event is to be handled again, with the changes that came since.
    Interrupted(WatcherEvent),
    /// A shutdown was requested.
    Shutdown,
}

/// What is to be done next.
#[derive(Debug)]
pub enum HandleAction {
    /// Queue behind any active evaluation and keep later ones out until the event is handled.
    BeginOperation,
    /// Run the shell hooks before a reload.
    RunShellHooks,
    /// Start to dispatch the event, then wait.
    Dispatch(WatcherEvent),
    /// Wait for the first of: a shutdown, the exit of the process, a tick of the memory watchdog,
    /// watcher events, the end of the dispatch. Of those that are ready the first counts.
    Wait,
    /// Abort the dispatch, which frees the session, and stop the session.
    AbortAndStop,
    /// Wait for the end of the dispatch or a shutdown. The dispatch still drains the closed pipes.
    AwaitDispatch,
    /// Ask the session whether it was killed because its prompt could not be trusted.
    AskRecovery,
    /// Wait until the dispatch tells whether it can be interrupted.
    AwaitReloadKind,
    /// Abort the dispatch and interrupt the session.
    AbortAndInterrupt,
    /// Run the hooks after the interrupted reload; the flag tells whether the prompt is usable.
    FinishInterruptedReload(bool),
    /// Wait for the exit of the process that was killed.
    ConsumeExit,
    /// Wait for the exit of the process or a shutdown.
    AwaitExit,
    /// Replace the killed session at once, with these Haskell files.
    RestartAfterRecoveryKill(SortedSet<FilePath>),
    /// Replace the session that exited with this status while it was dispatching this event.
    WaitAndRestart(i32, WatcherEvent),
    /// Check the memory of the session; the operation permit is held already.
    RunMemoryWatchdog,
    /// Take all watcher events that are there already.
    DrainWatcher,
    /// Abort the dispatch if it still runs, and return this result.
    Finish(HandleResult),
    /// Return the error that was just reported.
    Fail,
}

/// What happened.
#[derive(Debug)]
pub enum HandleInput {
    /// What was to be done is done.
    Ready,
    /// What was to be done failed.
    Failed(Report),
    /// A shutdown was requested.
    Shutdown,
    /// The process exited with this status.
    Exited(i32),
    /// No exit will be reported any more.
    ExitChannelClosed,
    /// A check of the memory is due.
    WatchdogTick,
    /// A watcher event came, and after it those that were there already.
    Watcher(WatcherEvent, Vec<WatcherEvent>),
    /// The dispatch succeeded.
    Dispatched,
    /// The dispatch failed.
    DispatchFailed(Report),
    /// The answer to what was asked.
    Answer(bool),
    /// The session was replaced, using this event if any.
    Restarted(Option<WatcherEvent>),
    /// The watcher events that were there already.
    Drained(Vec<WatcherEvent>),
}

/// What the handling waits for.
#[derive(Debug)]
enum Phase {
    Queued,
    Hooks,
    Running,
    Stopping,
    Draining(i32),
    AskingAfterExit(i32),
    Deciding(WatcherEvent),
    Interrupting,
    FinishingInterrupt(bool),
    ConsumingKill,
    AskingAfterFailure,
    AwaitingExit,
    Replacing,
    Retrying,
    Watchdog,
    Collecting,
    Over,
}

/// An event that is being handled.
#[derive(Debug)]
pub struct Handling {
    event: WatcherEvent,
    may_interrupt: bool,
    pending: Option<WatcherEvent>,
    watchdog_due: bool,
    recovery_kill: bool,
    phase: Phase,
}

/// The model of what the handling waits for.
pub enum PhaseView {
    Queued,
    Hooks,
    Running,
    Stopping,
    Draining(i32),
    AskingAfterExit(i32),
    Deciding(ReloadView),
    Interrupting,
    FinishingInterrupt(bool),
    ConsumingKill,
    AskingAfterFailure,
    AwaitingExit,
    Replacing,
    Retrying,
    Watchdog,
    Collecting,
    Over,
}

/// The model of a [`Handling`].
pub struct HandlingView {
    /// The event.
    pub event: ReloadView,
    /// Whether the dispatch may still be asked if it can be interrupted.
    pub may_interrupt: bool,
    /// The events that came while the dispatch was running.
    pub pending: Option<ReloadView>,
    /// Whether a check of the memory is due.
    pub watchdog_due: bool,
    /// Whether the session was killed because its prompt could not be trusted.
    pub recovery_kill: bool,
    /// What the handling waits for.
    pub phase: PhaseView,
}

/// The model of a [`HandleResult`].
pub enum ResultView {
    Done,
    Interrupted(ReloadView),
    Shutdown,
}

/// The model of a [`HandleAction`].
pub enum ActionView {
    BeginOperation,
    RunShellHooks,
    Dispatch(ReloadView),
    Wait,
    AbortAndStop,
    AwaitDispatch,
    AskRecovery,
    AwaitReloadKind,
    AbortAndInterrupt,
    FinishInterruptedReload(bool),
    ConsumeExit,
    AwaitExit,
    RestartAfterRecoveryKill(Seq<Seq<char>>),
    WaitAndRestart(i32, ReloadView),
    RunMemoryWatchdog,
    DrainWatcher,
    Finish(ResultView),
    Fail,
}

/// The model of a [`HandleInput`].
pub enum InputView {
    Ready,
    Failed(Seq<Cause>),
    Shutdown,
    Exited(i32),
    ExitChannelClosed,
    WatchdogTick,
    Watcher(ReloadView, Seq<ReloadView>),
    Dispatched,
    DispatchFailed(Seq<Cause>),
    Answer(bool),
    Restarted(Option<ReloadView>),
    Drained(Seq<ReloadView>),
}

/// The views of a sequence of events.
pub open spec fn event_views(events: Seq<WatcherEvent>) -> Seq<ReloadView> {
    Seq::new(events.len(), |i: int| events[i]@)
}

/// The view of an event that may be missing.
pub open spec fn optional(event: Option<WatcherEvent>) -> Option<ReloadView> {
    match event {
        Some(event) => Some(event@),
        None => None,
    }
}

impl View for HandleResult {
    type V = ResultView;

    open spec fn view(&self) -> ResultView {
        match self {
            HandleResult::Done => ResultView::Done,
            HandleResult::Interrupted(event) => ResultView::Interrupted(event@),
            HandleResult::Shutdown => ResultView::Shutdown,
        }
    }
}

impl View for HandleAction {
    type V = ActionView;

    open spec fn view(&self) -> ActionView {
        match self {
            HandleAction::BeginOperation => ActionView::BeginOperation,
            HandleAction::RunShellHooks => ActionView::RunShellHooks,
            HandleAction::Dispatch(event) => ActionView::Dispatch(event@),
            HandleAction::Wait => ActionView::Wait,
            HandleAction::AbortAndStop => ActionView::AbortAndStop,
            HandleAction::AwaitDispatch => ActionView::AwaitDispatch,
            HandleAction::AskRecovery => ActionView::AskRecovery,
            HandleAction::AwaitReloadKind => ActionView::AwaitReloadKind,
            HandleAction::AbortAndInterrupt => ActionView::AbortAndInterrupt,
            HandleAction::FinishInterruptedReload(usable) => ActionView::FinishInterruptedReload(*usable),
            HandleAction::ConsumeExit => ActionView::ConsumeExit,
            HandleAction::AwaitExit => ActionView::AwaitExit,
            HandleAction::RestartAfterRecoveryKill(files) => ActionView::RestartAfterRecoveryKill(files@),
            HandleAction::WaitAndRestart(status, event) => ActionView::WaitAndRestart(*status, event@),
            HandleAction::RunMemoryWatchdog => ActionView::RunMemoryWatchdog,
            HandleAction::DrainWatcher => ActionView::DrainWatcher,
            HandleAction::Finish(result) => ActionView::Finish(result@),
            HandleAction::Fail => ActionView::Fail,
        }
    }
}

impl View for HandleInput {
    type V = InputView;

    open spec fn view(&self) -> InputView {
        match self {
            HandleInput::Ready => InputView::Ready,
            HandleInput::Failed(report) => InputView::Failed(report@),
            HandleInput::Shutdown => InputView::Shutdown,
            HandleInput::Exited(status) => InputView::Exited(*status),
            HandleInput::ExitChannelClosed => InputView::ExitChannelClosed,
            HandleInput::WatchdogTick => InputView::WatchdogTick,
            HandleInput::Watcher(event, rest) => InputView::Watcher(event@, event_views(rest@)),
            HandleInput::Dispatched => InputView::Dispatched,
            HandleInput::DispatchFailed(report) => InputView::DispatchFailed(report@),
            HandleInput::Answer(answer) => InputView::Answer(*answer),
            HandleInput::Restarted(event) => InputView::Restarted(optional(*event)),
            HandleInput::Drained(events) => InputView::Drained(event_views(events@)),
        }
    }
}

impl View for Phase {
    type V = PhaseView;

    closed spec fn view(&self) -> PhaseView {
        match self {
            Phase::Queued => PhaseView::Queued,
            Phase::Hooks => PhaseView::Hooks,
            Phase::Running => PhaseView::Running,
            Phase::Stopping => PhaseView::Stopping,
            Phase::Draining(status) => PhaseView::Draining(*status),
            Phase::AskingAfterExit(status) => PhaseView::AskingAfterExit(*status),
            Phase::Deciding(event) => PhaseView::Deciding(event@),
            Phase::Interrupting => PhaseView::Interrupting,
            Phase::FinishingInterrupt(usable) => PhaseView::FinishingInterrupt(*usable),
            Phase::ConsumingKill => PhaseView::ConsumingKill,
            Phase::AskingAfterFailure => PhaseView::AskingAfterFailure,
            Phase::AwaitingExit => PhaseView::AwaitingExit,
            Phase::Replacing => PhaseView::Replacing,
            Phase::Retrying => PhaseView::Retrying,
            Phase::Watchdog => PhaseView::Watchdog,
            Phase::Collecting => PhaseView::Collecting,
            Phase::Over => PhaseView::Over,
        }
    }
}

impl View for Handling {
    type V = HandlingView;

    closed spec fn view(&self) -> HandlingView {
        HandlingView {
            event: self.event@,
            may_interrupt: self.may_interrupt,
            pending: optional(self.pending),
            watchdog_due: self.watchdog_due,
            recovery_kill: self.recovery_kill,
            phase: self.phase@,
        }
    }
}

/// What the manager remembers of the events that it dispatched, and its options.
pub struct ManagerView {
    /// The states of the dispatched changes.
    pub applied: Map<Key, FileState>,
    /// The Haskell files of the last completed dispatch.
    pub applied_files: Option<Seq<Seq<char>>>,
    /// Whether a reload gives way to a newer change.
    pub interrupt_reloads: bool,
    /// Whether a session that exits is replaced over and over.
    pub restart_on_exit: bool,
}

/// The manager of a session.
#[derive(Debug)]
pub struct GhciManager {
    applied_states: SortedMap<FilePath, FileState>,
    applied_haskell_files: Option<SortedSet<FilePath>>,
    interrupt_reloads: bool,
    restart_on_exit: bool,
}

impl View for GhciManager {
    type V = ManagerView;

    closed spec fn view(&self) -> ManagerView {
        ManagerView {
            applied: self.applied_states@,
            applied_files: files_view(self.applied_haskell_files),
            interrupt_reloads: self.interrupt_reloads,
            restart_on_exit: self.restart_on_exit,
        }
    }
}

impl ManagerView {
    /// The manager once this event is recorded as dispatched.
    pub open spec fn marked(self, event: ReloadView) -> ManagerView {
        ManagerView {
            applied: self.applied.union_prefer_right(event.states),
            applied_files: Some(event.haskell_files),
            ..self
        }
    }
}

/// `event` with the later events merged into it, in order.
pub open spec fn merged_all(event: ReloadView, later: Seq<ReloadView>) -> ReloadView
    decreases later.len(),
{
    if later.len() == 0 {
        event
    } else {
        merged_all(event, later.drop_last()).merged(later.last())
    }
}

/// The pending events with a newer one added.
pub open spec fn accumulated(pending: Option<ReloadView>, newer: ReloadView) -> Option<ReloadView> {
    match pending {
        Some(pending) => Some(pending.merged(newer)),
        None => Some(newer),
    }
}

/// The event whose dispatch ended in a recovery kill, with what is pending added to it.
pub open spec fn preserved(event: ReloadView, pending: Option<ReloadView>) -> Option<ReloadView> {
    match pending {
        Some(newer) => Some(event.merged(newer)),
        None => Some(event),
    }
}

impl HandlingView {
    pub open spec fn at(self, phase: PhaseView) -> HandlingView {
        HandlingView { phase, ..self }
    }

    /// This handling once a recovery kill is known of.
    pub open spec fn after_recovery_kill(self) -> HandlingView {
        HandlingView { recovery_kill: true, pending: preserved(self.event, self.pending), ..self }
    }

    /// The end of the handling.
    pub open spec fn over(self, result: ResultView) -> (HandlingView, ActionView) {
        (self.at(PhaseView::Over), ActionView::Finish(result))
    }

    /// The end of the handling with an error.
    pub open spec fn failed(self) -> (HandlingView, ActionView) {
        (self.at(PhaseView::Over), ActionView::Fail)
    }

    /// What is done once the process exited and the dispatch is over.
    pub open spec fn after_exit(self, status: i32) -> (HandlingView, ActionView) {
        if self.recovery_kill {
            (
                HandlingView { pending: None, ..self.at(PhaseView::Replacing) },
                ActionView::RestartAfterRecoveryKill(self.pending->0.haskell_files),
            )
        } else {
            (self.at(PhaseView::Retrying), ActionView::WaitAndRestart(status, self.event))
        }
    }

    /// What is done with the events that came meanwhile.
    pub open spec fn collect(self) -> (HandlingView, ActionView) {
        if self.pending is Some {
            (self.at(PhaseView::Collecting), ActionView::DrainWatcher)
        } else {
            self.over(ResultView::Done)
        }
    }

    /// What happens next, while the dispatch is running.
    pub open spec fn running(self, m: ManagerView, input: InputView) -> Option<
        (ManagerView, HandlingView, ActionView),
    > {
        match input {
            InputView::Shutdown => Some(
                (m, self.at(PhaseView::Stopping), ActionView::AbortAndStop),
            ),
            InputView::Exited(status) => Some(
                (m, self.at(PhaseView::Draining(status)), ActionView::AwaitDispatch),
            ),
            InputView::WatchdogTick => Some(
                (m, HandlingView { watchdog_due: true, ..self }, ActionView::Wait),
            ),
            InputView::Watcher(event, rest) => {
                let newer = merged_all(event, rest);
                if m.interrupt_reloads && self.may_interrupt {
                    Some(
                        (
                            m,
                            HandlingView {
                                may_interrupt: false,
                                ..self.at(PhaseView::Deciding(newer))
                            },
                            ActionView::AwaitReloadKind,
                        ),
                    )
                } else {
                    Some(
                        (
                            m,
                            HandlingView { pending: accumulated(self.pending, newer), ..self },
                            ActionView::Wait,
                        ),
                    )
                }
            },
            InputView::Dispatched => {
                let m = m.marked(self.event);
                if self.watchdog_due {
                    Some((m, self.at(PhaseView::Watchdog), ActionView::RunMemoryWatchdog))
                } else {
                    Some((m, self.collect().0, self.collect().1))
                }
            },
            InputView::DispatchFailed(causes) => if causes.contains(Cause::RecoveryFailed) {
                Some(
                    (
                        m,
                        self.after_recovery_kill().at(PhaseView::AwaitingExit),
                        ActionView::AwaitExit,
                    ),
                )
            } else if causes.contains(Cause::BrokenPipe) {
                Some((m, self.at(PhaseView::AskingAfterFailure), ActionView::AskRecovery))
            } else {
                Some((m, self.failed().0, self.failed().1))
            },
            _ => None,
        }
    }

    /// What happens next. Nothing, if the input does not answer what the handling waits for.
    pub open spec fn next(self, m: ManagerView, input: InputView) -> Option<
        (ManagerView, HandlingView, ActionView),
    > {
        match (self.phase, input) {
            (PhaseView::Queued, InputView::Ready) => Some(
                (m, self.at(PhaseView::Hooks), ActionView::RunShellHooks),
            ),
            (PhaseView::Hooks, InputView::Ready) => Some(
                (m, self.at(PhaseView::Running), ActionView::Dispatch(self.event)),
            ),
            (PhaseView::Hooks, InputView::Failed(_)) => Some((m, self.failed().0, self.failed().1)),
            (PhaseView::Running, _) => self.running(m, input),
            (PhaseView::Stopping, InputView::Ready) => {
                let end = self.over(ResultView::Shutdown);
                Some((m, end.0, end.1))
            },
            (PhaseView::Stopping, InputView::Failed(_)) => Some((m, self.failed().0, self.failed().1)),
            (PhaseView::Draining(_), InputView::Shutdown) => {
                let end = self.over(ResultView::Shutdown);
                Some((m, end.0, end.1))
            },
            (PhaseView::Draining(status), InputView::Dispatched) => Some(
                (m, self.at(PhaseView::AskingAfterExit(status)), ActionView::AskRecovery),
            ),
            (PhaseView::Draining(status), InputView::DispatchFailed(causes)) => if causes.contains(
                Cause::RecoveryFailed,
            ) {
                Some(
                    (
                        m,
                        self.after_recovery_kill().at(PhaseView::AskingAfterExit(status)),
                        ActionView::AskRecovery,
                    ),
                )
            } else if causes.contains(Cause::BrokenPipe) {
                Some((m, self.at(PhaseView::AskingAfterExit(status)), ActionView::AskRecovery))
            } else {
                Some((m, self.failed().0, self.failed().1))
            },
            (PhaseView::AskingAfterExit(status), InputView::Answer(killed)) => {
                let h = if killed {
                    self.after_recovery_kill()
                } else {
                    self
                };
                Some((m, h.after_exit(status).0, h.after_exit(status).1))
            },
            (PhaseView::Deciding(newer), InputView::Answer(interrupt)) => if interrupt {
                let merged = match self.pending {
                    Some(pending) => self.event.merged(pending).merged(newer),
                    None => self.event.merged(newer),
                };
                Some(
                    (
                        m,
                        HandlingView {
                            event: merged,
                            pending: None,
                            ..self.at(PhaseView::Interrupting)
                        },
                        ActionView::AbortAndInterrupt,
                    ),
                )
            } else {
                Some(
                    (
                        m,
                        HandlingView {
                            pending: accumulated(self.pending, newer),
                            ..self.at(PhaseView::Running)
                        },
                        ActionView::Wait,
                    ),
                )
            },
            (PhaseView::Interrupting, InputView::Ready) => Some(
                (
                    m,
                    self.at(PhaseView::FinishingInterrupt(true)),
                    ActionView::FinishInterruptedReload(true),
                ),
            ),
            (PhaseView::Interrupting, InputView::Failed(_)) => Some(
                (
                    m,
                    self.at(PhaseView::FinishingInterrupt(false)),
                    ActionView::FinishInterruptedReload(false),
                ),
            ),
            (PhaseView::FinishingInterrupt(true), InputView::Ready) => {
                let end = self.over(ResultView::Interrupted(self.event));
                Some((m, end.0, end.1))
            },
            (PhaseView::FinishingInterrupt(false), InputView::Ready) => Some(
                (
                    m,
                    HandlingView {
                        pending: Some(self.event),
                        recovery_kill: true,
                        ..self.at(PhaseView::ConsumingKill)
                    },
                    ActionView::ConsumeExit,
                ),
            ),
            (PhaseView::FinishingInterrupt(_), InputView::Failed(_)) => Some(
                (m, self.failed().0, self.failed().1),
            ),
            (PhaseView::ConsumingKill, InputView::Exited(status)) => Some(
                (m, self.after_exit(status).0, self.after_exit(status).1),
            ),
            (PhaseView::ConsumingKill, InputView::ExitChannelClosed) => Some(
                (m, self.failed().0, self.failed().1),
            ),
            (PhaseView::AskingAfterFailure, InputView::Answer(killed)) => {
                let h = if killed {
                    self.after_recovery_kill()
                } else {
                    self
                };
                Some((m, h.at(PhaseView::AwaitingExit), ActionView::AwaitExit))
            },
            (PhaseView::AwaitingExit, InputView::Exited(status)) => Some(
                (m, self.after_exit(status).0, self.after_exit(status).1),
            ),
            (PhaseView::AwaitingExit, InputView::Shutdown) => {
                let end = self.over(ResultView::Shutdown);
                Some((m, end.0, end.1))
            },
            (PhaseView::AwaitingExit, InputView::ExitChannelClosed) => {
                let end = self.over(ResultView::Shutdown);
                Some((m, end.0, end.1))
            },
            (PhaseView::Replacing, InputView::Ready) => Some(
                (m, self.collect().0, self.collect().1),
            ),
            (PhaseView::Replacing, InputView::Failed(_)) => Some((m, self.failed().0, self.failed().1)),
            (PhaseView::Retrying, InputView::Restarted(used)) => {
                let m = match used {
                    Some(event) => m.marked(event),
                    None => m,
                };
                Some((m, self.collect().0, self.collect().1))
            },
            (PhaseView::Retrying, InputView::Shutdown) => {
                let end = self.over(ResultView::Shutdown);
                Some((m, end.0, end.1))
            },
            (PhaseView::Retrying, InputView::Failed(_)) => Some((m, self.failed().0, self.failed().1)),
            (PhaseView::Watchdog, InputView::Ready) => Some((m, self.collect().0, self.collect().1)),
            (PhaseView::Watchdog, InputView::Failed(_)) => Some((m, self.failed().0, self.failed().1)),
            (PhaseView::Collecting, InputView::Drained(later)) => {
                let newest = merged_all(self.pending->0, later);
                let end = if newest.is_applied(m.applied, m.applied_files) {
                    self.over(ResultView::Done)
                } else {
                    self.over(ResultView::Interrupted(newest.pruned(m.applied)))
                };
                Some((m, HandlingView { pending: None, ..end.0 }, end.1))
            },
            _ => None,
        }
    }

    /// What always holds of a handling: a recovery kill is known of only until the session is
    /// replaced, and the event that it cut short is kept until then.
    pub open spec fn inv(self) -> bool {
        &&& self.recovery_kill ==> self.phase is AskingAfterExit || self.phase is AwaitingExit
            || self.phase is ConsumingKill || self.phase is Replacing || self.phase is Over
        &&& self.recovery_kill && !(self.phase is Replacing) && !(self.phase is Over)
            ==> self.pending is Some
        &&& self.phase is Collecting ==> self.pending is Some
        &&& self.phase is ConsumingKill ==> self.recovery_kill
        &&& self.phase is Replacing ==> self.pending is None
    }
}

/// The handling of an event at its beginning.
pub open spec fn begun(event: ReloadView) -> HandlingView {
    HandlingView {
        event,
        may_interrupt: true,
        pending: None,
        watchdog_due: false,
        recovery_kill: false,
        phase: PhaseView::Queued,
    }
}

/// Whatever happens, the invariant of a handling is kept.
pub proof fn invariant_is_kept(h: HandlingView, m: ManagerView, input: InputView)
    requires
        h.inv(),
    ensures
        h.next(m, input) is Some ==> (h.next(m, input)->0).1.inv(),
{
}

/// Merges the later events into `event`, in order.
pub fn drain_pending(event: &mut WatcherEvent, later: &Vec<WatcherEvent>)
    ensures
        final(event)@ == merged_all(old(event)@, event_views(later@)),
{
    let ghost first = event@;
    let ghost all = event_views(later@);
    let mut i: usize = 0;
    proof {
        assert(all.take(0).len() == 0);
    }
    while i < later.len()
        invariant
            i <= later@.len(),
            all == event_views(later@),
            event@ == merged_all(first, all.take(i as int)),
        decreases later@.len() - i,
    {
        event.merge(later[i].duplicate());
        proof {
            assert(all.take(i + 1).drop_last() =~= all.take(i as int));
        }
        i = i + 1;
    }
    proof {
        assert(all.take(all.len() as int) =~= all);
    }
}

/// Keeps the event whose dispatch ended in a recovery kill, with what is pending added to it.
pub fn preserve_recovery_event(event: &WatcherEvent, pending: &mut Option<WatcherEvent>)
    ensures
        optional(*final(pending)) == preserved(event@, optional(*old(pending))),
{
    let mut recovery_event = event.duplicate();
    match pending.take() {
        Some(newer) => {
            recovery_event.merge(newer);
        },
        None => {},
    }
    *pending = Some(recovery_event);
}

impl Handling {
    /// Starts to handle an event.
    pub fn new(event: WatcherEvent) -> (r: (Handling, HandleAction))
        ensures
            r.0@.inv(),
            r.0@ == begun(event@),
            r.1@ == ActionView::BeginOperation,
    {
        (
            Handling {
                event,
                may_interrupt: true,
                pending: None,
                watchdog_due: false,
                recovery_kill: false,
                phase: Phase::Queued,
            },
            HandleAction::BeginOperation,
        )
    }

    fn recovery_killed(&mut self)
        ensures
            final(self)@ == old(self)@.after_recovery_kill(),
    {
        preserve_recovery_event(&self.event, &mut self.pending);
        self.recovery_kill = true;
    }

    fn accumulate(&mut self, newer: WatcherEvent)
        ensures
            final(self)@ == (HandlingView {
                pending: accumulated(old(self)@.pending, newer@),
                ..old(self)@
            }),
    {
        match self.pending.take() {
            Some(mut pending) => {
                pending.merge(newer);
                self.pending = Some(pending);
            },
            None => {
                self.pending = Some(newer);
            },
        }
    }

    fn exited(&mut self, status: i32) -> (r: HandleAction)
        requires
            old(self)@.recovery_kill ==> old(self)@.pending is Some,
        ensures
            (final(self)@, r@) == old(self)@.after_exit(status),
    {
        if self.recovery_kill {
            self.phase = Phase::Replacing;
            match self.pending.take() {
                Some(pending) => HandleAction::RestartAfterRecoveryKill(pending.haskell_files()),
                None => HandleAction::Fail,
            }
        } else {
            self.phase = Phase::Retrying;
            HandleAction::WaitAndRestart(status, self.event.duplicate())
        }
    }

    fn collected(&mut self) -> (r: HandleAction)
        ensures
            (final(self)@, r@) == old(self)@.collect(),
    {
        match self.pending {
            Some(_) => {
                self.phase = Phase::Collecting;
                HandleAction::DrainWatcher
            },
            None => {
                self.phase = Phase::Over;
                HandleAction::Finish(HandleResult::Done)
            },
        }
    }

    fn finish(&mut self, result: HandleResult) -> (r: HandleAction)
        ensures
            (final(self)@, r@) == old(self)@.over(result@),
    {
        self.phase = Phase::Over;
        HandleAction::Finish(result)
    }

    fn fail(&mut self) -> (r: HandleAction)
        ensures
            (final(self)@, r@) == old(self)@.failed(),
    {
        self.phase = Phase::Over;
        HandleAction::Fail
    }
}

impl GhciManager {
    /// A manager that has dispatched nothing yet.
    pub fn new(interrupt_reloads: bool, restart_on_exit: bool) -> (r: Self)
        ensures
            r@ == (ManagerView {
                applied: Map::empty(),
                applied_files: None,
                interrupt_reloads,
                restart_on_exit,
            }),
    {
        GhciManager {
            applied_states: SortedMap::new(),
            applied_haskell_files: None,
            interrupt_reloads,
            restart_on_exit,
        }
    }

    /// Records an event as dispatched.
    pub fn mark_applied(&mut self, event: &WatcherEvent)
        ensures
            final(self)@ == old(self)@.marked(event@),
    {
        event.mark_applied(&mut self.applied_states, &mut self.applied_haskell_files);
    }

    /// Drops what is dispatched already from `event`, and tells whether that was all of it.
    pub fn discard_applied(&self, event: &mut WatcherEvent) -> (r: bool)
        ensures
            final(event)@ == old(event)@.pruned(self@.applied),
            r == old(event)@.is_applied(self@.applied, self@.applied_files),
    {
        event.discard_applied(&self.applied_states, &self.applied_haskell_files)
    }

    fn handle_running(&mut self, handling: &mut Handling, input: HandleInput) -> (r: Option<HandleAction>)
        requires
            old(handling)@.inv(),
            old(handling)@.phase is Running,
        ensures
            match r {
                Some(action) => old(handling)@.running(old(self)@, input@) == Some(
                    (final(self)@, final(handling)@, action@),
                ),
                None => old(handling)@.running(old(self)@, input@) is None && final(handling)@ == old(
                    handling,
                )@ && final(self)@ == old(self)@,
            },
    {
        match input {
            HandleInput::Shutdown => {
                handling.phase = Phase::Stopping;
                Some(HandleAction::AbortAndStop)
            },
            HandleInput::Exited(status) => {
                handling.phase = Phase::Draining(status);
                Some(HandleAction::AwaitDispatch)
            },
            HandleInput::WatchdogTick => {
                handling.watchdog_due = true;
                Some(HandleAction::Wait)
            },
            HandleInput::Watcher(event, rest) => {
                let mut newer = event;
                drain_pending(&mut newer, &rest);
                if self.interrupt_reloads && handling.may_interrupt {
                    handling.may_interrupt = false;
                    handling.phase = Phase::Deciding(newer);
                    Some(HandleAction::AwaitReloadKind)
                } else {
                    handling.accumulate(newer);
                    Some(HandleAction::Wait)
                }
            },
            HandleInput::Dispatched => {
                self.mark_applied(&handling.event);
                if handling.watchdog_due {
                    handling.phase = Phase::Watchdog;
                    Some(HandleAction::RunMemoryWatchdog)
                } else {
                    Some(handling.collected())
                }
            },
            HandleInput::DispatchFailed(report) => {
                if is_recovery_failure(&report) {
                    handling.recovery_killed();
                    handling.phase = Phase::AwaitingExit;
                    Some(HandleAction::AwaitExit)
                } else if is_broken_pipe(&report) {
                    handling.phase = Phase::AskingAfterFailure;
                    Some(HandleAction::AskRecovery)
                } else {
                    Some(handling.fail())
                }
            },
            _ => None,
        }
    }

    /// Takes what happened while an event is handled and says what is to be done next. Nothing
    /// changes, and nothing is to be done, if the input does not answer what was last to be done.
    ///
    /// The handling goes on until the dispatch has ended or been aborted, so that no dispatch
    /// outlives it. Events that come during a dispatch that cannot be interrupted are kept and
    /// returned for another attempt, unless the dispatch turns out to have applied them.
    pub fn handle_event(&mut self, handling: &mut Handling, input: HandleInput) -> (r: Option<HandleAction>)
        requires
            old(handling)@.inv(),
        ensures
            final(handling)@.inv(),
            match r {
                Some(action) => old(handling)@.next(old(self)@, input@) == Some(
                    (final(self)@, final(handling)@, action@),
                ),
                None => old(handling)@.next(old(self)@, input@) is None && final(handling)@ == old(
                    handling,
                )@ && final(self)@ == old(self)@,
            },
    {
        proof {
            invariant_is_kept(handling@, self@, input@);
        }
        self.handle_step(handling, input)
    }

    #[verifier::rlimit(60)]
    fn handle_step(&mut self, handling: &mut Handling, input: HandleInput) -> (r: Option<HandleAction>)
        requires
            old(handling)@.inv(),
        ensures
            match r {
                Some(action) => old(handling)@.next(old(self)@, input@) == Some(
                    (final(self)@, final(handling)@, action@),
                ),
                None => old(handling)@.next(old(self)@, input@) is None && final(handling)@ == old(
                    handling,
                )@ && final(self)@ == old(self)@,
            },
    {
        let mut phase = Phase::Over;
        std::mem::swap(&mut phase, &mut handling.phase);
        match (phase, input) {
            (Phase::Queued, HandleInput::Ready) => {
                handling.phase = Phase::Hooks;
                Some(HandleAction::RunShellHooks)
            },
            (Phase::Hooks, HandleInput::Ready) => {
                handling.phase = Phase::Running;
                Some(HandleAction::Dispatch(handling.event.duplicate()))
            },
            (Phase::Hooks, HandleInput::Failed(_)) => Some(handling.fail()),
            (Phase::Running, input) => {
                handling.phase = Phase::Running;
                self.handle_running(handling, input)
            },
            (Phase::Stopping, HandleInput::Ready) => Some(handling.finish(HandleResult::Shutdown)),
            (Phase::Stopping, HandleInput::Failed(_)) => Some(handling.fail()),
            (Phase::Draining(_), HandleInput::Shutdown) => Some(
                handling.finish(HandleResult::Shutdown),
            ),
            (Phase::Draining(status), HandleInput::Dispatched) => {
                handling.phase = Phase::AskingAfterExit(status);
                Some(HandleAction::AskRecovery)
            },
            (Phase::Draining(status), HandleInput::DispatchFailed(report)) => {
                if is_recovery_failure(&report) {
                    handling.recovery_killed();
                    handling.phase = Phase::AskingAfterExit(status);
                    Some(HandleAction::AskRecovery)
                } else if is_broken_pipe(&report) {
                    handling.phase = Phase::AskingAfterExit(status);
                    Some(HandleAction::AskRecovery)
                } else {
                    Some(handling.fail())
                }
            },
            (Phase::AskingAfterExit(status), HandleInput::Answer(killed)) => {
                if killed {
                    handling.recovery_killed();
                }
                Some(handling.exited(status))
            },
            (Phase::Deciding(newer), HandleInput::Answer(interrupt)) => {
                if interrupt {
                    match handling.pending.take() {
                        Some(pending) => {
                            handling.event.merge(pending);
                        },
                        None => {},
                    }
                    handling.event.merge(newer);
                    handling.phase = Phase::Interrupting;
                    Some(HandleAction::AbortAndInterrupt)
                } else {
                    handling.accumulate(newer);
                    handling.phase = Phase::Running;
                    Some(HandleAction::Wait)
                }
            },
            (Phase::Interrupting, HandleInput::Ready) => {
                handling.phase = Phase::FinishingInterrupt(true);
                Some(HandleAction::FinishInterruptedReload(true))
            },
            (Phase::Interrupting, HandleInput::Failed(_)) => {
                handling.phase = Phase::FinishingInterrupt(false);
                Some(HandleAction::FinishInterruptedReload(false))
            },
            (Phase::FinishingInterrupt(true), HandleInput::Ready) => {
                let event = handling.event.duplicate();
                Some(handling.finish(HandleResult::Interrupted(event)))
            },
            (Phase::FinishingInterrupt(false), HandleInput::Ready) => {
                handling.pending = Some(handling.event.duplicate());
                handling.recovery_kill = true;
                handling.phase = Phase::ConsumingKill;
                Some(HandleAction::ConsumeExit)
            },
            (Phase::FinishingInterrupt(_), HandleInput::Failed(_)) => Some(handling.fail()),
            (Phase::ConsumingKill, HandleInput::Exited(status)) => Some(handling.exited(status)),
            (Phase::ConsumingKill, HandleInput::ExitChannelClosed) => Some(handling.fail()),
            (Phase::AskingAfterFailure, HandleInput::Answer(killed)) => {
                if killed {
                    handling.recovery_killed();
                }
                handling.phase = Phase::AwaitingExit;
                Some(HandleAction::AwaitExit)
            },
            (Phase::AwaitingExit, HandleInput::Exited(status)) => Some(handling.exited(status)),
            (Phase::AwaitingExit, HandleInput::Shutdown) => Some(
                handling.finish(HandleResult::Shutdown),
            ),
            (Phase::AwaitingExit, HandleInput::ExitChannelClosed) => Some(
                handling.finish(HandleResult::Shutdown),
            ),
            (Phase::Replacing, HandleInput::Ready) => Some(handling.collected()),
            (Phase::Replacing, HandleInput::Failed(_)) => Some(handling.fail()),
            (Phase::Retrying, HandleInput::Restarted(used)) => {
                match used {
                    Some(event) => {
                        self.mark_applied(&event);
                    },
                    None => {},
                }
                Some(handling.collected())
            },
            (Phase::Retrying, HandleInput::Shutdown) => Some(handling.finish(HandleResult::Shutdown)),
            (Phase::Retrying, HandleInput::Failed(_)) => Some(handling.fail()),
            (Phase::Watchdog, HandleInput::Ready) => Some(handling.collected()),
            (Phase::Watchdog, HandleInput::Failed(_)) => Some(handling.fail()),
            (Phase::Collecting, HandleInput::Drained(later)) => {
                match handling.pending.take() {
                    Some(mut newest) => {
                        drain_pending(&mut newest, &later);
                        if self.discard_applied(&mut newest) {
                            Some(handling.finish(HandleResult::Done))
                        } else {
                            Some(handling.finish(HandleResult::Interrupted(newest)))
                        }
                    },
                    None => Some(handling.fail()),
                }
            },
            (phase, _) => {
                handling.phase = phase;
                None
            },
        }
    }
}

/// What is known of the watcher events that came while an event was handled.
pub struct Trace {
    /// The event as it came to be handled.
    pub first: ReloadView,
    /// The events that came since, merged in order.
    pub received: Option<ReloadView>,
}

impl Trace {
    /// The event with all that came since.
    pub open spec fn total(self) -> ReloadView {
        preserved(self.first, self.received)->0
    }

    /// The newest Haskell files.
    pub open spec fn files(self) -> Seq<Seq<char>> {
        match self.received {
            Some(received) => received.haskell_files,
            None => self.first.haskell_files,
        }
    }

    /// Whether the changes of all these events are in order.
    pub open spec fn valid(self) -> bool {
        sorted::<FileEvent>(self.first.events) && (self.received is Some ==> sorted::<FileEvent>(
            self.received->0.events,
        ))
    }

    /// The trace once `input` has come to a handling.
    pub open spec fn after(self, h: HandlingView, input: InputView) -> Trace {
        match input {
            InputView::Watcher(event, rest) => if h.phase is Running {
                Trace { received: accumulated(self.received, merged_all(event, rest)), ..self }
            } else {
                self
            },
            _ => self,
        }
    }

    /// Whether a handling has kept all that came to it.
    pub open spec fn kept_by(self, h: HandlingView) -> bool {
        match h.phase {
            PhaseView::Over => true,
            PhaseView::Replacing => true,
            PhaseView::Deciding(newer) => h.event == self.first && self.received == accumulated(
                h.pending,
                newer,
            ) && sorted::<FileEvent>(newer.events) && (h.pending is Some ==> sorted::<FileEvent>(
                h.pending->0.events,
            )),
            PhaseView::Interrupting => h.event == self.total(),
            PhaseView::FinishingInterrupt(_) => h.event == self.total(),
            PhaseView::ConsumingKill => h.pending == Some(self.total()),
            _ => h.event == self.first && (if h.recovery_kill {
                h.pending is Some && h.pending->0.haskell_files == self.files()
            } else {
                h.pending == self.received
            }),
        }
    }
}

/// The changes of the watcher events of an input are in order.
pub open spec fn valid_input(input: InputView) -> bool {
    match input {
        InputView::Watcher(event, rest) => sorted::<FileEvent>(event.events) && forall|i: int|
            0 <= i < rest.len() ==> sorted::<FileEvent>((#[trigger] rest[i]).events),
        _ => true,
    }
}

proof fn lemma_merged_all_sorted(event: ReloadView, later: Seq<ReloadView>)
    requires
        sorted::<FileEvent>(event.events),
        forall|i: int| 0 <= i < later.len() ==> sorted::<FileEvent>((#[trigger] later[i]).events),
    ensures
        sorted::<FileEvent>(merged_all(event, later).events),
    decreases later.len(),
{
    if later.len() > 0 {
        let t = later.drop_last();
        assert forall|i: int| 0 <= i < t.len() implies sorted::<FileEvent>((#[trigger] t[i]).events) by {
            assert(t[i] == later[i]);
        }
        lemma_merged_all_sorted(event, t);
        newest_event_stays(merged_all(event, t).events, later.last().events);
    }
}

/// A handling keeps every watcher event that comes to it: those that came are pending, or merged
/// into the event that is to be handled again; and where the session was killed, its replacement is
/// to get the newest Haskell files.
pub proof fn handling_keeps_every_event(h: HandlingView, m: ManagerView, input: InputView, t: Trace)
    requires
        h.inv(),
        t.valid(),
        t.kept_by(h),
        valid_input(input),
        h.next(m, input) is Some,
    ensures
        t.after(h, input).valid(),
        t.after(h, input).kept_by((h.next(m, input)->0).1),
{
    match input {
        InputView::Watcher(event, rest) => {
            lemma_merged_all_sorted(event, rest);
            if h.phase is Running && t.received is Some {
                newest_event_stays(t.received->0.events, merged_all(event, rest).events);
            }
        },
        InputView::Answer(true) => {
            match h.phase {
                PhaseView::Deciding(newer) => {
                    if h.pending is Some {
                        merging_is_associative(h.event, h.pending->0, newer);
                    }
                },
                _ => {},
            }
        },
        _ => {},
    }
}

/// How a handling ends: it is done only if nothing came meanwhile, or what came is applied already,
/// or the session was replaced after a recovery kill; what it returns for another attempt is all
/// that came, with the event itself if that was interrupted.
pub proof fn handling_ends_without_loss(h: HandlingView, m: ManagerView, input: InputView, t: Trace)
    requires
        h.inv(),
        t.valid(),
        t.kept_by(h),
        h.next(m, input) is Some,
    ensures
        match (h.next(m, input)->0).2 {
            ActionView::Finish(ResultView::Done) => h.phase is Replacing || t.received is None || (
            h.phase is Collecting && input is Drained && merged_all(
                t.received->0,
                input->Drained_0,
            ).is_applied(m.applied, m.applied_files)),
            ActionView::Finish(ResultView::Interrupted(event)) => (h.phase is FinishingInterrupt && event
                == t.total()) || (h.phase is Collecting && input is Drained && t.received is Some && event
                == merged_all(t.received->0, input->Drained_0).pruned(m.applied)),
            ActionView::RestartAfterRecoveryKill(files) => files == t.files(),
            ActionView::WaitAndRestart(_, event) => event == t.first,
            _ => true,
        },
{
}

/// The watcher events among these inputs, merged in order.
pub open spec fn came(inputs: Seq<InputView>) -> Option<ReloadView>
    decreases inputs.len(),
{
    if inputs.len() == 0 {
        None
    } else {
        match inputs.last() {
            InputView::Watcher(event, rest) => accumulated(came(inputs.drop_last()), merged_all(event, rest)),
            _ => came(inputs.drop_last()),
        }
    }
}

/// The manager, the handling of an event and what is to be done, after these inputs. Nothing, if one
/// of them does not answer what the handling waits for.
pub open spec fn handle_run(event: ReloadView, m: ManagerView, inputs: Seq<InputView>) -> Option<
    (ManagerView, HandlingView, ActionView),
>
    decreases inputs.len(),
{
    if inputs.len() == 0 {
        Some((m, begun(event), ActionView::BeginOperation))
    } else {
        match handle_run(event, m, inputs.drop_last()) {
            Some((m, h, _)) => h.next(m, inputs.last()),
            None => None,
        }
    }
}

/// No change is lost while an event is handled, from its beginning and whatever happens: all that
/// came is kept until the handling ends. It ends with nothing left to do only if nothing came, or what
/// came is applied already, or the session was killed and replaced; and a killed session is replaced
/// with the newest Haskell files. Otherwise what came is handled next, with the event itself if that
/// was interrupted.
pub proof fn no_change_is_lost(event: ReloadView, m: ManagerView, inputs: Seq<InputView>)
    requires
        sorted::<FileEvent>(event.events),
        forall|i: int| 0 <= i < inputs.len() ==> valid_input(#[trigger] inputs[i]),
        handle_run(event, m, inputs) is Some,
    ensures
        ({
            let t = Trace { first: event, received: came(inputs) };
            let (_, h, action) = handle_run(event, m, inputs)->0;
            &&& h.inv() && t.valid() && t.kept_by(h)
            &&& inputs.len() > 0 ==> {
                let (m, h, _) = handle_run(event, m, inputs.drop_last())->0;
                match action {
                    ActionView::Finish(ResultView::Done) => h.phase is Replacing || came(inputs) is None || (
                    inputs.last() is Drained && merged_all(came(inputs)->0, inputs.last()->Drained_0).is_applied(
                        m.applied,
                        m.applied_files,
                    )),
                    ActionView::Finish(ResultView::Interrupted(next)) => next == t.total() || (inputs.last() is Drained
                        && came(inputs) is Some && next == merged_all(
                        came(inputs)->0,
                        inputs.last()->Drained_0,
                    ).pruned(m.applied)),
                    ActionView::RestartAfterRecoveryKill(files) => files == t.files(),
                    ActionView::WaitAndRestart(_, next) => next == event,
                    _ => true,
                }
            }
        }),
    decreases inputs.len(),
{
    if inputs.len() > 0 {
        let before = inputs.drop_last();
        assert forall|i: int| 0 <= i < before.len() implies valid_input(#[trigger] before[i]) by {
            assert(before[i] == inputs[i]);
        }
        no_change_is_lost(event, m, before);
        let t = Trace { first: event, received: came(before) };
        let (m, h, _) = handle_run(event, m, before)->0;
        let input = inputs.last();
        assert(valid_input(inputs[inputs.len() - 1]));
        handling_keeps_every_event(h, m, input, t);
        handling_ends_without_loss(h, m, input, t);
        invariant_is_kept(h, m, input);
    }
}

/// A dispatch is cut short only by a shutdown, or once, by a newer change and only if reloads may be
/// interrupted and the dispatch said that it can be.
pub proof fn interruption_is_asked_for(h: HandlingView, m: ManagerView, input: InputView)
    requires
        h.next(m, input) is Some,
    ensures
        match (h.next(m, input)->0).2 {
            ActionView::AbortAndInterrupt => h.phase is Deciding && input == InputView::Answer(true),
            ActionView::AwaitReloadKind => m.interrupt_reloads && h.may_interrupt && !(h.next(
                m,
                input,
            )->0).1.may_interrupt,
            ActionView::AbortAndStop => input is Shutdown,
            _ => true,
        },
        (h.next(m, input)->0).1.may_interrupt ==> h.may_interrupt,
{
}

/// A change of the file states that count as dispatched comes only from a completed dispatch of the
/// event, or from the event that a replacement session was started with.
pub proof fn applied_states_are_dispatched(h: HandlingView, m: ManagerView, input: InputView)
    requires
        h.next(m, input) is Some,
    ensures
        ({
            let after = (h.next(m, input)->0).0;
            ||| after == m
            ||| h.phase is Running && input is Dispatched && after == m.marked(h.event)
            ||| h.phase is Retrying && input is Restarted && input->Restarted_0 is Some && after
                == m.marked(input->Restarted_0->0)
        }),
{
}

/// A completed dispatch is always recorded, whatever came meanwhile: of each path that the event holds a
/// state of, that state counts as applied, every other one stays as it was, and the files of the event are
/// the applied ones. So the same event counts as applied from then on.
pub proof fn completed_dispatch_is_recorded(h: HandlingView, m: ManagerView, k: Key)
    requires
        h.phase is Running,
    ensures
        h.next(m, InputView::Dispatched) is Some,
        ({
            let after = (h.next(m, InputView::Dispatched)->0).0;
            &&& after.applied.contains_key(k) <==> m.applied.contains_key(k) || h.event.states.contains_key(k)
            &&& h.event.states.contains_key(k) ==> after.applied[k] == h.event.states[k]
            &&& m.applied.contains_key(k) && !h.event.states.contains_key(k) ==> after.applied[k]
                == m.applied[k]
            &&& after.applied_files == Some(h.event.haskell_files)
            &&& after.interrupt_reloads == m.interrupt_reloads
            &&& after.restart_on_exit == m.restart_on_exit
            &&& h.event.captured() ==> h.event.is_applied(after.applied, after.applied_files)
        }),
{
    if h.event.captured() {
        marked_event_is_discarded(h.event, m.applied);
    }
}

/// An event that was dispatched to its end counts as applied, whatever happened before and while it ran.
pub proof fn dispatched_event_is_applied(event: ReloadView, m: ManagerView, inputs: Seq<InputView>)
    requires
        event.captured(),
        forall|i: int| 0 <= i < inputs.len() ==> valid_input(#[trigger] inputs[i]),
        handle_run(event, m, inputs) is Some,
        (handle_run(event, m, inputs)->0).1.phase is Running,
    ensures
        handle_run(event, m, inputs.push(InputView::Dispatched)) is Some,
        ({
            let after = (handle_run(event, m, inputs.push(InputView::Dispatched))->0).0;
            event.is_applied(after.applied, after.applied_files)
        }),
{
    no_change_is_lost(event, m, inputs);
    let (before, h, _) = handle_run(event, m, inputs)->0;
    completed_dispatch_is_recorded(h, before, Key { tag: 0, parts: seq![] });
    assert(inputs.push(InputView::Dispatched).drop_last() =~= inputs);
}

/// A replacement session that was started with an event leaves it recorded in the same way; one that used
/// none changes no record. Nothing else does.
pub proof fn only_ended_work_is_recorded(h: HandlingView, m: ManagerView, input: InputView)
    requires
        h.next(m, input) is Some,
    ensures
        ({
            let after = (h.next(m, input)->0).0;
            &&& h.phase is Retrying && input is Restarted && input->Restarted_0 is Some ==> after.applied
                == m.applied.union_prefer_right(input->Restarted_0->0.states) && after.applied_files == Some(
                input->Restarted_0->0.haskell_files,
            )
            &&& !(input is Dispatched && h.phase is Running) && !(input is Restarted && input->Restarted_0
                is Some) ==> after == m
            &&& after.interrupt_reloads == m.interrupt_reloads
            &&& after.restart_on_exit == m.restart_on_exit
        }),
{
}

/// An event is dispatched once the hooks have run, which wait for their turn; if they fail it is not.
pub proof fn events_are_dispatched_after_the_hooks(event: ReloadView, m: ManagerView, causes: Seq<Cause>)
    ensures
        ({
            let queued = begun(event).next(m, InputView::Ready);
            &&& queued matches Some((m1, hooks, action)) && action is RunShellHooks && m1 == m
            &&& (queued->0).1.next(m, InputView::Ready) matches Some((m2, running, action)) && action
                == ActionView::Dispatch(event) && m2 == m && running.phase is Running && running.event == event
                && running.pending is None && running.may_interrupt && !running.watchdog_due
                && !running.recovery_kill
            &&& (queued->0).1.next(m, InputView::Failed(causes)) matches Some((m2, _, action)) && action is Fail
                && m2 == m
        }),
{
}

/// After a dispatch that succeeded, or once the session is replaced or its memory is checked: the memory is
/// checked if that is due, and only after a dispatch; else the events that came meanwhile are collected, if
/// any came; else the handling is done.
pub proof fn finished_work_is_followed_up(h: HandlingView, m: ManagerView, used: Option<ReloadView>)
    ensures
        h.phase is Running ==> {
            let end = h.next(m, InputView::Dispatched);
            &&& end is Some
            &&& (end->0).2 is RunMemoryWatchdog <==> h.watchdog_due
            &&& (end->0).2 is DrainWatcher <==> !h.watchdog_due && h.pending is Some
            &&& (end->0).2 == ActionView::Finish(ResultView::Done) <==> !h.watchdog_due && h.pending is None
            &&& (end->0).1.pending == h.pending
            &&& (end->0).2 is RunMemoryWatchdog ==> (end->0).1.phase is Watchdog
        },
        h.phase is Watchdog || h.phase is Replacing ==> {
            let end = h.next(m, InputView::Ready);
            &&& end is Some
            &&& (end->0).2 is DrainWatcher <==> h.pending is Some
            &&& (end->0).2 == ActionView::Finish(ResultView::Done) <==> h.pending is None
            &&& (end->0).1.pending == h.pending
        },
        h.phase is Retrying ==> {
            let end = h.next(m, InputView::Restarted(used));
            &&& end is Some
            &&& (end->0).2 is DrainWatcher <==> h.pending is Some
            &&& (end->0).2 == ActionView::Finish(ResultView::Done) <==> h.pending is None
            &&& (end->0).1.pending == h.pending
        },
{
}

/// What was collected is handled again exactly if one of its changes, or the set of files, differs from what
/// is applied, and without the changes that do not.
pub proof fn collected_events_are_handled_again(
    h: HandlingView,
    m: ManagerView,
    later: Seq<ReloadView>,
    e: FileEventView,
)
    requires
        h.phase is Collecting,
        h.pending is Some,
        sorted::<FileEvent>(merged_all(h.pending->0, later).events),
    ensures
        ({
            let newest = merged_all(h.pending->0, later);
            let end = h.next(m, InputView::Drained(later));
            let stale = m.applied_files is Some && same_files(m.applied_files->0, newest.haskell_files) && forall|
                c: FileEventView,
            | #[trigger]
                newest.events.contains(c) ==> lookup(newest.states, c.path_key()) == lookup(
                    m.applied,
                    c.path_key(),
                );
            &&& end is Some && (end->0).0 == m
            &&& stale ==> (end->0).2 == ActionView::Finish(ResultView::Done)
            &&& !stale ==> (end->0).2 is Finish && (end->0).2->Finish_0 is Interrupted
            &&& !stale ==> {
                let again = (end->0).2->Finish_0->Interrupted_0;
                &&& again.events.contains(e) <==> newest.events.contains(e) && lookup(
                    newest.states,
                    e.path_key(),
                ) != lookup(m.applied, e.path_key())
                &&& again.states == newest.states
                &&& again.haskell_files == newest.haskell_files
                &&& again.source_snapshot == newest.source_snapshot
                &&& again.startup_retry == newest.startup_retry
            }
        }),
{
    let newest = merged_all(h.pending->0, later);
    let p = |c: FileEventView| lookup(newest.states, c.path_key()) != lookup(m.applied, c.path_key());
    let rest = newest.events.filter(p);
    lemma_filter::<FileEvent>(newest.events, p);
    assert(rest == newest.unapplied(m.applied));
    if rest.len() > 0 {
        assert(rest.contains(rest[0]));
        assert(newest.events.contains(rest[0]) && p(rest[0]));
    } else {
        assert forall|c: FileEventView| #[trigger] newest.events.contains(c) implies !p(c) by {
            if p(c) {
                assert(rest.contains(c));
            }
        }
    }
}

/// While the dispatch runs, watcher events interrupt it only if that is wanted and was not asked for before.
/// Otherwise they are kept for later, with those that came before, and the dispatch runs on.
pub proof fn watcher_events_interrupt_or_wait(
    h: HandlingView,
    m: ManagerView,
    event: ReloadView,
    rest: Seq<ReloadView>,
)
    requires
        h.phase is Running,
    ensures
        ({
            let after = h.next(m, InputView::Watcher(event, rest));
            let newer = merged_all(event, rest);
            &&& after is Some && (after->0).0 == m
            &&& (after->0).2 is AwaitReloadKind <==> m.interrupt_reloads && h.may_interrupt
            &&& (after->0).2 is Wait <==> !(m.interrupt_reloads && h.may_interrupt)
            &&& (after->0).1.event == h.event && (after->0).1.watchdog_due == h.watchdog_due
            &&& (after->0).2 is AwaitReloadKind ==> (after->0).1.pending == h.pending && (after->0).1.phase
                == PhaseView::Deciding(newer) && !(after->0).1.may_interrupt
            &&& (after->0).2 is Wait ==> (after->0).1.phase is Running && (after->0).1.pending == Some(
                match h.pending {
                    Some(pending) => pending.merged(newer),
                    None => newer,
                },
            ) && (after->0).1.may_interrupt == h.may_interrupt
        }),
{
}

/// A dispatch that can be interrupted is, and the event is handled again with all that came since, if the
/// session stays usable. If it does not, the session is replaced with the newest files. A dispatch that cannot
/// be interrupted runs on, and what came waits.
pub proof fn interruption_takes_its_course(
    h: HandlingView,
    m: ManagerView,
    newer: ReloadView,
    causes: Seq<Cause>,
    status: i32,
)
    requires
        h.phase == PhaseView::Deciding(newer),
    ensures
        ({
            let all = match h.pending {
                Some(pending) => h.event.merged(pending).merged(newer),
                None => h.event.merged(newer),
            };
            let cut = h.next(m, InputView::Answer(true));
            let usable = (cut->0).1.next(m, InputView::Ready);
            let end = (usable->0).1.next(m, InputView::Ready);
            let unusable = (cut->0).1.next(m, InputView::Failed(causes));
            let consumed = (unusable->0).1.next(m, InputView::Ready);
            let gone = (consumed->0).1.next(m, InputView::Exited(status));
            let replaced = (gone->0).1.next(m, InputView::Ready);
            &&& cut is Some && (cut->0).0 == m && (cut->0).2 is AbortAndInterrupt
            &&& usable is Some && (usable->0).0 == m && (usable->0).2 == ActionView::FinishInterruptedReload(true)
            &&& end is Some && (end->0).0 == m && (end->0).2 == ActionView::Finish(ResultView::Interrupted(all))
            &&& unusable is Some && (unusable->0).0 == m && (unusable->0).2 == ActionView::FinishInterruptedReload(
                false,
            )
            &&& consumed is Some && (consumed->0).0 == m && (consumed->0).2 is ConsumeExit
            &&& gone is Some && (gone->0).0 == m && (gone->0).2 == ActionView::RestartAfterRecoveryKill(
                newer.haskell_files,
            )
            &&& replaced is Some && (replaced->0).0 == m && (replaced->0).2 == ActionView::Finish(ResultView::Done)
        }),
        h.next(m, InputView::Answer(false)) matches Some((m1, h1, a1)) && m1 == m && a1 is Wait && h1.phase is Running
            && h1.event == h.event && h1.pending == Some(
            match h.pending {
                Some(pending) => pending.merged(newer),
                None => newer,
            },
        ),
{
}

/// A session that exits while the dispatch runs is replaced once the dispatch is over: with the newest files if
/// it was killed because its prompt could not be trusted, else with the event that it died on and with its
/// status. A dispatch that fails for another reason than the exit fails the handling.
pub proof fn dead_session_is_replaced(
    h: HandlingView,
    m: ManagerView,
    status: i32,
    causes: Seq<Cause>,
    killed: bool,
)
    requires
        h.phase is Running,
        !h.recovery_kill,
    ensures
        ({
            let newest = match h.pending {
                Some(pending) => pending.haskell_files,
                None => h.event.haskell_files,
            };
            let distrusted = causes.contains(Cause::RecoveryFailed);
            let exited = h.next(m, InputView::Exited(status));
            let ended = (exited->0).1.next(m, InputView::Dispatched);
            let told = (ended->0).1.next(m, InputView::Answer(killed));
            let failed = (exited->0).1.next(m, InputView::DispatchFailed(causes));
            let told_then = (failed->0).1.next(m, InputView::Answer(killed));
            &&& exited is Some && (exited->0).0 == m && (exited->0).2 is AwaitDispatch
            &&& ended is Some && (ended->0).0 == m && (ended->0).2 is AskRecovery
            &&& told is Some && (told->0).0 == m && (told->0).2 == (if killed {
                ActionView::RestartAfterRecoveryKill(newest)
            } else {
                ActionView::WaitAndRestart(status, h.event)
            })
            &&& failed is Some && (failed->0).0 == m
            &&& (failed->0).2 is AskRecovery <==> distrusted || causes.contains(Cause::BrokenPipe)
            &&& (failed->0).2 is Fail <==> !distrusted && !causes.contains(Cause::BrokenPipe)
            &&& (failed->0).2 is AskRecovery ==> told_then is Some && (told_then->0).0 == m && (told_then->0).2 == (
            if killed || distrusted {
                ActionView::RestartAfterRecoveryKill(newest)
            } else {
                ActionView::WaitAndRestart(status, h.event)
            })
        }),
{
}

/// A dispatch that fails because the prompt could not be trusted, or on a broken pipe, waits for the exit of the
/// session, which is then replaced as after any exit. Any other failure of the dispatch fails the handling.
pub proof fn failed_dispatch_waits_for_the_exit(
    h: HandlingView,
    m: ManagerView,
    status: i32,
    causes: Seq<Cause>,
    killed: bool,
)
    requires
        h.phase is Running,
        !h.recovery_kill,
    ensures
        ({
            let newest = match h.pending {
                Some(pending) => pending.haskell_files,
                None => h.event.haskell_files,
            };
            let distrusted = causes.contains(Cause::RecoveryFailed);
            let broken = causes.contains(Cause::BrokenPipe);
            let failed = h.next(m, InputView::DispatchFailed(causes));
            let gone = (failed->0).1.next(m, InputView::Exited(status));
            &&& failed is Some && (failed->0).0 == m
            &&& (failed->0).2 is AwaitExit <==> distrusted
            &&& (failed->0).2 is AskRecovery <==> !distrusted && broken
            &&& (failed->0).2 is Fail <==> !distrusted && !broken
            &&& distrusted ==> gone is Some && (gone->0).0 == m && (gone->0).2
                == ActionView::RestartAfterRecoveryKill(newest)
            &&& !distrusted && broken ==> {
                let told = (failed->0).1.next(m, InputView::Answer(killed));
                let gone = (told->0).1.next(m, InputView::Exited(status));
                &&& told is Some && (told->0).0 == m && (told->0).2 is AwaitExit
                &&& gone is Some && (gone->0).0 == m && (gone->0).2 == (if killed {
                    ActionView::RestartAfterRecoveryKill(newest)
                } else {
                    ActionView::WaitAndRestart(status, h.event)
                })
            }
        }),
{
}

/// A shutdown ends the handling: at once where nothing runs, and after the session is stopped where the dispatch
/// does. A step that fails ends it with the error, unless it is an interruption, which leaves the session
/// unusable.
pub proof fn shutdowns_and_failures_end_the_handling(h: HandlingView, m: ManagerView, causes: Seq<Cause>)
    ensures
        h.phase is Running ==> {
            let stopping = h.next(m, InputView::Shutdown);
            let end = (stopping->0).1.next(m, InputView::Ready);
            &&& stopping is Some && (stopping->0).0 == m && (stopping->0).2 is AbortAndStop
            &&& end is Some && (end->0).0 == m && (end->0).2 == ActionView::Finish(ResultView::Shutdown)
        },
        h.phase is Draining || h.phase is AwaitingExit || h.phase is Retrying ==> (h.next(m, InputView::Shutdown) matches Some(
            (m1, _, a1),
        ) && m1 == m && a1 == ActionView::Finish(ResultView::Shutdown)),
        h.next(m, InputView::Failed(causes)) is Some ==> ((h.next(m, InputView::Failed(causes))->0).2 is Fail
            <==> !(h.phase is Interrupting)),
        h.phase is Running ==> (h.next(m, InputView::WatchdogTick) matches Some((m1, h1, a1)) && m1 == m && a1 is Wait
            && h1.watchdog_due && h1.phase is Running && h1.pending == h.pending && h1.event == h.event
            && h1.may_interrupt == h.may_interrupt && h1.recovery_kill == h.recovery_kill),
        h.phase is ConsumingKill ==> (h.next(m, InputView::ExitChannelClosed) matches Some((_, _, a1)) && a1 is Fail),
        h.phase is AwaitingExit ==> (h.next(m, InputView::ExitChannelClosed) matches Some((_, _, a1)) && a1
            == ActionView::Finish(ResultView::Shutdown)),
{
}

/// Merging the events that are there already takes the files, the snapshot and, of each path, the state of the
/// last that holds one.
pub proof fn last_event_counts(event: ReloadView, later: Seq<ReloadView>, i: int, k: Key)
    requires
        0 <= i < later.len(),
        later[i].states.contains_key(k),
        forall|j: int| i < j < later.len() ==> !(#[trigger] later[j]).states.contains_key(k),
    ensures
        merged_all(event, later).haskell_files == later.last().haskell_files,
        merged_all(event, later).source_snapshot == later.last().source_snapshot,
        merged_all(event, later).states.contains_key(k),
        merged_all(event, later).states[k] == later[i].states[k],
        later[i].startup_retry ==> merged_all(event, later).startup_retry,
    decreases later.len(),
{
    let before = later.drop_last();
    if i < before.len() {
        assert(before[i] == later[i]);
        assert forall|j: int| i < j < before.len() implies !(#[trigger] before[j]).states.contains_key(k) by {
            assert(before[j] == later[j]);
        }
        last_event_counts(event, before, i, k);
        assert(!later[later.len() - 1].states.contains_key(k));
    }
}

} // verus!
