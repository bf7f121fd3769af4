//! Replacing a session that exited: once after a delay, and again only when something watched has
//! changed, unless it is to be replaced persistently.
//!
//! [`Retry::wait_and_restart`] takes what happened and says what is to be done next.

use crate::event_filter::{FileEvent, FileEventView, FileState};
use crate::ghci::manager::handle::{accumulated, drain_pending, event_views, merged_all, optional};
use crate::ghci::manager::{
    applied_means_nothing_differs, files_view, lookup, only_applied_changes_are_dropped, same_files, ReloadView,
    WatcherEvent,
};
use crate::ghci::report::{is_broken_pipe, is_recovery_failure, Cause, Report};
use crate::path::FilePath;
use crate::sorted::{sorted, Key, SortedMap, SortedSet};
use vstd::prelude::*;

verus! {

/// How long a session that exited is left alone before it is replaced, in seconds.
pub const CRASH_RESTART_DELAY: u64 = 10;

/// The outcome of replacing a session.
#[derive(Debug)]
pub enum RetryResult {
    /// The session was replaced, using this event if any.
    Restarted(Option<WatcherEvent>),
    /// A shutdown was requested.
    Shutdown,
}

/// How a session that exited again is dealt with.
#[derive(Clone, Copy, Debug, PartialEq, Eq, Structural)]
pub enum Recovery {
    /// It is replaced whether or not something changed.
    Persistent,
    /// It is replaced with the newer state that is there already.
    Queued,
    /// It is replaced once something changes.
    CrashLoop,
}

/// What is to be done next.
#[derive(Debug)]
pub enum RetryAction {
    /// Wait for the crash delay, counted from now, a watcher event or a shutdown.
    Delay,
    /// Go on with the delay that is running.
    KeepDelaying,
    /// Take all watcher events that are there already.
    DrainWatcher,
    /// Wait for a watcher event or a shutdown.
    AwaitWatcher,
    /// Start a session in place of the one that exited, with these Haskell files or those it knew.
    Restart(Option<SortedSet<FilePath>>),
    /// See whether the new session has exited already.
    TryExit,
    /// Wait for the exit of the new session or a shutdown.
    AwaitExit,
    /// Tell that the new session exited with this status, which paths were affected and what comes
    /// next. Then delay.
    ReportAndDelay(i32, Option<String>, Recovery),
    /// Return this result.
    Finish(RetryResult),
    /// Return the error that was just reported.
    Fail,
}

/// What happened.
#[derive(Debug)]
pub enum RetryInput {
    /// The delay is over.
    DelayOver,
    /// A shutdown was requested.
    Shutdown,
    /// A watcher event came.
    Watcher(WatcherEvent),
    /// No watcher event will come any more.
    WatcherClosed,
    /// The watcher events that were there already.
    Drained(Vec<WatcherEvent>),
    /// The new session was started.
    Restarted,
    /// The new session could not be started, or not completely.
    RestartFailed(Report),
    /// The status of the new session, if it has exited already.
    ExitStatus(Option<i32>),
    /// The new session exited with this status.
    Exited(i32),
    /// No exit will be reported any more.
    ExitChannelClosed,
}

#[derive(Debug)]
enum Phase {
    Delaying,
    Filtering,
    AwaitingChange,
    Restarting,
    CheckingExit,
    AwaitingExit,
    Collecting(i32, Option<String>),
    Over,
}

/// A session that is being replaced.
#[derive(Debug)]
pub struct Retry {
    restart_unchanged: bool,
    pending: Option<WatcherEvent>,
    attempted_states: SortedMap<FilePath, FileState>,
    attempted_haskell_files: Option<SortedSet<FilePath>>,
    first_retry: bool,
    phase: Phase,
}

/// The model of what the replacement waits for.
pub enum RetryPhase {
    Delaying,
    Filtering,
    AwaitingChange,
    Restarting,
    CheckingExit,
    AwaitingExit,
    Collecting(i32, Option<Seq<char>>),
    Over,
}

/// The model of a [`Retry`].
pub struct RetryView {
    /// Whether the session is replaced although nothing changed.
    pub restart_unchanged: bool,
    /// The watcher events that the next attempt will use.
    pub pending: Option<ReloadView>,
    /// The states that were used by attempts that failed.
    pub attempted: Map<Key, FileState>,
    /// The Haskell files of the last such attempt.
    pub attempted_files: Option<Seq<Seq<char>>>,
    /// Whether no attempt was made yet.
    pub first_retry: bool,
    /// What the replacement waits for.
    pub phase: RetryPhase,
}

/// The model of a [`RetryAction`].
pub enum RetryActionView {
    Delay,
    KeepDelaying,
    DrainWatcher,
    AwaitWatcher,
    Restart(Option<Seq<Seq<char>>>),
    TryExit,
    AwaitExit,
    ReportAndDelay(i32, Option<Seq<char>>, Recovery),
    Restarted(Option<ReloadView>),
    Shutdown,
    Fail,
}

/// The model of a [`RetryInput`].
pub enum RetryInputView {
    DelayOver,
    Shutdown,
    Watcher(ReloadView),
    WatcherClosed,
    Drained(Seq<ReloadView>),
    Restarted,
    RestartFailed(Seq<Cause>),
    ExitStatus(Option<i32>),
    Exited(i32),
    ExitChannelClosed,
}

/// The text that may be missing.
pub open spec fn text_view(text: Option<String>) -> Option<Seq<char>> {
    match text {
        Some(text) => Some(text@),
        None => None,
    }
}

impl View for Phase {
    type V = RetryPhase;

    closed spec fn view(&self) -> RetryPhase {
        match self {
            Phase::Delaying => RetryPhase::Delaying,
            Phase::Filtering => RetryPhase::Filtering,
            Phase::AwaitingChange => RetryPhase::AwaitingChange,
            Phase::Restarting => RetryPhase::Restarting,
            Phase::CheckingExit => RetryPhase::CheckingExit,
            Phase::AwaitingExit => RetryPhase::AwaitingExit,
            Phase::Collecting(status, affected) => RetryPhase::Collecting(*status, text_view(*affected)),
            Phase::Over => RetryPhase::Over,
        }
    }
}

impl View for Retry {
    type V = RetryView;

    closed spec fn view(&self) -> RetryView {
        RetryView {
            restart_unchanged: self.restart_unchanged,
            pending: optional(self.pending),
            attempted: self.attempted_states@,
            attempted_files: files_view(self.attempted_haskell_files),
            first_retry: self.first_retry,
            phase: self.phase@,
        }
    }
}

impl View for RetryAction {
    type V = RetryActionView;

    open spec fn view(&self) -> RetryActionView {
        match self {
            RetryAction::Delay => RetryActionView::Delay,
            RetryAction::KeepDelaying => RetryActionView::KeepDelaying,
            RetryAction::DrainWatcher => RetryActionView::DrainWatcher,
            RetryAction::AwaitWatcher => RetryActionView::AwaitWatcher,
            RetryAction::Restart(files) => RetryActionView::Restart(files_view(*files)),
            RetryAction::TryExit => RetryActionView::TryExit,
            RetryAction::AwaitExit => RetryActionView::AwaitExit,
            RetryAction::ReportAndDelay(status, affected, recovery) => RetryActionView::ReportAndDelay(
                *status,
                text_view(*affected),
                *recovery,
            ),
            RetryAction::Finish(RetryResult::Restarted(event)) => RetryActionView::Restarted(
                optional(*event),
            ),
            RetryAction::Finish(RetryResult::Shutdown) => RetryActionView::Shutdown,
            RetryAction::Fail => RetryActionView::Fail,
        }
    }
}

impl View for RetryInput {
    type V = RetryInputView;

    open spec fn view(&self) -> RetryInputView {
        match self {
            RetryInput::DelayOver => RetryInputView::DelayOver,
            RetryInput::Shutdown => RetryInputView::Shutdown,
            RetryInput::Watcher(event) => RetryInputView::Watcher(event@),
            RetryInput::WatcherClosed => RetryInputView::WatcherClosed,
            RetryInput::Drained(events) => RetryInputView::Drained(event_views(events@)),
            RetryInput::Restarted => RetryInputView::Restarted,
            RetryInput::RestartFailed(report) => RetryInputView::RestartFailed(report@),
            RetryInput::ExitStatus(status) => RetryInputView::ExitStatus(*status),
            RetryInput::Exited(status) => RetryInputView::Exited(*status),
            RetryInput::ExitChannelClosed => RetryInputView::ExitChannelClosed,
        }
    }
}

/// The events merged in order, if there are any.
pub open spec fn merged_events_of(events: Seq<ReloadView>) -> Option<ReloadView> {
    if events.len() == 0 {
        None
    } else {
        Some(merged_all(events[0], events.skip(1)))
    }
}

impl RetryView {
    pub open spec fn at(self, phase: RetryPhase) -> RetryView {
        RetryView { phase, ..self }
    }

    pub open spec fn over(self, action: RetryActionView) -> (RetryView, RetryActionView) {
        (self.at(RetryPhase::Over), action)
    }

    /// Another attempt, with what is pending.
    pub open spec fn attempt(self) -> (RetryView, RetryActionView) {
        (
            RetryView { first_retry: false, ..self.at(RetryPhase::Restarting) },
            RetryActionView::Restart(
                match self.pending {
                    Some(event) => Some(event.haskell_files),
                    None => None,
                },
            ),
        )
    }

    /// What is done once the delay is over: an attempt, unless one was made already and nothing that
    /// is newer than it has come.
    pub open spec fn after_delay(self) -> (RetryView, RetryActionView) {
        if self.first_retry || self.restart_unchanged {
            self.attempt()
        } else if self.pending is Some {
            (self.at(RetryPhase::Filtering), RetryActionView::DrainWatcher)
        } else {
            (self.at(RetryPhase::AwaitingChange), RetryActionView::AwaitWatcher)
        }
    }

    /// What is done with pending events after a failed attempt: another attempt if they are newer.
    pub open spec fn filter(self, newest: ReloadView) -> (RetryView, RetryActionView) {
        if newest.is_applied(self.attempted, self.attempted_files) {
            (
                RetryView { pending: None, ..self.at(RetryPhase::AwaitingChange) },
                RetryActionView::AwaitWatcher,
            )
        } else {
            RetryView { pending: Some(newest.pruned(self.attempted)), ..self }.attempt()
        }
    }

    /// What is done once the new session has exited, too.
    pub open spec fn crashed(self, status: i32) -> (RetryView, RetryActionView) {
        match self.pending {
            Some(event) => (
                RetryView {
                    pending: None,
                    attempted: self.attempted.union_prefer_right(event.states),
                    attempted_files: Some(event.haskell_files),
                    ..self.at(RetryPhase::Collecting(status, event.affected_paths()))
                },
                RetryActionView::DrainWatcher,
            ),
            None => (
                self.at(RetryPhase::Collecting(status, None)),
                RetryActionView::DrainWatcher,
            ),
        }
    }

    /// What is done with the events that came during a failed attempt.
    pub open spec fn collected(
        self,
        status: i32,
        affected: Option<Seq<char>>,
        events: Seq<ReloadView>,
    ) -> (RetryView, RetryActionView) {
        let pending = match merged_events_of(events) {
            Some(newest) => if newest.is_applied(self.attempted, self.attempted_files) {
                None
            } else {
                Some(newest.pruned(self.attempted))
            },
            None => None,
        };
        let recovery = if self.restart_unchanged {
            Recovery::Persistent
        } else if pending is Some {
            Recovery::Queued
        } else {
            Recovery::CrashLoop
        };
        (
            RetryView { pending, ..self.at(RetryPhase::Delaying) },
            RetryActionView::ReportAndDelay(status, affected, recovery),
        )
    }

    /// What happens next. Nothing, if the input does not answer what the replacement waits for.
    pub open spec fn next(self, input: RetryInputView) -> Option<(RetryView, RetryActionView)> {
        match (self.phase, input) {
            (RetryPhase::Delaying, RetryInputView::DelayOver) => Some(self.after_delay()),
            (RetryPhase::Delaying, RetryInputView::Watcher(event)) => Some(
                (
                    RetryView { pending: accumulated(self.pending, event), ..self },
                    RetryActionView::KeepDelaying,
                ),
            ),
            (RetryPhase::Delaying, RetryInputView::Shutdown) => Some(
                self.over(RetryActionView::Shutdown),
            ),
            (RetryPhase::Delaying, RetryInputView::WatcherClosed) => Some(
                self.over(RetryActionView::Shutdown),
            ),
            (RetryPhase::Filtering, RetryInputView::Drained(later)) => Some(
                self.filter(merged_all(self.pending->0, later)),
            ),
            (RetryPhase::AwaitingChange, RetryInputView::Watcher(event)) => Some(
                (
                    RetryView { pending: Some(event), ..self.at(RetryPhase::Filtering) },
                    RetryActionView::DrainWatcher,
                ),
            ),
            (RetryPhase::AwaitingChange, RetryInputView::Shutdown) => Some(
                self.over(RetryActionView::Shutdown),
            ),
            (RetryPhase::AwaitingChange, RetryInputView::WatcherClosed) => Some(
                self.over(RetryActionView::Shutdown),
            ),
            (RetryPhase::Restarting, RetryInputView::Restarted) => Some(
                (self.at(RetryPhase::CheckingExit), RetryActionView::TryExit),
            ),
            (RetryPhase::Restarting, RetryInputView::RestartFailed(causes)) => if causes.contains(
                Cause::BrokenPipe,
            ) || causes.contains(Cause::RecoveryFailed) {
                Some((self.at(RetryPhase::AwaitingExit), RetryActionView::AwaitExit))
            } else {
                Some(self.over(RetryActionView::Fail))
            },
            (RetryPhase::CheckingExit, RetryInputView::ExitStatus(None)) => Some(
                self.over(RetryActionView::Restarted(self.pending)),
            ),
            (RetryPhase::CheckingExit, RetryInputView::ExitStatus(Some(status))) => Some(
                self.crashed(status),
            ),
            (RetryPhase::AwaitingExit, RetryInputView::Exited(status)) => Some(self.crashed(status)),
            (RetryPhase::AwaitingExit, RetryInputView::Shutdown) => Some(
                self.over(RetryActionView::Shutdown),
            ),
            (RetryPhase::AwaitingExit, RetryInputView::ExitChannelClosed) => Some(
                self.over(RetryActionView::Shutdown),
            ),
            (RetryPhase::Collecting(status, affected), RetryInputView::Drained(events)) => Some(
                self.collected(status, affected, events),
            ),
            _ => None,
        }
    }

    /// What always holds of a replacement.
    pub open spec fn inv(self) -> bool {
        &&& self.phase is Filtering ==> self.pending is Some
        &&& self.phase is Filtering || self.phase is AwaitingChange ==> !self.first_retry
            && !self.restart_unchanged
    }
}

/// Whatever happens, the invariant of a replacement is kept.
pub proof fn retry_invariant_is_kept(r: RetryView, input: RetryInputView)
    requires
        r.inv(),
    ensures
        r.next(input) is Some ==> (r.next(input)->0).0.inv(),
{
}

/// A session is replaced only once a delay is over, and after an attempt has failed only with a
/// state that differs from those that were tried, unless it is to be replaced persistently.
pub proof fn crash_loop_waits_for_a_change(r: RetryView, input: RetryInputView)
    requires
        r.inv(),
        r.next(input) is Some,
        (r.next(input)->0).1 is Restart,
    ensures
        r.phase is Delaying ==> input is DelayOver && (r.first_retry || r.restart_unchanged),
        !(r.phase is Delaying) ==> r.phase is Filtering,
        !r.first_retry && !r.restart_unchanged ==> {
            let newest = merged_all(r.pending->0, input->Drained_0);
            &&& r.phase is Filtering
            &&& !newest.is_applied(r.attempted, r.attempted_files)
            &&& (r.next(input)->0).0.pending == Some(newest.pruned(r.attempted))
        },
{
}

/// After each exit of a new session a new delay comes before anything else.
pub proof fn every_crash_is_followed_by_a_delay(r: RetryView, input: RetryInputView)
    requires
        r.phase is Collecting,
        r.next(input) is Some,
    ensures
        (r.next(input)->0).0.phase is Delaying,
        (r.next(input)->0).1 is ReportAndDelay,
{
}

/// A watcher event that comes during the delay is used by the next attempt.
pub proof fn delayed_events_are_used(r: RetryView, event: ReloadView)
    requires
        r.phase is Delaying,
        r.first_retry || r.restart_unchanged,
    ensures
        ({
            let after = (r.next(RetryInputView::Watcher(event))->0).0;
            &&& after.phase is Delaying
            &&& after.pending == accumulated(r.pending, event)
            &&& (after.next(RetryInputView::DelayOver)->0).1 == RetryActionView::Restart(
                Some(event.haskell_files),
            )
        }),
{
}

/// A replacement at its beginning.
pub open spec fn beginning(initial: Option<ReloadView>, restart_unchanged: bool) -> RetryView {
    RetryView {
        restart_unchanged,
        pending: initial,
        attempted: Map::empty(),
        attempted_files: None,
        first_retry: true,
        phase: RetryPhase::Delaying,
    }
}

/// A replacement after these inputs, what is to be done then, and the events with which sessions were
/// started, if any. Nothing, if one of the inputs does not answer what the replacement waits for.
pub open spec fn retry_run(initial: Option<ReloadView>, restart_unchanged: bool, inputs: Seq<RetryInputView>) -> Option<
    (RetryView, RetryActionView, Seq<Option<ReloadView>>),
>
    decreases inputs.len(),
{
    if inputs.len() == 0 {
        Some((beginning(initial, restart_unchanged), RetryActionView::Delay, seq![]))
    } else {
        match retry_run(initial, restart_unchanged, inputs.drop_last()) {
            Some((r, _, used)) => match r.next(inputs.last()) {
                Some((after, action)) => Some(
                    (
                        after,
                        action,
                        if action is Restart {
                            used.push(after.pending)
                        } else {
                            used
                        },
                    ),
                ),
                None => None,
            },
            None => None,
        }
    }
}

/// The newest file states among these events.
pub open spec fn tried_states(used: Seq<Option<ReloadView>>) -> Map<Key, FileState>
    decreases used.len(),
{
    if used.len() == 0 {
        Map::empty()
    } else {
        match used.last() {
            Some(event) => tried_states(used.drop_last()).union_prefer_right(event.states),
            None => tried_states(used.drop_last()),
        }
    }
}

/// The Haskell files of the last of these events.
pub open spec fn tried_files(used: Seq<Option<ReloadView>>) -> Option<Seq<Seq<char>>>
    decreases used.len(),
{
    if used.len() == 0 {
        None
    } else {
        match used.last() {
            Some(event) => Some(event.haskell_files),
            None => tried_files(used.drop_last()),
        }
    }
}

/// How often a delay was over among these inputs.
pub open spec fn delays(inputs: Seq<RetryInputView>) -> nat
    decreases inputs.len(),
{
    if inputs.len() == 0 {
        0
    } else if inputs.last() is DelayOver {
        delays(inputs.drop_last()) + 1
    } else {
        delays(inputs.drop_last())
    }
}

/// Whether a session was started with something that differs from all before it.
pub open spec fn tries_a_change(used: Seq<Option<ReloadView>>, i: int) -> bool {
    used[i] is Some && !used[i]->0.is_applied(tried_states(used.take(i)), tried_files(used.take(i)))
}

/// What a replacement knows of the sessions that it has started.
spec fn accounts(r: RetryView, used: Seq<Option<ReloadView>>, over: nat) -> bool {
    &&& r.first_retry == (used.len() == 0)
    &&& match r.phase {
        RetryPhase::Over => used.len() <= over,
        RetryPhase::Restarting | RetryPhase::CheckingExit | RetryPhase::AwaitingExit => {
            &&& used.len() == over
            &&& used.len() > 0
            &&& r.pending == used.last()
            &&& r.attempted == tried_states(used.drop_last())
            &&& r.attempted_files == tried_files(used.drop_last())
        },
        _ => {
            &&& r.attempted == tried_states(used)
            &&& r.attempted_files == tried_files(used)
            &&& if r.phase is Filtering || r.phase is AwaitingChange {
                used.len() + 1 == over
            } else {
                used.len() == over
            }
        },
    }
}

proof fn lemma_filter_all<A>(s: Seq<A>, p: spec_fn(A) -> bool)
    requires
        forall|i: int| 0 <= i < s.len() ==> p(#[trigger] s[i]),
    ensures
        s.filter(p) == s,
    decreases s.len(),
{
    reveal(Seq::filter);
    if s.len() > 0 {
        let before = s.drop_last();
        assert forall|i: int| 0 <= i < before.len() implies p(#[trigger] before[i]) by {
            assert(before[i] == s[i]);
        }
        lemma_filter_all(before, p);
        assert(p(s[s.len() - 1]));
        assert(before.push(s.last()) =~= s);
    } else {
        assert(s.filter(p) =~= s);
    }
}

proof fn lemma_pruned_is_applied(event: ReloadView, applied: Map<Key, FileState>, files: Option<Seq<Seq<char>>>)
    ensures
        event.pruned(applied).is_applied(applied, files) == event.is_applied(applied, files),
{
    let p = |e: FileEventView| lookup(event.states, e.path_key()) != lookup(applied, e.path_key());
    let kept = event.pruned(applied);
    assert(kept.events == event.events.filter(p));
    event.events.filter_lemma(p);
    lemma_filter_all(kept.events, p);
    assert(kept.unapplied(applied) == kept.events.filter(p));
}

proof fn lemma_retry_run(initial: Option<ReloadView>, restart_unchanged: bool, inputs: Seq<RetryInputView>)
    requires
        retry_run(initial, restart_unchanged, inputs) is Some,
    ensures
        ({
            let (r, _, used) = retry_run(initial, restart_unchanged, inputs)->0;
            &&& r.inv()
            &&& r.restart_unchanged == restart_unchanged
            &&& accounts(r, used, delays(inputs))
            &&& !restart_unchanged ==> forall|i: int| 0 < i < used.len() ==> #[trigger] tries_a_change(used, i)
        }),
    decreases inputs.len(),
{
    if inputs.len() > 0 {
        lemma_retry_run(initial, restart_unchanged, inputs.drop_last());
        let (r, _, used) = retry_run(initial, restart_unchanged, inputs.drop_last())->0;
        let input = inputs.last();
        let (after, action) = r.next(input)->0;
        if action is Restart {
            let more = used.push(after.pending);
            assert(more.drop_last() =~= used);
            if !restart_unchanged {
                assert forall|i: int| 0 < i < more.len() implies #[trigger] tries_a_change(more, i) by {
                    if i < used.len() {
                        assert(tries_a_change(used, i));
                        assert(more.take(i) =~= used.take(i));
                        assert(more[i] == used[i]);
                    } else {
                        assert(more.take(i) =~= used);
                        crash_loop_waits_for_a_change(r, input);
                        lemma_pruned_is_applied(
                            merged_all(r.pending->0, input->Drained_0),
                            r.attempted,
                            r.attempted_files,
                        );
                    }
                }
            }
        }
    }
}

/// From its beginning and whatever happens, a replacement starts no more sessions than there were delays
/// that came to their end; and unless it goes on persistently, each session but the first is started with
/// something that differs from all that was tried before it.
pub proof fn crash_loop_ends_with_a_change(
    initial: Option<ReloadView>,
    restart_unchanged: bool,
    inputs: Seq<RetryInputView>,
)
    requires
        retry_run(initial, restart_unchanged, inputs) is Some,
    ensures
        ({
            let (_, _, used) = retry_run(initial, restart_unchanged, inputs)->0;
            &&& used.len() <= delays(inputs)
            &&& !restart_unchanged ==> forall|i: int| 0 < i < used.len() ==> #[trigger] tries_a_change(used, i)
        }),
{
    lemma_retry_run(initial, restart_unchanged, inputs);
}

impl Retry {
    /// Starts to replace a session, which was dispatching `initial_event` if any.
    pub fn new(initial_event: Option<WatcherEvent>, restart_unchanged: bool) -> (r: (Retry, RetryAction))
        ensures
            r.0@ == beginning(optional(initial_event), restart_unchanged),
            r.0@.inv(),
            r.1@ == RetryActionView::Delay,
    {
        (
            Retry {
                restart_unchanged,
                pending: initial_event,
                attempted_states: SortedMap::new(),
                attempted_haskell_files: None,
                first_retry: true,
                phase: Phase::Delaying,
            },
            RetryAction::Delay,
        )
    }

    fn accumulate(&mut self, newer: WatcherEvent)
        ensures
            final(self)@ == (RetryView { pending: accumulated(old(self)@.pending, newer@), ..old(self)@ }),
    {
        match self.pending.take() {
            Some(mut pending) => {
                pending.merge(newer);
                self.pending = Some(pending);
            },
            None => {
                self.pending = Some(newer);
            },
        }
    }

    fn attempt(&mut self) -> (r: RetryAction)
        ensures
            (final(self)@, r@) == old(self)@.attempt(),
    {
        self.first_retry = false;
        self.phase = Phase::Restarting;
        match &self.pending {
            Some(event) => RetryAction::Restart(Some(event.haskell_files())),
            None => RetryAction::Restart(None),
        }
    }

    fn after_delay(&mut self) -> (r: RetryAction)
        ensures
            (final(self)@, r@) == old(self)@.after_delay(),
    {
        if self.first_retry || self.restart_unchanged {
            return self.attempt();
        }
        match self.pending {
            Some(_) => {
                self.phase = Phase::Filtering;
                RetryAction::DrainWatcher
            },
            None => {
                self.phase = Phase::AwaitingChange;
                RetryAction::AwaitWatcher
            },
        }
    }

    fn filter(&mut self, newest: WatcherEvent) -> (r: RetryAction)
        ensures
            (final(self)@, r@) == old(self)@.filter(newest@),
    {
        let mut event = newest;
        if event.discard_applied(&self.attempted_states, &self.attempted_haskell_files) {
            self.pending = None;
            self.phase = Phase::AwaitingChange;
            RetryAction::AwaitWatcher
        } else {
            self.pending = Some(event);
            self.attempt()
        }
    }

    fn crashed(&mut self, status: i32) -> (r: RetryAction)
        ensures
            (final(self)@, r@) == old(self)@.crashed(status),
    {
        match self.pending.take() {
            Some(event) => {
                let affected = event.affected_paths();
                event.mark_applied(&mut self.attempted_states, &mut self.attempted_haskell_files);
                self.phase = Phase::Collecting(status, affected);
            },
            None => {
                self.phase = Phase::Collecting(status, None);
            },
        }
        RetryAction::DrainWatcher
    }

    fn collected(
        &mut self,
        status: i32,
        affected: Option<String>,
        events: Vec<WatcherEvent>,
    ) -> (r: RetryAction)
        ensures
            (final(self)@, r@) == old(self)@.collected(status, text_view(affected), event_views(events@)),
    {
        let ghost all = event_views(events@);
        let mut rest = events;
        self.pending = if rest.len() == 0 {
            None
        } else {
            let mut newest = rest.remove(0);
            proof {
                assert(event_views(rest@) =~= all.skip(1));
            }
            drain_pending(&mut newest, &rest);
            if newest.discard_applied(&self.attempted_states, &self.attempted_haskell_files) {
                None
            } else {
                Some(newest)
            }
        };
        let recovery = if self.restart_unchanged {
            Recovery::Persistent
        } else if self.pending.is_some() {
            Recovery::Queued
        } else {
            Recovery::CrashLoop
        };
        self.phase = Phase::Delaying;
        RetryAction::ReportAndDelay(status, affected, recovery)
    }

    fn finish(&mut self, result: RetryResult) -> (r: RetryAction)
        ensures
            (final(self)@, r@) == old(self)@.over(RetryAction::Finish(result)@),
    {
        self.phase = Phase::Over;
        RetryAction::Finish(result)
    }

    /// Takes what happened while a session is replaced and says what is to be done next. Nothing
    /// changes, and nothing is to be done, if the input does not answer what was last to be done.
    #[verifier::rlimit(40)]
    pub fn wait_and_restart(&mut self, input: RetryInput) -> (r: Option<RetryAction>)
        requires
            old(self)@.inv(),
        ensures
            final(self)@.inv(),
            match r {
                Some(action) => old(self)@.next(input@) == Some((final(self)@, action@)),
                None => old(self)@.next(input@) is None && final(self)@ == old(self)@,
            },
    {
        let mut phase = Phase::Over;
        std::mem::swap(&mut phase, &mut self.phase);
        match (phase, input) {
            (Phase::Delaying, RetryInput::DelayOver) => Some(self.after_delay()),
            (Phase::Delaying, RetryInput::Watcher(event)) => {
                self.accumulate(event);
                self.phase = Phase::Delaying;
                Some(RetryAction::KeepDelaying)
            },
            (Phase::Delaying, RetryInput::Shutdown) => Some(self.finish(RetryResult::Shutdown)),
            (Phase::Delaying, RetryInput::WatcherClosed) => Some(self.finish(RetryResult::Shutdown)),
            (Phase::Filtering, RetryInput::Drained(later)) => {
                match self.pending.take() {
                    Some(mut newest) => {
                        drain_pending(&mut newest, &later);
                        Some(self.filter(newest))
                    },
                    None => Some(RetryAction::Fail),
                }
            },
            (Phase::AwaitingChange, RetryInput::Watcher(event)) => {
                self.pending = Some(event);
                self.phase = Phase::Filtering;
                Some(RetryAction::DrainWatcher)
            },
            (Phase::AwaitingChange, RetryInput::Shutdown) => Some(self.finish(RetryResult::Shutdown)),
            (Phase::AwaitingChange, RetryInput::WatcherClosed) => Some(
                self.finish(RetryResult::Shutdown),
            ),
            (Phase::Restarting, RetryInput::Restarted) => {
                self.phase = Phase::CheckingExit;
                Some(RetryAction::TryExit)
            },
            (Phase::Restarting, RetryInput::RestartFailed(report)) => {
                if is_broken_pipe(&report) || is_recovery_failure(&report) {
                    self.phase = Phase::AwaitingExit;
                    Some(RetryAction::AwaitExit)
                } else {
                    Some(RetryAction::Fail)
                }
            },
            (Phase::CheckingExit, RetryInput::ExitStatus(None)) => {
                let used = match &self.pending {
                    Some(event) => Some(event.duplicate()),
                    None => None,
                };
                Some(self.finish(RetryResult::Restarted(used)))
            },
            (Phase::CheckingExit, RetryInput::ExitStatus(Some(status))) => Some(self.crashed(status)),
            (Phase::AwaitingExit, RetryInput::Exited(status)) => Some(self.crashed(status)),
            (Phase::AwaitingExit, RetryInput::Shutdown) => Some(self.finish(RetryResult::Shutdown)),
            (Phase::AwaitingExit, RetryInput::ExitChannelClosed) => Some(
                self.finish(RetryResult::Shutdown),
            ),
            (Phase::Collecting(status, affected), RetryInput::Drained(events)) => Some(
                self.collected(status, affected, events),
            ),
            (phase, _) => {
                self.phase = phase;
                None
            },
        }
    }
}

/// Once the delay is over a session is started at once if it is the first attempt or is to go on persistently, with
/// the newest files that came. Otherwise what came is looked at, and if nothing came it is waited for.
pub proof fn attempts_are_made_after_the_delay(r: RetryView)
    requires
        r.phase is Delaying,
    ensures
        ({
            let after = r.next(RetryInputView::DelayOver);
            let at_once = r.first_retry || r.restart_unchanged;
            &&& after is Some
            &&& (after->0).1 is Restart <==> at_once
            &&& (after->0).1 is DrainWatcher <==> !at_once && r.pending is Some
            &&& (after->0).1 is AwaitWatcher <==> !at_once && r.pending is None
            &&& at_once ==> (after->0).1->Restart_0 == (match r.pending {
                Some(event) => Some(event.haskell_files),
                None => None,
            }) && !(after->0).0.first_retry
            &&& (after->0).0.pending == r.pending
            &&& (after->0).0.attempted == r.attempted && (after->0).0.attempted_files == r.attempted_files
        }),
{
}

/// What came after a failed attempt leads to another one exactly if it differs from what was tried, and then without
/// the changes that do not.
pub proof fn only_news_lead_to_another_attempt(r: RetryView, later: Seq<ReloadView>, e: FileEventView)
    requires
        r.phase is Filtering,
        r.pending is Some,
        sorted::<FileEvent>(merged_all(r.pending->0, later).events),
    ensures
        ({
            let newest = merged_all(r.pending->0, later);
            let after = r.next(RetryInputView::Drained(later));
            let stale = r.attempted_files is Some && same_files(r.attempted_files->0, newest.haskell_files) && forall|
                c: FileEventView,
            | #[trigger]
                newest.events.contains(c) ==> lookup(newest.states, c.path_key()) == lookup(
                    r.attempted,
                    c.path_key(),
                );
            &&& after is Some
            &&& (after->0).1 is AwaitWatcher <==> stale
            &&& (after->0).1 == RetryActionView::Restart(Some(newest.haskell_files)) <==> !stale
            &&& stale ==> (after->0).0.pending is None && (after->0).0.phase is AwaitingChange
            &&& !stale ==> (after->0).0.pending is Some && {
                let used = (after->0).0.pending->0;
                &&& used.events.contains(e) <==> newest.events.contains(e) && lookup(newest.states, e.path_key())
                    != lookup(r.attempted, e.path_key())
                &&& used.states == newest.states
                &&& used.haskell_files == newest.haskell_files
                &&& used.source_snapshot == newest.source_snapshot
                &&& used.startup_retry == newest.startup_retry
            }
            &&& (after->0).0.attempted == r.attempted && (after->0).0.attempted_files == r.attempted_files
        }),
{
    let newest = merged_all(r.pending->0, later);
    applied_means_nothing_differs(newest, r.attempted, r.attempted_files);
    only_applied_changes_are_dropped(newest, r.attempted, e);
}

/// A session that was started and has not exited replaces the other one, and what it was started with is told.
/// One that could not be started on a broken pipe, or because its prompt could not be trusted, is waited for; any
/// other failure is returned.
pub proof fn started_sessions_replace_the_dead_one(r: RetryView, causes: Seq<Cause>)
    requires
        r.phase is Restarting,
    ensures
        ({
            let look = r.next(RetryInputView::Restarted);
            let alive = (look->0).0.next(RetryInputView::ExitStatus(None));
            let failed = r.next(RetryInputView::RestartFailed(causes));
            let expected = causes.contains(Cause::BrokenPipe) || causes.contains(Cause::RecoveryFailed);
            &&& look is Some && (look->0).1 is TryExit
            &&& alive is Some && (alive->0).1 == RetryActionView::Restarted(r.pending)
            &&& failed is Some
            &&& (failed->0).1 is AwaitExit <==> expected
            &&& (failed->0).1 is Fail <==> !expected
            &&& (failed->0).0.pending == r.pending
        }),
{
}

/// A new session that exits, too, leaves what it was started with recorded as tried. What came meanwhile is pending if
/// it differs from that, and the report tells the status, the paths of the attempt and what comes next: the session
/// is replaced persistently, or with the newer state, or once something changes.
pub proof fn crashes_are_reported(
    r: RetryView,
    status: i32,
    events: Seq<ReloadView>,
    waited: bool,
)
    requires
        if waited {
            r.phase is AwaitingExit
        } else {
            r.phase is CheckingExit
        },
    ensures
        ({
            let crashed = r.next(
                if waited {
                    RetryInputView::Exited(status)
                } else {
                    RetryInputView::ExitStatus(Some(status))
                },
            );
            let after = (crashed->0).0;
            let end = after.next(RetryInputView::Drained(events));
            let newest = merged_all(events[0], events.skip(1));
            let news = events.len() > 0 && !newest.is_applied(after.attempted, after.attempted_files);
            let affected = match r.pending {
                Some(event) => event.affected_paths(),
                None => None,
            };
            &&& crashed is Some && (crashed->0).1 is DrainWatcher
            &&& r.pending is Some ==> after.attempted == r.attempted.union_prefer_right(r.pending->0.states)
                && after.attempted_files == Some(r.pending->0.haskell_files)
            &&& r.pending is None ==> after.attempted == r.attempted && after.attempted_files == r.attempted_files
            &&& end is Some && (end->0).0.phase is Delaying
            &&& (end->0).1 == RetryActionView::ReportAndDelay(
                status,
                affected,
                if r.restart_unchanged {
                    Recovery::Persistent
                } else if news {
                    Recovery::Queued
                } else {
                    Recovery::CrashLoop
                },
            )
            &&& (end->0).0.pending is Some <==> news
            &&& news ==> (end->0).0.pending == Some(newest.pruned(after.attempted))
            &&& (end->0).0.first_retry == r.first_retry
        }),
{
}

/// While it waits, a replacement ends at a shutdown, and once no event or exit will be reported any more. Events that
/// come during the delay are kept with those before them; one that comes later is looked at with those behind it.
pub proof fn replacements_wait_for_events(r: RetryView, event: ReloadView)
    ensures
        r.phase is Delaying || r.phase is AwaitingChange ==> (r.next(RetryInputView::Shutdown) matches Some((_, a))
            && a is Shutdown) && (r.next(RetryInputView::WatcherClosed) matches Some((_, a)) && a is Shutdown),
        r.phase is AwaitingExit ==> (r.next(RetryInputView::Shutdown) matches Some((_, a)) && a is Shutdown) && (r.next(
            RetryInputView::ExitChannelClosed,
        ) matches Some((_, a)) && a is Shutdown),
        r.phase is Delaying ==> (r.next(RetryInputView::Watcher(event)) matches Some((after, a)) && a is KeepDelaying
            && after.phase is Delaying && after.pending == Some(
            match r.pending {
                Some(pending) => pending.merged(event),
                None => event,
            },
        ) && after.first_retry == r.first_retry),
        r.phase is AwaitingChange ==> (r.next(RetryInputView::Watcher(event)) matches Some((after, a)) && a is DrainWatcher
            && after.phase is Filtering && after.pending == Some(event)),
{
}

/// A replacement waits for what it asked for, and is over exactly when it returns.
pub proof fn retries_wait_for_what_they_do(r: RetryView, input: RetryInputView)
    requires
        r.next(input) is Some,
    ensures
        (r.next(input)->0).0.phase is Over <==> (r.next(input)->0).1 is Restarted || (r.next(input)->0).1 is Shutdown || (r.next(input)->0).1 is Fail,
        (r.next(input)->0).0.phase is Delaying <==> (r.next(input)->0).1 is Delay || (r.next(input)->0).1 is KeepDelaying || (r.next(input)->0).1
            is ReportAndDelay,
        (r.next(input)->0).0.phase is Filtering || (r.next(input)->0).0.phase is Collecting <==> (r.next(input)->0).1
            is DrainWatcher,
        (r.next(input)->0).0.phase is Collecting <==> (r.phase is CheckingExit || r.phase is AwaitingExit) && (r.next(
            input,
        )->0).1 is DrainWatcher,
        (r.next(input)->0).0.phase is AwaitingChange <==> (r.next(input)->0).1 is AwaitWatcher,
        (r.next(input)->0).0.phase is Restarting <==> (r.next(input)->0).1 is Restart,
        (r.next(input)->0).0.phase is CheckingExit <==> (r.next(input)->0).1 is TryExit,
        (r.next(input)->0).0.phase is AwaitingExit <==> (r.next(input)->0).1 is AwaitExit,
{
}

} // verus!
