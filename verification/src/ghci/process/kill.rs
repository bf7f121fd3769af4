//! Ending the whole process tree of a command, also processes that left its process group.

use crate::ghci::process::{
    in_family, lists_tree, parse_process_stat, process_snapshot, process_tree, stat_of, table_of, ProcessStat,
    StatEntry,
};
use crate::pids::{ascending, ascending_keys};
use std::collections::BTreeMap;
use vstd::prelude::*;

verus! {

broadcast use {vstd::laws_cmp::group_laws_cmp, vstd::std_specs::btree::group_btree_axioms};

/// Why a signal or a handle was refused.
#[derive(Clone, Copy, Debug, PartialEq, Eq, Structural)]
pub enum SignalError {
    /// No such process is left.
    NoSuchProcess,
    /// Anything else.
    Other,
}

/// Whether a signal did what it was sent for. A process or group that is gone needs no signal.
pub fn kill_process_group(sent: Result<(), SignalError>) -> (r: bool)
    ensures
        r == (sent is Ok || sent->Err_0 == SignalError::NoSuchProcess),
{
    match sent {
        Ok(()) => true,
        Err(SignalError::NoSuchProcess) => true,
        Err(SignalError::Other) => false,
    }
}

/// The process that a process ID names now, given its status line if that could be read.
pub fn current_process_stat(pid: i32, stat: Option<&str>) -> (r: Option<ProcessStat>)
    ensures
        r == (match stat {
            Some(stat) => stat_of(pid, stat@),
            None => None,
        }),
{
    match stat {
        Some(stat) => parse_process_stat(pid, stat),
        None => None,
    }
}

/// Whether a process ID still names the process that was expected: the one that started when that
/// one did.
pub open spec fn is_identity(expected: ProcessStat, current: Option<ProcessStat>) -> bool {
    current is Some && current->0.start_time == expected.start_time
}

/// Whether a process ID still names the process that was expected.
pub fn process_identity_matches(expected: ProcessStat, current: Option<ProcessStat>) -> (r: bool)
    ensures
        r == is_identity(expected, current),
{
    match current {
        Some(current) => current.start_time == expected.start_time,
        None => false,
    }
}

/// How a process is held on to.
#[derive(Clone, Copy, Debug, PartialEq, Eq, Structural)]
pub enum Tracking {
    /// The process is gone, or its process ID names another one by now.
    Gone,
    /// By a handle, which names no other process even when the process ID is used again.
    Handle,
    /// By its process ID, which has to be checked before each signal.
    ProcessId,
}

/// How a process can be held on to. `opened` tells whether a handle for its process ID was opened,
/// and `current` what that process ID named once it was. A system without such handles leaves the
/// process ID.
pub fn track_process(
    expected: ProcessStat,
    opened: Result<(), SignalError>,
    current: Option<ProcessStat>,
) -> (r: Tracking)
    ensures
        r == (match opened {
            Ok(_) => if is_identity(expected, current) {
                Tracking::Handle
            } else {
                Tracking::Gone
            },
            Err(SignalError::NoSuchProcess) => Tracking::Gone,
            Err(SignalError::Other) => Tracking::ProcessId,
        }),
{
    match opened {
        Ok(()) => if process_identity_matches(expected, current) {
            Tracking::Handle
        } else {
            Tracking::Gone
        },
        Err(SignalError::NoSuchProcess) => Tracking::Gone,
        Err(SignalError::Other) => Tracking::ProcessId,
    }
}

/// How a signal is sent to a process that is held on to.
#[derive(Clone, Copy, Debug, PartialEq, Eq, Structural)]
pub enum SignalWay {
    /// Through the handle.
    Handle,
    /// To the process ID.
    ProcessId,
    /// Not at all: the process ID names another process.
    Skip,
}

/// How a signal is sent to a process. `current` is what its process ID names now.
pub fn signal_tracked_process(has_handle: bool, expected: ProcessStat, current: Option<ProcessStat>) -> (r: SignalWay)
    ensures
        r == (if has_handle {
            SignalWay::Handle
        } else if is_identity(expected, current) {
            SignalWay::ProcessId
        } else {
            SignalWay::Skip
        }),
{
    if has_handle {
        SignalWay::Handle
    } else if process_identity_matches(expected, current) {
        SignalWay::ProcessId
    } else {
        SignalWay::Skip
    }
}

/// What went wrong first.
#[derive(Clone, Copy, Debug, PartialEq, Eq, Structural)]
pub enum KillFailure {
    /// The process table could not be read.
    Table,
    /// The process with this ID could not be killed.
    Process(i32),
    /// The process group could not be killed.
    Group,
}

/// What is to be done next.
#[derive(Clone, Copy, Debug, PartialEq, Eq, Structural)]
pub enum KillAction {
    /// Stop the process group.
    StopGroup,
    /// Read the process table.
    ReadTable,
    /// Hold on to this process.
    Track(ProcessStat),
    /// Stop this process.
    Stop(ProcessStat),
    /// Kill this process.
    Kill(ProcessStat),
    /// Kill the process group.
    KillGroup,
    /// Return, with what went wrong first.
    Finish(Option<KillFailure>),
}

/// What came of it.
#[derive(Debug)]
pub enum KillInput {
    /// Whether the signal did what it was sent for, or the process could be held on to.
    Answer(bool),
    /// What was read of the process table.
    Table(Vec<StatEntry>),
    /// The process table could not be read.
    TableFailed,
}

/// The model of a [`KillInput`].
pub enum KillInputView {
    Answer(bool),
    Table(Map<i32, ProcessStat>),
    TableFailed,
}

impl View for KillInput {
    type V = KillInputView;

    open spec fn view(&self) -> KillInputView {
        match self {
            KillInput::Answer(answer) => KillInputView::Answer(*answer),
            KillInput::Table(entries) => KillInputView::Table(table_of(entries@)),
            KillInput::TableFailed => KillInputView::TableFailed,
        }
    }
}

/// What was last to be done.
pub enum KillPhase {
    /// The process group was to be stopped.
    StoppingGroup,
    /// The process table was to be read.
    ReadingTable,
    /// The process at place `at` of this pass was to be held on to.
    Tracking { pass: Seq<ProcessStat>, at: int },
    /// The process at place `at` of this pass was to be stopped.
    Stopping { pass: Seq<ProcessStat>, at: int },
    /// This process was to be killed; the captured processes in `left` are still to be.
    Killing { current: i32, left: Set<i32> },
    /// The process group was to be killed.
    KillingGroup,
    /// Nothing is left.
    Over,
}

/// The state of ending a process tree.
pub struct KillView {
    pub process_id: i32,
    pub process_group_id: i32,
    /// The processes that are held on to, by process ID.
    pub captured: Map<i32, ProcessStat>,
    pub failure: Option<KillFailure>,
    pub phase: KillPhase,
}

/// The place of the first process at or after `at` that is not captured.
pub open spec fn next_new(pass: Seq<ProcessStat>, at: int, captured: Map<i32, ProcessStat>) -> int
    decreases pass.len() - at,
{
    if 0 <= at < pass.len() && captured.contains_key(pass[at].pid) {
        next_new(pass, at + 1, captured)
    } else {
        at
    }
}

impl KillView {
    /// The state with another phase.
    pub open spec fn at(self, phase: KillPhase) -> KillView {
        KillView { phase, ..self }
    }

    /// The state with a failure, unless one came before.
    pub open spec fn failing(self, failure: KillFailure) -> KillView {
        KillView {
            failure: match self.failure {
                Some(first) => Some(first),
                None => Some(failure),
            },
            ..self
        }
    }

    /// Whether the kills go on so: the captured processes in `left` are killed from the highest
    /// process ID down, and the process group after them.
    pub open spec fn kills(self, left: Set<i32>, post: KillView, action: KillAction) -> bool {
        if left.len() == 0 {
            post == self.at(KillPhase::KillingGroup) && action == KillAction::KillGroup
        } else {
            exists|k: i32| #[trigger]
                left.contains(k) && (forall|j: i32| #[trigger] left.contains(j) ==> j <= k) && post == self.at(
                    KillPhase::Killing { current: k, left: left.remove(k) },
                ) && action == KillAction::Kill(self.captured[k])
        }
    }

    /// Whether a pass goes on so from place `at`. `found` tells whether it came upon a process that
    /// was not captured; another pass follows if it did, and the kills if it did not.
    pub open spec fn passes(
        self,
        pass: Seq<ProcessStat>,
        at: int,
        found: bool,
        post: KillView,
        action: KillAction,
    ) -> bool {
        let i = next_new(pass, at, self.captured);
        if i < pass.len() {
            post == self.at(KillPhase::Tracking { pass, at: i }) && action == KillAction::Track(pass[i])
        } else if found {
            post == self.at(KillPhase::ReadingTable) && action == KillAction::ReadTable
        } else {
            self.kills(self.captured.dom(), post, action)
        }
    }

    /// Whether a new pass over this process table begins so.
    pub open spec fn passes_over(self, table: Map<i32, ProcessStat>, post: KillView, action: KillAction) -> bool {
        exists|pass: Seq<ProcessStat>| #[trigger]
            lists_tree(pass, self.process_id, self.process_group_id, table) && self.passes(
                pass,
                0,
                false,
                post,
                action,
            )
    }

    /// Whether the next state is `post` and `action` is to be done, after `input`.
    pub open spec fn steps(self, input: KillInputView, post: KillView, action: KillAction) -> bool {
        match (self.phase, input) {
            (KillPhase::StoppingGroup, KillInputView::Answer(_)) => post == self.at(KillPhase::ReadingTable)
                && action == KillAction::ReadTable,
            (KillPhase::ReadingTable, KillInputView::TableFailed) => self.failing(KillFailure::Table).kills(
                self.captured.dom(),
                post,
                action,
            ),
            (KillPhase::ReadingTable, KillInputView::Table(table)) => self.passes_over(table, post, action),
            (KillPhase::Tracking { pass, at }, KillInputView::Answer(held)) => if held {
                post == self.at(KillPhase::Stopping { pass, at }) && action == KillAction::Stop(pass[at])
            } else {
                self.passes(pass, at + 1, true, post, action)
            },
            (KillPhase::Stopping { pass, at }, KillInputView::Answer(_)) => (KillView {
                captured: self.captured.insert(pass[at].pid, pass[at]),
                ..self
            }).passes(pass, at + 1, true, post, action),
            (KillPhase::Killing { current, left }, KillInputView::Answer(killed)) => if killed {
                self.kills(left, post, action)
            } else {
                self.failing(KillFailure::Process(current)).kills(left, post, action)
            },
            (KillPhase::KillingGroup, KillInputView::Answer(killed)) => {
                let last = if killed {
                    self
                } else {
                    self.failing(KillFailure::Group)
                };
                post == last.at(KillPhase::Over) && action == KillAction::Finish(last.failure)
            },
            _ => false,
        }
    }

    /// Whether the input answers what was last to be done.
    pub open spec fn answers(self, input: KillInputView) -> bool {
        match self.phase {
            KillPhase::ReadingTable => !(input is Answer),
            KillPhase::Over => false,
            _ => input is Answer,
        }
    }

    /// What always holds: the places lie in the pass, what is still to be killed is captured, and
    /// each captured process stands under its process ID.
    pub open spec fn inv(self) -> bool {
        &&& forall|k: i32| #[trigger] self.captured.contains_key(k) ==> self.captured[k].pid == k
        &&& match self.phase {
            KillPhase::Tracking { pass, at } => 0 <= at < pass.len() && !self.captured.contains_key(
                pass[at].pid,
            ),
            KillPhase::Stopping { pass, at } => 0 <= at < pass.len() && !self.captured.contains_key(
                pass[at].pid,
            ),
            KillPhase::Killing { current, left } => self.captured.contains_key(current)
                && left.subset_of(self.captured.dom()) && !left.contains(current),
            _ => true,
        }
    }
}

proof fn lemma_next_new(pass: Seq<ProcessStat>, at: int, captured: Map<i32, ProcessStat>)
    requires
        0 <= at <= pass.len(),
    ensures
        at <= next_new(pass, at, captured) <= pass.len(),
        next_new(pass, at, captured) < pass.len() ==> !captured.contains_key(
            pass[next_new(pass, at, captured)].pid,
        ),
        forall|i: int|
            at <= i < next_new(pass, at, captured) ==> captured.contains_key((#[trigger] pass[i]).pid),
    decreases pass.len() - at,
{
    if at < pass.len() && captured.contains_key(pass[at].pid) {
        lemma_next_new(pass, at + 1, captured);
    }
}

/// Every captured process is killed before the process group, and the group before the end: the
/// kills begin with all captured processes, each kill takes one from those that are left, the group
/// comes when none is left, and nothing comes after the group.
pub proof fn every_captured_process_is_killed(
    pre: KillView,
    input: KillInputView,
    post: KillView,
    action: KillAction,
)
    requires
        pre.inv(),
        pre.steps(input, post, action),
        pre.captured.dom().finite(),
        pre.phase is Killing ==> pre.phase->left.finite(),
    ensures
        action is Kill <==> post.phase is Killing,
        post.phase is Killing ==> action == KillAction::Kill(post.captured[post.phase->current]),
        post.phase is Killing && !(pre.phase is Killing) ==> post.captured.dom() == post.phase->left.insert(
            post.phase->current,
        ),
        pre.phase is Killing ==> post.captured == pre.captured,
        pre.phase is Killing && post.phase is Killing ==> pre.phase->left == post.phase->left.insert(
            post.phase->current,
        ),
        post.phase is KillingGroup ==> action == KillAction::KillGroup && (if pre.phase is Killing {
            pre.phase->left == Set::<i32>::empty()
        } else {
            post.captured.dom() == Set::<i32>::empty()
        }),
        action is Finish <==> pre.phase is KillingGroup,
{
    if post.phase is Killing {
        let k = post.phase->current;
        if pre.phase is Killing {
            assert(pre.phase->left =~= pre.phase->left.remove(k).insert(k));
        } else {
            assert(post.captured.dom() =~= post.captured.dom().remove(k).insert(k));
        }
    }
    if post.phase is KillingGroup {
        if pre.phase is Killing {
            vstd::set_lib::lemma_set_empty_equivalency_len(pre.phase->left);
        } else {
            vstd::set_lib::lemma_set_empty_equivalency_len(post.captured.dom());
        }
    }
}

/// A process is captured only once it was stopped, and stays captured.
pub proof fn captured_process_was_stopped(
    pre: KillView,
    input: KillInputView,
    post: KillView,
    action: KillAction,
)
    requires
        pre.inv(),
        pre.steps(input, post, action),
    ensures
        post.phase is Stopping ==> action == KillAction::Stop(post.phase->Stopping_pass[post.phase->Stopping_at]),
        match pre.phase {
            KillPhase::Stopping { pass, at } => post.captured == pre.captured.insert(pass[at].pid, pass[at]),
            _ => post.captured == pre.captured,
        },
        pre.captured.dom().subset_of(post.captured.dom()),
{
}

/// The kills begin only when the process table could not be read, or a whole pass over it came upon
/// no process of the tree that was not captured, and so stopped, already.
pub proof fn kills_follow_a_stable_pass(pre: KillView, input: KillInputView, post: KillView, action: KillAction)
    requires
        pre.inv(),
        pre.steps(input, post, action),
        !(pre.phase is Killing),
        post.phase is Killing || post.phase is KillingGroup,
    ensures
        pre.phase is ReadingTable,
        match input {
            KillInputView::Table(table) => forall|k: i32| #[trigger]
                table.contains_key(k) && in_family(k, pre.process_id, pre.process_group_id, table)
                    ==> pre.captured.contains_key(k),
            _ => input is TableFailed && post.failure is Some,
        },
{
    match input {
        KillInputView::Table(table) => {
            let pass = choose|pass: Seq<ProcessStat>| #[trigger]
                lists_tree(pass, pre.process_id, pre.process_group_id, table) && pre.passes(
                    pass,
                    0,
                    false,
                    post,
                    action,
                );
            lemma_next_new(pass, 0, pre.captured);
            assert forall|k: i32| #[trigger]
                table.contains_key(k) && in_family(k, pre.process_id, pre.process_group_id, table)
                implies pre.captured.contains_key(k) by {
                let i = choose|i: int| 0 <= i < pass.len() && pass[i].pid == k;
                assert(pass[i].pid == k);
            }
        },
        _ => {},
    }
}

/// What went wrong first is what is reported in the end.
pub proof fn first_failure_is_reported(pre: KillView, input: KillInputView, post: KillView, action: KillAction)
    requires
        pre.inv(),
        pre.steps(input, post, action),
    ensures
        pre.failure is Some ==> post.failure == pre.failure,
        action is Finish ==> action->Finish_0 == post.failure,
        pre.phase is KillingGroup && input == KillInputView::Answer(false) ==> post.failure is Some,
        pre.phase is Killing && input == KillInputView::Answer(false) ==> post.failure is Some,
{
}

/// The state at the beginning.
pub open spec fn kill_start(process_id: i32, process_group_id: i32) -> KillView {
    KillView {
        process_id,
        process_group_id,
        captured: Map::empty(),
        failure: None,
        phase: KillPhase::StoppingGroup,
    }
}

/// Whether the state at place `i` of a run is followed by the next one, after the input at that place.
pub open spec fn stepped(states: Seq<KillView>, inputs: Seq<KillInputView>, actions: Seq<KillAction>, i: int) -> bool {
    states[i].steps(inputs[i], states[i + 1], actions[i])
}

/// Whether these states and actions follow from these inputs.
pub open spec fn kill_run(states: Seq<KillView>, inputs: Seq<KillInputView>, actions: Seq<KillAction>) -> bool {
    &&& states.len() == inputs.len() + 1
    &&& actions.len() == inputs.len()
    &&& forall|i: int| 0 <= i < inputs.len() ==> #[trigger] stepped(states, inputs, actions, i)
}

/// Whether an action is among the first `n`.
pub open spec fn done(actions: Seq<KillAction>, n: int, action: KillAction) -> bool {
    exists|i: int| 0 <= i < n && #[trigger] actions[i] == action
}

/// Whether an input is a process table all of whose processes in the tree are captured.
pub open spec fn is_covered(input: KillInputView, state: KillView) -> bool {
    match input {
        KillInputView::Table(table) => forall|k: i32| #[trigger]
            table.contains_key(k) && in_family(k, state.process_id, state.process_group_id, table)
                ==> state.captured.contains_key(k),
        _ => false,
    }
}

proof fn lemma_step_keeps_inv(pre: KillView, input: KillInputView, post: KillView, action: KillAction)
    requires
        pre.inv(),
        pre.captured.dom().finite(),
        pre.phase is Killing ==> pre.phase->left.finite(),
        pre.steps(input, post, action),
    ensures
        post.inv(),
        post.captured.dom().finite(),
        post.phase is Killing ==> post.phase->left.finite(),
        post.process_id == pre.process_id,
        post.process_group_id == pre.process_group_id,
{
    match (pre.phase, input) {
        (KillPhase::ReadingTable, KillInputView::Table(table)) => {
            let pass = choose|pass: Seq<ProcessStat>| #[trigger]
                lists_tree(pass, pre.process_id, pre.process_group_id, table) && pre.passes(
                    pass,
                    0,
                    false,
                    post,
                    action,
                );
            lemma_next_new(pass, 0, pre.captured);
        },
        (KillPhase::Tracking { pass, at }, _) => {
            lemma_next_new(pass, at + 1, pre.captured);
        },
        (KillPhase::Stopping { pass, at }, _) => {
            lemma_next_new(pass, at + 1, pre.captured.insert(pass[at].pid, pass[at]));
        },
        _ => {},
    }
}

/// What holds at place `n` of a run.
spec fn reached(states: Seq<KillView>, inputs: Seq<KillInputView>, actions: Seq<KillAction>, n: int) -> bool {
    let state = states[n];
    let ending = state.phase is KillingGroup || state.phase is Over;
    &&& state.inv()
    &&& state.captured.dom().finite()
    &&& state.phase is Killing ==> state.phase->left.finite() && forall|k: i32| #[trigger]
        state.captured.contains_key(k) && !state.phase->left.contains(k) ==> done(
            actions,
            n,
            KillAction::Kill(state.captured[k]),
        )
    &&& ending ==> done(actions, n, KillAction::KillGroup) && forall|k: i32| #[trigger]
        state.captured.contains_key(k) ==> done(actions, n, KillAction::Kill(state.captured[k]))
    &&& state.phase is Killing || ending ==> state.failure is Some || exists|i: int|
        0 <= i < n && #[trigger] is_covered(inputs[i], state)
    &&& state.phase is Over ==> n > 0 && actions[n - 1] == KillAction::Finish(state.failure)
}

proof fn lemma_run(
    process_id: i32,
    process_group_id: i32,
    states: Seq<KillView>,
    inputs: Seq<KillInputView>,
    actions: Seq<KillAction>,
    n: int,
)
    requires
        kill_run(states, inputs, actions),
        states[0] == kill_start(process_id, process_group_id),
        0 <= n <= inputs.len(),
    ensures
        reached(states, inputs, actions, n),
    decreases n,
{
    if n > 0 {
        lemma_run(process_id, process_group_id, states, inputs, actions, n - 1);
        let pre = states[n - 1];
        let input = inputs[n - 1];
        let post = states[n];
        let action = actions[n - 1];
        assert(stepped(states, inputs, actions, n - 1));
        lemma_step_keeps_inv(pre, input, post, action);
        every_captured_process_is_killed(pre, input, post, action);
        captured_process_was_stopped(pre, input, post, action);
        first_failure_is_reported(pre, input, post, action);
        assert forall|a: KillAction| #[trigger] done(actions, n - 1, a) || action == a implies done(actions, n, a) by {
            if action == a {
                assert(actions[n - 1] == a);
            }
        }
        let ending = post.phase is KillingGroup || post.phase is Over;
        if post.phase is Killing || ending {
            assert forall|k: i32| #[trigger]
                post.captured.contains_key(k) && (ending || !post.phase->left.contains(k)) implies done(
                actions,
                n,
                KillAction::Kill(post.captured[k]),
            ) by {
                if pre.phase is KillingGroup || (pre.phase is Killing && !pre.phase->left.contains(k)) {
                    assert(pre.captured.contains_key(k));
                    assert(done(actions, n - 1, KillAction::Kill(post.captured[k])));
                } else {
                    assert(post.phase is Killing);
                    assert(action == KillAction::Kill(post.captured[k]));
                    assert(actions[n - 1] == action);
                }
            }
            if post.phase is KillingGroup {
                assert(actions[n - 1] == KillAction::KillGroup);
            }
            if post.phase is Over {
                assert(done(actions, n - 1, KillAction::KillGroup));
            }
            if post.failure is None {
                if pre.phase is Killing || pre.phase is KillingGroup {
                    let i = choose|i: int| 0 <= i < n - 1 && #[trigger] is_covered(inputs[i], pre);
                    assert(is_covered(inputs[i], post));
                } else {
                    kills_follow_a_stable_pass(pre, input, post, action);
                    assert(is_covered(inputs[n - 1], post));
                }
            }
        }
    }
}

/// Whatever happens on the way, when the ending of a process tree comes to its end, every process that
/// was captured has been killed, and the process group too. If nothing is reported to have gone wrong,
/// that holds of all processes of the tree in a process table that was read.
pub proof fn no_process_is_left(
    process_id: i32,
    process_group_id: i32,
    states: Seq<KillView>,
    inputs: Seq<KillInputView>,
    actions: Seq<KillAction>,
)
    requires
        kill_run(states, inputs, actions),
        states[0] == kill_start(process_id, process_group_id),
        states.last().phase is Over,
    ensures
        ({
            let state = states.last();
            let n = inputs.len() as int;
            &&& forall|k: i32| #[trigger]
                state.captured.contains_key(k) ==> done(actions, n, KillAction::Kill(state.captured[k]))
            &&& done(actions, n, KillAction::KillGroup)
            &&& actions.last() == KillAction::Finish(state.failure)
            &&& state.failure is None ==> exists|i: int| 0 <= i < n && #[trigger] is_covered(inputs[i], state)
        }),
{
    lemma_run(process_id, process_group_id, states, inputs, actions, inputs.len() as int);
}

proof fn lemma_phase_is_left(a: KillView, b: KillView)
    requires
        a == b.at(a.phase),
    ensures
        forall|left: Set<i32>, post: KillView, action: KillAction| #[trigger]
            a.kills(left, post, action) ==> b.kills(left, post, action),
        forall|pass: Seq<ProcessStat>, at: int, found: bool, post: KillView, action: KillAction| #[trigger]
            a.passes(pass, at, found, post, action) ==> b.passes(pass, at, found, post, action),
{
    assert forall|left: Set<i32>, post: KillView, action: KillAction| #[trigger]
        a.kills(left, post, action) implies b.kills(left, post, action) by {
        if left.len() != 0 {
            let k = choose|k: i32| #[trigger]
                left.contains(k) && (forall|j: i32| #[trigger] left.contains(j) ==> j <= k) && post == a.at(
                    KillPhase::Killing { current: k, left: left.remove(k) },
                ) && action == KillAction::Kill(a.captured[k]);
            assert(left.contains(k));
        }
    }
}

enum Phase {
    StoppingGroup,
    ReadingTable,
    Tracking { pass: Vec<ProcessStat>, at: usize },
    Stopping { pass: Vec<ProcessStat>, at: usize },
    Killing { current: i32, left: Vec<i32> },
    KillingGroup,
    Over,
}

impl View for Phase {
    type V = KillPhase;

    closed spec fn view(&self) -> KillPhase {
        match self {
            Phase::StoppingGroup => KillPhase::StoppingGroup,
            Phase::ReadingTable => KillPhase::ReadingTable,
            Phase::Tracking { pass, at } => KillPhase::Tracking { pass: pass@, at: *at as int },
            Phase::Stopping { pass, at } => KillPhase::Stopping { pass: pass@, at: *at as int },
            Phase::Killing { current, left } => KillPhase::Killing { current: *current, left: left@.to_set() },
            Phase::KillingGroup => KillPhase::KillingGroup,
            Phase::Over => KillPhase::Over,
        }
    }
}

/// Ends the process tree of a command. The processes found in one pass over the process table are
/// stopped before the next, so once a pass finds none that is new, no stopped process can have made
/// another. Then all of them are killed, and the process group.
pub struct KillTree {
    process_id: i32,
    process_group_id: i32,
    captured: BTreeMap<i32, ProcessStat>,
    failure: Option<KillFailure>,
    phase: Phase,
}

impl View for KillTree {
    type V = KillView;

    closed spec fn view(&self) -> KillView {
        KillView {
            process_id: self.process_id,
            process_group_id: self.process_group_id,
            captured: self.captured@,
            failure: self.failure,
            phase: self.phase@,
        }
    }
}

impl KillTree {
    /// Whether the processes still to be killed stand in ascending order.
    pub closed spec fn ordered(&self) -> bool {
        match self.phase {
            Phase::Killing { current, left } => ascending(left@),
            _ => true,
        }
    }

    /// Starts with the process group. The action to begin with is [`KillAction::StopGroup`].
    pub fn new(process_id: i32, process_group_id: i32) -> (r: Self)
        ensures
            r@ == kill_start(process_id, process_group_id),
            r@.inv(),
            r.ordered(),
    {
        KillTree {
            process_id,
            process_group_id,
            captured: BTreeMap::new(),
            failure: None,
            phase: Phase::StoppingGroup,
        }
    }

    fn fail(&mut self, failure: KillFailure)
        ensures
            final(self)@ == old(self)@.failing(failure),
            final(self).ordered() == old(self).ordered(),
            final(self).phase == old(self).phase,
    {
        match self.failure {
            Some(_) => {},
            None => {
                self.failure = Some(failure);
            },
        }
    }

    fn kill_on(&mut self, left: Vec<i32>) -> (r: KillAction)
        requires
            ascending(left@),
            left@.to_set().subset_of(old(self)@.captured.dom()),
            forall|k: i32| #[trigger]
                old(self)@.captured.contains_key(k) ==> old(self)@.captured[k].pid == k,
        ensures
            old(self)@.kills(left@.to_set(), final(self)@, r),
            final(self)@.inv(),
            final(self).ordered(),
    {
        let mut left = left;
        let ghost before = left@;
        proof {
            before.lemma_cardinality_of_set();
        }
        match left.pop() {
            None => {
                proof {
                    assert(before.to_set().len() == 0);
                }
                self.phase = Phase::KillingGroup;
                KillAction::KillGroup
            },
            Some(k) => {
                proof {
                    assert(before[before.len() - 1] == k);
                    assert(before.to_set().contains(k)) by {
                        assert(before.contains(k));
                    }
                    assert(before =~= left@.push(k));
                    assert forall|j: i32| #[trigger] before.to_set().contains(j) implies j <= k by {
                        let n = choose|n: int| 0 <= n < before.len() && before[n] == j;
                    }
                    assert(left@.to_set() =~= before.to_set().remove(k)) by {
                        crate::pids::lemma_push_to_set(left@, k);
                        assert(!left@.to_set().contains(k)) by {
                            if left@.to_set().contains(k) {
                                let n = choose|n: int| 0 <= n < left@.len() && left@[n] == k;
                                assert(before[n] == k);
                            }
                        }
                    }
                    assert(before.to_set().len() > 0) by {
                        if before.to_set().len() == 0 {
                            vstd::set_lib::lemma_set_empty_equivalency_len(before.to_set());
                        }
                    }
                }
                match self.captured.get(&k) {
                    Some(stat) => {
                        let stat = *stat;
                        self.phase = Phase::Killing { current: k, left };
                        KillAction::Kill(stat)
                    },
                    None => KillAction::KillGroup,
                }
            },
        }
    }

    fn kill_all(&mut self) -> (r: KillAction)
        requires
            forall|k: i32| #[trigger]
                old(self)@.captured.contains_key(k) ==> old(self)@.captured[k].pid == k,
        ensures
            old(self)@.kills(old(self)@.captured.dom(), final(self)@, r),
            final(self)@.inv(),
            final(self).ordered(),
    {
        let order = ascending_keys(&self.captured);
        self.kill_on(order)
    }

    fn pass_on(&mut self, pass: Vec<ProcessStat>, at: usize, found: bool) -> (r: KillAction)
        requires
            at <= pass@.len(),
            forall|k: i32| #[trigger]
                old(self)@.captured.contains_key(k) ==> old(self)@.captured[k].pid == k,
        ensures
            old(self)@.passes(pass@, at as int, found, final(self)@, r),
            final(self)@.inv(),
            final(self).ordered(),
    {
        let mut i: usize = at;
        while i < pass.len() && self.captured.contains_key(&pass[i].pid)
            invariant
                at <= i <= pass@.len(),
                next_new(pass@, at as int, self.captured@) == next_new(pass@, i as int, self.captured@),
            decreases pass@.len() - i,
        {
            i = i + 1;
        }
        if i < pass.len() {
            let stat = pass[i];
            self.phase = Phase::Tracking { pass, at: i };
            KillAction::Track(stat)
        } else if found {
            self.phase = Phase::ReadingTable;
            KillAction::ReadTable
        } else {
            self.kill_all()
        }
    }

    /// Takes what came of what was last to be done and says what is to be done next. Nothing changes,
    /// and nothing is to be done, if the input does not answer that.
    pub fn kill_process_tree(&mut self, input: KillInput) -> (r: Option<KillAction>)
        requires
            old(self)@.inv(),
            old(self).ordered(),
        ensures
            final(self)@.inv(),
            final(self).ordered(),
            match r {
                Some(action) => old(self)@.steps(input@, final(self)@, action),
                None => !old(self)@.answers(input@) && final(self)@ == old(self)@,
            },
    {
        let mut phase = Phase::Over;
        std::mem::swap(&mut phase, &mut self.phase);
        match (phase, input) {
            (Phase::StoppingGroup, KillInput::Answer(_)) => {
                self.phase = Phase::ReadingTable;
                Some(KillAction::ReadTable)
            },
            (Phase::ReadingTable, KillInput::TableFailed) => {
                self.phase = Phase::ReadingTable;
                self.fail(KillFailure::Table);
                Some(self.kill_all())
            },
            (Phase::ReadingTable, KillInput::Table(entries)) => {
                self.phase = Phase::ReadingTable;
                let snapshot = process_snapshot(&entries);
                let pass = process_tree(self.process_id, self.process_group_id, &snapshot);
                let ghost list = pass@;
                let action = self.pass_on(pass, 0, false);
                proof {
                    let pre = old(self)@;
                    assert(lists_tree(list, pre.process_id, pre.process_group_id, snapshot@));
                    assert(pre.passes(list, 0, false, self@, action));
                    assert(pre.passes_over(snapshot@, self@, action));
                }
                Some(action)
            },
            (Phase::Tracking { pass, at }, KillInput::Answer(held)) => {
                if held {
                    let stat = pass[at];
                    self.phase = Phase::Stopping { pass, at };
                    Some(KillAction::Stop(stat))
                } else {
                    proof {
                        assert(at < pass.len());
                        lemma_phase_is_left(self@, old(self)@);
                    }
                    Some(self.pass_on(pass, at + 1, true))
                }
            },
            (Phase::Stopping { pass, at }, KillInput::Answer(_)) => {
                let stat = pass[at];
                proof {
                    assert(at < pass.len());
                }
                let _ = self.captured.insert(stat.pid, stat);
                proof {
                    lemma_phase_is_left(
                        self@,
                        KillView { captured: old(self)@.captured.insert(stat.pid, stat), ..old(self)@ },
                    );
                }
                Some(self.pass_on(pass, at + 1, true))
            },
            (Phase::Killing { current, left }, KillInput::Answer(killed)) => {
                if !killed {
                    self.fail(KillFailure::Process(current));
                }
                proof {
                    if killed {
                        lemma_phase_is_left(self@, old(self)@);
                    } else {
                        lemma_phase_is_left(self@, old(self)@.failing(KillFailure::Process(current)));
                    }
                }
                Some(self.kill_on(left))
            },
            (Phase::KillingGroup, KillInput::Answer(killed)) => {
                if !killed {
                    self.fail(KillFailure::Group);
                }
                self.phase = Phase::Over;
                Some(KillAction::Finish(self.failure))
            },
            (phase, _) => {
                self.phase = phase;
                None
            },
        }
    }
}

/// A process ID still names the expected process exactly if it names one that started at the same time.
pub proof fn processes_are_told_by_their_start(expected: ProcessStat, current: ProcessStat)
    ensures
        is_identity(expected, Some(current)) <==> current.start_time == expected.start_time,
        !is_identity(expected, None),
{
}

/// The ending of a tree goes on whatever comes of a signal: after the group is stopped the table is read; a process that
/// can be held on to is stopped, and then counts as captured; and after the group is killed it is over.
pub proof fn ending_goes_on(pre: KillView, answer: bool, post: KillView, action: KillAction)
    requires
        pre.inv(),
        pre.steps(KillInputView::Answer(answer), post, action),
    ensures
        pre.phase is StoppingGroup ==> action is ReadTable && post.phase is ReadingTable && post.failure == pre.failure,
        pre.phase is Tracking && answer ==> action == KillAction::Stop(pre.phase->Tracking_pass[pre.phase->Tracking_at])
            && post.captured == pre.captured,
        pre.phase is Tracking && !answer ==> post.captured == pre.captured && (action is Track || action is ReadTable),
        pre.phase is Stopping ==> post.captured.contains_key(pre.phase->Stopping_pass[pre.phase->Stopping_at].pid) && (
        action is Track || action is ReadTable),
        pre.phase is Killing ==> action is Kill || action is KillGroup,
        pre.phase is Killing && answer ==> post.failure == pre.failure,
        pre.phase is Killing && !answer && pre.failure is None ==> post.failure == Some(
            KillFailure::Process(pre.phase->current),
        ),
        pre.phase is KillingGroup ==> post.phase is Over && action == KillAction::Finish(post.failure),
        pre.phase is KillingGroup && answer ==> post.failure == pre.failure,
        pre.phase is KillingGroup && !answer && pre.failure is None ==> post.failure == Some(KillFailure::Group),
{
    match pre.phase {
        KillPhase::Tracking { pass, at } => {
            lemma_next_new(pass, at + 1, pre.captured);
        },
        KillPhase::Stopping { pass, at } => {
            lemma_next_new(pass, at + 1, pre.captured.insert(pass[at].pid, pass[at]));
        },
        _ => {},
    }
}

/// A new pass holds on to a process of the tree that is not captured, if there is one.
pub proof fn new_processes_are_held_on_to(pre: KillView, table: Map<i32, ProcessStat>, post: KillView, action: KillAction)
    requires
        pre.inv(),
        pre.phase is ReadingTable,
        pre.steps(KillInputView::Table(table), post, action),
    ensures
        action is Track <==> exists|k: i32| #[trigger]
            table.contains_key(k) && in_family(k, pre.process_id, pre.process_group_id, table)
                && !pre.captured.contains_key(k),
        action is Track ==> table.contains_key(action->Track_0.pid) && table[action->Track_0.pid] == action->Track_0
            && in_family(action->Track_0.pid, pre.process_id, pre.process_group_id, table)
            && !pre.captured.contains_key(action->Track_0.pid),
        !(action is Track) ==> action is Kill || action is KillGroup,
{
    let pass = choose|pass: Seq<ProcessStat>| #[trigger]
        lists_tree(pass, pre.process_id, pre.process_group_id, table) && pre.passes(pass, 0, false, post, action);
    lemma_next_new(pass, 0, pre.captured);
    let at = next_new(pass, 0, pre.captured);
    if at < pass.len() {
        let k = pass[at].pid;
        assert(table.contains_key(k));
    } else {
        assert forall|k: i32| #[trigger]
            table.contains_key(k) && in_family(k, pre.process_id, pre.process_group_id, table)
            implies pre.captured.contains_key(k) by {
            let i = choose|i: int| 0 <= i < pass.len() && pass[i].pid == k;
            assert(pass[i].pid == k);
        }
    }
}

/// Processes are killed from the highest process ID down.
pub proof fn kills_go_from_the_highest_down(pre: KillView, input: KillInputView, post: KillView, action: KillAction, k: i32)
    requires
        pre.inv(),
        pre.steps(input, post, action),
        action is Kill,
        pre.captured.dom().finite(),
        pre.phase is Killing ==> pre.phase->left.finite(),
        post.phase->left.contains(k),
    ensures
        k < action->Kill_0.pid,
        !post.phase->left.contains(action->Kill_0.pid),
{
    every_captured_process_is_killed(pre, input, post, action);
    lemma_step_keeps_inv(pre, input, post, action);
}

} // verus!
