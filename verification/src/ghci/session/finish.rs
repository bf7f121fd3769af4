//! Finishing a compilation: publishing its result, and running hooks, evaluations and tests.

use crate::ghci::compilation_log::CompilationLog;
use crate::ghci::parse::ghc_message::compilation_summary::CompilationResult;
use crate::hooks::{Hook, HookCommand, LifecycleEvent, When};
use vstd::prelude::*;

verus! {

/// What the end of a compilation waits for.
#[derive(Clone, Copy, Debug, PartialEq, Eq, Structural)]
pub enum FinishPhase {
    /// The sources were to be compared with those that were compiled.
    Validating,
    /// The error log was to be written.
    Publishing,
    /// The hooks of the event at this place were to run.
    Hooks(usize),
    Evaluating,
    Testing,
    Over,
}

/// What is to be done next at the end of a compilation.
#[derive(Clone, Copy, Debug, PartialEq, Eq, Structural)]
pub enum FinishAction {
    /// Compare the sources with those that were compiled.
    Validate,
    /// Write the error log.
    Publish,
    /// Run all hooks of the event at this place.
    RunHooks(usize),
    /// Run the shell commands among the hooks of the event at this place.
    RunShellHooks(usize),
    /// Evaluate the commands in the sources.
    Evaluate,
    /// Run the tests.
    Test,
    /// Return.
    Finish,
    /// Return the error of writing the error log.
    FailPublish,
    /// Return the error of the first hooks that failed.
    FailHooks,
    /// Return the error that was just reported.
    Fail,
}

/// What came of it.
#[derive(Clone, Copy, Debug, PartialEq, Eq, Structural)]
pub enum FinishInput {
    /// What was to be done is done.
    Ready,
    /// The sources are no longer those that were compiled. Another compilation will follow.
    Stale,
    /// What was to be done failed.
    Failed,
}

/// The end of a compilation.
#[derive(Clone, Copy, Debug, PartialEq, Eq, Structural)]
pub struct Finish {
    /// The number of lifecycle events whose hooks run.
    pub events: usize,
    /// Whether the hooks of the next event can use the prompt.
    pub hooks_have_ghci: bool,
    /// Whether the compilation succeeded.
    pub compiled: bool,
    /// Whether the error log could not be written.
    pub publish_failed: bool,
    /// Whether some hooks failed.
    pub hooks_failed: bool,
    pub phase: FinishPhase,
}

impl Finish {
    /// This end of a compilation in another phase.
    pub open spec fn at(self, phase: FinishPhase) -> Finish {
        Finish { phase, ..self }
    }

    /// What follows once all events before place `i` had their hooks.
    pub open spec fn from(self, i: int) -> (Finish, FinishAction) {
        if i < self.events {
            (
                self.at(FinishPhase::Hooks(i as usize)),
                if self.hooks_have_ghci {
                    FinishAction::RunHooks(i as usize)
                } else {
                    FinishAction::RunShellHooks(i as usize)
                },
            )
        } else if self.publish_failed {
            (self.at(FinishPhase::Over), FinishAction::FailPublish)
        } else if self.hooks_failed {
            (self.at(FinishPhase::Over), FinishAction::FailHooks)
        } else if self.compiled {
            (self.at(FinishPhase::Evaluating), FinishAction::Evaluate)
        } else {
            (self.at(FinishPhase::Over), FinishAction::Finish)
        }
    }

    /// What happens next. Nothing, if the input does not answer what was last to be done. If the
    /// comparison of the sources fails, the result is published.
    pub open spec fn next(self, input: FinishInput) -> Option<(Finish, FinishAction)> {
        match (self.phase, input) {
            (FinishPhase::Validating, FinishInput::Stale) => Some(self.from(0)),
            (FinishPhase::Validating, _) => Some((self.at(FinishPhase::Publishing), FinishAction::Publish)),
            (FinishPhase::Publishing, FinishInput::Ready) => Some(self.from(0)),
            (FinishPhase::Publishing, FinishInput::Failed) => Some(
                (Finish { publish_failed: true, ..self }).from(0),
            ),
            (FinishPhase::Hooks(i), FinishInput::Ready) => Some(self.from(i + 1)),
            (FinishPhase::Hooks(i), FinishInput::Failed) => Some(
                (Finish { hooks_have_ghci: false, hooks_failed: true, ..self }).from(i + 1),
            ),
            (FinishPhase::Evaluating, FinishInput::Ready) => Some(
                (self.at(FinishPhase::Testing), FinishAction::Test),
            ),
            (FinishPhase::Testing, FinishInput::Ready) => Some(
                (self.at(FinishPhase::Over), FinishAction::Finish),
            ),
            (FinishPhase::Evaluating, FinishInput::Failed) => Some(
                (self.at(FinishPhase::Over), FinishAction::Fail),
            ),
            (FinishPhase::Testing, FinishInput::Failed) => Some(
                (self.at(FinishPhase::Over), FinishAction::Fail),
            ),
            _ => None,
        }
    }

    /// The end of a compilation with this log, from which repeated diagnostics are dropped first. The
    /// compilation succeeded if the operation did, the session is there, and the log tells of no
    /// failure. The sources are to be compared first if there is something to compare them with.
    pub fn new(
        log: &mut CompilationLog,
        events: usize,
        ghci_available: bool,
        operation_succeeded: bool,
        validate: bool,
    ) -> (r: (Self, FinishAction))
        requires
            events > 0,
        ensures
            final(log)@ == old(log)@.deduplicated(),
            r.0 == (Finish {
                events,
                hooks_have_ghci: ghci_available,
                compiled: operation_succeeded && ghci_available && old(log)@.result() != Some(
                    CompilationResult::Failure,
                ),
                publish_failed: false,
                hooks_failed: false,
                phase: if validate {
                    FinishPhase::Validating
                } else {
                    FinishPhase::Publishing
                },
            }),
            r.1 == (if validate {
                FinishAction::Validate
            } else {
                FinishAction::Publish
            }),
    {
        log.deduplicate_diagnostics();
        let failed = match log.result() {
            Some(CompilationResult::Failure) => true,
            _ => false,
        };
        let (phase, action) = if validate {
            (FinishPhase::Validating, FinishAction::Validate)
        } else {
            (FinishPhase::Publishing, FinishAction::Publish)
        };
        (
            Finish {
                events,
                hooks_have_ghci: ghci_available,
                compiled: operation_succeeded && ghci_available && !failed,
                publish_failed: false,
                hooks_failed: false,
                phase,
            },
            action,
        )
    }

    fn go(&mut self, i: usize) -> (r: FinishAction)
        requires
            i <= old(self).events,
        ensures
            (*final(self), r) == old(self).from(i as int),
    {
        if i < self.events {
            self.phase = FinishPhase::Hooks(i);
            if self.hooks_have_ghci {
                FinishAction::RunHooks(i)
            } else {
                FinishAction::RunShellHooks(i)
            }
        } else if self.publish_failed {
            self.phase = FinishPhase::Over;
            FinishAction::FailPublish
        } else if self.hooks_failed {
            self.phase = FinishPhase::Over;
            FinishAction::FailHooks
        } else if self.compiled {
            self.phase = FinishPhase::Evaluating;
            FinishAction::Evaluate
        } else {
            self.phase = FinishPhase::Over;
            FinishAction::Finish
        }
    }

    /// What always holds: the place of the event whose hooks run is one of the events.
    pub open spec fn inv(self) -> bool {
        self.phase is Hooks ==> self.phase->Hooks_0 < self.events
    }

    /// Takes what came of what was last to be done at the end of a compilation and says what is to
    /// be done next. Nothing changes, and nothing is to be done, if the input does not answer that.
    pub fn finish_compilation(&mut self, input: FinishInput) -> (r: Option<FinishAction>)
        requires
            old(self).inv(),
        ensures
            final(self).inv(),
            match r {
                Some(action) => old(self).next(input) == Some((*final(self), action)),
                None => old(self).next(input) is None && *final(self) == *old(self),
            },
    {
        match (self.phase, input) {
            (FinishPhase::Validating, FinishInput::Stale) => Some(self.go(0)),
            (FinishPhase::Validating, _) => {
                self.phase = FinishPhase::Publishing;
                Some(FinishAction::Publish)
            },
            (FinishPhase::Publishing, FinishInput::Ready) => Some(self.go(0)),
            (FinishPhase::Publishing, FinishInput::Failed) => {
                self.publish_failed = true;
                Some(self.go(0))
            },
            (FinishPhase::Hooks(i), FinishInput::Ready) => Some(self.go(i + 1)),
            (FinishPhase::Hooks(i), FinishInput::Failed) => {
                self.hooks_have_ghci = false;
                self.hooks_failed = true;
                Some(self.go(i + 1))
            },
            (FinishPhase::Evaluating, FinishInput::Ready) => {
                self.phase = FinishPhase::Testing;
                Some(FinishAction::Test)
            },
            (FinishPhase::Testing, FinishInput::Ready) => {
                self.phase = FinishPhase::Over;
                Some(FinishAction::Finish)
            },
            (FinishPhase::Evaluating, FinishInput::Failed) => {
                self.phase = FinishPhase::Over;
                Some(FinishAction::Fail)
            },
            (FinishPhase::Testing, FinishInput::Failed) => {
                self.phase = FinishPhase::Over;
                Some(FinishAction::Fail)
            },
            _ => None,
        }
    }
}

/// The state and the actions of an end that gets these inputs.
pub open spec fn finish_run(start: Finish, inputs: Seq<FinishInput>) -> (Finish, Seq<FinishAction>)
    decreases inputs.len(),
{
    if inputs.len() == 0 {
        (start, seq![])
    } else {
        let (before, actions) = finish_run(start, inputs.drop_last());
        match before.next(inputs.last()) {
            Some((after, action)) => (after, actions.push(action)),
            None => (before, actions),
        }
    }
}

/// The places of the events whose hooks the actions run, in order.
pub open spec fn hooked(actions: Seq<FinishAction>) -> Seq<int>
    decreases actions.len(),
{
    if actions.len() == 0 {
        seq![]
    } else {
        let before = hooked(actions.drop_last());
        match actions.last() {
            FinishAction::RunHooks(i) => before.push(i as int),
            FinishAction::RunShellHooks(i) => before.push(i as int),
            _ => before,
        }
    }
}

/// The places up to `n`.
pub open spec fn places(n: nat) -> Seq<int> {
    Seq::new(n, |i: int| i)
}

/// Every event has its hooks run exactly once and in order before a compilation ends, whatever
/// fails: publishing the result, the prompt, or other hooks.
pub proof fn every_event_has_its_hooks(start: Finish, inputs: Seq<FinishInput>)
    requires
        start.phase is Validating || start.phase is Publishing,
        start.events > 0,
    ensures
        ({
            let (end, actions) = finish_run(start, inputs);
            &&& end.events == start.events
            &&& end.inv()
            &&& match end.phase {
                FinishPhase::Validating => hooked(actions) == places(0),
                FinishPhase::Publishing => hooked(actions) == places(0),
                FinishPhase::Hooks(i) => hooked(actions) == places((i + 1) as nat),
                _ => hooked(actions) == places(start.events as nat),
            }
        }),
    decreases inputs.len(),
{
    let (end, actions) = finish_run(start, inputs);
    if inputs.len() == 0 {
        assert(hooked(actions) =~= places(0));
    } else {
        every_event_has_its_hooks(start, inputs.drop_last());
        let (before, sofar) = finish_run(start, inputs.drop_last());
        match before.next(inputs.last()) {
            Some((after, action)) => {
                assert(actions.drop_last() =~= sofar);
                assert(hooked(actions) =~= (match action {
                    FinishAction::RunHooks(i) => hooked(sofar).push(i as int),
                    FinishAction::RunShellHooks(i) => hooked(sofar).push(i as int),
                    _ => hooked(sofar),
                }));
                match after.phase {
                    FinishPhase::Hooks(i) => {
                        assert(places((i + 1) as nat) =~= places(i as nat).push(i as int));
                    },
                    _ => {},
                }
            },
            None => {},
        }
    }
}

/// The result is published before any hook runs, and never if the sources were found to have
/// changed; then the hooks run all the same.
pub proof fn stale_result_is_not_published(f: Finish)
    requires
        f.phase is Validating,
        f.events > 0,
    ensures
        f.next(FinishInput::Stale) is Some,
        (f.next(FinishInput::Stale)->0).1 is RunHooks || (f.next(FinishInput::Stale)->0).1 is RunShellHooks,
        !((f.next(FinishInput::Stale)->0).0.phase is Publishing),
        (f.next(FinishInput::Ready)->0).1 is Publish,
        (f.next(FinishInput::Failed)->0).1 is Publish,
{
}

/// Evaluations and tests run only after a compilation that succeeded, and when the result was
/// published and all hooks ran without a failure.
pub proof fn tests_follow_success(f: Finish, input: FinishInput)
    requires
        f.inv(),
        f.next(input) is Some,
    ensures
        (f.next(input)->0).1 is Evaluate ==> {
            let after = (f.next(input)->0).0;
            f.compiled && !after.publish_failed && !after.hooks_failed
        },
        (f.next(input)->0).1 is Test ==> f.phase is Evaluating && input is Ready,
{
}

/// After hooks failed, those of the later events use the prompt no more.
pub proof fn prompt_is_left_after_a_failure(f: Finish, input: FinishInput)
    requires
        f.inv(),
        f.next(input) is Some,
        !f.hooks_have_ghci || (f.phase is Hooks && input is Failed),
    ensures
        !(f.next(input)->0).0.hooks_have_ghci,
        !((f.next(input)->0).1 is RunHooks),
{
}

/// Whether the hook is a shell command.
pub open spec fn is_shell(hook: Hook) -> bool {
    hook.command is Shell
}

/// Which hooks of an event are meant.
#[derive(Clone, Copy, Debug, PartialEq, Eq, Structural)]
pub enum HookKind {
    All,
    Shell,
    Ghci,
}

/// Whether a hook belongs to the event and is of the kind.
pub open spec fn chosen(hook: Hook, event: LifecycleEvent, kind: HookKind) -> bool {
    hook.event == event && match kind {
        HookKind::All => true,
        HookKind::Shell => is_shell(hook),
        HookKind::Ghci => !is_shell(hook),
    }
}

/// The places of the hooks of the event that are of the kind, in order.
pub open spec fn selected(hooks: Seq<Hook>, event: LifecycleEvent, kind: HookKind) -> Seq<usize>
    decreases hooks.len(),
{
    if hooks.len() == 0 {
        seq![]
    } else {
        let before = selected(hooks.drop_last(), event, kind);
        if chosen(hooks.last(), event, kind) {
            before.push((hooks.len() - 1) as usize)
        } else {
            before
        }
    }
}

/// Whether the shell commands of an event all run before its other hooks. Before a reload they do: they
/// must not be lost because the prompt turns out to be gone.
pub open spec fn shell_first(event: LifecycleEvent) -> bool {
    event == LifecycleEvent::Reload(When::Before)
}

/// The places of the hooks of an event that run one by one, in order. Shell commands that all run first
/// are not among them.
pub open spec fn hook_order(hooks: Seq<Hook>, event: LifecycleEvent) -> Seq<usize> {
    if shell_first(event) {
        selected(hooks, event, HookKind::Ghci)
    } else {
        selected(hooks, event, HookKind::All)
    }
}

/// The places of the hooks of the event that are of the kind.
pub fn select_hooks(hooks: &Vec<Hook>, event: LifecycleEvent, kind: HookKind) -> (r: Vec<usize>)
    ensures
        r@ == selected(hooks@, event, kind),
{
    let mut r: Vec<usize> = Vec::new();
    let mut i: usize = 0;
    proof {
        assert(hooks@.take(0).len() == 0);
    }
    while i < hooks.len()
        invariant
            i <= hooks@.len(),
            r@ == selected(hooks@.take(i as int), event, kind),
        decreases hooks@.len() - i,
    {
        let hook = &hooks[i];
        proof {
            assert(hooks@.take(i + 1).drop_last() =~= hooks@.take(i as int));
        }
        let shell = match hook.command {
            HookCommand::Shell(_) => true,
            HookCommand::Ghci(_) => false,
        };
        let fits = match kind {
            HookKind::All => true,
            HookKind::Shell => shell,
            HookKind::Ghci => !shell,
        };
        if hook.event == event && fits {
            r.push(i);
        }
        i = i + 1;
    }
    proof {
        assert(hooks@.take(hooks@.len() as int) =~= hooks@);
    }
    r
}

/// The places of the hooks of an event that run one by one, in order.
pub fn order_hooks(hooks: &Vec<Hook>, event: LifecycleEvent) -> (r: Vec<usize>)
    ensures
        r@ == hook_order(hooks@, event),
{
    if event == LifecycleEvent::Reload(When::Before) {
        select_hooks(hooks, event, HookKind::Ghci)
    } else {
        select_hooks(hooks, event, HookKind::All)
    }
}

/// What follows after a hook.
#[derive(Clone, Copy, Debug, PartialEq, Eq, Structural)]
pub enum AfterHook {
    /// Run what comes next.
    Next,
    /// Return.
    Finish,
    /// Return the error that was just reported.
    Fail,
}

/// What the hooks of an event wait for.
#[derive(Clone, Copy, Debug, PartialEq, Eq, Structural)]
pub enum HookPhase {
    /// The shell commands of the event were to run.
    ShellFirst,
    /// The hook at this place of the order was to run.
    Running(usize),
    Over,
}

/// What is to be done next about the hooks of an event.
#[derive(Clone, Copy, Debug, PartialEq, Eq, Structural)]
pub enum HookAction {
    /// Run the shell commands of the event.
    RunShellHooks,
    /// Run the hook at this place of the order.
    Run(usize),
    /// Return.
    Finish,
    /// Return the error that was just reported.
    Fail,
}

/// What came of it.
#[derive(Clone, Copy, Debug, PartialEq, Eq, Structural)]
pub enum HookInput {
    /// What was to be done is done.
    Ready,
    /// The shell commands of the event failed, or the prompt did.
    Failed,
    /// A shell command that runs in its place of the order failed.
    ShellFailed,
}

/// The step to the hook at place `at` of `count`, or the end.
pub open spec fn hook_at(count: usize, at: int) -> (HookPhase, HookAction) {
    if 0 <= at < count {
        (HookPhase::Running(at as usize), HookAction::Run(at as usize))
    } else {
        (HookPhase::Over, HookAction::Finish)
    }
}

/// How the hooks of an event begin, of which `count` run one by one.
pub open spec fn hooks_begin(event: LifecycleEvent, count: usize) -> (HookPhase, HookAction) {
    if shell_first(event) {
        (HookPhase::ShellFirst, HookAction::RunShellHooks)
    } else {
        hook_at(count, 0)
    }
}

/// How they go on. The failure of the shell commands that all run first ends them, and so does that of
/// the prompt; the failure of any other shell command changes nothing.
pub open spec fn hooks_next(count: usize, phase: HookPhase, input: HookInput) -> Option<(HookPhase, HookAction)> {
    match (phase, input) {
        (HookPhase::Over, _) => None,
        (_, HookInput::Failed) => Some((HookPhase::Over, HookAction::Fail)),
        (HookPhase::ShellFirst, HookInput::Ready) => Some(hook_at(count, 0)),
        (HookPhase::ShellFirst, HookInput::ShellFailed) => None,
        (HookPhase::Running(at), _) => Some(hook_at(count, at + 1)),
    }
}

fn step_to_hook(count: usize, at: usize) -> (r: (HookPhase, HookAction))
    ensures
        r == hook_at(count, at as int),
{
    if at < count {
        (HookPhase::Running(at), HookAction::Run(at))
    } else {
        (HookPhase::Over, HookAction::Finish)
    }
}

/// Begins with the hooks of an event, of which `count` run one by one.
pub fn begin_hooks(event: LifecycleEvent, count: usize) -> (r: (HookPhase, HookAction))
    ensures
        r == hooks_begin(event, count),
{
    if event == LifecycleEvent::Reload(When::Before) {
        (HookPhase::ShellFirst, HookAction::RunShellHooks)
    } else {
        step_to_hook(count, 0)
    }
}

/// Goes on with the hooks of an event, of which `count` run one by one. Nothing follows if what is
/// reported was not asked for.
pub fn run_hooks(count: usize, phase: HookPhase, input: HookInput) -> (r: Option<(HookPhase, HookAction)>)
    ensures
        r == hooks_next(count, phase, input),
{
    match (phase, input) {
        (HookPhase::Over, _) => None,
        (_, HookInput::Failed) => Some((HookPhase::Over, HookAction::Fail)),
        (HookPhase::ShellFirst, HookInput::Ready) => Some(step_to_hook(count, 0)),
        (HookPhase::ShellFirst, HookInput::ShellFailed) => None,
        (HookPhase::Running(at), _) => if at < count {
            Some(step_to_hook(count, at + 1))
        } else {
            Some((HookPhase::Over, HookAction::Finish))
        },
    }
}

/// Before a reload nothing is asked of the prompt until the shell commands of the event have run, and
/// their failure is returned.
pub proof fn shell_commands_come_before_the_prompt(count: usize, input: HookInput)
    ensures
        ({
            let (phase, action) = hooks_begin(LifecycleEvent::Reload(When::Before), count);
            &&& action is RunShellHooks
            &&& hooks_next(count, phase, input) matches Some((_, HookAction::Run(_))) ==> input is Ready
            &&& hooks_next(count, phase, HookInput::Failed) == Some((HookPhase::Over, HookAction::Fail))
        }),
{
}

/// A shell command that fails in its place of the order changes nothing: the hooks go on as if it had
/// not.
pub proof fn later_shell_failures_change_nothing(count: usize, at: usize)
    ensures
        hooks_next(count, HookPhase::Running(at), HookInput::ShellFailed) == hooks_next(
            count,
            HookPhase::Running(at),
            HookInput::Ready,
        ),
{
}

/// What follows after the shell commands of the event at place `at` of `count`.
pub fn run_shell_lifecycle_events(count: usize, at: usize, failed: bool) -> (r: AfterHook)
    requires
        at < count,
    ensures
        r == (if failed {
            AfterHook::Fail
        } else if at + 1 < count {
            AfterHook::Next
        } else {
            AfterHook::Finish
        }),
{
    if failed {
        AfterHook::Fail
    } else if at + 1 < count {
        AfterHook::Next
    } else {
        AfterHook::Finish
    }
}

/// Whether what a hook reports goes into the log of the compilation. Only tests do that: the errors
/// of other hooks do not make a compilation fail.
pub fn hook_log_is_kept(event: LifecycleEvent) -> (r: bool)
    ensures
        r == (event == LifecycleEvent::Test),
{
    event == LifecycleEvent::Test
}

proof fn lemma_selected(hooks: Seq<Hook>, event: LifecycleEvent, kind: HookKind, i: int)
    requires
        hooks.len() <= usize::MAX,
    ensures
        selected(hooks, event, kind).contains(i as usize) && 0 <= i <= usize::MAX <==> 0 <= i < hooks.len() && chosen(
            hooks[i],
            event,
            kind,
        ),
    decreases hooks.len(),
{
    if hooks.len() > 0 {
        let rest = hooks.drop_last();
        let before = selected(rest, event, kind);
        lemma_selected(rest, event, kind, i);
        let after = selected(hooks, event, kind);
        let last = (hooks.len() - 1) as usize;
        if chosen(hooks.last(), event, kind) {
            assert(after[before.len() as int] == last);
            if before.contains(i as usize) {
                let n = choose|n: int| 0 <= n < before.len() && before[n] == i as usize;
                assert(after[n] == i as usize);
            }
            if after.contains(i as usize) {
                let n = choose|n: int| 0 <= n < after.len() && after[n] == i as usize;
                if n < before.len() {
                    assert(before[n] == i as usize);
                }
            }
        }
    }
}

/// All hooks of an event run, and no others, each in one place: a shell command that runs before the
/// others is not run again.
pub proof fn hooks_of_event_run(hooks: Seq<Hook>, event: LifecycleEvent, i: int)
    requires
        0 <= i < hooks.len() <= usize::MAX,
    ensures
        ({
            let first = shell_first(event) && selected(hooks, event, HookKind::Shell).contains(i as usize);
            let later = hook_order(hooks, event).contains(i as usize);
            &&& first || later <==> hooks[i].event == event
            &&& !(first && later)
        }),
{
    lemma_selected(hooks, event, HookKind::All, i);
    lemma_selected(hooks, event, HookKind::Shell, i);
    lemma_selected(hooks, event, HookKind::Ghci, i);
}

/// Whether publishing succeeds or fails, the hooks of the first event come next, with the prompt exactly if it can
/// be used; and a failure to publish is remembered.
pub proof fn hooks_follow_the_result(f: Finish, failed: bool)
    requires
        f.phase is Publishing,
        f.events > 0,
    ensures
        ({
            let after = f.next(
                if failed {
                    FinishInput::Failed
                } else {
                    FinishInput::Ready
                },
            );
            &&& after is Some
            &&& (after->0).1 == FinishAction::RunHooks(0) <==> f.hooks_have_ghci
            &&& (after->0).1 == FinishAction::RunShellHooks(0) <==> !f.hooks_have_ghci
            &&& (after->0).0.phase == FinishPhase::Hooks(0)
            &&& (after->0).0.publish_failed <==> f.publish_failed || failed
            &&& (after->0).0.hooks_failed == f.hooks_failed
            &&& (after->0).0.compiled == f.compiled
            &&& (after->0).0.hooks_have_ghci == f.hooks_have_ghci
            &&& (after->0).0.events == f.events
        }),
{
}

/// The hooks of an event are followed by those of the next, which use the prompt only if none failed before. After the
/// last a failure to publish is returned first, then that of hooks; a compilation that succeeded is followed by its
/// evaluations, and one that did not has ended.
pub proof fn hooks_are_followed_up(f: Finish, i: usize, failed: bool)
    requires
        f.phase == FinishPhase::Hooks(i),
        i < f.events,
    ensures
        ({
            let after = f.next(
                if failed {
                    FinishInput::Failed
                } else {
                    FinishInput::Ready
                },
            );
            let last = i + 1 == f.events;
            let broken = f.hooks_failed || failed;
            let action = (after->0).1;
            &&& after is Some
            &&& action is RunHooks <==> !last && f.hooks_have_ghci && !failed
            &&& action is RunShellHooks <==> !last && !(f.hooks_have_ghci && !failed)
            &&& action is RunHooks ==> action->RunHooks_0 == i + 1
            &&& action is RunShellHooks ==> action->RunShellHooks_0 == i + 1
            &&& action is FailPublish <==> last && f.publish_failed
            &&& action is FailHooks <==> last && !f.publish_failed && broken
            &&& action is Evaluate <==> last && !f.publish_failed && !broken && f.compiled
            &&& action is Finish <==> last && !f.publish_failed && !broken && !f.compiled
            &&& (after->0).0.hooks_failed == broken
            &&& (after->0).0.publish_failed == f.publish_failed
            &&& (after->0).0.compiled == f.compiled
            &&& (after->0).0.events == f.events
            &&& !last ==> (after->0).0.phase == FinishPhase::Hooks((i + 1) as usize)
        }),
{
}

/// The tests follow the evaluations, and then the compilation has ended; the failure of one of them is returned.
pub proof fn tests_follow_the_evaluations(f: Finish)
    ensures
        f.phase is Evaluating ==> (f.next(FinishInput::Ready) matches Some((after, action)) && action is Test
            && after.phase is Testing),
        f.phase is Testing ==> (f.next(FinishInput::Ready) matches Some((_, action)) && action is Finish),
        f.phase is Evaluating || f.phase is Testing ==> (f.next(FinishInput::Failed) matches Some((_, action)) && action
            is Fail),
{
}

/// Exactly the hooks of the event and of the kind are selected, each once and in the order in which they are given.
pub proof fn selected_hooks_are_those_of_the_event(
    hooks: Seq<Hook>,
    event: LifecycleEvent,
    kind: HookKind,
    i: int,
)
    requires
        0 <= i < hooks.len() <= usize::MAX,
    ensures
        selected(hooks, event, kind).contains(i as usize) <==> hooks[i].event == event && (kind is All || (kind is Shell
            && hooks[i].command is Shell) || (kind is Ghci && hooks[i].command is Ghci)),
        forall|a: int, b: int|
            0 <= a < b < selected(hooks, event, kind).len() ==> selected(hooks, event, kind)[a] < selected(
                hooks,
                event,
                kind,
            )[b],
{
    lemma_selected(hooks, event, kind, i);
    lemma_selected_order(hooks, event, kind);
}

proof fn lemma_selected_order(hooks: Seq<Hook>, event: LifecycleEvent, kind: HookKind)
    requires
        hooks.len() <= usize::MAX,
    ensures
        forall|a: int|
            0 <= a < selected(hooks, event, kind).len() ==> (#[trigger] selected(hooks, event, kind)[a]) < hooks.len(),
        forall|a: int, b: int|
            0 <= a < b < selected(hooks, event, kind).len() ==> selected(hooks, event, kind)[a] < selected(
                hooks,
                event,
                kind,
            )[b],
    decreases hooks.len(),
{
    if hooks.len() > 0 {
        let before = selected(hooks.drop_last(), event, kind);
        let all = selected(hooks, event, kind);
        lemma_selected_order(hooks.drop_last(), event, kind);
        assert forall|a: int| 0 <= a < all.len() implies (#[trigger] all[a]) < hooks.len() by {
            if a < before.len() {
                assert(all[a] == before[a]);
            }
        }
        assert forall|a: int, b: int| 0 <= a < b < all.len() implies all[a] < all[b] by {
            assert(all[a] == before[a]);
            if b < before.len() {
                assert(all[b] == before[b]);
            }
        }
    }
}

/// Only before a reload do the shell commands run first. The other hooks run one by one, and after the last the event
/// has had its hooks. A failure of the prompt is returned at any time.
pub proof fn hooks_run_one_by_one(event: LifecycleEvent, count: usize, at: usize, input: HookInput)
    requires
        at < count,
    ensures
        (hooks_begin(event, count).1 is RunShellHooks) <==> event == LifecycleEvent::Reload(When::Before),
        event != LifecycleEvent::Reload(When::Before) ==> hooks_begin(event, count) == (
            HookPhase::Running(0),
            HookAction::Run(0),
        ),
        event != LifecycleEvent::Reload(When::Before) ==> hooks_begin(event, 0).1 is Finish,
        hooks_next(count, HookPhase::ShellFirst, HookInput::Ready) == Some((HookPhase::Running(0), HookAction::Run(0))),
        hooks_next(0, HookPhase::ShellFirst, HookInput::Ready) matches Some((_, action)) && action is Finish,
        ({
            let after = hooks_next(count, HookPhase::Running(at), input);
            &&& after is Some
            &&& (after->0).1 is Fail <==> input is Failed
            &&& (after->0).1 is Finish <==> !(input is Failed) && at + 1 == count
            &&& (after->0).1 is Run <==> !(input is Failed) && at + 1 < count
            &&& (after->0).1 is Run ==> (after->0).1->Run_0 == at + 1 && (after->0).0 == HookPhase::Running(
                (at + 1) as usize,
            )
        }),
{
}

/// The end of a compilation waits for the end of what it does, and is over exactly when it returns.
pub proof fn finish_waits_for_what_it_does(run: Finish, input: FinishInput)
    requires
        run.next(input) is Some,
    ensures
        (run.next(input)->0).0.phase is Over <==> (run.next(input)->0).1 is Finish || (run.next(input)->0).1 is FailPublish || (run.next(input)->0).1 is FailHooks || (run.next(input)->0).1 is Fail,
        (run.next(input)->0).0.phase is Publishing <==> (run.next(input)->0).1 is Publish,
        (run.next(input)->0).0.phase is Evaluating <==> (run.next(input)->0).1 is Evaluate,
        (run.next(input)->0).0.phase is Testing <==> (run.next(input)->0).1 is Test,
        (run.next(input)->0).0.phase is Hooks <==> (run.next(input)->0).1 is RunHooks || (run.next(input)->0).1 is RunShellHooks,
{
}

/// Each hook is waited for, and the hooks are over exactly when their result is returned.
pub proof fn hooks_are_waited_for(count: usize, phase: HookPhase, input: HookInput)
    requires
        hooks_next(count, phase, input) is Some,
    ensures
        (hooks_next(count, phase, input)->0).0 is Over <==> (hooks_next(count, phase, input)->0).1 is Finish || (hooks_next(count, phase, input)->0).1 is Fail,
        (hooks_next(count, phase, input)->0).0 is Running <==> (hooks_next(count, phase, input)->0).1 is Run,
{
}

} // verus!
