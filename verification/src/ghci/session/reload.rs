//! Reloading a session after a batch of changes.

use crate::ghci::reload_actions::{lists, ActionsView, ReloadActions};
use crate::ghci::session::{Ghci, GhciView};
use crate::ghci::GhciReloadKind;
use crate::path::{NormalPath, NormalPathView};
use crate::sorted::{lemma_filter, sorted, sorted_determined, views, SortedSet};
use vstd::prelude::*;

verus! {

/// Which of the steps of a reload there are.
#[derive(Clone, Copy, Debug, PartialEq, Eq, Structural)]
pub struct Plan {
    pub restart: bool,
    pub removals: bool,
    pub additions: bool,
    pub reload: bool,
    /// Whether a command takes the place of the additions.
    pub replace: bool,
}

impl Plan {
    /// The steps that the actions ask for.
    pub open spec fn of(actions: ActionsView, replace: bool) -> Plan {
        Plan {
            restart: actions.restart.len() > 0,
            removals: actions.removals.len() > 0,
            additions: actions.additions.len() > 0,
            reload: actions.reload.len() > 0,
            replace,
        }
    }
}

/// What a reload waits for.
#[derive(Clone, Copy, Debug, PartialEq, Eq, Structural)]
pub enum ReloadPhase {
    /// Nothing was done yet.
    Starting,
    /// The session was to be restarted.
    Restarting,
    /// The hooks before the reload were to run.
    BeforeHooks,
    Removing,
    Adding,
    /// The command that takes the place of the additions was to run.
    Replacing,
    Reloading,
    /// The session was to be interrupted because it reported no progress, and the reload to be tried
    /// again.
    Retrying,
    /// The session was to be interrupted because it reported an error.
    Interrupting,
    /// The commands to evaluate were to be read again.
    Refreshing,
    /// The compilation was to be finished. `failed` tells whether a step before that failed.
    Finishing { failed: bool },
    Over,
}

/// What is to be done next in a reload.
#[derive(Clone, Copy, Debug, PartialEq, Eq, Structural)]
pub enum ReloadAction {
    /// Clear the screen and restart the session with the snapshot.
    Restart,
    /// Clear the screen and run the hooks before the reload.
    RunBeforeHooks,
    /// Remove the vanished sources from the targets.
    Remove,
    /// Add the new sources to the targets.
    Add,
    /// Run the command that takes the place of adding them.
    Replace,
    /// Reload, and look out for progress and, if errors interrupt, for errors.
    Reload,
    /// Interrupt the session and reload again.
    InterruptAndRetry,
    /// Interrupt the session, and keep what it reported.
    Interrupt,
    /// Read the commands to evaluate in the reloaded sources.
    RefreshEvalCommands,
    /// Finish the compilation and run the hooks after the reload.
    FinishCompilation { ghci_available: bool, operation_succeeded: bool },
    /// Return.
    Finish,
    /// Return the error of the step that failed.
    FailOperation,
    /// Return the error that was just reported.
    Fail,
}

/// What came of it.
#[derive(Clone, Copy, Debug, PartialEq, Eq, Structural)]
pub enum ReloadInput {
    /// What was to be done is done.
    Ready,
    /// The session reported no progress for too long.
    Inactive,
    /// The session reported an error, and errors interrupt.
    ErrorReported,
    /// What was to be done failed.
    Failed { broken_pipe: bool },
}

/// A step of a reload: the next phase, what is to be done, what the manager is told of the reload
/// before it is done, and whether the snapshot is accepted.
pub struct ReloadStep {
    pub phase: ReloadPhase,
    pub action: ReloadAction,
    pub kind: Option<GhciReloadKind>,
    pub accept: bool,
}

/// The end of a reload, good or bad.
pub open spec fn finishing(failed: bool, ghci_available: bool, accept: bool) -> ReloadStep {
    ReloadStep {
        phase: ReloadPhase::Finishing { failed },
        action: ReloadAction::FinishCompilation { ghci_available, operation_succeeded: !failed },
        kind: Some(GhciReloadKind::Idle),
        accept,
    }
}

/// What follows when the targets are synchronized: the snapshot is accepted.
pub open spec fn after_additions(plan: Plan, kind: Option<GhciReloadKind>) -> ReloadStep {
    if plan.reload {
        ReloadStep { phase: ReloadPhase::Reloading, action: ReloadAction::Reload, kind, accept: true }
    } else {
        finishing(false, true, true)
    }
}

/// What follows when the vanished sources are removed.
pub open spec fn after_removals(plan: Plan, kind: Option<GhciReloadKind>) -> ReloadStep {
    if !plan.additions {
        after_additions(plan, kind)
    } else if plan.replace {
        ReloadStep { phase: ReloadPhase::Replacing, action: ReloadAction::Replace, kind, accept: false }
    } else {
        ReloadStep { phase: ReloadPhase::Adding, action: ReloadAction::Add, kind, accept: false }
    }
}

/// A step that tells the manager nothing and leaves the snapshot.
pub open spec fn step(phase: ReloadPhase, action: ReloadAction) -> ReloadStep {
    ReloadStep { phase, action, kind: None, accept: false }
}

/// What happens next in a reload. Nothing, if the input does not answer what was last to be done.
/// `killed` tells whether the session was force-killed because its prompt could not be trusted.
pub open spec fn reload_next(plan: Plan, phase: ReloadPhase, killed: bool, input: ReloadInput) -> Option<ReloadStep> {
    match (phase, input) {
        (ReloadPhase::Starting, ReloadInput::Ready) => Some(
            if plan.restart {
                ReloadStep {
                    phase: ReloadPhase::Restarting,
                    action: ReloadAction::Restart,
                    kind: Some(GhciReloadKind::Restart),
                    accept: false,
                }
            } else if !plan.removals && !plan.additions && !plan.reload {
                ReloadStep {
                    phase: ReloadPhase::Over,
                    action: ReloadAction::Finish,
                    kind: Some(GhciReloadKind::Idle),
                    accept: true,
                }
            } else {
                step(ReloadPhase::BeforeHooks, ReloadAction::RunBeforeHooks)
            },
        ),
        (ReloadPhase::Restarting, ReloadInput::Ready) => Some(step(ReloadPhase::Over, ReloadAction::Finish)),
        (ReloadPhase::Restarting, ReloadInput::Failed { .. }) => Some(
            step(ReloadPhase::Over, ReloadAction::Fail),
        ),
        (ReloadPhase::BeforeHooks, ReloadInput::Ready) => Some(
            if plan.removals {
                ReloadStep {
                    phase: ReloadPhase::Removing,
                    action: ReloadAction::Remove,
                    kind: Some(GhciReloadKind::Reload),
                    accept: false,
                }
            } else {
                after_removals(plan, Some(GhciReloadKind::Reload))
            },
        ),
        (ReloadPhase::Removing, ReloadInput::Ready) => Some(after_removals(plan, None)),
        (ReloadPhase::Adding, ReloadInput::Ready) => Some(after_additions(plan, None)),
        (ReloadPhase::Replacing, ReloadInput::Ready) => Some(after_additions(plan, None)),
        (ReloadPhase::Reloading, ReloadInput::Ready) => Some(
            step(ReloadPhase::Refreshing, ReloadAction::RefreshEvalCommands),
        ),
        (ReloadPhase::Reloading, ReloadInput::Inactive) => Some(
            step(ReloadPhase::Retrying, ReloadAction::InterruptAndRetry),
        ),
        (ReloadPhase::Reloading, ReloadInput::ErrorReported) => Some(
            step(ReloadPhase::Interrupting, ReloadAction::Interrupt),
        ),
        (ReloadPhase::Retrying, ReloadInput::Ready) => Some(
            step(ReloadPhase::Refreshing, ReloadAction::RefreshEvalCommands),
        ),
        (ReloadPhase::Interrupting, ReloadInput::Ready) => Some(finishing(false, true, false)),
        (ReloadPhase::Refreshing, ReloadInput::Ready) => Some(finishing(false, true, false)),
        (ReloadPhase::Finishing { failed }, ReloadInput::Ready) => Some(
            step(
                ReloadPhase::Over,
                if failed {
                    ReloadAction::FailOperation
                } else {
                    ReloadAction::Finish
                },
            ),
        ),
        (ReloadPhase::Finishing { failed }, ReloadInput::Failed { .. }) => Some(
            step(
                ReloadPhase::Over,
                if failed {
                    ReloadAction::FailOperation
                } else {
                    ReloadAction::Fail
                },
            ),
        ),
        (ReloadPhase::Starting, ReloadInput::Failed { .. }) => None,
        (ReloadPhase::Over, ReloadInput::Failed { .. }) => None,
        (_, ReloadInput::Failed { broken_pipe }) => Some(finishing(true, !broken_pipe && !killed, false)),
        _ => None,
    }
}

/// A reload in progress.
#[derive(Debug)]
pub struct Reload {
    pub plan: Plan,
    pub phase: ReloadPhase,
    /// The snapshot that is accepted once the targets are synchronized with it.
    pub files: SortedSet<NormalPath>,
}

/// The paths that are not in the other list.
pub open spec fn rest_of(files: Seq<NormalPathView>, rejected: Seq<NormalPathView>) -> Seq<NormalPathView> {
    files.filter(|p: NormalPathView| !lists(rejected, p))
}

/// The paths of the snapshot without those that were rejected.
pub fn without_rejected(files: &SortedSet<NormalPath>, rejected: &Vec<NormalPath>) -> (r: SortedSet<NormalPath>)
    ensures
        r@ == rest_of(files@, views(rejected@)),
{
    let mut keep: Vec<bool> = Vec::new();
    let mut i: usize = 0;
    let n: usize = files.len();
    files.order();
    while i < n
        invariant
            i <= n == files@.len(),
            keep@.len() == i,
            forall|j: int| 0 <= j < i ==> #[trigger] keep@[j] == !lists(views(rejected@), files@[j]),
        decreases n - i,
    {
        keep.push(!crate::ghci::reload_actions::is_listed(rejected, files.at(i)));
        i = i + 1;
    }
    let r = files.select(&keep);
    proof {
        let p = |p: NormalPathView| !lists(views(rejected@), p);
        lemma_filter::<NormalPath>(files@, p);
        assert forall|v: NormalPathView| r@.contains(v) <==> files@.filter(p).contains(v) by {
            if r@.contains(v) {
                let i = choose|i: int| 0 <= i < files@.len() && #[trigger] keep@[i] && files@[i] == v;
                assert(files@.contains(v));
            }
            if files@.filter(p).contains(v) {
                let i = choose|i: int| 0 <= i < files@.len() && files@[i] == v;
                assert(keep@[i]);
            }
        }
        sorted_determined::<NormalPath>(r@, files@.filter(p));
    }
    r
}

impl Reload {
    /// A reload that does what the actions ask for.
    pub fn new(actions: &ReloadActions, replace: bool, files: SortedSet<NormalPath>) -> (r: Self)
        ensures
            r.plan == Plan::of(actions@, replace),
            r.phase == ReloadPhase::Starting,
            r.files@ == files@,
    {
        Reload {
            plan: Plan {
                restart: actions.needs_restart.len() > 0,
                removals: actions.needs_remove.len() > 0,
                additions: actions.needs_add.len() > 0,
                reload: actions.needs_reload.len() > 0,
                replace,
            },
            phase: ReloadPhase::Starting,
            files,
        }
    }

    /// Takes the sources that GHCi did not accept out of the snapshot, so that a later change tries
    /// them again.
    pub fn reject(&mut self, rejected: &Vec<NormalPath>)
        ensures
            final(self).files@ == rest_of(old(self).files@, views(rejected@)),
            final(self).plan == old(self).plan,
            final(self).phase == old(self).phase,
    {
        self.files = without_rejected(&self.files, rejected);
    }

    fn go(&mut self, phase: ReloadPhase, action: ReloadAction, kind: Option<GhciReloadKind>) -> (r: (
        ReloadAction,
        Option<GhciReloadKind>,
        bool,
    ))
        ensures
            *final(self) == (Reload { phase, ..*old(self) }),
            r == (action, kind, false),
    {
        self.phase = phase;
        (action, kind, false)
    }

    fn finish(&mut self, failed: bool, ghci_available: bool, accept: bool) -> (r: (
        ReloadAction,
        Option<GhciReloadKind>,
        bool,
    ))
        ensures
            *final(self) == (Reload { phase: finishing(failed, ghci_available, accept).phase, ..*old(self) }),
            r.0 == finishing(failed, ghci_available, accept).action,
            r.1 == finishing(failed, ghci_available, accept).kind,
            r.2 == accept,
    {
        self.phase = ReloadPhase::Finishing { failed };
        (
            ReloadAction::FinishCompilation { ghci_available, operation_succeeded: !failed },
            Some(GhciReloadKind::Idle),
            accept,
        )
    }

    fn go_after_additions(&mut self, kind: Option<GhciReloadKind>) -> (r: (
        ReloadAction,
        Option<GhciReloadKind>,
        bool,
    ))
        ensures
            ({
                let s = after_additions(old(self).plan, kind);
                *final(self) == (Reload { phase: s.phase, ..*old(self) }) && r == (s.action, s.kind, s.accept)
            }),
    {
        if self.plan.reload {
            self.phase = ReloadPhase::Reloading;
            (ReloadAction::Reload, kind, true)
        } else {
            self.finish(false, true, true)
        }
    }

    fn go_after_removals(&mut self, kind: Option<GhciReloadKind>) -> (r: (
        ReloadAction,
        Option<GhciReloadKind>,
        bool,
    ))
        ensures
            ({
                let s = after_removals(old(self).plan, kind);
                *final(self) == (Reload { phase: s.phase, ..*old(self) }) && r == (s.action, s.kind, s.accept)
            }),
    {
        if !self.plan.additions {
            self.go_after_additions(kind)
        } else if self.plan.replace {
            self.go(ReloadPhase::Replacing, ReloadAction::Replace, kind)
        } else {
            self.go(ReloadPhase::Adding, ReloadAction::Add, kind)
        }
    }

    fn advance(&mut self, killed: bool, input: ReloadInput) -> (r: Option<
        (ReloadAction, Option<GhciReloadKind>, bool),
    >)
        ensures
            match r {
                Some(r) => match reload_next(old(self).plan, old(self).phase, killed, input) {
                    Some(s) => *final(self) == (Reload { phase: s.phase, ..*old(self) }) && r == (
                        s.action,
                        s.kind,
                        s.accept,
                    ),
                    None => false,
                },
                None => reload_next(old(self).plan, old(self).phase, killed, input) is None && *final(self)
                    == *old(self),
            },
    {
        match (self.phase, input) {
            (ReloadPhase::Starting, ReloadInput::Ready) => if self.plan.restart {
                Some(self.go(ReloadPhase::Restarting, ReloadAction::Restart, Some(GhciReloadKind::Restart)))
            } else if !self.plan.removals && !self.plan.additions && !self.plan.reload {
                self.phase = ReloadPhase::Over;
                Some((ReloadAction::Finish, Some(GhciReloadKind::Idle), true))
            } else {
                Some(self.go(ReloadPhase::BeforeHooks, ReloadAction::RunBeforeHooks, None))
            },
            (ReloadPhase::Restarting, ReloadInput::Ready) => Some(
                self.go(ReloadPhase::Over, ReloadAction::Finish, None),
            ),
            (ReloadPhase::Restarting, ReloadInput::Failed { .. }) => Some(
                self.go(ReloadPhase::Over, ReloadAction::Fail, None),
            ),
            (ReloadPhase::BeforeHooks, ReloadInput::Ready) => if self.plan.removals {
                Some(self.go(ReloadPhase::Removing, ReloadAction::Remove, Some(GhciReloadKind::Reload)))
            } else {
                Some(self.go_after_removals(Some(GhciReloadKind::Reload)))
            },
            (ReloadPhase::Removing, ReloadInput::Ready) => Some(self.go_after_removals(None)),
            (ReloadPhase::Adding, ReloadInput::Ready) => Some(self.go_after_additions(None)),
            (ReloadPhase::Replacing, ReloadInput::Ready) => Some(self.go_after_additions(None)),
            (ReloadPhase::Reloading, ReloadInput::Ready) => Some(
                self.go(ReloadPhase::Refreshing, ReloadAction::RefreshEvalCommands, None),
            ),
            (ReloadPhase::Reloading, ReloadInput::Inactive) => Some(
                self.go(ReloadPhase::Retrying, ReloadAction::InterruptAndRetry, None),
            ),
            (ReloadPhase::Reloading, ReloadInput::ErrorReported) => Some(
                self.go(ReloadPhase::Interrupting, ReloadAction::Interrupt, None),
            ),
            (ReloadPhase::Retrying, ReloadInput::Ready) => Some(
                self.go(ReloadPhase::Refreshing, ReloadAction::RefreshEvalCommands, None),
            ),
            (ReloadPhase::Interrupting, ReloadInput::Ready) => Some(self.finish(false, true, false)),
            (ReloadPhase::Refreshing, ReloadInput::Ready) => Some(self.finish(false, true, false)),
            (ReloadPhase::Finishing { failed }, ReloadInput::Ready) => {
                let action = if failed {
                    ReloadAction::FailOperation
                } else {
                    ReloadAction::Finish
                };
                Some(self.go(ReloadPhase::Over, action, None))
            },
            (ReloadPhase::Finishing { failed }, ReloadInput::Failed { .. }) => {
                let action = if failed {
                    ReloadAction::FailOperation
                } else {
                    ReloadAction::Fail
                };
                Some(self.go(ReloadPhase::Over, action, None))
            },
            (ReloadPhase::Starting, ReloadInput::Failed { .. }) => None,
            (ReloadPhase::Over, ReloadInput::Failed { .. }) => None,
            (_, ReloadInput::Failed { broken_pipe }) => Some(self.finish(true, !broken_pipe && !killed, false)),
            _ => None,
        }
    }
}

impl GhciView {
    /// The session with another accepted snapshot.
    pub open spec fn knowing(self, known: Seq<NormalPathView>) -> GhciView {
        GhciView { known, ..self }
    }
}

impl Ghci {
    /// Takes what came of what was last to be done in a reload and says what is to be done next, and
    /// what the manager is to be told of the reload before that. Nothing changes, and nothing is to
    /// be done, if the input does not answer what was last to be done.
    pub fn reload(&mut self, run: &mut Reload, input: ReloadInput) -> (r: Option<
        (ReloadAction, Option<GhciReloadKind>),
    >)
        ensures
            final(run).files@ == old(run).files@,
            final(run).plan == old(run).plan,
            match r {
                Some((action, kind)) => match reload_next(
                    old(run).plan,
                    old(run).phase,
                    old(self)@.recovery_restart_required,
                    input,
                ) {
                    Some(s) => {
                        &&& action == s.action
                        &&& kind == s.kind
                        &&& final(run).phase == s.phase
                        &&& final(self)@ == (if s.accept {
                            old(self)@.knowing(old(run).files@)
                        } else {
                            old(self)@
                        })
                    },
                    None => false,
                },
                None => {
                    &&& reload_next(
                        old(run).plan,
                        old(run).phase,
                        old(self)@.recovery_restart_required,
                        input,
                    ) is None
                    &&& *final(run) == *old(run)
                    &&& final(self)@ == old(self)@
                },
            },
    {
        match run.advance(self.recovery_restart_required, input) {
            Some((action, kind, accept)) => {
                if accept {
                    self.known_haskell_files = run.files.duplicate();
                }
                Some((action, kind))
            },
            None => None,
        }
    }
}

/// How an interrupted reload is finished: with all hooks after the reload, or with the shell
/// commands among them only.
#[derive(Clone, Copy, Debug, PartialEq, Eq, Structural)]
pub enum InterruptedFinish {
    RunHooks,
    RunShellHooks,
}

/// How a reload that gave way to a newer change is finished.
pub fn finish_interrupted_reload(ghci_available: bool) -> (r: InterruptedFinish)
    ensures
        r == (if ghci_available {
            InterruptedFinish::RunHooks
        } else {
            InterruptedFinish::RunShellHooks
        }),
{
    if ghci_available {
        InterruptedFinish::RunHooks
    } else {
        InterruptedFinish::RunShellHooks
    }
}

/// The phases and actions of a whole reload that gets these inputs.
pub open spec fn reload_run(plan: Plan, phase: ReloadPhase, inputs: Seq<(bool, ReloadInput)>) -> (
    ReloadPhase,
    Seq<ReloadAction>,
)
    decreases inputs.len(),
{
    if inputs.len() == 0 {
        (phase, seq![])
    } else {
        let (before, actions) = reload_run(plan, phase, inputs.drop_last());
        match reload_next(plan, before, inputs.last().0, inputs.last().1) {
            Some(s) => (s.phase, actions.push(s.action)),
            None => (before, actions),
        }
    }
}

/// How often the actions finish a compilation.
pub open spec fn finishes(actions: Seq<ReloadAction>) -> nat
    decreases actions.len(),
{
    if actions.len() == 0 {
        0
    } else {
        finishes(actions.drop_last()) + (if actions.last() is FinishCompilation {
            1nat
        } else {
            0nat
        })
    }
}

/// Hooks are balanced: if the hooks before a reload run and the reload comes to its end, whatever
/// fails on the way, then its compilation is finished, with the hooks after it, exactly once.
pub proof fn reload_hooks_are_balanced(plan: Plan, inputs: Seq<(bool, ReloadInput)>)
    ensures
        ({
            let (phase, actions) = reload_run(plan, ReloadPhase::Starting, inputs);
            let opened = actions.contains(ReloadAction::RunBeforeHooks);
            &&& phase is Over && opened ==> finishes(actions) == 1
            &&& !opened ==> finishes(actions) == 0
            &&& finishes(actions) <= 1
            &&& (phase is Starting || phase is Restarting) ==> !opened
            &&& !(phase is Starting || phase is Restarting || phase is Over) ==> opened
            &&& !(phase is Finishing || phase is Over) ==> finishes(actions) == 0
            &&& phase is Finishing ==> finishes(actions) == 1
        }),
    decreases inputs.len(),
{
    if inputs.len() > 0 {
        reload_hooks_are_balanced(plan, inputs.drop_last());
        let (before, actions) = reload_run(plan, ReloadPhase::Starting, inputs.drop_last());
        let opened = actions.contains(ReloadAction::RunBeforeHooks);
        match reload_next(plan, before, inputs.last().0, inputs.last().1) {
            Some(s) => {
                let after = actions.push(s.action);
                assert(after.drop_last() =~= actions);
                assert(after.contains(ReloadAction::RunBeforeHooks) <==> opened || s.action
                    == ReloadAction::RunBeforeHooks) by {
                    if opened {
                        let i = choose|i: int|
                            0 <= i < actions.len() && actions[i] == ReloadAction::RunBeforeHooks;
                        assert(after[i] == ReloadAction::RunBeforeHooks);
                    }
                    if s.action == ReloadAction::RunBeforeHooks {
                        assert(after[actions.len() as int] == ReloadAction::RunBeforeHooks);
                    }
                    if after.contains(ReloadAction::RunBeforeHooks) {
                        let i = choose|i: int|
                            0 <= i < after.len() && after[i] == ReloadAction::RunBeforeHooks;
                        if i < actions.len() {
                            assert(actions[i] == ReloadAction::RunBeforeHooks);
                        }
                    }
                }
            },
            None => {},
        }
    } else {
        let (_, actions) = reload_run(plan, ReloadPhase::Starting, inputs);
        assert(!actions.contains(ReloadAction::RunBeforeHooks));
    }
}

/// The snapshot is accepted only when nothing asks for more to be done, or all that was to be
/// removed and added is. A reload that is interrupted or fails before that leaves the snapshot that
/// was accepted before it, so that the next one tries again.
pub proof fn snapshot_is_accepted_when_synchronized(
    plan: Plan,
    phase: ReloadPhase,
    killed: bool,
    input: ReloadInput,
)
    requires
        reload_next(plan, phase, killed, input) is Some,
        (reload_next(plan, phase, killed, input)->0).accept,
    ensures
        input is Ready,
        !plan.restart || !(phase is Starting),
        phase is Starting ==> !plan.removals && !plan.additions && !plan.reload,
        phase is BeforeHooks ==> !plan.removals && !plan.additions,
        phase is Removing ==> !plan.additions,
        phase is Starting || phase is BeforeHooks || phase is Removing || phase is Adding || phase is Replacing,
{
}

/// While the manager may interrupt a reload, its hooks before it have run and nothing of its end has
/// begun: it is told that a reload runs only once the hooks before it completed, and that nothing
/// can be interrupted before the end begins.
pub proof fn interruption_is_safe(plan: Plan, phase: ReloadPhase, killed: bool, input: ReloadInput)
    requires
        reload_next(plan, phase, killed, input) is Some,
    ensures
        (reload_next(plan, phase, killed, input)->0).kind == Some(GhciReloadKind::Reload) ==> phase is BeforeHooks
            && input is Ready,
        (reload_next(plan, phase, killed, input)->0).action is FinishCompilation ==> (reload_next(
            plan,
            phase,
            killed,
            input,
        )->0).kind == Some(GhciReloadKind::Idle),
        (reload_next(plan, phase, killed, input)->0).action is Restart ==> (reload_next(
            plan,
            phase,
            killed,
            input,
        )->0).kind == Some(GhciReloadKind::Restart),
{
}

/// The error of a step that failed is what a reload returns, whatever comes of its end.
pub proof fn operation_error_comes_first(plan: Plan, killed: bool, input: ReloadInput)
    requires
        reload_next(plan, ReloadPhase::Finishing { failed: true }, killed, input) is Some,
    ensures
        (reload_next(plan, ReloadPhase::Finishing { failed: true }, killed, input)->0).action
            == ReloadAction::FailOperation,
{
}

/// A changed file that takes a restart outranks everything else in its batch: the first step is the
/// restart, the manager is told that it cannot be interrupted, and in the whole run the old session is
/// asked for nothing else.
pub proof fn restart_outranks_everything(plan: Plan, inputs: Seq<(bool, ReloadInput)>, killed: bool)
    requires
        plan.restart,
    ensures
        reload_next(plan, ReloadPhase::Starting, killed, ReloadInput::Ready) matches Some(s) && s.action
            == ReloadAction::Restart && s.kind == Some(GhciReloadKind::Restart) && !s.accept,
        ({
            let (phase, actions) = reload_run(plan, ReloadPhase::Starting, inputs);
            &&& phase is Starting || phase is Restarting || phase is Over
            &&& forall|i: int|
                0 <= i < actions.len() ==> (#[trigger] actions[i] is Restart || actions[i] is Finish
                    || actions[i] is Fail)
            &&& actions.len() > 0 ==> actions[0] is Restart
            &&& phase is Starting <==> actions.len() == 0
        }),
    decreases inputs.len(),
{
    if inputs.len() > 0 {
        restart_outranks_everything(plan, inputs.drop_last(), killed);
    }
}

/// The actions of a reload of which everything succeeds, at most `steps` of them.
pub open spec fn actions_when_ready(plan: Plan, phase: ReloadPhase, killed: bool, steps: nat) -> Seq<ReloadAction>
    decreases steps,
{
    if steps == 0 {
        seq![]
    } else {
        match reload_next(plan, phase, killed, ReloadInput::Ready) {
            Some(s) => seq![s.action] + actions_when_ready(plan, s.phase, killed, (steps - 1) as nat),
            None => seq![],
        }
    }
}

proof fn lemma_ready_end(plan: Plan, killed: bool, steps: nat)
    requires
        steps >= 4,
    ensures
        actions_when_ready(plan, ReloadPhase::Finishing { failed: false }, killed, (steps - 2) as nat) == seq![
            ReloadAction::Finish,
        ],
        actions_when_ready(plan, ReloadPhase::Refreshing, killed, (steps - 1) as nat) == seq![
            ReloadAction::FinishCompilation { ghci_available: true, operation_succeeded: true },
            ReloadAction::Finish,
        ],
        actions_when_ready(plan, ReloadPhase::Reloading, killed, steps) == seq![
            ReloadAction::RefreshEvalCommands,
            ReloadAction::FinishCompilation { ghci_available: true, operation_succeeded: true },
            ReloadAction::Finish,
        ],
{
    let end = actions_when_ready(plan, ReloadPhase::Finishing { failed: false }, killed, (steps - 2) as nat);
    assert(actions_when_ready(plan, ReloadPhase::Over, killed, (steps - 3) as nat) =~= seq![]);
    assert(end =~= seq![ReloadAction::Finish]);
    let refresh = actions_when_ready(plan, ReloadPhase::Refreshing, killed, (steps - 1) as nat);
    assert(refresh =~= seq![
        ReloadAction::FinishCompilation { ghci_available: true, operation_succeeded: true },
    ] + end);
}

/// The reload itself, if it is planned, and the end of the compilation.
spec fn reload_and_end(plan: Plan) -> Seq<ReloadAction> {
    (if plan.reload {
        seq![ReloadAction::Reload, ReloadAction::RefreshEvalCommands]
    } else {
        seq![]
    }) + seq![
        ReloadAction::FinishCompilation { ghci_available: true, operation_succeeded: true },
        ReloadAction::Finish,
    ]
}

/// Additions, if they are planned, or the command in their place, and what comes after them.
spec fn additions_and_rest(plan: Plan) -> Seq<ReloadAction> {
    (if plan.additions && plan.replace {
        seq![ReloadAction::Replace]
    } else if plan.additions {
        seq![ReloadAction::Add]
    } else {
        seq![]
    }) + reload_and_end(plan)
}

proof fn lemma_ready_added(plan: Plan, phase: ReloadPhase, killed: bool, steps: nat)
    requires
        steps >= 5,
        phase is Adding || phase is Replacing || (phase is Removing && !plan.additions) || (phase is BeforeHooks
            && !plan.additions && !plan.removals),
    ensures
        actions_when_ready(plan, phase, killed, steps) == reload_and_end(plan),
{
    lemma_ready_end(plan, killed, (steps - 1) as nat);
    lemma_ready_end(plan, killed, (steps + 1) as nat);
    assert(actions_when_ready(plan, phase, killed, steps) =~= reload_and_end(plan));
}

proof fn lemma_ready_removed(plan: Plan, phase: ReloadPhase, killed: bool, steps: nat)
    requires
        steps >= 6,
        phase is Removing || (phase is BeforeHooks && !plan.removals),
    ensures
        actions_when_ready(plan, phase, killed, steps) == additions_and_rest(plan),
{
    if plan.additions {
        lemma_ready_added(
            plan,
            if plan.replace {
                ReloadPhase::Replacing
            } else {
                ReloadPhase::Adding
            },
            killed,
            (steps - 1) as nat,
        );
    } else {
        lemma_ready_added(plan, phase, killed, steps);
    }
    assert(actions_when_ready(plan, phase, killed, steps) =~= additions_and_rest(plan));
}

/// A reload of which everything succeeds does what the plan says and nothing else, in this order: the
/// hooks before it, removals, additions or the command in their place, the reload itself, and the end of
/// the compilation with the hooks after it. If nothing is planned, nothing is done.
pub proof fn reload_does_what_is_planned(plan: Plan, killed: bool, steps: nat)
    requires
        !plan.restart,
        steps >= 8,
    ensures
        actions_when_ready(plan, ReloadPhase::Starting, killed, steps) == (if !plan.removals && !plan.additions
            && !plan.reload {
            seq![ReloadAction::Finish]
        } else {
            seq![ReloadAction::RunBeforeHooks] + (if plan.removals {
                seq![ReloadAction::Remove]
            } else {
                seq![]
            }) + (if plan.additions && plan.replace {
                seq![ReloadAction::Replace]
            } else if plan.additions {
                seq![ReloadAction::Add]
            } else {
                seq![]
            }) + (if plan.reload {
                seq![ReloadAction::Reload, ReloadAction::RefreshEvalCommands]
            } else {
                seq![]
            }) + seq![
                ReloadAction::FinishCompilation { ghci_available: true, operation_succeeded: true },
                ReloadAction::Finish,
            ]
        }),
{
    let run = actions_when_ready(plan, ReloadPhase::Starting, killed, steps);
    assert(actions_when_ready(plan, ReloadPhase::Over, killed, (steps - 1) as nat) =~= seq![]);
    if !plan.removals && !plan.additions && !plan.reload {
        assert(run =~= seq![ReloadAction::Finish]);
    } else {
        let hooks = actions_when_ready(plan, ReloadPhase::BeforeHooks, killed, (steps - 1) as nat);
        if plan.removals {
            lemma_ready_removed(plan, ReloadPhase::Removing, killed, (steps - 2) as nat);
            assert(hooks =~= seq![ReloadAction::Remove] + additions_and_rest(plan));
        } else {
            lemma_ready_removed(plan, ReloadPhase::BeforeHooks, killed, (steps - 1) as nat);
            assert(hooks =~= additions_and_rest(plan));
        }
        assert(run =~= seq![ReloadAction::RunBeforeHooks] + hooks);
    }
}

/// Whatever step of a reload fails once its hooks have begun, the compilation is finished as one that
/// failed, and then the error of that step is returned. The prompt is used for that only if it is still
/// there.
pub proof fn failed_step_fails_the_reload(plan: Plan, phase: ReloadPhase, killed: bool, broken_pipe: bool, input: ReloadInput)
    requires
        !(phase is Starting || phase is Restarting || phase is Finishing || phase is Over),
        input is Ready || input is Failed,
    ensures
        reload_next(plan, phase, killed, ReloadInput::Failed { broken_pipe }) matches Some(s) && s.action == (
        ReloadAction::FinishCompilation {
            ghci_available: !broken_pipe && !killed,
            operation_succeeded: false,
        }) && !s.accept && s.kind == Some(GhciReloadKind::Idle) && (reload_next(plan, s.phase, killed, input)
            matches Some(t) && t.action == ReloadAction::FailOperation && t.phase is Over),
{
}

/// A compilation that reports no progress is interrupted and tried again, and one that reports an error
/// is interrupted if errors interrupt; nothing else is interrupted.
pub proof fn only_a_running_compilation_is_interrupted(
    plan: Plan,
    phase: ReloadPhase,
    killed: bool,
    input: ReloadInput,
)
    ensures
        ({
            let next = reload_next(plan, phase, killed, input);
            &&& (next is Some && (next->0).action is InterruptAndRetry) <==> (phase is Reloading && input is Inactive)
            &&& (next is Some && (next->0).action is Interrupt) <==> (phase is Reloading && input is ErrorReported)
            &&& (input is Inactive || input is ErrorReported) && !(phase is Reloading) ==> next is None
        }),
{
}

/// An interrupted compilation keeps what it reported: it is finished like one that came to its end. One
/// that was tried again goes on like one that succeeded at once.
pub proof fn interrupted_compilation_is_finished(plan: Plan, killed: bool)
    ensures
        reload_next(plan, ReloadPhase::Interrupting, killed, ReloadInput::Ready) matches Some(s) && s.action == (
        ReloadAction::FinishCompilation { ghci_available: true, operation_succeeded: true }),
        reload_next(plan, ReloadPhase::Retrying, killed, ReloadInput::Ready) == reload_next(
            plan,
            ReloadPhase::Reloading,
            killed,
            ReloadInput::Ready,
        ),
{
}

/// The snapshot is accepted at exactly one place of a reload that comes that far: when nothing is left to
/// remove or add.
pub proof fn snapshot_is_accepted_once(plan: Plan, phase: ReloadPhase, killed: bool, input: ReloadInput)
    ensures
        ({
            let next = reload_next(plan, phase, killed, input);
            let synchronizing = phase is Starting || phase is BeforeHooks || phase is Removing || phase is Adding
                || phase is Replacing;
            (next is Some && (next->0).accept) <==> (input is Ready && synchronizing && ((next->0).action is Reload
                || (next->0).action is FinishCompilation || (next->0).action is Finish))
        }),
{
}

/// The manager is told of a reload once, by the step after the hooks before it, and of a restart once, by
/// its first step. It is told that nothing can be interrupted exactly when the end begins or when there is
/// nothing to do.
pub proof fn manager_is_told_once(plan: Plan, phase: ReloadPhase, killed: bool, input: ReloadInput)
    requires
        reload_next(plan, phase, killed, input) is Some,
    ensures
        ({
            let s = reload_next(plan, phase, killed, input)->0;
            &&& s.kind == Some(GhciReloadKind::Reload) <==> phase is BeforeHooks && input is Ready && !(
            s.action is FinishCompilation)
            &&& s.kind == Some(GhciReloadKind::Restart) <==> s.action is Restart
            &&& s.kind == Some(GhciReloadKind::Idle) <==> s.action is FinishCompilation || (phase is Starting
                && s.action is Finish)
            &&& s.kind != Some(GhciReloadKind::Pending)
        }),
{
}

/// A step is planned exactly if an action asks for it.
pub proof fn plan_follows_the_actions(actions: ActionsView, replace: bool)
    ensures
        Plan::of(actions, replace).restart <==> (exists|p: NormalPathView| actions.restart.contains(p)),
        Plan::of(actions, replace).removals <==> (exists|p: NormalPathView| actions.removals.contains(p)),
        Plan::of(actions, replace).additions <==> (exists|p: NormalPathView| actions.additions.contains(p)),
        Plan::of(actions, replace).reload <==> (exists|p: NormalPathView| actions.reload.contains(p)),
        Plan::of(actions, replace).replace == replace,
{
    let a = actions;
    assert(a.restart.len() > 0 ==> a.restart.contains(a.restart[0]));
    assert(a.removals.len() > 0 ==> a.removals.contains(a.removals[0]));
    assert(a.additions.len() > 0 ==> a.additions.contains(a.additions[0]));
    assert(a.reload.len() > 0 ==> a.reload.contains(a.reload[0]));
}

/// What is left of a snapshot are its paths without those that were rejected: these are tried again.
pub proof fn rejected_sources_are_tried_again(
    files: Seq<NormalPathView>,
    rejected: Seq<NormalPathView>,
    p: NormalPathView,
)
    requires
        sorted::<NormalPath>(files),
    ensures
        rest_of(files, rejected).contains(p) <==> files.contains(p) && !lists(rejected, p),
{
    lemma_filter::<NormalPath>(files, |p: NormalPathView| !lists(rejected, p));
}

/// A reload waits for the end of what it does.
pub proof fn reload_waits_for_what_it_does(plan: Plan, phase: ReloadPhase, killed: bool, input: ReloadInput)
    requires
        reload_next(plan, phase, killed, input) is Some,
    ensures
        (reload_next(plan, phase, killed, input)->0).phase is Restarting <==> (reload_next(plan, phase, killed, input)->0).action is Restart,
        (reload_next(plan, phase, killed, input)->0).phase is BeforeHooks <==> (reload_next(plan, phase, killed, input)->0).action is RunBeforeHooks,
        (reload_next(plan, phase, killed, input)->0).phase is Removing <==> (reload_next(plan, phase, killed, input)->0).action is Remove,
        (reload_next(plan, phase, killed, input)->0).phase is Adding <==> (reload_next(plan, phase, killed, input)->0).action is Add,
        (reload_next(plan, phase, killed, input)->0).phase is Replacing <==> (reload_next(plan, phase, killed, input)->0).action is Replace,
        (reload_next(plan, phase, killed, input)->0).phase is Reloading <==> (reload_next(plan, phase, killed, input)->0).action is Reload,
        (reload_next(plan, phase, killed, input)->0).phase is Retrying <==> (reload_next(plan, phase, killed, input)->0).action is InterruptAndRetry,
        (reload_next(plan, phase, killed, input)->0).phase is Interrupting <==> (reload_next(plan, phase, killed, input)->0).action is Interrupt,
        (reload_next(plan, phase, killed, input)->0).phase is Refreshing <==> (reload_next(plan, phase, killed, input)->0).action is RefreshEvalCommands,
{
}

} // verus!
