//! Replacing a session.

use crate::ghci::compilation_log::CompilationLog;
use crate::ghci::session::Ghci;
use crate::hooks::{LifecycleEvent, When};
use crate::path::NormalPath;
use crate::sorted::SortedSet;
use vstd::prelude::*;

verus! {

/// How a session is replaced.
#[derive(Clone, Copy, Debug, PartialEq, Eq, Structural)]
pub enum RestartKind {
    /// A session that never came up: it has no prompt, so only shell hooks run, and no process.
    Startup,
    /// A running session.
    Running,
    /// A session that was force-killed, so that no hooks before the restart can run.
    Killed,
}

/// Lifecycle events that end together.
#[derive(Clone, Copy, Debug, PartialEq, Eq, Structural)]
pub enum Closing {
    /// The reload.
    Reload,
    /// The restart and the reload.
    RestartAndReload,
    /// The startup and the restart.
    StartupAndRestart,
    /// The startup, the restart and the reload.
    All,
}

impl Closing {
    /// The events, in the order in which their hooks run.
    pub open spec fn events(self) -> Seq<LifecycleEvent> {
        match self {
            Closing::Reload => seq![LifecycleEvent::Reload(When::After)],
            Closing::RestartAndReload => seq![
                LifecycleEvent::Restart(When::After),
                LifecycleEvent::Reload(When::After),
            ],
            Closing::StartupAndRestart => seq![
                LifecycleEvent::Startup(When::After),
                LifecycleEvent::Restart(When::After),
            ],
            Closing::All => seq![
                LifecycleEvent::Startup(When::After),
                LifecycleEvent::Restart(When::After),
                LifecycleEvent::Reload(When::After),
            ],
        }
    }

    /// Lists the events in the order in which their hooks run.
    pub fn list(self) -> (r: Vec<LifecycleEvent>)
        ensures
            r@ == self.events(),
    {
        let mut r: Vec<LifecycleEvent> = Vec::new();
        match self {
            Closing::Reload => {},
            Closing::RestartAndReload => {
                r.push(LifecycleEvent::Restart(When::After));
            },
            Closing::StartupAndRestart => {
                r.push(LifecycleEvent::Startup(When::After));
                r.push(LifecycleEvent::Restart(When::After));
                proof {
                    assert(r@ =~= self.events());
                }
                return r;
            },
            Closing::All => {
                r.push(LifecycleEvent::Startup(When::After));
                r.push(LifecycleEvent::Restart(When::After));
            },
        }
        r.push(LifecycleEvent::Reload(When::After));
        proof {
            assert(r@ =~= self.events());
        }
        r
    }
}

/// The events that end when a replacement is up, or cannot be had.
pub open spec fn closing(kind: RestartKind) -> Closing {
    match kind {
        RestartKind::Killed => Closing::StartupAndRestart,
        _ => Closing::All,
    }
}

/// What a replacement waits for.
#[derive(Clone, Copy, Debug, PartialEq, Eq, Structural)]
pub enum RestartPhase {
    /// The hooks before a reload were to run.
    ReloadHooks,
    /// The hooks before a restart were to run.
    RestartHooks,
    /// The old session was to be stopped.
    Stopping,
    /// The new session was to be started.
    Starting,
    /// The new session was to be initialized.
    Initializing,
    /// The events were to be ended after an error.
    Closing,
    Over,
}

/// What is to be done next for a replacement.
#[derive(Clone, Copy, Debug, PartialEq, Eq, Structural)]
pub enum RestartAction {
    /// Run the hooks of this event.
    RunHooks(LifecycleEvent),
    /// Run the shell hooks of this event.
    RunShellHooks(LifecycleEvent),
    /// Stop the old session, and keep reading its output until it is gone.
    Stop,
    /// Start a new session.
    Start,
    /// Put the new session in place of the old one and initialize it. That ends these events.
    Initialize(Closing),
    /// Run the shell hooks of these events.
    RunShellEvents(Closing),
    /// Record that the command could not be started, and finish the compilation without a session.
    /// That ends these events.
    FinishCompilation(Closing),
    /// Return.
    Finish,
    /// Return the error that ended the replacement.
    FailFirst,
    /// Return the error that was just reported.
    Fail,
}

/// What came of it.
#[derive(Clone, Copy, Debug, PartialEq, Eq, Structural)]
pub enum RestartInput {
    /// What was to be done is done.
    Ready,
    /// What was to be done failed.
    Failed,
}

/// What a replacement begins with.
pub open spec fn restart_first(kind: RestartKind) -> (RestartPhase, RestartAction) {
    match kind {
        RestartKind::Startup => (
            RestartPhase::ReloadHooks,
            RestartAction::RunShellHooks(LifecycleEvent::Reload(When::Before)),
        ),
        RestartKind::Running => (
            RestartPhase::ReloadHooks,
            RestartAction::RunHooks(LifecycleEvent::Reload(When::Before)),
        ),
        RestartKind::Killed => (RestartPhase::Stopping, RestartAction::Stop),
    }
}

/// What happens next in a replacement. Nothing, if the input does not answer what was last to be
/// done.
pub open spec fn restart_next(kind: RestartKind, phase: RestartPhase, input: RestartInput) -> Option<
    (RestartPhase, RestartAction),
> {
    match (phase, input) {
        (RestartPhase::ReloadHooks, RestartInput::Ready) => Some(
            (
                RestartPhase::RestartHooks,
                if kind == RestartKind::Startup {
                    RestartAction::RunShellHooks(LifecycleEvent::Restart(When::Before))
                } else {
                    RestartAction::RunHooks(LifecycleEvent::Restart(When::Before))
                },
            ),
        ),
        (RestartPhase::ReloadHooks, RestartInput::Failed) => Some(
            if kind == RestartKind::Startup {
                (RestartPhase::Over, RestartAction::Fail)
            } else {
                (RestartPhase::Closing, RestartAction::RunShellEvents(Closing::Reload))
            },
        ),
        (RestartPhase::RestartHooks, RestartInput::Ready) => Some(
            if kind == RestartKind::Startup {
                (RestartPhase::Starting, RestartAction::Start)
            } else {
                (RestartPhase::Stopping, RestartAction::Stop)
            },
        ),
        (RestartPhase::RestartHooks, RestartInput::Failed) => Some(
            if kind == RestartKind::Startup {
                (RestartPhase::Over, RestartAction::Fail)
            } else {
                (RestartPhase::Closing, RestartAction::RunShellEvents(Closing::RestartAndReload))
            },
        ),
        (RestartPhase::Stopping, RestartInput::Ready) => Some((RestartPhase::Starting, RestartAction::Start)),
        (RestartPhase::Stopping, RestartInput::Failed) => Some(
            (RestartPhase::Closing, RestartAction::RunShellEvents(closing(kind))),
        ),
        (RestartPhase::Starting, RestartInput::Ready) => Some(
            (RestartPhase::Initializing, RestartAction::Initialize(closing(kind))),
        ),
        (RestartPhase::Starting, RestartInput::Failed) => Some(
            (RestartPhase::Closing, RestartAction::FinishCompilation(closing(kind))),
        ),
        (RestartPhase::Initializing, RestartInput::Ready) => Some((RestartPhase::Over, RestartAction::Finish)),
        (RestartPhase::Initializing, RestartInput::Failed) => Some((RestartPhase::Over, RestartAction::Fail)),
        (RestartPhase::Closing, RestartInput::Ready) => Some((RestartPhase::Over, RestartAction::FailFirst)),
        (RestartPhase::Closing, RestartInput::Failed) => Some((RestartPhase::Over, RestartAction::Fail)),
        (RestartPhase::Over, _) => None,
    }
}

/// A replacement in progress.
#[derive(Clone, Copy, Debug, PartialEq, Eq, Structural)]
pub struct Restart {
    pub kind: RestartKind,
    pub phase: RestartPhase,
}

impl Restart {
    /// A replacement, and what it begins with.
    pub fn new(kind: RestartKind) -> (r: (Self, RestartAction))
        ensures
            r.0.kind == kind,
            (r.0.phase, r.1) == restart_first(kind),
    {
        let (phase, action) = match kind {
            RestartKind::Startup => (
                RestartPhase::ReloadHooks,
                RestartAction::RunShellHooks(LifecycleEvent::Reload(When::Before)),
            ),
            RestartKind::Running => (
                RestartPhase::ReloadHooks,
                RestartAction::RunHooks(LifecycleEvent::Reload(When::Before)),
            ),
            RestartKind::Killed => (RestartPhase::Stopping, RestartAction::Stop),
        };
        (Restart { kind, phase }, action)
    }

    /// Takes what came of what was last to be done for a replacement and says what is to be done
    /// next. Nothing changes, and nothing is to be done, once the replacement is over.
    pub fn restart(&mut self, input: RestartInput) -> (r: Option<RestartAction>)
        ensures
            final(self).kind == old(self).kind,
            match r {
                Some(action) => restart_next(old(self).kind, old(self).phase, input) == Some(
                    (final(self).phase, action),
                ),
                None => restart_next(old(self).kind, old(self).phase, input) is None && *final(self) == *old(
                    self,
                ),
            },
    {
        let startup = self.kind == RestartKind::Startup;
        let all = match self.kind {
            RestartKind::Killed => Closing::StartupAndRestart,
            _ => Closing::All,
        };
        let (phase, action) = match (self.phase, input) {
            (RestartPhase::ReloadHooks, RestartInput::Ready) => if startup {
                (
                    RestartPhase::RestartHooks,
                    RestartAction::RunShellHooks(LifecycleEvent::Restart(When::Before)),
                )
            } else {
                (
                    RestartPhase::RestartHooks,
                    RestartAction::RunHooks(LifecycleEvent::Restart(When::Before)),
                )
            },
            (RestartPhase::ReloadHooks, RestartInput::Failed) => if startup {
                (RestartPhase::Over, RestartAction::Fail)
            } else {
                (RestartPhase::Closing, RestartAction::RunShellEvents(Closing::Reload))
            },
            (RestartPhase::RestartHooks, RestartInput::Ready) => if startup {
                (RestartPhase::Starting, RestartAction::Start)
            } else {
                (RestartPhase::Stopping, RestartAction::Stop)
            },
            (RestartPhase::RestartHooks, RestartInput::Failed) => if startup {
                (RestartPhase::Over, RestartAction::Fail)
            } else {
                (RestartPhase::Closing, RestartAction::RunShellEvents(Closing::RestartAndReload))
            },
            (RestartPhase::Stopping, RestartInput::Ready) => (RestartPhase::Starting, RestartAction::Start),
            (RestartPhase::Stopping, RestartInput::Failed) => (
                RestartPhase::Closing,
                RestartAction::RunShellEvents(all),
            ),
            (RestartPhase::Starting, RestartInput::Ready) => (
                RestartPhase::Initializing,
                RestartAction::Initialize(all),
            ),
            (RestartPhase::Starting, RestartInput::Failed) => (
                RestartPhase::Closing,
                RestartAction::FinishCompilation(all),
            ),
            (RestartPhase::Initializing, RestartInput::Ready) => (RestartPhase::Over, RestartAction::Finish),
            (RestartPhase::Initializing, RestartInput::Failed) => (RestartPhase::Over, RestartAction::Fail),
            (RestartPhase::Closing, RestartInput::Ready) => (RestartPhase::Over, RestartAction::FailFirst),
            (RestartPhase::Closing, RestartInput::Failed) => (RestartPhase::Over, RestartAction::Fail),
            (RestartPhase::Over, _) => {
                return None;
            },
        };
        self.phase = phase;
        Some(action)
    }
}

/// Records in the log that the command could not be started.
pub fn record_start_failure(log: &mut CompilationLog, error: &str)
    ensures
        final(log)@ == old(log)@.failed_with("Failed to start configured GHCi command: "@ + error@),
{
    let mut message = "Failed to start configured GHCi command: ".to_owned();
    message.append(error);
    log.mark_failed_with_diagnostic(message.as_str());
}

/// The events that an action ends.
pub open spec fn closes(action: RestartAction) -> Seq<LifecycleEvent> {
    match action {
        RestartAction::Initialize(closing) => closing.events(),
        RestartAction::RunShellEvents(closing) => closing.events(),
        RestartAction::FinishCompilation(closing) => closing.events(),
        _ => seq![],
    }
}

/// The phase and the actions of a replacement that gets these inputs.
pub open spec fn restart_run(kind: RestartKind, inputs: Seq<RestartInput>) -> (RestartPhase, Seq<RestartAction>)
    decreases inputs.len(),
{
    if inputs.len() == 0 {
        (restart_first(kind).0, seq![restart_first(kind).1])
    } else {
        let (before, actions) = restart_run(kind, inputs.drop_last());
        match restart_next(kind, before, inputs.last()) {
            Some((phase, action)) => (phase, actions.push(action)),
            None => (before, actions),
        }
    }
}

/// Whether the hooks before this event were to run.
pub open spec fn opens(actions: Seq<RestartAction>, event: LifecycleEvent) -> bool {
    actions.contains(RestartAction::RunHooks(event))
}

/// How often the actions end this event.
pub open spec fn endings(actions: Seq<RestartAction>, event: LifecycleEvent) -> nat
    decreases actions.len(),
{
    if actions.len() == 0 {
        0
    } else {
        endings(actions.drop_last(), event) + (if closes(actions.last()).contains(event) {
            1nat
        } else {
            0nat
        })
    }
}

proof fn lemma_closing_events()
    ensures
        forall|c: Closing| #[trigger]
            c.events().contains(LifecycleEvent::Reload(When::After)) <==> !(c is StartupAndRestart),
        forall|c: Closing| #[trigger]
            c.events().contains(LifecycleEvent::Restart(When::After)) <==> !(c is Reload),
{
    assert forall|c: Closing| #[trigger]
        c.events().contains(LifecycleEvent::Reload(When::After)) <==> !(c is StartupAndRestart) by {
        match c {
            Closing::Reload => {
                assert(c.events()[0] == LifecycleEvent::Reload(When::After));
            },
            Closing::RestartAndReload => {
                assert(c.events()[1] == LifecycleEvent::Reload(When::After));
            },
            Closing::StartupAndRestart => {},
            Closing::All => {
                assert(c.events()[2] == LifecycleEvent::Reload(When::After));
            },
        }
    }
    assert forall|c: Closing| #[trigger]
        c.events().contains(LifecycleEvent::Restart(When::After)) <==> !(c is Reload) by {
        match c {
            Closing::Reload => {},
            Closing::RestartAndReload => {
                assert(c.events()[0] == LifecycleEvent::Restart(When::After));
            },
            Closing::StartupAndRestart => {
                assert(c.events()[1] == LifecycleEvent::Restart(When::After));
            },
            Closing::All => {
                assert(c.events()[1] == LifecycleEvent::Restart(When::After));
            },
        }
    }
}

proof fn lemma_push(actions: Seq<RestartAction>, action: RestartAction, event: LifecycleEvent, end: LifecycleEvent)
    ensures
        opens(actions.push(action), event) <==> opens(actions, event) || action == RestartAction::RunHooks(event),
        endings(actions.push(action), end) == endings(actions, end) + (if closes(action).contains(end) {
            1nat
        } else {
            0nat
        }),
{
    let after = actions.push(action);
    assert(after.drop_last() =~= actions);
    let hook = RestartAction::RunHooks(event);
    if actions.contains(hook) {
        let i = choose|i: int| 0 <= i < actions.len() && actions[i] == hook;
        assert(after[i] == hook);
    }
    if action == hook {
        assert(after[actions.len() as int] == hook);
    }
    if after.contains(hook) {
        let i = choose|i: int| 0 <= i < after.len() && after[i] == hook;
        if i < actions.len() {
            assert(actions[i] == hook);
        }
    }
}

proof fn lemma_balance(inputs: Seq<RestartInput>)
    ensures
        ({
            let (phase, actions) = restart_run(RestartKind::Running, inputs);
            let opened = opens(actions, LifecycleEvent::Restart(When::Before));
            let after_reload = endings(actions, LifecycleEvent::Reload(When::After));
            let after_restart = endings(actions, LifecycleEvent::Restart(When::After));
            &&& opens(actions, LifecycleEvent::Reload(When::Before))
            &&& phase is ReloadHooks ==> !opened
            &&& !(phase is ReloadHooks || phase is Closing || phase is Over) ==> opened
            &&& if phase is Over || phase is Closing || phase is Initializing {
                after_reload == 1 && after_restart == (if opened {
                    1nat
                } else {
                    0nat
                })
            } else {
                after_reload == 0 && after_restart == 0
            }
        }),
    decreases inputs.len(),
{
    lemma_closing_events();
    let (phase, actions) = restart_run(RestartKind::Running, inputs);
    let reload = LifecycleEvent::Reload(When::Before);
    let restart = LifecycleEvent::Restart(When::Before);
    if inputs.len() == 0 {
        let none: Seq<RestartAction> = seq![];
        let first = restart_first(RestartKind::Running).1;
        assert(actions =~= none.push(first));
        assert(!opens(none, reload) && !opens(none, restart));
        lemma_push(none, first, reload, LifecycleEvent::Reload(When::After));
        lemma_push(none, first, restart, LifecycleEvent::Restart(When::After));
    } else {
        lemma_balance(inputs.drop_last());
        let (before, sofar) = restart_run(RestartKind::Running, inputs.drop_last());
        match restart_next(RestartKind::Running, before, inputs.last()) {
            Some((_, action)) => {
                lemma_push(sofar, action, reload, LifecycleEvent::Reload(When::After));
                lemma_push(sofar, action, restart, LifecycleEvent::Restart(When::After));
            },
            None => {},
        }
    }
}

/// Hooks are balanced: when the replacement of a running session is over, whatever failed on the
/// way, the reload whose hooks before it ran was ended exactly once, and the restart exactly once if
/// its hooks before it ran.
pub proof fn restart_hooks_are_balanced(inputs: Seq<RestartInput>)
    requires
        restart_run(RestartKind::Running, inputs).0 is Over,
    ensures
        ({
            let actions = restart_run(RestartKind::Running, inputs).1;
            &&& opens(actions, LifecycleEvent::Reload(When::Before))
            &&& endings(actions, LifecycleEvent::Reload(When::After)) == 1
            &&& endings(actions, LifecycleEvent::Restart(When::After)) == (if opens(
                actions,
                LifecycleEvent::Restart(When::Before),
            ) {
                1nat
            } else {
                0nat
            })
        }),
{
    lemma_balance(inputs);
}

impl Ghci {
    /// Replaces a session that uses too much memory, with the sources that it knows.
    pub fn restart_for_memory_watchdog(&self) -> (r: ((Restart, RestartAction), SortedSet<NormalPath>))
        ensures
            r.0.0.kind == RestartKind::Running,
            (r.0.0.phase, r.0.1) == restart_first(RestartKind::Running),
            r.1@ == self@.known,
    {
        (Restart::new(RestartKind::Running), self.known_haskell_files.duplicate())
    }

    /// Replaces a session that never came up, or whose process exited, with these sources or else
    /// with those that it knows.
    pub fn startup_restart(&self, files: Option<SortedSet<NormalPath>>) -> (r: (
        (Restart, RestartAction),
        SortedSet<NormalPath>,
    ))
        ensures
            r.0.0.kind == RestartKind::Startup,
            (r.0.0.phase, r.0.1) == restart_first(RestartKind::Startup),
            r.1@ == (match files {
                Some(files) => files@,
                None => self@.known,
            }),
    {
        let files = match files {
            Some(files) => files,
            None => self.known_haskell_files.duplicate(),
        };
        (Restart::new(RestartKind::Startup), files)
    }

    /// Replaces a session that was force-killed, with the sources that it knows.
    pub fn restart_after_recovery_kill_with_known_files(&self) -> (r: (
        (Restart, RestartAction),
        SortedSet<NormalPath>,
    ))
        ensures
            r.0.0.kind == RestartKind::Killed,
            (r.0.0.phase, r.0.1) == restart_first(RestartKind::Killed),
            r.1@ == self@.known,
    {
        (Restart::new(RestartKind::Killed), self.known_haskell_files.duplicate())
    }
}

/// A running session is replaced in this order: the hooks before the reload and before the restart, the end of the old
/// session, the start of the new one, its initialization with the end of all three events.
pub proof fn running_sessions_are_replaced_in_order()
    ensures
        ({
            let kind = RestartKind::Running;
            let (p1, a1) = restart_first(kind);
            let (p2, a2) = restart_next(kind, p1, RestartInput::Ready)->0;
            let (p3, a3) = restart_next(kind, p2, RestartInput::Ready)->0;
            let (p4, a4) = restart_next(kind, p3, RestartInput::Ready)->0;
            let (p5, a5) = restart_next(kind, p4, RestartInput::Ready)->0;
            let (p6, a6) = restart_next(kind, p5, RestartInput::Ready)->0;
            &&& a1 == RestartAction::RunHooks(LifecycleEvent::Reload(When::Before))
            &&& a2 == RestartAction::RunHooks(LifecycleEvent::Restart(When::Before))
            &&& a3 is Stop
            &&& a4 is Start
            &&& a5 is Initialize && closes(a5) == seq![
                LifecycleEvent::Startup(When::After),
                LifecycleEvent::Restart(When::After),
                LifecycleEvent::Reload(When::After),
            ]
            &&& a6 is Finish
            &&& restart_next(kind, p6, RestartInput::Ready) is None
        }),
{
}

/// A session that never came up is replaced in the same order, but only shell hooks run and nothing is stopped.
pub proof fn failed_starts_are_replaced_in_order()
    ensures
        ({
            let kind = RestartKind::Startup;
            let (p1, a1) = restart_first(kind);
            let (p2, a2) = restart_next(kind, p1, RestartInput::Ready)->0;
            let (p3, a3) = restart_next(kind, p2, RestartInput::Ready)->0;
            let (p4, a4) = restart_next(kind, p3, RestartInput::Ready)->0;
            let (_, a5) = restart_next(kind, p4, RestartInput::Ready)->0;
            &&& a1 == RestartAction::RunShellHooks(LifecycleEvent::Reload(When::Before))
            &&& a2 == RestartAction::RunShellHooks(LifecycleEvent::Restart(When::Before))
            &&& a3 is Start
            &&& a4 is Initialize && closes(a4) == seq![
                LifecycleEvent::Startup(When::After),
                LifecycleEvent::Restart(When::After),
                LifecycleEvent::Reload(When::After),
            ]
            &&& a5 is Finish
        }),
{
}

/// A session that was killed is stopped at once, without hooks, and no reload ends with its replacement.
pub proof fn killed_sessions_are_replaced_in_order()
    ensures
        ({
            let kind = RestartKind::Killed;
            let (p1, a1) = restart_first(kind);
            let (p2, a2) = restart_next(kind, p1, RestartInput::Ready)->0;
            let (p3, a3) = restart_next(kind, p2, RestartInput::Ready)->0;
            let (_, a4) = restart_next(kind, p3, RestartInput::Ready)->0;
            &&& a1 is Stop
            &&& a2 is Start
            &&& a3 is Initialize && closes(a3) == seq![
                LifecycleEvent::Startup(When::After),
                LifecycleEvent::Restart(When::After),
            ]
            &&& a4 is Finish
        }),
{
}

/// A step that fails leads to its error in the end: at once while there is no prompt or once the new session is
/// being initialized, and else after the hooks that end what has begun. A command that cannot be started finishes
/// its compilation first.
pub proof fn failed_replacements_return_their_error(kind: RestartKind, phase: RestartPhase)
    requires
        !(phase is Over),
    ensures
        ({
            let failed = restart_next(kind, phase, RestartInput::Failed);
            let hooks = phase is ReloadHooks || phase is RestartHooks;
            let (after, action) = failed->0;
            &&& failed is Some
            &&& action is Fail <==> phase is Initializing || phase is Closing || (hooks && kind is Startup)
            &&& action is RunShellEvents <==> phase is Stopping || (hooks && !(kind is Startup))
            &&& action is FinishCompilation <==> phase is Starting
            &&& !(action is Fail) ==> restart_next(kind, after, RestartInput::Ready) == Some(
                (RestartPhase::Over, RestartAction::FailFirst),
            ) && restart_next(kind, after, RestartInput::Failed) == Some((RestartPhase::Over, RestartAction::Fail))
            &&& action is RunShellEvents && phase is ReloadHooks ==> closes(action) == seq![
                LifecycleEvent::Reload(When::After),
            ]
            &&& action is RunShellEvents && phase is RestartHooks ==> closes(action) == seq![
                LifecycleEvent::Restart(When::After),
                LifecycleEvent::Reload(When::After),
            ]
            &&& (phase is Stopping || phase is Starting) && kind is Killed ==> closes(action) == seq![
                LifecycleEvent::Startup(When::After),
                LifecycleEvent::Restart(When::After),
            ]
            &&& (phase is Stopping || phase is Starting) && !(kind is Killed) ==> closes(action) == seq![
                LifecycleEvent::Startup(When::After),
                LifecycleEvent::Restart(When::After),
                LifecycleEvent::Reload(When::After),
            ]
        }),
{
}

/// A replacement waits for the end of what it does, and is over exactly when it returns.
pub proof fn replacement_waits_for_what_it_does(kind: RestartKind, phase: RestartPhase, input: RestartInput)
    requires
        restart_next(kind, phase, input) is Some,
    ensures
        (restart_next(kind, phase, input)->0).0 is Over <==> (restart_next(kind, phase, input)->0).1 is Finish || (restart_next(kind, phase, input)->0).1 is FailFirst || (restart_next(kind, phase, input)->0).1 is Fail,
        (restart_next(kind, phase, input)->0).0 is Stopping <==> (restart_next(kind, phase, input)->0).1 is Stop,
        (restart_next(kind, phase, input)->0).0 is Starting <==> (restart_next(kind, phase, input)->0).1 is Start,
        (restart_next(kind, phase, input)->0).0 is Initializing <==> (restart_next(kind, phase, input)->0).1 is Initialize,
        (restart_next(kind, phase, input)->0).0 is Closing <==> (restart_next(kind, phase, input)->0).1 is RunShellEvents || (restart_next(kind, phase, input)->0).1 is FinishCompilation,
{
}

} // verus!
