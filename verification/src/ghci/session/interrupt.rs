//! Interrupting a session, and giving one up that cannot be.

use crate::ghci::report::{Cause, Report};
use crate::ghci::session::{Ghci, GhciView};
use crate::text::{decimal, decimal_round_trip, format_i32, format_u64, signed_decimal};
use vstd::prelude::*;

verus! {

/// How many times the session was interrupted.
#[derive(Clone, Copy, Debug, PartialEq, Eq, Structural)]
pub enum Interrupts {
    Zero,
    One,
    Several,
}

impl Interrupts {
    /// One more.
    pub open spec fn more(self) -> Interrupts {
        match self {
            Interrupts::Zero => Interrupts::One,
            _ => Interrupts::Several,
        }
    }
}

/// What an interruption waits for.
#[derive(Clone, Copy, Debug, PartialEq, Eq, Structural)]
pub enum SigintPhase {
    /// Standard error was to be shown.
    Showing,
    /// The commands before an interrupt were to run.
    Before,
    /// The delay before the next interrupt was to be looked up.
    Delaying(Interrupts),
    /// An interrupt was to be sent.
    Sending(Interrupts),
    /// Prompts were to be looked for.
    Draining(Interrupts),
    /// Prompts that are left were to be read.
    Syncing,
    Over,
}

/// What is to be done next to interrupt a session.
#[derive(Clone, Copy, Debug, PartialEq, Eq, Structural)]
pub enum SigintAction {
    /// Show standard error, which an addition may have hidden, and drop what was hidden.
    ShowStderr,
    /// Run the commands before an interrupt.
    RunBeforeInterrupt,
    /// Look up the next delay, if there is one.
    NextDelay,
    /// Send an interrupt to the process group.
    SendSigint,
    /// Read what comes within the delay and look for prompts.
    DrainPrompts,
    /// Read all prompts that are left.
    SyncBarrier,
    /// Return.
    Finish,
    /// Return an error: the session did not respond in time.
    FailTimeout,
    /// Return the error that was just reported.
    Fail,
}

/// What came of it.
#[derive(Clone, Copy, Debug, PartialEq, Eq, Structural)]
pub enum SigintInput {
    /// What was to be done is done.
    Ready,
    /// There is no next delay: the time is up.
    NoDelay,
    /// Whether a prompt was found.
    Prompt(bool),
    /// What was to be done failed.
    Failed,
}

/// What happens next in an interruption. Nothing, if the input does not answer what was last to be
/// done. The output of a compilation may garble a prompt, so the session is interrupted until a clean
/// one is seen; then others may be left to read if there was more than one interrupt.
pub open spec fn sigint_next(phase: SigintPhase, input: SigintInput) -> Option<(SigintPhase, SigintAction)> {
    match (phase, input) {
        (SigintPhase::Showing, SigintInput::Ready) => Some(
            (SigintPhase::Before, SigintAction::RunBeforeInterrupt),
        ),
        (SigintPhase::Before, SigintInput::Ready) => Some(
            (SigintPhase::Delaying(Interrupts::Zero), SigintAction::NextDelay),
        ),
        (SigintPhase::Delaying(sent), SigintInput::Ready) => Some(
            (SigintPhase::Sending(sent.more()), SigintAction::SendSigint),
        ),
        (SigintPhase::Delaying(_), SigintInput::NoDelay) => Some(
            (SigintPhase::Over, SigintAction::FailTimeout),
        ),
        (SigintPhase::Sending(sent), SigintInput::Ready) => Some(
            (SigintPhase::Draining(sent), SigintAction::DrainPrompts),
        ),
        (SigintPhase::Draining(sent), SigintInput::Prompt(found)) => Some(
            if !found {
                (SigintPhase::Delaying(sent), SigintAction::NextDelay)
            } else if sent is Several {
                (SigintPhase::Syncing, SigintAction::SyncBarrier)
            } else {
                (SigintPhase::Over, SigintAction::Finish)
            },
        ),
        (SigintPhase::Syncing, SigintInput::Ready) => Some((SigintPhase::Over, SigintAction::Finish)),
        (SigintPhase::Showing, SigintInput::Failed) => Some((SigintPhase::Over, SigintAction::Fail)),
        (SigintPhase::Sending(_), SigintInput::Failed) => Some((SigintPhase::Over, SigintAction::Fail)),
        (SigintPhase::Draining(_), SigintInput::Failed) => Some((SigintPhase::Over, SigintAction::Fail)),
        (SigintPhase::Syncing, SigintInput::Failed) => Some((SigintPhase::Over, SigintAction::Fail)),
        _ => None,
    }
}

/// Takes what came of what was last to be done to interrupt a session and says what is to be done
/// next. The action to begin with is [`SigintAction::ShowStderr`].
pub fn send_sigint_inner(phase: SigintPhase, input: SigintInput) -> (r: Option<(SigintPhase, SigintAction)>)
    ensures
        r == sigint_next(phase, input),
{
    match (phase, input) {
        (SigintPhase::Showing, SigintInput::Ready) => Some(
            (SigintPhase::Before, SigintAction::RunBeforeInterrupt),
        ),
        (SigintPhase::Before, SigintInput::Ready) => Some(
            (SigintPhase::Delaying(Interrupts::Zero), SigintAction::NextDelay),
        ),
        (SigintPhase::Delaying(sent), SigintInput::Ready) => {
            let sent = match sent {
                Interrupts::Zero => Interrupts::One,
                _ => Interrupts::Several,
            };
            Some((SigintPhase::Sending(sent), SigintAction::SendSigint))
        },
        (SigintPhase::Delaying(_), SigintInput::NoDelay) => Some(
            (SigintPhase::Over, SigintAction::FailTimeout),
        ),
        (SigintPhase::Sending(sent), SigintInput::Ready) => Some(
            (SigintPhase::Draining(sent), SigintAction::DrainPrompts),
        ),
        (SigintPhase::Draining(sent), SigintInput::Prompt(found)) => {
            let several = match sent {
                Interrupts::Several => true,
                _ => false,
            };
            if !found {
                Some((SigintPhase::Delaying(sent), SigintAction::NextDelay))
            } else if several {
                Some((SigintPhase::Syncing, SigintAction::SyncBarrier))
            } else {
                Some((SigintPhase::Over, SigintAction::Finish))
            }
        },
        (SigintPhase::Syncing, SigintInput::Ready) => Some((SigintPhase::Over, SigintAction::Finish)),
        (SigintPhase::Showing, SigintInput::Failed) => Some((SigintPhase::Over, SigintAction::Fail)),
        (SigintPhase::Sending(_), SigintInput::Failed) => Some((SigintPhase::Over, SigintAction::Fail)),
        (SigintPhase::Draining(_), SigintInput::Failed) => Some((SigintPhase::Over, SigintAction::Fail)),
        (SigintPhase::Syncing, SigintInput::Failed) => Some((SigintPhase::Over, SigintAction::Fail)),
        _ => None,
    }
}

/// How many interrupts were sent in a phase.
pub open spec fn interrupts_sent(phase: SigintPhase) -> Interrupts {
    match phase {
        SigintPhase::Delaying(sent) => sent,
        SigintPhase::Sending(sent) => sent,
        SigintPhase::Draining(sent) => sent,
        SigintPhase::Syncing => Interrupts::Several,
        _ => Interrupts::Zero,
    }
}

/// An interruption succeeds only when a clean prompt was seen, and after several interrupts only
/// when all prompts that they may have left behind were read.
pub proof fn no_stale_prompt_is_left(phase: SigintPhase, input: SigintInput)
    requires
        sigint_next(phase, input) is Some,
    ensures
        (sigint_next(phase, input)->0).1 is Finish ==> {
            ||| phase == SigintPhase::Draining(Interrupts::One) && input == SigintInput::Prompt(true)
            ||| phase == SigintPhase::Draining(Interrupts::Zero) && input == SigintInput::Prompt(true)
            ||| phase is Syncing && input is Ready
        },
        (sigint_next(phase, input)->0).1 is SendSigint ==> interrupts_sent((sigint_next(phase, input)->0).0)
            == interrupts_sent(phase).more(),
        phase is Delaying || phase is Sending ==> (sigint_next(phase, input)->0).1 is SendSigint || (sigint_next(
            phase,
            input,
        )->0).0 is Over || interrupts_sent((sigint_next(phase, input)->0).0) == interrupts_sent(phase),
{
}

/// What follows an interruption.
#[derive(Clone, Copy, Debug, PartialEq, Eq, Structural)]
pub enum AfterSigint {
    /// Return.
    Finish,
    /// Force-kill the session: its prompt cannot be trusted.
    ForceKill,
}

/// What follows an interruption that succeeded or failed.
pub fn send_sigint(succeeded: bool) -> (r: AfterSigint)
    ensures
        r == (if succeeded {
            AfterSigint::Finish
        } else {
            AfterSigint::ForceKill
        }),
{
    if succeeded {
        AfterSigint::Finish
    } else {
        AfterSigint::ForceKill
    }
}

/// The prompt that synchronizes with a session.
pub open spec fn sync_marker(nonce: u64) -> Seq<char> {
    "~~~GHCIWATCH-SYNC-"@ + decimal(nonce as nat) + "~~~"@
}

/// Prompts made with different numbers differ.
pub proof fn sync_markers_differ(a: u64, b: u64)
    requires
        sync_marker(a) == sync_marker(b),
    ensures
        a == b,
{
    let p = "~~~GHCIWATCH-SYNC-"@;
    let q = "~~~"@;
    let x = decimal(a as nat);
    let y = decimal(b as nat);
    assert(sync_marker(a).len() == p.len() + x.len() + q.len());
    assert(sync_marker(b).len() == p.len() + y.len() + q.len());
    assert(x =~= sync_marker(a).subrange(p.len() as int, (p.len() + x.len()) as int));
    assert(y =~= sync_marker(b).subrange(p.len() as int, (p.len() + y.len()) as int));
    decimal_round_trip(a as nat);
    decimal_round_trip(b as nat);
}

/// What a synchronization waits for.
#[derive(Clone, Copy, Debug, PartialEq, Eq, Structural)]
pub enum SyncPhase {
    /// The prompt was to be changed.
    Writing,
    /// That prompt was to be seen.
    Reading,
    /// The prompt was to be set back.
    Restoring,
    Over,
}

/// What is to be done next to synchronize with a session.
#[derive(Clone, Copy, Debug, PartialEq, Eq, Structural)]
pub enum SyncAction {
    /// Read until the new prompt is seen, but no longer than the timeout.
    ReadUntilMarker,
    /// Set the prompt back and wait until it is seen.
    RestorePrompt,
    /// Return.
    Finish,
    /// Return the error that was just reported: the prompt could not be set back.
    Fail,
}

/// How long the new prompt may take to be seen, in seconds.
pub const SYNC_TIMEOUT: u64 = 3;

/// What happens next in a synchronization.
pub open spec fn sync_next(phase: SyncPhase, succeeded: bool) -> Option<(SyncPhase, SyncAction)> {
    match phase {
        SyncPhase::Over => None,
        _ => Some(
            if !succeeded {
                (SyncPhase::Over, SyncAction::Fail)
            } else {
                match phase {
                    SyncPhase::Writing => (SyncPhase::Reading, SyncAction::ReadUntilMarker),
                    SyncPhase::Reading => (SyncPhase::Restoring, SyncAction::RestorePrompt),
                    _ => (SyncPhase::Over, SyncAction::Finish),
                }
            },
        ),
    }
}

/// Takes whether what was last to be done to synchronize with a session succeeded, and says what is
/// to be done next. It begins with changing the prompt.
pub fn sync_barrier(phase: SyncPhase, succeeded: bool) -> (r: Option<(SyncPhase, SyncAction)>)
    ensures
        r == sync_next(phase, succeeded),
{
    match phase {
        SyncPhase::Over => None,
        _ => if !succeeded {
            Some((SyncPhase::Over, SyncAction::Fail))
        } else {
            match phase {
                SyncPhase::Writing => Some((SyncPhase::Reading, SyncAction::ReadUntilMarker)),
                SyncPhase::Reading => Some((SyncPhase::Restoring, SyncAction::RestorePrompt)),
                _ => Some((SyncPhase::Over, SyncAction::Finish)),
            }
        },
    }
}

/// What giving up a session waits for.
#[derive(Clone, Copy, Debug, PartialEq, Eq, Structural)]
pub enum GiveUpPhase {
    Starting,
    /// The commands before a kill were to run.
    Before,
    /// The process tree was to be killed.
    Killing,
    Over,
}

/// What is to be done next to give up a session.
#[derive(Clone, Copy, Debug, PartialEq, Eq, Structural)]
pub enum GiveUpAction {
    RunBeforeKill,
    KillTree,
    /// Return the error, with what came of the kill.
    Fail,
}

/// The error of a session that was given up, given the error that led to that and what came of the
/// kill.
pub open spec fn recovery_error(error: Seq<Cause>, kill: Result<(), Seq<Cause>>) -> Seq<Cause> {
    seq![Cause::RecoveryFailed] + (match kill {
        Ok(_) => error,
        Err(kill_error) => seq![Cause::Other] + (seq![Cause::Other] + kill_error),
    })
}

/// The error of a session that was given up. If the kill failed, its error is told, with the one
/// that led to it in the text.
pub fn fail_recovery(error: Report, kill: Result<(), Report>) -> (r: Report)
    ensures
        r@ == recovery_error(
            error@,
            match kill {
                Ok(_) => Ok(()),
                Err(kill_error) => Err(kill_error@),
            },
        ),
{
    match kill {
        Ok(()) => error.wrap(Cause::RecoveryFailed),
        Err(kill_error) => kill_error.wrap(Cause::Other).wrap(Cause::Other).wrap(Cause::RecoveryFailed),
    }
}

/// Whatever came of the kill, the error of a session that was given up tells that it was.
pub proof fn given_up_session_is_told(error: Seq<Cause>, kill: Result<(), Seq<Cause>>)
    ensures
        recovery_error(error, kill).contains(Cause::RecoveryFailed),
{
    assert(recovery_error(error, kill)[0] == Cause::RecoveryFailed);
}

/// What happens next when a session is given up, and whether it is marked as such.
pub open spec fn give_up_next(phase: GiveUpPhase) -> Option<(GiveUpPhase, GiveUpAction)> {
    match phase {
        GiveUpPhase::Starting => Some((GiveUpPhase::Before, GiveUpAction::RunBeforeKill)),
        GiveUpPhase::Before => Some((GiveUpPhase::Killing, GiveUpAction::KillTree)),
        GiveUpPhase::Killing => Some((GiveUpPhase::Over, GiveUpAction::Fail)),
        GiveUpPhase::Over => None,
    }
}

impl GhciView {
    /// The session, marked as given up.
    pub open spec fn given_up(self) -> GhciView {
        GhciView { recovery_restart_required: true, ..self }
    }
}

impl Ghci {
    /// Makes a new prompt to synchronize with.
    pub fn next_sync_marker(&mut self) -> (r: String)
        requires
            old(self)@.sync_nonce < u64::MAX,
        ensures
            final(self)@ == (GhciView {
                sync_nonce: (old(self)@.sync_nonce + 1) as u64,
                ..old(self)@
            }),
            r@ == sync_marker((old(self)@.sync_nonce + 1) as u64),
    {
        self.sync_nonce = self.sync_nonce + 1;
        let mut r = "~~~GHCIWATCH-SYNC-".to_owned();
        r.append(format_u64(self.sync_nonce).as_str());
        r.append("~~~");
        r
    }

    /// Says what is to be done next to give up a session whose prompt cannot be trusted, once what
    /// was last to be done is done. The session is marked before anything is done to its process, so
    /// that nobody who sees the process exit finds it unmarked.
    pub fn force_kill_for_recovery(&mut self, phase: GiveUpPhase) -> (r: Option<(GiveUpPhase, GiveUpAction)>)
        ensures
            r == give_up_next(phase),
            final(self)@ == (if phase is Starting {
                old(self)@.given_up()
            } else {
                old(self)@
            }),
    {
        match phase {
            GiveUpPhase::Starting => {
                self.recovery_restart_required = true;
                Some((GiveUpPhase::Before, GiveUpAction::RunBeforeKill))
            },
            GiveUpPhase::Before => Some((GiveUpPhase::Killing, GiveUpAction::KillTree)),
            GiveUpPhase::Killing => Some((GiveUpPhase::Over, GiveUpAction::Fail)),
            GiveUpPhase::Over => None,
        }
    }
}

/// What an operation that compiles waits for, and one that is tried again after an interruption.
#[derive(Clone, Copy, Debug, PartialEq, Eq, Structural)]
pub enum RecoveryPhase {
    /// The command was to complete.
    Running,
    /// The session was to be interrupted.
    Interrupting,
    /// The reload after that was to complete.
    Reloading,
    /// The session was to be given up.
    GivingUp,
    Over,
}

/// What is to be done next about an operation that compiles.
#[derive(Clone, Copy, Debug, PartialEq, Eq, Structural)]
pub enum RecoveryAction {
    /// Interrupt the session.
    SendSigint,
    /// Reload, with the shorter timeout.
    Reload,
    /// Give up the session.
    ForceKill,
    /// Return.
    Finish,
    /// Return the error that was just reported.
    Fail,
}

/// What came of it.
#[derive(Clone, Copy, Debug, PartialEq, Eq, Structural)]
pub enum RecoveryInput {
    /// What was to be done is done.
    Ready,
    /// The session reported no progress for too long.
    Inactive,
    /// What was to be done failed.
    Failed,
}

/// What happens next about an operation that compiles. Nothing, if the input does not answer what
/// was last to be done. A session that is inactive is interrupted, and reloads once more; if it is
/// inactive then, too, it is given up.
pub open spec fn recovery_next(phase: RecoveryPhase, input: RecoveryInput) -> Option<
    (RecoveryPhase, RecoveryAction),
> {
    match (phase, input) {
        (RecoveryPhase::Running, RecoveryInput::Ready) => Some((RecoveryPhase::Over, RecoveryAction::Finish)),
        (RecoveryPhase::Running, RecoveryInput::Inactive) => Some(
            (RecoveryPhase::Interrupting, RecoveryAction::SendSigint),
        ),
        (RecoveryPhase::Interrupting, RecoveryInput::Ready) => Some(
            (RecoveryPhase::Reloading, RecoveryAction::Reload),
        ),
        (RecoveryPhase::Reloading, RecoveryInput::Ready) => Some((RecoveryPhase::Over, RecoveryAction::Finish)),
        (RecoveryPhase::Reloading, RecoveryInput::Inactive) => Some(
            (RecoveryPhase::GivingUp, RecoveryAction::ForceKill),
        ),
        (RecoveryPhase::Over, _) => None,
        (_, RecoveryInput::Failed) => Some((RecoveryPhase::Over, RecoveryAction::Fail)),
        _ => None,
    }
}

/// Takes what came of what was last to be done about an operation that compiles and says what is to
/// be done next.
pub fn interrupt_and_retry_reload(phase: RecoveryPhase, input: RecoveryInput) -> (r: Option<
    (RecoveryPhase, RecoveryAction),
>)
    ensures
        r == recovery_next(phase, input),
{
    match (phase, input) {
        (RecoveryPhase::Running, RecoveryInput::Ready) => Some((RecoveryPhase::Over, RecoveryAction::Finish)),
        (RecoveryPhase::Running, RecoveryInput::Inactive) => Some(
            (RecoveryPhase::Interrupting, RecoveryAction::SendSigint),
        ),
        (RecoveryPhase::Interrupting, RecoveryInput::Ready) => Some(
            (RecoveryPhase::Reloading, RecoveryAction::Reload),
        ),
        (RecoveryPhase::Reloading, RecoveryInput::Ready) => Some((RecoveryPhase::Over, RecoveryAction::Finish)),
        (RecoveryPhase::Reloading, RecoveryInput::Inactive) => Some(
            (RecoveryPhase::GivingUp, RecoveryAction::ForceKill),
        ),
        (RecoveryPhase::Over, _) => None,
        (_, RecoveryInput::Failed) => Some((RecoveryPhase::Over, RecoveryAction::Fail)),
        _ => None,
    }
}

/// A session is interrupted at most once and given up at most once for one operation: each step
/// leaves less to do.
pub proof fn recovery_comes_to_an_end(phase: RecoveryPhase, input: RecoveryInput)
    requires
        recovery_next(phase, input) is Some,
    ensures
        recovery_left((recovery_next(phase, input)->0).0) < recovery_left(phase),
        (recovery_next(phase, input)->0).1 is ForceKill ==> phase is Reloading && input is Inactive,
        (recovery_next(phase, input)->0).1 is SendSigint ==> phase is Running && input is Inactive,
{
}

/// How many steps are left at most.
pub open spec fn recovery_left(phase: RecoveryPhase) -> int {
    match phase {
        RecoveryPhase::Running => 4,
        RecoveryPhase::Interrupting => 3,
        RecoveryPhase::Reloading => 2,
        RecoveryPhase::GivingUp => 1,
        RecoveryPhase::Over => 0,
    }
}

/// What stopping a session waits for.
#[derive(Clone, Copy, Debug, PartialEq, Eq, Structural)]
pub enum StopPhase {
    /// The watch over the process was to be asked.
    Asking,
    /// It was to say that the process is gone.
    Awaiting,
    Over,
}

/// What is to be done next to stop a session.
#[derive(Clone, Copy, Debug, PartialEq, Eq, Structural)]
pub enum StopAction {
    /// Wait until the process is gone.
    AwaitExit,
    /// Return.
    Finish,
    /// Return the error that was just reported.
    Fail,
}

/// What happens next when a session is stopped. `failed` tells whether the watch over the process is
/// gone, and `shutdown` whether a shutdown was requested: then it stopped the process itself.
pub open spec fn stop_next(phase: StopPhase, failed: bool, shutdown: bool) -> Option<(StopPhase, StopAction)> {
    match phase {
        StopPhase::Over => None,
        _ => Some(
            if failed {
                (
                    StopPhase::Over,
                    if shutdown {
                        StopAction::Finish
                    } else {
                        StopAction::Fail
                    },
                )
            } else if phase is Asking {
                (StopPhase::Awaiting, StopAction::AwaitExit)
            } else {
                (StopPhase::Over, StopAction::Finish)
            },
        ),
    }
}

/// Takes what came of what was last to be done to stop a session and says what is to be done next.
pub fn stop(phase: StopPhase, failed: bool, shutdown: bool) -> (r: Option<(StopPhase, StopAction)>)
    ensures
        r == stop_next(phase, failed, shutdown),
{
    match phase {
        StopPhase::Over => None,
        _ => if failed {
            if shutdown {
                Some((StopPhase::Over, StopAction::Finish))
            } else {
                Some((StopPhase::Over, StopAction::Fail))
            }
        } else if phase == StopPhase::Asking {
            Some((StopPhase::Awaiting, StopAction::AwaitExit))
        } else {
            Some((StopPhase::Over, StopAction::Finish))
        },
    }
}

/// An operation that compiles.
#[derive(Clone, Copy, Debug, PartialEq, Eq, Structural)]
pub enum Compiling {
    Reload,
    Addition,
    Removal,
}

impl Compiling {
    /// What the operation is called.
    pub open spec fn component_text(self) -> Seq<char> {
        match self {
            Compiling::Reload => "reload (:reload)"@,
            Compiling::Addition => "target synchronization (:add)"@,
            Compiling::Removal => "target synchronization (:unadd, including its implicit reload)"@,
        }
    }

    /// What the paths of the operation are called.
    pub open spec fn paths_text(self) -> Seq<char> {
        match self {
            Compiling::Reload => "Changed paths"@,
            Compiling::Addition => "Added paths"@,
            Compiling::Removal => "Removed paths"@,
        }
    }

    /// What the operation is called.
    pub fn component(self) -> (r: &'static str)
        ensures
            r@ == self.component_text(),
    {
        match self {
            Compiling::Reload => "reload (:reload)",
            Compiling::Addition => "target synchronization (:add)",
            Compiling::Removal => "target synchronization (:unadd, including its implicit reload)",
        }
    }

    /// What is told when the operation is inactive.
    pub fn summary(self) -> (r: &'static str)
        ensures
            r@ == (match self {
                Compiling::Reload => "GHCi reload stopped reporting compilation progress"@,
                Compiling::Addition => "GHCi module addition stopped reporting compilation progress"@,
                Compiling::Removal => "GHCi module removal stopped reporting compilation progress"@,
            }),
    {
        match self {
            Compiling::Reload => "GHCi reload stopped reporting compilation progress",
            Compiling::Addition => "GHCi module addition stopped reporting compilation progress",
            Compiling::Removal => "GHCi module removal stopped reporting compilation progress",
        }
    }
}

impl GhciView {
    /// Which session is meant.
    pub open spec fn identity(self) -> Seq<char> {
        "\nProcess group ID: "@ + signed_decimal(self.process_group_id as int) + "\nWorking directory: "@ + self.cwd
            + "\nCommand: "@ + self.command
    }
}

impl Ghci {
    fn write_identity(&self, r: &mut String)
        ensures
            final(r)@ == old(r)@ + self@.identity(),
    {
        let ghost before = r@;
        r.append("\nProcess group ID: ");
        r.append(format_i32(self.process_group_id).as_str());
        r.append("\nWorking directory: ");
        r.append(self.cwd.as_str());
        r.append("\nCommand: ");
        r.append(self.command.as_str());
        proof {
            assert(r@ =~= before + self@.identity());
        }
    }

    /// What is told of an operation that is inactive. `paths` is the list of its paths.
    pub fn inactive_details(&self, operation: Compiling, paths: &str) -> (r: String)
        ensures
            r@ == "Component: "@ + operation.component_text() + "\nInactivity timeout: 90s"@ + self@.identity()
                + "\n"@ + operation.paths_text() + ":\n"@ + paths@
                + "\nRecovery: interrupting GHCi with process-group SIGINT, then retrying :reload with a 40s inactivity timeout"@,
    {
        let mut r = "Component: ".to_owned();
        r.append(operation.component());
        r.append("\nInactivity timeout: 90s");
        self.write_identity(&mut r);
        r.append("\n");
        r.append(
            match operation {
                Compiling::Reload => "Changed paths",
                Compiling::Addition => "Added paths",
                Compiling::Removal => "Removed paths",
            },
        );
        r.append(":\n");
        r.append(paths);
        r.append(
            "\nRecovery: interrupting GHCi with process-group SIGINT, then retrying :reload with a 40s inactivity timeout",
        );
        r
    }

    /// What is told of a reload after an interruption that is inactive, too.
    pub fn recovery_details(&self, operation: Compiling) -> (r: String)
        ensures
            r@ == "Component: recovery :reload after "@ + operation.component_text()
                + "\nInactivity timeout: 40s"@ + self@.identity()
                + "\nRecovery: force-killing the GHCi process tree; the manager will immediately initialize a fresh session"@,
    {
        let mut r = "Component: recovery :reload after ".to_owned();
        r.append(operation.component());
        r.append("\nInactivity timeout: 40s");
        self.write_identity(&mut r);
        r.append(
            "\nRecovery: force-killing the GHCi process tree; the manager will immediately initialize a fresh session",
        );
        r
    }
}

/// An interrupt is sent in this order: standard error is shown, the preparations run, then after each delay an interrupt
/// follows and the prompts are looked for. With a prompt after the first interrupt the session is usable; without one
/// the next delay follows.
pub proof fn interrupts_take_their_course(sent: Interrupts)
    ensures
        sigint_next(SigintPhase::Showing, SigintInput::Ready) == Some(
            (SigintPhase::Before, SigintAction::RunBeforeInterrupt),
        ),
        sigint_next(SigintPhase::Before, SigintInput::Ready) == Some(
            (SigintPhase::Delaying(Interrupts::Zero), SigintAction::NextDelay),
        ),
        ({
            let (sending, action) = sigint_next(SigintPhase::Delaying(sent), SigintInput::Ready)->0;
            let (draining, then) = sigint_next(sending, SigintInput::Ready)->0;
            let found = sigint_next(draining, SigintInput::Prompt(true))->0;
            let missing = sigint_next(draining, SigintInput::Prompt(false))->0;
            &&& action is SendSigint
            &&& then is DrainPrompts
            &&& found.1 is Finish <==> sent is Zero
            &&& found.1 is SyncBarrier <==> !(sent is Zero)
            &&& missing.1 is NextDelay
            &&& missing.0 == SigintPhase::Delaying(
                if sent is Zero {
                    Interrupts::One
                } else {
                    Interrupts::Several
                },
            )
        }),
        sigint_next(SigintPhase::Syncing, SigintInput::Ready) == Some((SigintPhase::Over, SigintAction::Finish)),
        sigint_next(SigintPhase::Delaying(sent), SigintInput::NoDelay) == Some(
            (SigintPhase::Over, SigintAction::FailTimeout),
        ),
{
}

/// Whatever fails while an interrupt is sent, its error is returned.
pub proof fn failed_interrupts_return_their_error(phase: SigintPhase)
    ensures
        phase is Showing || phase is Sending || phase is Draining || phase is Syncing ==> sigint_next(
            phase,
            SigintInput::Failed,
        ) == Some((SigintPhase::Over, SigintAction::Fail)),
{
}

/// The prompts are synchronized by reading up to the marker that was set as one, and then setting the prompt again.
pub proof fn synchronization_takes_its_course(phase: SyncPhase)
    ensures
        sync_next(SyncPhase::Writing, true) == Some((SyncPhase::Reading, SyncAction::ReadUntilMarker)),
        sync_next(SyncPhase::Reading, true) == Some((SyncPhase::Restoring, SyncAction::RestorePrompt)),
        sync_next(SyncPhase::Restoring, true) == Some((SyncPhase::Over, SyncAction::Finish)),
        !(phase is Over) ==> sync_next(phase, false) == Some((SyncPhase::Over, SyncAction::Fail)),
        phase is Over ==> sync_next(phase, true) is None && sync_next(phase, false) is None,
{
}

/// A session that is given up is killed with all its processes, and its error is returned; it is known then that it has
/// to be restarted.
pub proof fn given_up_sessions_are_killed(session: GhciView)
    ensures
        ({
            let (p1, a1) = give_up_next(GiveUpPhase::Starting)->0;
            let (p2, a2) = give_up_next(p1)->0;
            let (p3, a3) = give_up_next(p2)->0;
            &&& a1 is RunBeforeKill
            &&& a2 is KillTree
            &&& a3 is Fail
            &&& give_up_next(p3) is None
        }),
        session.given_up().recovery_restart_required,
        session.given_up() == (GhciView {
            recovery_restart_required: session.given_up().recovery_restart_required,
            ..session
        }),
{
}

/// The error of a session that was given up holds the causes of the failure, or else those of the failed kill.
pub proof fn given_up_sessions_tell_the_causes(error: Seq<Cause>, kill_error: Seq<Cause>, cause: Cause)
    ensures
        error.contains(cause) ==> recovery_error(error, Ok(())).contains(cause),
        recovery_error(error, Ok(())).contains(cause) ==> error.contains(cause) || cause is RecoveryFailed,
        kill_error.contains(cause) ==> recovery_error(error, Err(kill_error)).contains(cause),
{
    let ok = recovery_error(error, Ok(()));
    let bad = recovery_error(error, Err(kill_error));
    if error.contains(cause) {
        let i = choose|i: int| 0 <= i < error.len() && error[i] == cause;
        assert(ok[i + 1] == cause);
    }
    if ok.contains(cause) {
        let i = choose|i: int| 0 <= i < ok.len() && ok[i] == cause;
        if i > 0 {
            assert(error[i - 1] == cause);
        }
    }
    if kill_error.contains(cause) {
        let i = choose|i: int| 0 <= i < kill_error.len() && kill_error[i] == cause;
        assert(bad[i + 3] == cause);
    }
}

/// An operation that completes is done. One that stops making progress is interrupted and tried again once as a reload;
/// if that stops, too, the session is killed. A step that fails is returned.
pub proof fn recovery_takes_its_course(phase: RecoveryPhase)
    ensures
        recovery_next(RecoveryPhase::Running, RecoveryInput::Ready) == Some(
            (RecoveryPhase::Over, RecoveryAction::Finish),
        ),
        recovery_next(RecoveryPhase::Running, RecoveryInput::Inactive) == Some(
            (RecoveryPhase::Interrupting, RecoveryAction::SendSigint),
        ),
        recovery_next(RecoveryPhase::Interrupting, RecoveryInput::Ready) == Some(
            (RecoveryPhase::Reloading, RecoveryAction::Reload),
        ),
        recovery_next(RecoveryPhase::Reloading, RecoveryInput::Ready) == Some(
            (RecoveryPhase::Over, RecoveryAction::Finish),
        ),
        recovery_next(RecoveryPhase::Reloading, RecoveryInput::Inactive) == Some(
            (RecoveryPhase::GivingUp, RecoveryAction::ForceKill),
        ),
        !(phase is Over) ==> recovery_next(phase, RecoveryInput::Failed) == Some(
            (RecoveryPhase::Over, RecoveryAction::Fail),
        ),
{
}

/// A session that is stopped is asked to leave and then waited for. If that fails it is no error while everything shuts
/// down, and one otherwise.
pub proof fn stopping_takes_its_course(phase: StopPhase, shutdown: bool)
    ensures
        stop_next(StopPhase::Asking, false, shutdown) == Some((StopPhase::Awaiting, StopAction::AwaitExit)),
        stop_next(StopPhase::Awaiting, false, shutdown) == Some((StopPhase::Over, StopAction::Finish)),
        !(phase is Over) ==> stop_next(phase, true, true) == Some((StopPhase::Over, StopAction::Finish)),
        !(phase is Over) ==> stop_next(phase, true, false) == Some((StopPhase::Over, StopAction::Fail)),
{
}

/// An interrupt waits for the end of what it does, and is over exactly when it returns.
pub proof fn interrupt_waits_for_what_it_does(phase: SigintPhase, input: SigintInput)
    requires
        sigint_next(phase, input) is Some,
    ensures
        (sigint_next(phase, input)->0).0 is Over <==> (sigint_next(phase, input)->0).1 is Finish || (sigint_next(phase, input)->0).1 is FailTimeout || (sigint_next(phase, input)->0).1 is Fail,
        (sigint_next(phase, input)->0).0 is Before <==> (sigint_next(phase, input)->0).1 is RunBeforeInterrupt,
        (sigint_next(phase, input)->0).0 is Delaying <==> (sigint_next(phase, input)->0).1 is NextDelay,
        (sigint_next(phase, input)->0).0 is Sending <==> (sigint_next(phase, input)->0).1 is SendSigint,
        (sigint_next(phase, input)->0).0 is Draining <==> (sigint_next(phase, input)->0).1 is DrainPrompts,
        (sigint_next(phase, input)->0).0 is Syncing <==> (sigint_next(phase, input)->0).1 is SyncBarrier,
{
}

/// A barrier waits for the end of what it does, and is over exactly when it returns.
pub proof fn barrier_waits_for_what_it_does(phase: SyncPhase, succeeded: bool)
    requires
        sync_next(phase, succeeded) is Some,
    ensures
        (sync_next(phase, succeeded)->0).0 is Over <==> (sync_next(phase, succeeded)->0).1 is Finish || (sync_next(phase, succeeded)->0).1 is Fail,
        (sync_next(phase, succeeded)->0).0 is Reading <==> (sync_next(phase, succeeded)->0).1 is ReadUntilMarker,
        (sync_next(phase, succeeded)->0).0 is Restoring <==> (sync_next(phase, succeeded)->0).1 is RestorePrompt,
{
}

/// Giving a session up waits for the end of what it does, and is over exactly when it fails.
pub proof fn giving_up_waits_for_what_it_does(phase: GiveUpPhase)
    requires
        give_up_next(phase) is Some,
    ensures
        (give_up_next(phase)->0).0 is Over <==> (give_up_next(phase)->0).1 is Fail,
        (give_up_next(phase)->0).0 is Before <==> (give_up_next(phase)->0).1 is RunBeforeKill,
        (give_up_next(phase)->0).0 is Killing <==> (give_up_next(phase)->0).1 is KillTree,
{
}

/// A recovery waits for the end of what it does, and is over exactly when it returns.
pub proof fn recovery_waits_for_what_it_does(phase: RecoveryPhase, input: RecoveryInput)
    requires
        recovery_next(phase, input) is Some,
    ensures
        (recovery_next(phase, input)->0).0 is Over <==> (recovery_next(phase, input)->0).1 is Finish || (recovery_next(phase, input)->0).1 is Fail,
        (recovery_next(phase, input)->0).0 is Interrupting <==> (recovery_next(phase, input)->0).1 is SendSigint,
        (recovery_next(phase, input)->0).0 is Reloading <==> (recovery_next(phase, input)->0).1 is Reload,
        (recovery_next(phase, input)->0).0 is GivingUp <==> (recovery_next(phase, input)->0).1 is ForceKill,
{
}

/// A stop waits for the exit, and is over exactly when it returns.
pub proof fn stop_waits_for_what_it_does(phase: StopPhase, failed: bool, shutdown: bool)
    requires
        stop_next(phase, failed, shutdown) is Some,
    ensures
        (stop_next(phase, failed, shutdown)->0).0 is Over <==> (stop_next(phase, failed, shutdown)->0).1 is Finish || (stop_next(phase, failed, shutdown)->0).1 is Fail,
        (stop_next(phase, failed, shutdown)->0).0 is Awaiting <==> (stop_next(phase, failed, shutdown)->0).1 is AwaitExit,
{
}

} // verus!
