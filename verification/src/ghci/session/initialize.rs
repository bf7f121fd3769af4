//! Initializing a session that was just started.

use crate::ghci::compilation_log::{CompilationLog, LogView};
use crate::ghci::parse::ghc_message::compilation_summary::CompilationResult;
use crate::ghci::session::{Ghci, GhciView};
use crate::text::{trim, trimmed};
use vstd::prelude::*;

verus! {

/// What the initialization of a session waits for.
#[derive(Clone, Copy, Debug, PartialEq, Eq, Structural)]
pub enum InitializePhase {
    /// The session was to say that it is there.
    Banner,
    /// The prompt was to be set.
    Prompt,
    /// The targets were to be listed.
    Targets,
    /// The commands to evaluate were to be read.
    EvalCommands,
    /// The targets were to be synchronized with the sources.
    Synchronizing,
    /// The rest of standard error was to be read: the process has exited.
    Draining,
    /// The compilation was to be finished. `failed` tells whether the initialization failed.
    Finishing { failed: bool },
    Over,
}

/// What is to be done next to initialize a session.
#[derive(Clone, Copy, Debug, PartialEq, Eq, Structural)]
pub enum InitializeAction {
    /// Read until the session says that it is there.
    AwaitBanner,
    /// Set the prompt.
    SetPrompt,
    /// List the search paths and the targets.
    RefreshTargets,
    /// Read the commands to evaluate.
    RefreshEvalCommands,
    /// Synchronize the targets with the sources.
    Synchronize,
    /// Read standard error to its end.
    DrainStderr,
    /// Settle the log and finish the compilation.
    FinishCompilation { ghci_available: bool, operation_succeeded: bool },
    /// Return.
    Finish,
    /// Return the error of the initialization.
    FailOperation,
    /// Return the error that was just reported.
    Fail,
}

/// What came of it.
#[derive(Clone, Copy, Debug, PartialEq, Eq, Structural)]
pub enum InitializeInput {
    /// What was to be done is done.
    Ready,
    /// What was to be done failed.
    Failed { broken_pipe: bool },
}

/// The end of an initialization, good or bad.
pub open spec fn finishing(failed: bool) -> (InitializePhase, InitializeAction) {
    (
        InitializePhase::Finishing { failed },
        InitializeAction::FinishCompilation { ghci_available: !failed, operation_succeeded: !failed },
    )
}

/// What happens next in an initialization. Nothing, if the input does not answer what was last to be
/// done. `has_files` tells whether there are sources to synchronize the targets with.
pub open spec fn initialize_next(has_files: bool, phase: InitializePhase, input: InitializeInput) -> Option<
    (InitializePhase, InitializeAction),
> {
    match (phase, input) {
        (InitializePhase::Banner, InitializeInput::Ready) => Some(
            (InitializePhase::Prompt, InitializeAction::SetPrompt),
        ),
        (InitializePhase::Prompt, InitializeInput::Ready) => Some(
            (InitializePhase::Targets, InitializeAction::RefreshTargets),
        ),
        (InitializePhase::Targets, InitializeInput::Ready) => Some(
            (InitializePhase::EvalCommands, InitializeAction::RefreshEvalCommands),
        ),
        (InitializePhase::EvalCommands, InitializeInput::Ready) => Some(
            if has_files {
                (InitializePhase::Synchronizing, InitializeAction::Synchronize)
            } else {
                finishing(false)
            },
        ),
        (InitializePhase::Synchronizing, InitializeInput::Ready) => Some(finishing(false)),
        (InitializePhase::Draining, _) => Some(finishing(true)),
        (InitializePhase::Finishing { failed }, InitializeInput::Ready) => Some(
            (
                InitializePhase::Over,
                if failed {
                    InitializeAction::FailOperation
                } else {
                    InitializeAction::Finish
                },
            ),
        ),
        (InitializePhase::Finishing { .. }, InitializeInput::Failed { .. }) => Some(
            (InitializePhase::Over, InitializeAction::Fail),
        ),
        (InitializePhase::Over, _) => None,
        (_, InitializeInput::Failed { broken_pipe }) => Some(
            if broken_pipe {
                (InitializePhase::Draining, InitializeAction::DrainStderr)
            } else {
                finishing(true)
            },
        ),
    }
}

/// An initialization in progress.
#[derive(Clone, Copy, Debug, PartialEq, Eq, Structural)]
pub struct Initialize {
    pub has_files: bool,
    pub phase: InitializePhase,
}

impl Ghci {
    /// Takes what came of what was last to be done to initialize a session and says what is to be
    /// done next. The action to begin with is [`InitializeAction::AwaitBanner`]. Nothing changes, and
    /// nothing is to be done, if the input does not answer what was last to be done.
    pub fn initialize(&self, run: &mut Initialize, input: InitializeInput) -> (r: Option<InitializeAction>)
        ensures
            final(run).has_files == old(run).has_files,
            match r {
                Some(action) => initialize_next(old(run).has_files, old(run).phase, input) == Some(
                    (final(run).phase, action),
                ),
                None => initialize_next(old(run).has_files, old(run).phase, input) is None && *final(run)
                    == *old(run),
            },
    {
        let (phase, action) = match (run.phase, input) {
            (InitializePhase::Banner, InitializeInput::Ready) => (
                InitializePhase::Prompt,
                InitializeAction::SetPrompt,
            ),
            (InitializePhase::Prompt, InitializeInput::Ready) => (
                InitializePhase::Targets,
                InitializeAction::RefreshTargets,
            ),
            (InitializePhase::Targets, InitializeInput::Ready) => (
                InitializePhase::EvalCommands,
                InitializeAction::RefreshEvalCommands,
            ),
            (InitializePhase::EvalCommands, InitializeInput::Ready) => if run.has_files {
                (InitializePhase::Synchronizing, InitializeAction::Synchronize)
            } else {
                (
                    InitializePhase::Finishing { failed: false },
                    InitializeAction::FinishCompilation { ghci_available: true, operation_succeeded: true },
                )
            },
            (InitializePhase::Synchronizing, InitializeInput::Ready) => (
                InitializePhase::Finishing { failed: false },
                InitializeAction::FinishCompilation { ghci_available: true, operation_succeeded: true },
            ),
            (InitializePhase::Draining, _) => (
                InitializePhase::Finishing { failed: true },
                InitializeAction::FinishCompilation { ghci_available: false, operation_succeeded: false },
            ),
            (InitializePhase::Finishing { failed }, InitializeInput::Ready) => if failed {
                (InitializePhase::Over, InitializeAction::FailOperation)
            } else {
                (InitializePhase::Over, InitializeAction::Finish)
            },
            (InitializePhase::Finishing { .. }, InitializeInput::Failed { .. }) => (
                InitializePhase::Over,
                InitializeAction::Fail,
            ),
            (InitializePhase::Over, _) => {
                return None;
            },
            (_, InitializeInput::Failed { broken_pipe }) => if broken_pipe {
                (InitializePhase::Draining, InitializeAction::DrainStderr)
            } else {
                (
                    InitializePhase::Finishing { failed: true },
                    InitializeAction::FinishCompilation { ghci_available: false, operation_succeeded: false },
                )
            },
        };
        run.phase = phase;
        Some(action)
    }
}

/// The log with the failure of an initialization. `drained` is what standard error still held if the
/// process exited: that is kept as it is, and a message takes its place if it is blank.
pub open spec fn with_failure(log: LogView, drained: Option<Seq<char>>, error: Seq<char>) -> LogView {
    match drained {
        Some(output) => if trimmed(output).len() == 0 {
            log.failed_with("Configured GHCi command exited before startup completed"@)
        } else {
            log.with_stderr(output).failed()
        },
        None => log.failed_with("GHCi initialization failed: "@ + error),
    }
}

/// Records the failure of an initialization. A command that exits before GHCi is there often prints
/// plain text rather than diagnostics, and that must not be published as a success.
pub fn record_failure(log: &mut CompilationLog, drained: Option<&str>, error: &str)
    ensures
        final(log)@ == with_failure(
            old(log)@,
            match drained {
                Some(output) => Some(output@),
                None => None,
            },
            error@,
        ),
{
    match drained {
        Some(output) => {
            let text = trim(output);
            if text.as_str().unicode_len() == 0 {
                log.mark_failed_with_diagnostic("Configured GHCi command exited before startup completed");
            } else {
                log.extend_stderr(output);
                log.mark_failed();
            }
        },
        None => {
            let mut message = "GHCi initialization failed: ".to_owned();
            message.append(error);
            log.mark_failed_with_diagnostic(message.as_str());
        },
    }
}

impl Ghci {
    /// Settles the log of an initialization: a session that loads nothing reports no summary, so one
    /// of no modules is put in. The session remembers whether it came up with a failure.
    pub fn settle_initialization(&mut self, log: &mut CompilationLog)
        ensures
            final(log)@ == old(log)@.filled(),
            final(self)@ == (GhciView {
                start_failed: old(log)@.filled().result() == Some(CompilationResult::Failure),
                ..old(self)@
            }),
    {
        log.fill_empty_summary();
        self.start_failed = match log.result() {
            Some(CompilationResult::Failure) => true,
            _ => false,
        };
    }
}

/// An initialization that failed is remembered as a failure, and its log tells of one.
pub proof fn failed_start_is_remembered(log: LogView, drained: Option<Seq<char>>, error: Seq<char>)
    ensures
        with_failure(log, drained, error).filled().result() == Some(CompilationResult::Failure),
        with_failure(log, drained, error).filled() == with_failure(log, drained, error),
{
}

/// Every initialization comes to finish its compilation, with all its hooks, exactly once: each step
/// either goes on towards that or returns after it.
pub proof fn initialization_finishes_its_compilation(has_files: bool, phase: InitializePhase, input: InitializeInput)
    requires
        initialize_next(has_files, phase, input) is Some,
    ensures
        ({
            let (after, action) = initialize_next(has_files, phase, input)->0;
            &&& after is Over <==> phase is Finishing
            &&& action is FinishCompilation <==> after is Finishing
            &&& after is Finishing ==> !(phase is Finishing)
        }),
{
}

/// A session is initialized in this order: its banner, its prompt, the targets, the commands in them, and the
/// sources if there are any. Then its compilation is finished as one that succeeded.
pub proof fn initialization_takes_its_course(has_files: bool)
    ensures
        ({
            let (p1, a1) = initialize_next(has_files, InitializePhase::Banner, InitializeInput::Ready)->0;
            let (p2, a2) = initialize_next(has_files, p1, InitializeInput::Ready)->0;
            let (p3, a3) = initialize_next(has_files, p2, InitializeInput::Ready)->0;
            let (p4, a4) = initialize_next(has_files, p3, InitializeInput::Ready)->0;
            let (p5, a5) = initialize_next(has_files, p4, InitializeInput::Ready)->0;
            let (_, a6) = initialize_next(has_files, p5, InitializeInput::Ready)->0;
            let finish = InitializeAction::FinishCompilation { ghci_available: true, operation_succeeded: true };
            &&& a1 is SetPrompt
            &&& a2 is RefreshTargets
            &&& a3 is RefreshEvalCommands
            &&& has_files ==> a4 is Synchronize && a5 == finish && a6 is Finish
            &&& !has_files ==> a4 == finish && a5 is Finish
        }),
{
}

/// An initialization that fails finishes its compilation as one that failed and without a session, and returns the
/// error; if the process has exited the rest of standard error is read first.
pub proof fn failed_initialization_takes_its_course(
    has_files: bool,
    phase: InitializePhase,
    broken_pipe: bool,
    drained: bool,
)
    requires
        !(phase is Over),
        !(phase is Finishing),
        !(phase is Draining),
    ensures
        ({
            let failed = initialize_next(has_files, phase, InitializeInput::Failed { broken_pipe });
            let (after, action) = failed->0;
            let finish = InitializeAction::FinishCompilation { ghci_available: false, operation_succeeded: false };
            let read = initialize_next(
                has_files,
                after,
                if drained {
                    InitializeInput::Ready
                } else {
                    InitializeInput::Failed { broken_pipe }
                },
            )->0;
            let last = if broken_pipe {
                read.0
            } else {
                after
            };
            &&& failed is Some
            &&& broken_pipe ==> action is DrainStderr && read.1 == finish
            &&& !broken_pipe ==> action == finish
            &&& initialize_next(has_files, last, InitializeInput::Ready) == Some(
                (InitializePhase::Over, InitializeAction::FailOperation),
            )
            &&& initialize_next(has_files, last, InitializeInput::Failed { broken_pipe }) == Some(
                (InitializePhase::Over, InitializeAction::Fail),
            )
        }),
{
}

/// A command that exits leaves what it still printed in the log as it is, unless that is blank: then a message is put
/// in. A failure without an exit is put in as a message that holds the error.
pub proof fn failures_are_recorded(log: LogView, output: Seq<char>, error: Seq<char>)
    ensures
        ({
            let exited = with_failure(log, Some(output), error);
            let failed = with_failure(log, None, error);
            &&& exited.result() == Some(CompilationResult::Failure)
            &&& failed.result() == Some(CompilationResult::Failure)
            &&& trimmed(output).len() > 0 && output.len() > 0 ==> exited.stderr == log.stderr.push(output)
                && exited.diagnostics == log.diagnostics
            &&& trimmed(output).len() == 0 ==> exited.stderr == log.stderr && exited.diagnostics.len()
                == log.diagnostics.len() + 1 && exited.diagnostics.last().message
                == "Configured GHCi command exited before startup completed"@.push('\n')
            &&& failed.stderr == log.stderr
            &&& failed.diagnostics.len() == log.diagnostics.len() + 1
            &&& error.len() > 0 && error.last() != '\n' ==> failed.diagnostics.last().message
                == "GHCi initialization failed: "@ + error + seq!['\n']
            &&& failed.diagnostics.last().severity is Error
        }),
{
    reveal_strlit("Configured GHCi command exited before startup completed");
    reveal_strlit("GHCi initialization failed: ");
    let message = "GHCi initialization failed: "@ + error;
    assert(message.push('\n') =~= message + seq!['\n']);
}

/// An initialization waits for the end of what it does.
pub proof fn initialization_waits_for_what_it_does(has_files: bool, phase: InitializePhase, input: InitializeInput)
    requires
        initialize_next(has_files, phase, input) is Some,
    ensures
        (initialize_next(has_files, phase, input)->0).0 is Prompt <==> (initialize_next(has_files, phase, input)->0).1 is SetPrompt,
        (initialize_next(has_files, phase, input)->0).0 is Targets <==> (initialize_next(has_files, phase, input)->0).1 is RefreshTargets,
        (initialize_next(has_files, phase, input)->0).0 is EvalCommands <==> (initialize_next(has_files, phase, input)->0).1 is RefreshEvalCommands,
        (initialize_next(has_files, phase, input)->0).0 is Synchronizing <==> (initialize_next(has_files, phase, input)->0).1 is Synchronize,
        (initialize_next(has_files, phase, input)->0).0 is Draining <==> (initialize_next(has_files, phase, input)->0).1 is DrainStderr,
{
}

} // verus!
