//! The life of the watcher.

use crate::event_filter::FileState;
use crate::path::FilePath;
use crate::sorted::{SortedMap, SortedSet};
use vstd::prelude::*;

verus! {

/// What the manager asks of the watcher.
#[derive(Debug)]
pub enum WatcherCommand {
    /// Watch these files, too, for changes that start another attempt after a session failed to
    /// start. They take the place of those that were watched before.
    SetStartupRetryFiles { files: SortedSet<FilePath> },
    /// Stop watching such files.
    ClearStartupRetryFiles,
    /// Compare the sources with those that were compiled.
    ValidateSourceSnapshot { expected: SortedMap<FilePath, FileState> },
}

/// A command, as far as the watcher decides by it.
#[derive(Clone, Copy, Debug, PartialEq, Eq, Structural)]
pub enum CommandKind {
    /// Watch no files for a retry.
    SetNoFiles,
    /// Watch some files for a retry.
    SetFiles,
    /// Stop watching files for a retry.
    ClearFiles,
    /// Compare the sources with those that were compiled.
    Validate,
}

impl WatcherCommand {
    /// What the watcher decides by.
    pub open spec fn decides_by(self) -> CommandKind {
        match self {
            WatcherCommand::SetStartupRetryFiles { files } => if files@.len() == 0 {
                CommandKind::SetNoFiles
            } else {
                CommandKind::SetFiles
            },
            WatcherCommand::ClearStartupRetryFiles => CommandKind::ClearFiles,
            WatcherCommand::ValidateSourceSnapshot { .. } => CommandKind::Validate,
        }
    }

    /// What the watcher decides by.
    pub fn kind(&self) -> (r: CommandKind)
        ensures
            r == self.decides_by(),
    {
        match self {
            WatcherCommand::SetStartupRetryFiles { files } => if files.is_empty() {
                CommandKind::SetNoFiles
            } else {
                CommandKind::SetFiles
            },
            WatcherCommand::ClearStartupRetryFiles => CommandKind::ClearFiles,
            WatcherCommand::ValidateSourceSnapshot { .. } => CommandKind::Validate,
        }
    }
}

/// What watching one of the configured paths led to.
#[derive(Clone, Copy, Debug, PartialEq, Eq, Structural)]
pub enum WatchOutcome {
    /// It is watched.
    Watched,
    /// Nothing stands there.
    NotFound,
    /// Watching it failed.
    Failed,
}

/// The places of the configured paths that are watched. The others are told of, and change nothing:
/// one path that is missing does not keep the rest from being watched.
pub open spec fn watched(outcomes: Seq<WatchOutcome>) -> Seq<usize>
    decreases outcomes.len(),
{
    if outcomes.len() == 0 {
        seq![]
    } else {
        let before = watched(outcomes.drop_last());
        if outcomes.last() is Watched {
            before.push((outcomes.len() - 1) as usize)
        } else {
            before
        }
    }
}

/// The places of the configured paths that are watched.
pub fn watched_roots(outcomes: &Vec<WatchOutcome>) -> (r: Vec<usize>)
    ensures
        r@ == watched(outcomes@),
{
    let mut r: Vec<usize> = Vec::new();
    let mut i: usize = 0;
    proof {
        assert(outcomes@.take(0).len() == 0);
    }
    while i < outcomes.len()
        invariant
            i <= outcomes@.len(),
            r@ == watched(outcomes@.take(i as int)),
        decreases outcomes@.len() - i,
    {
        proof {
            assert(outcomes@.take(i + 1).drop_last() =~= outcomes@.take(i as int));
        }
        if outcomes[i] == WatchOutcome::Watched {
            r.push(i);
        }
        i = i + 1;
    }
    proof {
        assert(outcomes@.take(outcomes@.len() as int) =~= outcomes@);
    }
    r
}

/// What the watcher waits for. `retry` tells whether files are watched for a retry.
#[derive(Clone, Copy, Debug, PartialEq, Eq, Structural)]
pub enum WatcherPhase {
    /// A command or a shutdown.
    Waiting { retry: bool },
    /// A watch over files for a retry was to be set up.
    Installing { retry: bool },
    /// The sources were to be compared.
    Validating { retry: bool },
    Over,
}

/// What the watcher does next.
#[derive(Clone, Copy, Debug, PartialEq, Eq, Structural)]
pub enum WatcherAction {
    /// Set up a watch over the files of the command.
    InstallRetry,
    /// Stop the watch over files for a retry, if there was one, put the one that was set up in its
    /// place if `replace` says so, and answer that all is well.
    SettleRetry { stop: bool, replace: bool },
    /// Answer with the error that was just reported, and leave the watch over files for a retry.
    RefuseRetry,
    /// Compare the sources with those of the command.
    Validate,
    /// Answer with what came of that.
    AnswerValidation,
    /// Stop all watches, and return.
    Finish { stop: bool },
}

/// What happened to the watcher.
#[derive(Clone, Copy, Debug, PartialEq, Eq, Structural)]
pub enum WatcherInput {
    /// A shutdown was requested, or no command will come any more.
    Ended,
    /// A command came.
    Command(CommandKind),
    /// What was to be done is done.
    Ready,
    /// What was to be done failed.
    Failed,
}

/// What the watcher does next. Nothing, if the input does not answer what was last to be done. If a
/// new watch over files for a retry cannot be set up, the one before it stays.
pub open spec fn watcher_next(phase: WatcherPhase, input: WatcherInput) -> Option<(WatcherPhase, WatcherAction)> {
    match (phase, input) {
        (WatcherPhase::Waiting { retry }, WatcherInput::Ended) => Some(
            (WatcherPhase::Over, WatcherAction::Finish { stop: retry }),
        ),
        (WatcherPhase::Waiting { retry }, WatcherInput::Command(CommandKind::SetNoFiles)) => Some(
            (
                WatcherPhase::Waiting { retry: false },
                WatcherAction::SettleRetry { stop: retry, replace: false },
            ),
        ),
        (WatcherPhase::Waiting { retry }, WatcherInput::Command(CommandKind::ClearFiles)) => Some(
            (
                WatcherPhase::Waiting { retry: false },
                WatcherAction::SettleRetry { stop: retry, replace: false },
            ),
        ),
        (WatcherPhase::Waiting { retry }, WatcherInput::Command(CommandKind::SetFiles)) => Some(
            (WatcherPhase::Installing { retry }, WatcherAction::InstallRetry),
        ),
        (WatcherPhase::Waiting { retry }, WatcherInput::Command(CommandKind::Validate)) => Some(
            (WatcherPhase::Validating { retry }, WatcherAction::Validate),
        ),
        (WatcherPhase::Installing { retry }, WatcherInput::Ready) => Some(
            (
                WatcherPhase::Waiting { retry: true },
                WatcherAction::SettleRetry { stop: retry, replace: true },
            ),
        ),
        (WatcherPhase::Installing { retry }, WatcherInput::Failed) => Some(
            (WatcherPhase::Waiting { retry }, WatcherAction::RefuseRetry),
        ),
        (WatcherPhase::Validating { retry }, WatcherInput::Ready) => Some(
            (WatcherPhase::Waiting { retry }, WatcherAction::AnswerValidation),
        ),
        (WatcherPhase::Validating { retry }, WatcherInput::Failed) => Some(
            (WatcherPhase::Waiting { retry }, WatcherAction::AnswerValidation),
        ),
        _ => None,
    }
}

/// Takes what happened to the watcher and says what it does next.
pub fn run_watcher(phase: WatcherPhase, input: WatcherInput) -> (r: Option<(WatcherPhase, WatcherAction)>)
    ensures
        r == watcher_next(phase, input),
{
    match (phase, input) {
        (WatcherPhase::Waiting { retry }, WatcherInput::Ended) => Some(
            (WatcherPhase::Over, WatcherAction::Finish { stop: retry }),
        ),
        (WatcherPhase::Waiting { retry }, WatcherInput::Command(CommandKind::SetNoFiles)) => Some(
            (
                WatcherPhase::Waiting { retry: false },
                WatcherAction::SettleRetry { stop: retry, replace: false },
            ),
        ),
        (WatcherPhase::Waiting { retry }, WatcherInput::Command(CommandKind::ClearFiles)) => Some(
            (
                WatcherPhase::Waiting { retry: false },
                WatcherAction::SettleRetry { stop: retry, replace: false },
            ),
        ),
        (WatcherPhase::Waiting { retry }, WatcherInput::Command(CommandKind::SetFiles)) => Some(
            (WatcherPhase::Installing { retry }, WatcherAction::InstallRetry),
        ),
        (WatcherPhase::Waiting { retry }, WatcherInput::Command(CommandKind::Validate)) => Some(
            (WatcherPhase::Validating { retry }, WatcherAction::Validate),
        ),
        (WatcherPhase::Installing { retry }, WatcherInput::Ready) => Some(
            (
                WatcherPhase::Waiting { retry: true },
                WatcherAction::SettleRetry { stop: retry, replace: true },
            ),
        ),
        (WatcherPhase::Installing { retry }, WatcherInput::Failed) => Some(
            (WatcherPhase::Waiting { retry }, WatcherAction::RefuseRetry),
        ),
        (WatcherPhase::Validating { retry }, WatcherInput::Ready) => Some(
            (WatcherPhase::Waiting { retry }, WatcherAction::AnswerValidation),
        ),
        (WatcherPhase::Validating { retry }, WatcherInput::Failed) => Some(
            (WatcherPhase::Waiting { retry }, WatcherAction::AnswerValidation),
        ),
        _ => None,
    }
}

/// Whether files are watched for a retry.
pub open spec fn retries(phase: WatcherPhase) -> bool {
    match phase {
        WatcherPhase::Waiting { retry } => retry,
        WatcherPhase::Installing { retry } => retry,
        WatcherPhase::Validating { retry } => retry,
        WatcherPhase::Over => false,
    }
}

/// There is at most one watch over files for a retry at any time, and none is left when the watcher
/// ends: one that is replaced, or no longer wanted, is stopped, and one that is neither stays.
pub proof fn retry_watch_is_stopped(phase: WatcherPhase, input: WatcherInput)
    requires
        watcher_next(phase, input) is Some,
    ensures
        ({
            let (after, action) = watcher_next(phase, input)->0;
            match action {
                WatcherAction::SettleRetry { stop, replace } => stop == retries(phase) && retries(after) == replace,
                WatcherAction::Finish { stop } => stop == retries(phase) && !retries(after),
                _ => retries(after) == retries(phase),
            }
        }),
{
}

/// Exactly the paths that could be watched are, in their order.
pub proof fn paths_that_can_be_are_watched(outcomes: Seq<WatchOutcome>, i: int)
    requires
        0 <= i < outcomes.len() <= usize::MAX,
    ensures
        watched(outcomes).contains(i as usize) <==> outcomes[i] is Watched,
{
    lemma_watched(outcomes, i);
}

proof fn lemma_watched(outcomes: Seq<WatchOutcome>, i: int)
    requires
        outcomes.len() <= usize::MAX,
        0 <= i <= usize::MAX,
    ensures
        watched(outcomes).contains(i as usize) <==> i < outcomes.len() && outcomes[i] is Watched,
    decreases outcomes.len(),
{
    if outcomes.len() > 0 {
        let rest = outcomes.drop_last();
        let before = watched(rest);
        let all = watched(outcomes);
        let last = outcomes.len() - 1;
        lemma_watched(rest, i);
        if before.contains(i as usize) {
            let n = choose|n: int| 0 <= n < before.len() && before[n] == i as usize;
            assert(all[n] == i as usize);
        }
        if i == last && outcomes[i] is Watched {
            assert(all[before.len() as int] == i as usize);
        }
        if all.contains(i as usize) {
            let n = choose|n: int| 0 <= n < all.len() && all[n] == i as usize;
            if n < before.len() {
                assert(before[n] == i as usize);
            }
        }
    }
}

/// Each command is carried out: watches over files for a retry are set up, replaced or stopped, and the sources are
/// compared. A watch that cannot be set up is refused and changes nothing; a comparison is answered either way.
pub proof fn commands_are_carried_out(retry: bool)
    ensures
        watcher_next(WatcherPhase::Waiting { retry }, WatcherInput::Ended) == Some(
            (WatcherPhase::Over, WatcherAction::Finish { stop: retry }),
        ),
        watcher_next(WatcherPhase::Waiting { retry }, WatcherInput::Command(CommandKind::SetNoFiles)) == Some(
            (WatcherPhase::Waiting { retry: false }, WatcherAction::SettleRetry { stop: retry, replace: false }),
        ),
        watcher_next(WatcherPhase::Waiting { retry }, WatcherInput::Command(CommandKind::ClearFiles)) == Some(
            (WatcherPhase::Waiting { retry: false }, WatcherAction::SettleRetry { stop: retry, replace: false }),
        ),
        ({
            let (installing, install) = watcher_next(
                WatcherPhase::Waiting { retry },
                WatcherInput::Command(CommandKind::SetFiles),
            )->0;
            &&& install is InstallRetry
            &&& watcher_next(installing, WatcherInput::Ready) == Some(
                (WatcherPhase::Waiting { retry: true }, WatcherAction::SettleRetry { stop: retry, replace: true }),
            )
            &&& watcher_next(installing, WatcherInput::Failed) == Some(
                (WatcherPhase::Waiting { retry }, WatcherAction::RefuseRetry),
            )
        }),
        ({
            let (validating, validate) = watcher_next(
                WatcherPhase::Waiting { retry },
                WatcherInput::Command(CommandKind::Validate),
            )->0;
            let answer = Some((WatcherPhase::Waiting { retry }, WatcherAction::AnswerValidation));
            &&& validate is Validate
            &&& watcher_next(validating, WatcherInput::Ready) == answer
            &&& watcher_next(validating, WatcherInput::Failed) == answer
        }),
{
}

/// To watch no files is to stop watching them.
pub proof fn watching_no_files_is_stopping(command: WatcherCommand, retry: bool)
    ensures
        command is SetStartupRetryFiles ==> (command.decides_by() is SetNoFiles <==> command->files@.len() == 0),
        command is SetStartupRetryFiles ==> (command.decides_by() is SetFiles <==> command->files@.len() > 0),
        command is ClearStartupRetryFiles <==> command.decides_by() is ClearFiles,
        command is ValidateSourceSnapshot <==> command.decides_by() is Validate,
        watcher_next(WatcherPhase::Waiting { retry }, WatcherInput::Command(CommandKind::SetNoFiles)) == watcher_next(
            WatcherPhase::Waiting { retry },
            WatcherInput::Command(CommandKind::ClearFiles),
        ),
{
}

/// The watcher waits for the end of what it does, and is done exactly when it returns.
pub proof fn watcher_ends_when_it_returns(phase: WatcherPhase, input: WatcherInput)
    requires
        watcher_next(phase, input) is Some,
    ensures
        (watcher_next(phase, input)->0).0 is Over <==> (watcher_next(phase, input)->0).1 is Finish,
        (watcher_next(phase, input)->0).0 is Installing <==> (watcher_next(phase, input)->0).1 is InstallRetry,
        (watcher_next(phase, input)->0).0 is Validating <==> (watcher_next(phase, input)->0).1 is Validate,
{
}

} // verus!
