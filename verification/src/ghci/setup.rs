//! The commands that gate each start of a session. Unlike hooks, they must succeed.

use crate::ghci::compilation_log::{CompilationLog, LogView};
use vstd::prelude::*;

verus! {

/// What the setup waits for.
#[derive(Clone, Copy, Debug, PartialEq, Eq, Structural)]
pub enum SetupPhase {
    /// Notifications from before the attempt were to be dropped.
    Marking,
    /// The command at this place was to succeed.
    Running(usize),
    /// The error log was to be written.
    Publishing,
    /// A watched file was to change.
    Waiting,
    Over,
}

/// What is to be done next for the setup.
#[derive(Clone, Copy, Debug, PartialEq, Eq, Structural)]
pub enum SetupAction {
    /// Drop the notifications from before this attempt. Those that come while it runs count.
    MarkUpdates,
    /// Run the command at this place.
    Run(usize),
    /// Write the failure to the error log.
    Publish,
    /// Wait until a watched file changes.
    AwaitUpdate,
    /// Return: the session can be started.
    Finish,
    /// Return the error that was just reported.
    Fail,
}

/// What came of it.
#[derive(Clone, Copy, Debug, PartialEq, Eq, Structural)]
pub enum SetupInput {
    /// What was to be done is done, or the command succeeded, or a watched file changed.
    Ready,
    /// The command failed, or what was to be done did.
    Failed,
}

/// What the setup with `count` commands begins with.
pub open spec fn setup_first(count: usize) -> (SetupPhase, SetupAction) {
    if count == 0 {
        (SetupPhase::Over, SetupAction::Finish)
    } else {
        (SetupPhase::Marking, SetupAction::MarkUpdates)
    }
}

/// What happens next in the setup with `count` commands. Nothing once it is over. After a failure
/// everything begins again when a watched file changes, and only then.
pub open spec fn setup_next(count: usize, phase: SetupPhase, input: SetupInput) -> Option<
    (SetupPhase, SetupAction),
> {
    match (phase, input) {
        (SetupPhase::Marking, SetupInput::Ready) => Some((SetupPhase::Running(0), SetupAction::Run(0))),
        (SetupPhase::Running(i), SetupInput::Ready) => Some(
            if i + 1 < count {
                (SetupPhase::Running((i + 1) as usize), SetupAction::Run((i + 1) as usize))
            } else {
                (SetupPhase::Over, SetupAction::Finish)
            },
        ),
        (SetupPhase::Running(_), SetupInput::Failed) => Some((SetupPhase::Publishing, SetupAction::Publish)),
        (SetupPhase::Publishing, SetupInput::Ready) => Some((SetupPhase::Waiting, SetupAction::AwaitUpdate)),
        (SetupPhase::Waiting, SetupInput::Ready) => Some((SetupPhase::Marking, SetupAction::MarkUpdates)),
        (SetupPhase::Over, _) => None,
        (_, SetupInput::Failed) => Some((SetupPhase::Over, SetupAction::Fail)),
    }
}

/// What the setup begins with.
pub fn begin_setup(count: usize) -> (r: (SetupPhase, SetupAction))
    ensures
        r == setup_first(count),
{
    if count == 0 {
        (SetupPhase::Over, SetupAction::Finish)
    } else {
        (SetupPhase::Marking, SetupAction::MarkUpdates)
    }
}

/// Takes what came of what was last to be done for the setup and says what is to be done next.
pub fn run(count: usize, phase: SetupPhase, input: SetupInput) -> (r: Option<(SetupPhase, SetupAction)>)
    ensures
        r == setup_next(count, phase, input),
{
    match (phase, input) {
        (SetupPhase::Marking, SetupInput::Ready) => Some((SetupPhase::Running(0), SetupAction::Run(0))),
        (SetupPhase::Running(i), SetupInput::Ready) => if i < count && i + 1 < count {
            Some((SetupPhase::Running(i + 1), SetupAction::Run(i + 1)))
        } else {
            Some((SetupPhase::Over, SetupAction::Finish))
        },
        (SetupPhase::Running(_), SetupInput::Failed) => Some((SetupPhase::Publishing, SetupAction::Publish)),
        (SetupPhase::Publishing, SetupInput::Ready) => Some((SetupPhase::Waiting, SetupAction::AwaitUpdate)),
        (SetupPhase::Waiting, SetupInput::Ready) => Some((SetupPhase::Marking, SetupAction::MarkUpdates)),
        (SetupPhase::Over, _) => None,
        (_, SetupInput::Failed) => Some((SetupPhase::Over, SetupAction::Fail)),
    }
}

/// The commands that succeeded since the attempt began, when the setup gets these inputs.
pub open spec fn setup_run(count: usize, inputs: Seq<SetupInput>) -> (SetupPhase, SetupAction, nat)
    decreases inputs.len(),
{
    if inputs.len() == 0 {
        (setup_first(count).0, setup_first(count).1, 0)
    } else {
        let (phase, action, done) = setup_run(count, inputs.drop_last());
        match setup_next(count, phase, inputs.last()) {
            Some((after, next)) => (
                after,
                next,
                match next {
                    SetupAction::MarkUpdates => 0,
                    _ => if phase is Running && inputs.last() is Ready {
                        done + 1
                    } else {
                        done
                    },
                },
            ),
            None => (phase, action, done),
        }
    }
}

/// A session is started only when all setup commands succeeded, one after the other, in one attempt.
pub proof fn setup_succeeds_as_a_whole(count: usize, inputs: Seq<SetupInput>)
    ensures
        ({
            let (phase, action, done) = setup_run(count, inputs);
            &&& action is Finish ==> phase is Over && done == count
            &&& match phase {
                SetupPhase::Marking => done == 0 && count > 0 && action is MarkUpdates,
                SetupPhase::Running(i) => done == i && i < count && action == SetupAction::Run(i),
                SetupPhase::Over => action is Finish || action is Fail,
                _ => done < count && !(action is Finish),
            }
        }),
    decreases inputs.len(),
{
    if inputs.len() > 0 {
        setup_succeeds_as_a_whole(count, inputs.drop_last());
    }
}

/// What is told of a setup command that failed with a status.
pub open spec fn failed_text(command: Seq<char>, status: Seq<char>, stdout: Seq<char>, stderr: Seq<char>) -> Seq<char> {
    "setup-shell command `"@ + command + "` failed ("@ + status + ")\n"@ + stdout + stderr
}

/// What is told of a setup command that could not be run.
pub open spec fn error_text(command: Seq<char>, error: Seq<char>) -> Seq<char> {
    "setup-shell command `"@ + command + "` failed: "@ + error + "\n"@
}

/// What is told of a setup command that exited; nothing if it succeeded.
pub fn execute(command: &str, succeeded: bool, status: &str, stdout: &str, stderr: &str) -> (r: Option<String>)
    ensures
        match r {
            Some(text) => !succeeded && text@ == failed_text(command@, status@, stdout@, stderr@),
            None => succeeded,
        },
{
    if succeeded {
        return None;
    }
    let mut r = "setup-shell command `".to_owned();
    r.append(command);
    r.append("` failed (");
    r.append(status);
    r.append(")\n");
    r.append(stdout);
    r.append(stderr);
    Some(r)
}

/// What is told of a setup command that could not be run.
pub fn run_failure(command: &str, error: &str) -> (r: String)
    ensures
        r@ == error_text(command@, error@),
{
    let mut r = "setup-shell command `".to_owned();
    r.append(command);
    r.append("` failed: ");
    r.append(error);
    r.append("\n");
    r
}

/// The log of a setup that failed.
pub fn failure_log(message: &str) -> (r: CompilationLog)
    ensures
        r@ == LogView::empty().failed_with(message@),
{
    let mut log = CompilationLog::default();
    log.mark_failed_with_diagnostic(message);
    log
}

/// Setup commands run one by one in the order in which they are given, and the session can be started after the last;
/// at once if there are none.
pub proof fn setup_commands_run_one_by_one(count: usize, i: usize)
    requires
        i < count,
    ensures
        setup_first(0).1 is Finish,
        setup_first(count) == (SetupPhase::Marking, SetupAction::MarkUpdates),
        setup_next(count, SetupPhase::Marking, SetupInput::Ready) == Some((SetupPhase::Running(0), SetupAction::Run(0))),
        i + 1 < count ==> setup_next(count, SetupPhase::Running(i), SetupInput::Ready) == Some(
            (SetupPhase::Running((i + 1) as usize), SetupAction::Run((i + 1) as usize)),
        ),
        i + 1 == count ==> setup_next(count, SetupPhase::Running(i), SetupInput::Ready) == Some(
            (SetupPhase::Over, SetupAction::Finish),
        ),
{
}

/// A setup command that fails is published, and when a watched file changes all commands run again. Any other step that
/// fails is returned.
pub proof fn failed_setup_is_tried_again(count: usize, i: usize, phase: SetupPhase)
    ensures
        ({
            let (p1, a1) = setup_next(count, SetupPhase::Running(i), SetupInput::Failed)->0;
            let (p2, a2) = setup_next(count, p1, SetupInput::Ready)->0;
            let (p3, a3) = setup_next(count, p2, SetupInput::Ready)->0;
            let (_, a4) = setup_next(count, p3, SetupInput::Ready)->0;
            &&& a1 is Publish
            &&& a2 is AwaitUpdate
            &&& a3 is MarkUpdates
            &&& a4 == SetupAction::Run(0)
        }),
        phase is Marking || phase is Publishing || phase is Waiting ==> setup_next(count, phase, SetupInput::Failed) == Some(
            (SetupPhase::Over, SetupAction::Fail),
        ),
{
}

/// What is told of a failed setup command holds the command, its status and all that it printed.
pub proof fn failed_setup_is_told(command: Seq<char>, status: Seq<char>, stdout: Seq<char>, stderr: Seq<char>, error: Seq<char>)
    ensures
        ({
            let text = failed_text(command, status, stdout, stderr);
            let n = "setup-shell command `"@.len() as int;
            &&& text.subrange(n, n + command.len()) == command
            &&& text.skip(text.len() - stderr.len()) == stderr
            &&& text.subrange(text.len() - stderr.len() - stdout.len(), text.len() - stderr.len()) == stdout
        }),
        ({
            let text = error_text(command, error);
            let n = "setup-shell command `"@.len() as int;
            &&& text.subrange(n, n + command.len()) == command
            &&& text.subrange(text.len() - 1 - error.len(), text.len() - 1) == error
        }),
{
    reveal_strlit("\n");
    let text = failed_text(command, status, stdout, stderr);
    let n = "setup-shell command `"@.len() as int;
    assert(text.subrange(n, n + command.len()) =~= command);
    assert(text.skip(text.len() - stderr.len()) =~= stderr);
    assert(text.subrange(text.len() - stderr.len() - stdout.len(), text.len() - stderr.len()) =~= stdout);
    let other = error_text(command, error);
    assert(other.subrange(n, n + command.len()) =~= command);
    assert(other.subrange(other.len() - 1 - error.len(), other.len() - 1) =~= error);
}

/// A setup waits for the end of what it does, and is over exactly when it returns.
pub proof fn setup_waits_for_what_it_does(count: usize, phase: SetupPhase, input: SetupInput)
    requires
        setup_next(count, phase, input) is Some,
    ensures
        (setup_next(count, phase, input)->0).0 is Over <==> (setup_next(count, phase, input)->0).1 is Finish || (setup_next(count, phase, input)->0).1 is Fail,
        (setup_next(count, phase, input)->0).0 is Running <==> (setup_next(count, phase, input)->0).1 is Run,
        (setup_next(count, phase, input)->0).0 is Publishing <==> (setup_next(count, phase, input)->0).1 is Publish,
        (setup_next(count, phase, input)->0).0 is Waiting <==> (setup_next(count, phase, input)->0).1 is AwaitUpdate,
        (setup_next(count, phase, input)->0).0 is Marking <==> (setup_next(count, phase, input)->0).1 is MarkUpdates,
{
}

} // verus!
