//! Starting a session.

use crate::ghci::file_classifier::FileClassifier;
use crate::ghci::module_set::{ModuleSet, ModuleView};
use crate::ghci::reload_actions::ReloadOptions;
use crate::ghci::session::{Ghci, GhciView};
use crate::path::{FilePath, NormalPathView};
use crate::sorted::{views, Key, SortedMap, SortedSet};
use vstd::prelude::*;

verus! {

/// What the start of a session waits for.
#[derive(Clone, Copy, Debug, PartialEq, Eq, Structural)]
pub enum SpawnPhase {
    /// The setup commands were to run.
    Setup,
    /// The shell hooks before the startup were to run.
    Hooks,
    /// The command was to be started.
    Spawning,
    Over,
}

/// What is to be done next to start a session.
#[derive(Clone, Copy, Debug, PartialEq, Eq, Structural)]
pub enum SpawnAction {
    /// Run the setup commands until all of them succeed.
    RunSetup,
    /// Run the shell hooks before the startup.
    RunShellHooks,
    /// Start the command in a process group of its own.
    Spawn,
    /// Read the output of this process, watch it, and return the session.
    Attach { process_id: i32, process_group_id: i32 },
    /// Return an error: the process has no process group.
    FailNoGroup,
    /// Return an error: the process has no process ID.
    FailNoProcess,
    /// Return the error that was just reported.
    Fail,
}

/// What came of it.
#[derive(Clone, Copy, Debug, PartialEq, Eq, Structural)]
pub enum SpawnInput {
    /// What was to be done is done.
    Ready,
    /// The command was started, with the IDs that are known.
    Spawned { process_id: Option<u32>, process_group_id: Option<u32> },
    /// What was to be done failed.
    Failed,
}

/// What happens next while a session is started. Nothing, if the input does not answer what was last
/// to be done.
pub open spec fn spawn_next(phase: SpawnPhase, input: SpawnInput) -> Option<(SpawnPhase, SpawnAction)> {
    match (phase, input) {
        (SpawnPhase::Setup, SpawnInput::Ready) => Some((SpawnPhase::Hooks, SpawnAction::RunShellHooks)),
        (SpawnPhase::Hooks, SpawnInput::Ready) => Some((SpawnPhase::Spawning, SpawnAction::Spawn)),
        (SpawnPhase::Spawning, SpawnInput::Spawned { process_id, process_group_id }) => Some(
            (
                SpawnPhase::Over,
                match (process_group_id, process_id) {
                    (None, _) => SpawnAction::FailNoGroup,
                    (Some(_), None) => SpawnAction::FailNoProcess,
                    (Some(group), Some(process)) => SpawnAction::Attach {
                        process_id: process as i32,
                        process_group_id: group as i32,
                    },
                },
            ),
        ),
        (SpawnPhase::Over, _) => None,
        (_, SpawnInput::Failed) => Some((SpawnPhase::Over, SpawnAction::Fail)),
        _ => None,
    }
}

/// Takes what came of what was last to be done to start a session and says what is to be done next.
/// The action to begin with is [`SpawnAction::RunSetup`].
pub fn spawn_session(phase: SpawnPhase, input: SpawnInput) -> (r: Option<(SpawnPhase, SpawnAction)>)
    ensures
        r == spawn_next(phase, input),
{
    match (phase, input) {
        (SpawnPhase::Setup, SpawnInput::Ready) => Some((SpawnPhase::Hooks, SpawnAction::RunShellHooks)),
        (SpawnPhase::Hooks, SpawnInput::Ready) => Some((SpawnPhase::Spawning, SpawnAction::Spawn)),
        (SpawnPhase::Spawning, SpawnInput::Spawned { process_id, process_group_id }) => {
            let action = match (process_group_id, process_id) {
                (None, _) => SpawnAction::FailNoGroup,
                (Some(_), None) => SpawnAction::FailNoProcess,
                (Some(group), Some(process)) => SpawnAction::Attach {
                    process_id: process as i32,
                    process_group_id: group as i32,
                },
            };
            Some((SpawnPhase::Over, action))
        },
        (SpawnPhase::Over, _) => None,
        (_, SpawnInput::Failed) => Some((SpawnPhase::Over, SpawnAction::Fail)),
        _ => None,
    }
}

/// The command is started only once all setup commands succeeded and the hooks before the startup
/// ran.
pub proof fn setup_gates_the_start(phase: SpawnPhase, input: SpawnInput)
    requires
        spawn_next(phase, input) is Some,
    ensures
        (spawn_next(phase, input)->0).1 is Spawn ==> phase is Hooks && input is Ready,
        (spawn_next(phase, input)->0).1 is RunShellHooks ==> phase is Setup && input is Ready,
        (spawn_next(phase, input)->0).0 is Hooks ==> (spawn_next(phase, input)->0).1 is RunShellHooks,
        (spawn_next(phase, input)->0).1 is Attach ==> phase is Spawning,
{
}

impl Ghci {
    /// A session that was just started: it knows no targets, no sources and no commands yet.
    pub fn new(
        process_id: i32,
        process_group_id: i32,
        command: String,
        cwd: FilePath,
        extra_search_paths: Vec<FilePath>,
        classifier: FileClassifier,
        options: ReloadOptions,
        enable_eval: bool,
    ) -> (r: Self)
        ensures
            r@ == (GhciView {
                process_id,
                process_group_id,
                command: command@,
                cwd: cwd@,
                search_paths: views(extra_search_paths@),
                classifier: classifier@,
                options,
                enable_eval,
                targets: Seq::<ModuleView>::empty(),
                known: Seq::<NormalPathView>::empty(),
                start_failed: false,
                eval_paths: Seq::<NormalPathView>::empty(),
                eval_commands: Map::<Key, Vec<String>>::empty(),
                sync_nonce: 0,
                recovery_restart_required: false,
            }),
    {
        Ghci {
            process_id,
            process_group_id,
            command,
            cwd,
            search_paths: extra_search_paths,
            classifier,
            options,
            enable_eval,
            targets: ModuleSet::new(),
            known_haskell_files: SortedSet::new(),
            start_failed: false,
            eval_commands: SortedMap::new(),
            sync_nonce: 0,
            recovery_restart_required: false,
        }
    }
}

/// A session is started in this order: its setup, the hooks before its startup, its command. It is attached exactly if
/// the process has a group and an ID, which are those that are attached. Any failure is returned.
pub proof fn start_takes_its_course(phase: SpawnPhase, process_id: Option<u32>, process_group_id: Option<u32>)
    ensures
        ({
            let (p1, a1) = spawn_next(SpawnPhase::Setup, SpawnInput::Ready)->0;
            let (p2, a2) = spawn_next(p1, SpawnInput::Ready)->0;
            let (_, a3) = spawn_next(p2, SpawnInput::Spawned { process_id, process_group_id })->0;
            &&& a1 is RunShellHooks
            &&& a2 is Spawn
            &&& a3 is Attach <==> process_id is Some && process_group_id is Some
            &&& a3 is FailNoGroup <==> process_group_id is None
            &&& a3 is FailNoProcess <==> process_group_id is Some && process_id is None
            &&& a3 is Attach ==> a3->process_id == process_id->0 as i32 && a3->process_group_id
                == process_group_id->0 as i32
        }),
        !(phase is Over) ==> (spawn_next(phase, SpawnInput::Failed) matches Some((after, action)) && action is Fail && after
            is Over),
        spawn_next(SpawnPhase::Over, SpawnInput::Ready) is None,
{
}

/// A start waits for the end of what it does.
pub proof fn start_waits_for_what_it_does(phase: SpawnPhase, input: SpawnInput)
    requires
        spawn_next(phase, input) is Some,
    ensures
        (spawn_next(phase, input)->0).0 is Hooks <==> (spawn_next(phase, input)->0).1 is RunShellHooks,
        (spawn_next(phase, input)->0).0 is Spawning <==> (spawn_next(phase, input)->0).1 is Spawn,
{
}

} // verus!
