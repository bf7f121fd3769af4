//! Lifecycle hooks: commands that run at certain points in the life of a session.

use crate::maybe_async_command::MaybeAsyncCommand;
use vstd::prelude::*;

verus! {

/// Whether a hook runs before or after its event.
#[derive(Clone, Copy, Debug, PartialEq, Eq, Structural)]
pub enum When {
    Before,
    After,
}

/// A point in the life of a session that hooks are attached to.
#[derive(Clone, Copy, Debug, PartialEq, Eq, Structural)]
pub enum LifecycleEvent {
    /// After a successful compilation, when tests run.
    Test,
    /// When the session starts up.
    Startup(When),
    /// When modules are reloaded.
    Reload(When),
    /// When the session is restarted.
    Restart(When),
}

impl LifecycleEvent {
    /// The text for what happens at the event.
    pub open spec fn noun(self) -> Seq<char> {
        match self {
            LifecycleEvent::Test => "testing"@,
            LifecycleEvent::Startup(_) => "starting up"@,
            LifecycleEvent::Reload(_) => "reloading"@,
            LifecycleEvent::Restart(_) => "restarting"@,
        }
    }

    /// A word for what happens at the event.
    pub fn event_noun(self) -> (r: &'static str)
        ensures
            r@ == self.noun(),
    {
        match self {
            LifecycleEvent::Test => "testing",
            LifecycleEvent::Startup(_) => "starting up",
            LifecycleEvent::Reload(_) => "reloading",
            LifecycleEvent::Restart(_) => "restarting",
        }
    }
}

/// What a hook runs.
#[derive(Debug)]
pub enum HookCommand {
    /// A command for the GHCi prompt.
    Ghci(String),
    /// A shell command.
    Shell(MaybeAsyncCommand),
}

/// A command and the event that it runs at.
#[derive(Debug)]
pub struct Hook {
    pub event: LifecycleEvent,
    pub command: HookCommand,
}

/// Events of the same kind have the same word, before and after, and those of different kinds have different words.
pub proof fn kinds_of_events_have_their_words(a: When, b: When)
    ensures
        LifecycleEvent::Startup(a).noun() == LifecycleEvent::Startup(b).noun(),
        LifecycleEvent::Reload(a).noun() == LifecycleEvent::Reload(b).noun(),
        LifecycleEvent::Restart(a).noun() == LifecycleEvent::Restart(b).noun(),
        LifecycleEvent::Startup(a).noun() != LifecycleEvent::Reload(b).noun(),
        LifecycleEvent::Startup(a).noun() != LifecycleEvent::Restart(b).noun(),
        LifecycleEvent::Reload(a).noun() != LifecycleEvent::Restart(b).noun(),
        LifecycleEvent::Test.noun() != LifecycleEvent::Startup(a).noun(),
        LifecycleEvent::Test.noun() != LifecycleEvent::Reload(a).noun(),
        LifecycleEvent::Test.noun() != LifecycleEvent::Restart(a).noun(),
{
    reveal_strlit("testing");
    reveal_strlit("starting up");
    reveal_strlit("reloading");
    reveal_strlit("restarting");
    assert("testing"@[0] == 't' && "starting up"@[0] == 's');
    assert("reloading"@[2] == 'l' && "restarting"@[2] == 's');
    assert("reloading"@[0] == 'r' && "restarting"@[0] == 'r');
}

} // verus!
