//! Ending with the process that started the program.

use vstd::prelude::*;

verus! {

/// How often the parent process is looked up, in milliseconds.
pub const PARENT_CHECK_INTERVAL: u64 = 250;

/// What is done about the parent process.
#[derive(Clone, Copy, Debug, PartialEq, Eq, Structural)]
pub enum ParentAction {
    /// Look it up again after a while.
    Wait,
    /// Shut down: the process that started the program is gone.
    RequestShutdown,
}

/// What is done about the parent process, which had the process ID `original` when the program was
/// started.
pub fn watch_parent(original: i32, current: i32) -> (r: ParentAction)
    ensures
        r == (if current != original {
            ParentAction::RequestShutdown
        } else {
            ParentAction::Wait
        }),
{
    if current != original {
        ParentAction::RequestShutdown
    } else {
        ParentAction::Wait
    }
}

} // verus!
