//! A GHCi session and what is done with it.

use vstd::prelude::*;

pub mod classify;
pub mod compilation_log;
pub mod error_log;
pub mod eval_commands;
pub mod file_classifier;
pub mod manager;
pub mod memory;
pub mod module_set;
pub mod parse;
pub mod process;
pub mod reload_actions;
pub mod report;
pub mod session;
pub mod setup;
pub mod show;
pub mod stderr;
pub mod stdin;
pub mod stdout;

verus! {

/// How a session responds to a reload event.
#[derive(Clone, Copy, Debug, PartialEq, Eq, Structural)]
pub enum GhciReloadKind {
    /// What is to be done is not known yet, or the hooks before it have not completed.
    Pending,
    /// Nothing that can be interrupted is left. This holds of the hooks after a compilation too.
    Idle,
    /// Modules are reloaded, added or removed. This can be interrupted.
    Reload,
    /// The whole session is restarted. This cannot be interrupted.
    Restart,
}

} // verus!
