//! The logic of a file watcher that keeps a GHCi session in step with its sources.

pub mod cli;
pub mod eval_socket;
pub mod event_filter;
pub mod ghci;
pub mod glob;
pub mod haskell_source_file;
pub mod hooks;
pub mod maybe_async_command;
pub mod normal_path;
pub mod parent;
pub mod path;
pub mod pids;
pub mod sorted;
pub mod text;
pub mod watcher;
