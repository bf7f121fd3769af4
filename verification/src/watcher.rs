//! The watcher: which changes of files the manager is told of.

use crate::cli::{Opts, OptsError};
use crate::ghci::file_classifier::{ClassifierView, FileClassifier};
use crate::path::{FilePath, NormalPath};
use crate::sorted::views;
use crate::text::texts;
use vstd::prelude::*;

pub mod content;
pub mod events;
pub mod run;

verus! {

/// The options of the watcher.
#[derive(Debug)]
pub struct WatcherOpts {
    /// The paths to watch.
    pub watch: Vec<NormalPath>,
    /// How long changes are collected before they are reported, in milliseconds.
    pub debounce: u64,
    /// The interval for polling, in milliseconds, if changes are polled for.
    pub poll: Option<u64>,
    /// Tells which changes the manager is told of.
    pub file_classifier: FileClassifier,
}

/// Another list of the same paths.
pub fn duplicate_paths(paths: &Vec<NormalPath>) -> (r: Vec<NormalPath>)
    ensures
        views(r@) == views(paths@),
{
    let ghost all = views(paths@);
    let mut r: Vec<NormalPath> = Vec::new();
    let mut i: usize = 0;
    proof {
        assert(views(r@) =~= all.take(0));
    }
    while i < paths.len()
        invariant
            i <= paths@.len(),
            all == views(paths@),
            views(r@) == all.take(i as int),
        decreases paths@.len() - i,
    {
        let ghost before = views(r@);
        r.push(paths[i].clone());
        proof {
            assert(views(r@) =~= before.push(all[i as int]));
            assert(all.take(i + 1) =~= all.take(i as int).push(all[i as int]));
        }
        i = i + 1;
    }
    proof {
        assert(all.take(all.len() as int) =~= all);
    }
    r
}

impl WatcherOpts {
    /// The options of the watcher among those that the program was started with. `cwd` is the working
    /// directory, if it could be found.
    pub fn from_cli(opts: &Opts, cwd: Option<FilePath>) -> (r: Result<Self, OptsError>)
        ensures
            match r {
                Ok(r) => opts.watch.bad_glob() is None && cwd is Some && views(r.watch@) == views(
                    opts.watch.paths@,
                ) && r.debounce == opts.watch.debounce && r.poll == opts.watch.poll && r.file_classifier@ == (
                ClassifierView {
                    restart: texts(opts.watch.restart_globs@),
                    reload: texts(opts.watch.reload_globs@),
                    cwd: (cwd->0)@,
                }),
                Err(OptsError::Glob(error)) => opts.watch.bad_glob() == Some(error.pattern@),
                Err(OptsError::NoWorkingDirectory) => opts.watch.bad_glob() is None && cwd is None,
            },
    {
        let restart_globs = match opts.watch.restart_globs() {
            Ok(matcher) => matcher,
            Err(error) => {
                return Err(OptsError::Glob(error));
            },
        };
        let reload_globs = match opts.watch.reload_globs() {
            Ok(matcher) => matcher,
            Err(error) => {
                return Err(OptsError::Glob(error));
            },
        };
        match FileClassifier::new(restart_globs, reload_globs, cwd) {
            Ok(file_classifier) => Ok(
                WatcherOpts {
                    watch: duplicate_paths(&opts.watch.paths),
                    debounce: opts.watch.debounce,
                    poll: opts.watch.poll,
                    file_classifier,
                },
            ),
            Err(_) => Err(OptsError::NoWorkingDirectory),
        }
    }
}

} // verus!
