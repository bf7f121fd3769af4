//! Telling what changed paths ask for, by the patterns that the session was configured with.

use crate::event_filter::{FileEvent, FileEventView};
use crate::ghci::classify::{self, classified, configures};
use crate::ghci::module_set::{ModuleSet, ModuleView};
use crate::ghci::reload_actions::{ActionsView, ReloadActions};
use crate::glob::{path_fits, GlobMatcher};
use crate::haskell_source_file::{extension_of, haskell_source};
use crate::normal_path::normal;
use crate::path::{file_name_of, FilePath, NormalPath, NormalPathView};
use crate::sorted::{added_keys_are_held, has_key, path_key, sorted, views, with, Key, Keyed, SortedSet};
use vstd::prelude::*;

verus! {

/// The working directory could not be found.
#[derive(Clone, Copy, Debug, PartialEq, Eq, Structural)]
pub struct NoWorkingDirectory;

/// Tells what changed paths ask for.
#[derive(Debug)]
pub struct FileClassifier {
    restart_globs: GlobMatcher,
    reload_globs: GlobMatcher,
    cwd: FilePath,
}

/// The model of a [`FileClassifier`].
pub struct ClassifierView {
    /// The patterns of paths that restart the session.
    pub restart: Seq<Seq<char>>,
    /// The patterns of paths that reload it.
    pub reload: Seq<Seq<char>>,
    /// The directory that paths are seen from.
    pub cwd: Seq<char>,
}

impl View for FileClassifier {
    type V = ClassifierView;

    closed spec fn view(&self) -> ClassifierView {
        ClassifierView { restart: self.restart_globs@, reload: self.reload_globs@, cwd: self.cwd@ }
    }
}

/// The paths as seen from a directory, each once.
pub open spec fn normal_set(directory: Seq<char>, files: Seq<Seq<char>>) -> Seq<NormalPathView>
    decreases files.len(),
{
    if files.len() == 0 {
        seq![]
    } else {
        with::<NormalPath>(
            normal_set(directory, files.drop_last()),
            normal(directory, files.last()),
        )
    }
}

impl ClassifierView {
    /// The path of each event, in its normal form.
    pub open spec fn paths_of(self, events: Seq<FileEventView>) -> Seq<NormalPathView> {
        Seq::new(events.len(), |i: int| normal(self.cwd, events[i].path()))
    }

    /// Which of the paths fit one of the patterns.
    pub open spec fn fitting(patterns: Seq<Seq<char>>, paths: Seq<NormalPathView>) -> Seq<bool> {
        Seq::new(paths.len(), |i: int| path_fits(patterns, paths[i]))
    }

    /// Whether a change can matter at all: it is about a source, configures the session, or fits a
    /// pattern.
    pub open spec fn is_relevant(self, event: FileEventView) -> bool {
        let path = normal(self.cwd, event.path());
        haskell_source(path.absolute) || configures(path.absolute) || path_fits(self.restart, path)
            || path_fits(self.reload, path)
    }

    /// What the events ask for.
    pub open spec fn actions(self, events: Seq<FileEventView>, targets: Seq<ModuleView>) -> ActionsView {
        let paths = self.paths_of(events);
        classified(
            events,
            paths,
            Self::fitting(self.restart, paths),
            Self::fitting(self.reload, paths),
            targets,
            events.len() as int,
        )
    }
}

impl FileClassifier {
    /// The classifier with these patterns. Paths are seen from the working directory, so it has to be
    /// known.
    pub fn new(restart_globs: GlobMatcher, reload_globs: GlobMatcher, cwd: Option<FilePath>) -> (r: Result<
        Self,
        NoWorkingDirectory,
    >)
        ensures
            match r {
                Ok(classifier) => cwd is Some && classifier@ == (ClassifierView {
                    restart: restart_globs@,
                    reload: reload_globs@,
                    cwd: (cwd->0)@,
                }),
                Err(_) => cwd is None,
            },
    {
        match cwd {
            Some(cwd) => Ok(FileClassifier { restart_globs, reload_globs, cwd }),
            None => Err(NoWorkingDirectory),
        }
    }

    /// Sees paths from another directory from now on.
    pub fn set_cwd(&mut self, cwd: FilePath)
        ensures
            final(self)@ == (ClassifierView { cwd: cwd@, ..old(self)@ }),
    {
        self.cwd = cwd;
    }

    /// The normal form of a path.
    pub fn relative_path(&self, path: &FilePath) -> (r: NormalPath)
        ensures
            r@ == normal(self@.cwd, path@),
    {
        NormalPath::from_directory(&self.cwd, path)
    }

    /// The normal forms of the paths, each once.
    pub fn relative_paths(&self, files: &SortedSet<FilePath>) -> (r: SortedSet<NormalPath>)
        ensures
            r@ == normal_set(self@.cwd, files@),
    {
        let mut r: SortedSet<NormalPath> = SortedSet::new();
        let mut i: usize = 0;
        let n: usize = files.len();
        proof {
            assert(r@ =~= normal_set(self@.cwd, files@.take(0)));
        }
        while i < n
            invariant
                i <= n == files@.len(),
                r@ == normal_set(self@.cwd, files@.take(i as int)),
            decreases n - i,
        {
            proof {
                assert(files@.take(i + 1).drop_last() =~= files@.take(i as int));
            }
            let _ = r.insert(self.relative_path(files.at(i)));
            i = i + 1;
        }
        proof {
            assert(files@.take(n as int) =~= files@);
        }
        r
    }

    /// The path of each event, in its normal form.
    pub fn event_paths(&self, events: &SortedSet<FileEvent>) -> (r: Vec<NormalPath>)
        ensures
            views(r@) == self@.paths_of(events@),
    {
        let mut r: Vec<NormalPath> = Vec::new();
        let mut i: usize = 0;
        let n: usize = events.len();
        while i < n
            invariant
                i <= n == events@.len(),
                r@.len() == i,
                forall|j: int| 0 <= j < i ==> (#[trigger] r@[j])@ == normal(self@.cwd, events@[j].path()),
            decreases n - i,
        {
            r.push(self.relative_path(events.at(i).as_path()));
            i = i + 1;
        }
        proof {
            assert(views(r@) =~= self@.paths_of(events@));
        }
        r
    }

    /// Whether a change can matter at all.
    pub fn is_potentially_relevant(&self, event: &FileEvent) -> (r: bool)
        ensures
            r == self@.is_relevant(event@),
    {
        let path = self.relative_path(event.as_path());
        classify::is_potentially_relevant(
            path.absolute(),
            self.restart_globs.matches(&path),
            self.reload_globs.matches(&path),
        )
    }

    /// Which of the changes can matter at all.
    pub fn relevance(&self, events: &SortedSet<FileEvent>) -> (r: Vec<bool>)
        ensures
            r@.len() == events@.len(),
            forall|i: int| 0 <= i < r@.len() ==> #[trigger] r@[i] == self@.is_relevant(events@[i]),
    {
        let mut r: Vec<bool> = Vec::new();
        let mut i: usize = 0;
        let n: usize = events.len();
        while i < n
            invariant
                i <= n == events@.len(),
                r@.len() == i,
                forall|j: int| 0 <= j < i ==> #[trigger] r@[j] == self@.is_relevant(events@[j]),
            decreases n - i,
        {
            r.push(self.is_potentially_relevant(events.at(i)));
            i = i + 1;
        }
        r
    }

    /// What the changes ask for.
    pub fn classify(&self, events: &SortedSet<FileEvent>, targets: &ModuleSet) -> (r: ReloadActions)
        ensures
            r@ == self@.actions(events@, targets@),
    {
        let paths = self.event_paths(events);
        let ghost all = views(paths@);
        let mut restarts: Vec<bool> = Vec::new();
        let mut reloads: Vec<bool> = Vec::new();
        let mut i: usize = 0;
        while i < paths.len()
            invariant
                i <= paths@.len(),
                all == views(paths@),
                restarts@.len() == i,
                reloads@.len() == i,
                forall|j: int| 0 <= j < i ==> #[trigger] restarts@[j] == path_fits(self@.restart, all[j]),
                forall|j: int| 0 <= j < i ==> #[trigger] reloads@[j] == path_fits(self@.reload, all[j]),
            decreases paths@.len() - i,
        {
            restarts.push(self.restart_globs.matches(&paths[i]));
            reloads.push(self.reload_globs.matches(&paths[i]));
            i = i + 1;
        }
        proof {
            assert(restarts@ =~= ClassifierView::fitting(self@.restart, all));
            assert(reloads@ =~= ClassifierView::fitting(self@.reload, all));
        }
        classify::classify(events, &paths, &restarts, &reloads, targets)
    }
}

impl Clone for FileClassifier {
    fn clone(&self) -> (r: Self)
        ensures
            r@ == self@,
    {
        FileClassifier {
            restart_globs: self.restart_globs.clone(),
            reload_globs: self.reload_globs.clone(),
            cwd: self.cwd.clone(),
        }
    }
}

/// A change can matter exactly if it is about a source, a Cabal file or `.ghci`, or fits a pattern of either kind.
pub proof fn relevant_changes(classifier: ClassifierView, event: FileEventView)
    ensures
        ({
            let path = normal(classifier.cwd, event.path());
            classifier.is_relevant(event) <==> haskell_source(path.absolute) || extension_of(path.absolute) == Some(
                "cabal"@,
            ) || file_name_of(path.absolute) == Some(".ghci"@) || path_fits(classifier.restart, path) || path_fits(
                classifier.reload,
                path,
            )
        }),
{
}

/// A change that cannot matter asks for nothing.
pub proof fn irrelevant_changes_ask_for_nothing(
    classifier: ClassifierView,
    event: FileEventView,
    targets: Seq<ModuleView>,
)
    requires
        !classifier.is_relevant(event),
    ensures
        ({
            let path = normal(classifier.cwd, event.path());
            classify::action_for(
                event is Remove,
                path,
                path_fits(classifier.restart, path),
                path_fits(classifier.reload, path),
                targets,
            ) is Nothing
        }),
{
}

/// The paths of events are seen from the working directory, and each is matched with the patterns of its kind.
pub proof fn events_are_seen_from_the_working_directory(
    classifier: ClassifierView,
    events: Seq<FileEventView>,
    patterns: Seq<Seq<char>>,
    i: int,
)
    requires
        0 <= i < events.len(),
    ensures
        classifier.paths_of(events).len() == events.len(),
        classifier.paths_of(events)[i] == normal(classifier.cwd, events[i].path()),
        ClassifierView::fitting(patterns, classifier.paths_of(events))[i] == path_fits(
            patterns,
            normal(classifier.cwd, events[i].path()),
        ),
{
}

/// Every file is among the normal forms, and they are nothing but those of the files.
pub proof fn all_files_are_seen(directory: Seq<char>, files: Seq<Seq<char>>, k: Key)
    ensures
        sorted::<NormalPath>(normal_set(directory, files)),
        has_key::<NormalPath>(normal_set(directory, files), k) <==> exists|i: int|
            0 <= i < files.len() && path_key(normal(directory, #[trigger] files[i]).absolute) == k,
    decreases files.len(),
{
    if files.len() > 0 {
        let rest = files.drop_last();
        let before = normal_set(directory, rest);
        let one = normal(directory, files.last());
        all_files_are_seen(directory, rest, k);
        added_keys_are_held::<NormalPath>(before, one, k);
        if has_key::<NormalPath>(before, k) {
            let i = choose|i: int|
                0 <= i < rest.len() && path_key(normal(directory, #[trigger] rest[i]).absolute) == k;
            assert(files[i] == rest[i]);
        }
        if exists|i: int| 0 <= i < files.len() && path_key(normal(directory, #[trigger] files[i]).absolute) == k {
            let i = choose|i: int|
                0 <= i < files.len() && path_key(normal(directory, #[trigger] files[i]).absolute) == k;
            if i < rest.len() {
                assert(rest[i] == files[i]);
            }
        }
        if path_key(one.absolute) == k {
            assert(path_key(normal(directory, files[files.len() - 1]).absolute) == k);
        }
    } else {
        assert(normal_set(directory, files) =~= seq![]);
    }
}

} // verus!
