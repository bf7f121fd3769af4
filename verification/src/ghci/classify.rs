//! What a changed path asks for by itself.

use crate::event_filter::{FileEvent, FileEventView};
use crate::ghci::module_set::{has_source, ModuleSet, ModuleView};
use crate::ghci::reload_actions::{ActionsView, ReloadActions};
use crate::haskell_source_file::{extension, extension_of, haskell_source, is_haskell_source_file};
use crate::path::{file_name_of, FilePath, NormalPath, NormalPathView};
use crate::sorted::{views, SortedSet};
use crate::text::same_text;
use vstd::prelude::*;

verus! {

/// What a changed path asks for.
#[derive(Clone, Copy, Debug, PartialEq, Eq, Structural)]
pub enum PathAction {
    /// A restart of the session.
    Restart,
    /// A reload.
    Reload,
    /// That the source becomes a target.
    Add,
    /// That the source is no target any more.
    Remove,
    Nothing,
}

/// Whether a path configures the session, so that a change to it takes a restart.
pub open spec fn configures(path: Seq<char>) -> bool {
    extension_of(path) == Some("cabal"@) || file_name_of(path) == Some(".ghci"@)
}

fn is_configuration(path: &FilePath) -> (r: bool)
    ensures
        r == configures(path@),
{
    let by_extension = match extension(path) {
        Some(found) => same_text(found.as_str(), "cabal"),
        None => false,
    };
    by_extension || match path.file_name() {
        Some(name) => same_text(name.as_str(), ".ghci"),
        None => false,
    }
}

/// Whether a change to a path can matter at all. The flags tell whether it fits a pattern that restarts
/// or reloads the session.
pub fn is_potentially_relevant(path: &FilePath, restarts: bool, reloads: bool) -> (r: bool)
    ensures
        r == (haskell_source(path@) || configures(path@) || restarts || reloads),
{
    is_haskell_source_file(path) || is_configuration(path) || restarts || reloads
}

/// What a changed path asks for. The flags tell whether it fits a pattern that restarts or reloads the
/// session.
pub open spec fn action_for(
    removed: bool,
    path: NormalPathView,
    restarts: bool,
    reloads: bool,
    targets: Seq<ModuleView>,
) -> PathAction {
    if restarts || configures(path.absolute) {
        PathAction::Restart
    } else if haskell_source(path.absolute) {
        if has_source(targets, path) {
            if removed {
                PathAction::Remove
            } else {
                PathAction::Reload
            }
        } else if removed {
            PathAction::Nothing
        } else {
            PathAction::Add
        }
    } else if reloads {
        PathAction::Reload
    } else {
        PathAction::Nothing
    }
}

/// What a changed path asks for.
pub fn classify_path(removed: bool, path: &NormalPath, restarts: bool, reloads: bool, targets: &ModuleSet) -> (r:
    PathAction)
    ensures
        r == action_for(removed, path@, restarts, reloads, targets@),
{
    if restarts || is_configuration(path.absolute()) {
        PathAction::Restart
    } else if is_haskell_source_file(path.absolute()) {
        match (targets.contains_source_path(path), removed) {
            (true, true) => PathAction::Remove,
            (true, false) => PathAction::Reload,
            (false, true) => PathAction::Nothing,
            (false, false) => PathAction::Add,
        }
    } else if reloads {
        PathAction::Reload
    } else {
        PathAction::Nothing
    }
}

/// The actions of the paths before place `n`: each path is in the list of what it asks for, in order.
pub open spec fn classified(
    events: Seq<FileEventView>,
    paths: Seq<NormalPathView>,
    restarts: Seq<bool>,
    reloads: Seq<bool>,
    targets: Seq<ModuleView>,
    n: int,
) -> ActionsView
    decreases n,
{
    if n <= 0 {
        ActionsView { restart: seq![], reload: seq![], additions: seq![], removals: seq![] }
    } else {
        let before = classified(events, paths, restarts, reloads, targets, n - 1);
        let path = paths[n - 1];
        match action_for(events[n - 1] is Remove, path, restarts[n - 1], reloads[n - 1], targets) {
            PathAction::Restart => ActionsView { restart: before.restart.push(path), ..before },
            PathAction::Reload => ActionsView { reload: before.reload.push(path), ..before },
            PathAction::Add => ActionsView { additions: before.additions.push(path), ..before },
            PathAction::Remove => ActionsView { removals: before.removals.push(path), ..before },
            PathAction::Nothing => before,
        }
    }
}

proof fn lemma_views_push(list: Seq<NormalPath>, path: NormalPath)
    ensures
        views(list.push(path)) == views(list).push(path@),
{
    assert(views(list.push(path)) =~= views(list).push(path@));
}

/// What the changed paths ask for. `paths` holds the path of each event, and the flags tell which of them
/// fit a pattern that restarts or reloads the session.
pub fn classify(
    events: &SortedSet<FileEvent>,
    paths: &Vec<NormalPath>,
    restarts: &Vec<bool>,
    reloads: &Vec<bool>,
    targets: &ModuleSet,
) -> (r: ReloadActions)
    requires
        paths@.len() == events@.len(),
        restarts@.len() == events@.len(),
        reloads@.len() == events@.len(),
    ensures
        r@ == classified(events@, views(paths@), restarts@, reloads@, targets@, events@.len() as int),
{
    let mut r = ReloadActions {
        needs_restart: Vec::new(),
        needs_reload: Vec::new(),
        needs_add: Vec::new(),
        needs_remove: Vec::new(),
    };
    let ghost all = views(paths@);
    let mut i: usize = 0;
    proof {
        assert(r@.restart =~= seq![]);
        assert(r@.reload =~= seq![]);
        assert(r@.additions =~= seq![]);
        assert(r@.removals =~= seq![]);
    }
    while i < paths.len()
        invariant
            i <= paths@.len(),
            all == views(paths@),
            paths@.len() == events@.len(),
            restarts@.len() == events@.len(),
            reloads@.len() == events@.len(),
            r@ == classified(events@, all, restarts@, reloads@, targets@, i as int),
        decreases paths@.len() - i,
    {
        let removed = match events.at(i) {
            FileEvent::Remove(_) => true,
            FileEvent::Modify(_) => false,
        };
        let action = classify_path(removed, &paths[i], restarts[i], reloads[i], targets);
        let path = paths[i].clone();
        proof {
            assert(all[i as int] == paths@[i as int]@);
            lemma_views_push(r.needs_restart@, path);
            lemma_views_push(r.needs_reload@, path);
            lemma_views_push(r.needs_add@, path);
            lemma_views_push(r.needs_remove@, path);
        }
        match action {
            PathAction::Restart => r.needs_restart.push(path),
            PathAction::Reload => r.needs_reload.push(path),
            PathAction::Add => r.needs_add.push(path),
            PathAction::Remove => r.needs_remove.push(path),
            PathAction::Nothing => {},
        }
        i = i + 1;
    }
    r
}

/// Exactly these paths take a restart: those that fit a pattern for it, Cabal files and `.ghci`.
pub proof fn configuration_takes_a_restart(
    removed: bool,
    path: NormalPathView,
    restarts: bool,
    reloads: bool,
    targets: Seq<ModuleView>,
)
    ensures
        action_for(removed, path, restarts, reloads, targets) is Restart <==> restarts || extension_of(
            path.absolute,
        ) == Some("cabal"@) || file_name_of(path.absolute) == Some(".ghci"@),
{
}

/// A changed source that takes no restart is reloaded if it is a target and added if it is none; a removed
/// one is no target any more. A change to a source never just passes by, unless it is the removal of one
/// that was no target.
pub proof fn sources_follow_their_files(
    removed: bool,
    path: NormalPathView,
    reloads: bool,
    targets: Seq<ModuleView>,
)
    requires
        haskell_source(path.absolute),
        extension_of(path.absolute) != Some("cabal"@),
        file_name_of(path.absolute) != Some(".ghci"@),
    ensures
        ({
            let action = action_for(removed, path, false, reloads, targets);
            &&& action is Reload <==> has_source(targets, path) && !removed
            &&& action is Remove <==> has_source(targets, path) && removed
            &&& action is Add <==> !has_source(targets, path) && !removed
            &&& action is Nothing <==> !has_source(targets, path) && removed
        }),
{
}

/// Any other path that takes no restart reloads the session exactly if it fits a pattern for that, and
/// never changes the targets.
pub proof fn other_paths_reload_by_pattern(
    removed: bool,
    path: NormalPathView,
    reloads: bool,
    targets: Seq<ModuleView>,
)
    requires
        !haskell_source(path.absolute),
        extension_of(path.absolute) != Some("cabal"@),
        file_name_of(path.absolute) != Some(".ghci"@),
    ensures
        action_for(removed, path, false, reloads, targets) == (if reloads {
            PathAction::Reload
        } else {
            PathAction::Nothing
        }),
{
}

/// Each changed path is in exactly the list that it asks for, and the lists hold nothing else.
pub proof fn changed_paths_are_in_their_lists(
    events: Seq<FileEventView>,
    paths: Seq<NormalPathView>,
    restarts: Seq<bool>,
    reloads: Seq<bool>,
    targets: Seq<ModuleView>,
    n: int,
    p: NormalPathView,
)
    requires
        0 <= n <= events.len(),
    ensures
        ({
            let r = classified(events, paths, restarts, reloads, targets, n);
            &&& r.restart.contains(p) <==> exists|i: int|
                0 <= i < n && paths[i] == p && #[trigger] asked(events, paths, restarts, reloads, targets, i)
                    is Restart
            &&& r.reload.contains(p) <==> exists|i: int|
                0 <= i < n && paths[i] == p && #[trigger] asked(events, paths, restarts, reloads, targets, i)
                    is Reload
            &&& r.additions.contains(p) <==> exists|i: int|
                0 <= i < n && paths[i] == p && #[trigger] asked(events, paths, restarts, reloads, targets, i) is Add
            &&& r.removals.contains(p) <==> exists|i: int|
                0 <= i < n && paths[i] == p && #[trigger] asked(events, paths, restarts, reloads, targets, i)
                    is Remove
        }),
    decreases n,
{
    let r = classified(events, paths, restarts, reloads, targets, n);
    if n > 0 {
        let b = classified(events, paths, restarts, reloads, targets, n - 1);
        changed_paths_are_in_their_lists(events, paths, restarts, reloads, targets, n - 1, p);
        let last = asked(events, paths, restarts, reloads, targets, n - 1);
        lemma_pushed_or_not(b.restart, paths[n - 1], p);
        lemma_pushed_or_not(b.reload, paths[n - 1], p);
        lemma_pushed_or_not(b.additions, paths[n - 1], p);
        lemma_pushed_or_not(b.removals, paths[n - 1], p);
    }
}

/// What the changed path at place `i` asks for.
pub open spec fn asked(
    events: Seq<FileEventView>,
    paths: Seq<NormalPathView>,
    restarts: Seq<bool>,
    reloads: Seq<bool>,
    targets: Seq<ModuleView>,
    i: int,
) -> PathAction {
    action_for(events[i] is Remove, paths[i], restarts[i], reloads[i], targets)
}

proof fn lemma_pushed_or_not(list: Seq<NormalPathView>, q: NormalPathView, p: NormalPathView)
    ensures
        list.push(q).contains(p) <==> list.contains(p) || p == q,
{
    let all = list.push(q);
    if list.contains(p) {
        let i = choose|i: int| 0 <= i < list.len() && list[i] == p;
        assert(all[i] == p);
    }
    if p == q {
        assert(all[list.len() as int] == p);
    }
    if all.contains(p) {
        let i = choose|i: int| 0 <= i < all.len() && all[i] == p;
        if i < list.len() {
            assert(list[i] == p);
        }
    }
}

} // verus!
