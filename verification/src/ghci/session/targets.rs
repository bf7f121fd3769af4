//! What a session knows of its targets, and of the commands to evaluate in them.

use crate::ghci::file_classifier::ClassifierView;
use crate::ghci::module_set::{has_source, without_source, LoadedModule, ModuleSet, ModuleView};
use crate::ghci::reload_actions::gone_sources;
use crate::ghci::session::add::{divide_paths, unresolved};
use crate::ghci::session::reload::{rest_of, without_rejected};
use crate::ghci::session::{Ghci, GhciView};
use crate::path::{path_parts, FilePath, NormalPath, NormalPathView};
use crate::sorted::{
    added_keys_are_held, has_key, lemma_filter, path_key, sorted, views, with, without_all, without_key, Key, Keyed,
    SortedMap, SortedSet,
};
use vstd::prelude::*;

verus! {

/// Whether the list holds a path with the same components.
pub open spec fn holds_path(s: Seq<Seq<char>>, path: Seq<char>) -> bool {
    exists|i: int| 0 <= i < s.len() && path_parts(#[trigger] s[i]) == path_parts(path)
}

/// The search paths that a session shows, and after them those of the configured ones that are not
/// among them.
pub open spec fn with_extra(shown: Seq<Seq<char>>, extra: Seq<Seq<char>>) -> Seq<Seq<char>>
    decreases extra.len(),
{
    if extra.len() == 0 {
        shown
    } else {
        let before = with_extra(shown, extra.drop_last());
        if holds_path(before, extra.last()) {
            before
        } else {
            before.push(extra.last())
        }
    }
}

fn is_held(list: &Vec<FilePath>, path: &FilePath) -> (r: bool)
    ensures
        r == holds_path(views(list@), path@),
{
    let ghost s = views(list@);
    let mut i: usize = 0;
    while i < list.len()
        invariant
            i <= list@.len(),
            s == views(list@),
            forall|j: int| 0 <= j < i ==> path_parts(#[trigger] s[j]) != path_parts(path@),
        decreases list@.len() - i,
    {
        proof {
            assert(s[i as int] == list@[i as int]@);
        }
        if list[i] == *path {
            proof {
                assert(path_parts(s[i as int]) == path_parts(path@));
            }
            return true;
        }
        i = i + 1;
    }
    false
}

/// The commands to evaluate after those of one source were read again. `found` is `None` if the
/// module name of the source is not known, so that nothing in it can be evaluated.
pub open spec fn refreshed(
    commands: Map<Key, Vec<String>>,
    path: NormalPathView,
    found: Option<Vec<String>>,
) -> Map<Key, Vec<String>> {
    match found {
        Some(found) => if found@.len() == 0 {
            commands.remove(path_key(path.absolute))
        } else {
            commands.insert(path_key(path.absolute), found)
        },
        None => commands.remove(path_key(path.absolute)),
    }
}

/// The sources with commands to evaluate after those of one source were read again.
pub open spec fn refreshed_paths(
    paths: Seq<NormalPathView>,
    path: NormalPathView,
    found: Option<Vec<String>>,
) -> Seq<NormalPathView> {
    match found {
        Some(found) => if found@.len() == 0 {
            without_key::<NormalPath>(paths, path_key(path.absolute))
        } else {
            with::<NormalPath>(paths, path)
        },
        None => without_key::<NormalPath>(paths, path_key(path.absolute)),
    }
}

/// The targets with commands to evaluate, of which `found` holds those of each.
pub open spec fn all_paths(targets: Seq<ModuleView>, found: Seq<Vec<String>>) -> Seq<NormalPathView>
    decreases targets.len(),
{
    if targets.len() == 0 || found.len() == 0 {
        seq![]
    } else {
        let before = all_paths(targets.drop_last(), found.drop_last());
        if found.last()@.len() == 0 {
            before
        } else {
            with::<NormalPath>(before, targets.last().path)
        }
    }
}

/// The commands to evaluate in the targets, of which `found` holds those of each.
pub open spec fn all_commands(targets: Seq<ModuleView>, found: Seq<Vec<String>>) -> Map<Key, Vec<String>>
    decreases targets.len(),
{
    if targets.len() == 0 || found.len() == 0 {
        Map::empty()
    } else {
        let before = all_commands(targets.drop_last(), found.drop_last());
        if found.last()@.len() == 0 {
            before
        } else {
            before.insert(path_key(targets.last().path.absolute), found.last())
        }
    }
}

/// The commands to evaluate without those in these sources.
pub open spec fn cleared(commands: Map<Key, Vec<String>>, paths: Seq<NormalPathView>) -> Map<Key, Vec<String>>
    decreases paths.len(),
{
    if paths.len() == 0 {
        commands
    } else {
        cleared(commands, paths.drop_last()).remove(path_key(paths.last().absolute))
    }
}

/// The targets without those with these source paths.
pub open spec fn without_sources(targets: Seq<ModuleView>, paths: Seq<NormalPathView>) -> Seq<ModuleView>
    decreases paths.len(),
{
    if paths.len() == 0 {
        targets
    } else {
        without_source(without_sources(targets, paths.drop_last()), paths.last())
    }
}

impl Ghci {
    /// Takes over the working directory and the search paths that the session shows. Changed paths are
    /// seen from that directory from then on.
    pub fn refresh_paths(&mut self, cwd: FilePath, shown: Vec<FilePath>, extra: &Vec<FilePath>)
        ensures
            final(self)@ == (GhciView {
                cwd: cwd@,
                search_paths: with_extra(views(shown@), views(extra@)),
                classifier: ClassifierView { cwd: cwd@, ..old(self)@.classifier },
                ..old(self)@
            }),
    {
        let ghost all = views(extra@);
        let ghost first = views(shown@);
        let mut paths = shown;
        let mut i: usize = 0;
        proof {
            assert(all.take(0).len() == 0);
        }
        while i < extra.len()
            invariant
                i <= extra@.len(),
                all == views(extra@),
                views(paths@) == with_extra(first, all.take(i as int)),
            decreases extra@.len() - i,
        {
            let ghost before = views(paths@);
            proof {
                assert(all.take(i + 1).drop_last() =~= all.take(i as int));
                assert(all[i as int] == extra@[i as int]@);
            }
            if !is_held(&paths, &extra[i]) {
                paths.push(extra[i].clone());
                proof {
                    assert(views(paths@) =~= before.push(all[i as int]));
                }
            }
            i = i + 1;
        }
        proof {
            assert(all.take(all.len() as int) =~= all);
        }
        self.classifier.set_cwd(cwd.clone());
        self.cwd = cwd;
        self.search_paths = paths;
    }

    /// Takes over the targets that the session shows.
    pub fn refresh_targets(&mut self, targets: ModuleSet)
        ensures
            final(self)@ == (GhciView { targets: targets@, ..old(self)@ }),
    {
        self.targets = targets;
    }

    /// Takes over the commands to evaluate in all targets, of which `found` holds those of each.
    pub fn refresh_eval_commands(&mut self, found: Vec<Vec<String>>)
        requires
            found@.len() == old(self)@.targets.len(),
        ensures
            final(self)@ == (GhciView {
                eval_paths: if old(self)@.enable_eval {
                    all_paths(old(self)@.targets, found@)
                } else {
                    old(self)@.eval_paths
                },
                eval_commands: if old(self)@.enable_eval {
                    all_commands(old(self)@.targets, found@)
                } else {
                    old(self)@.eval_commands
                },
                ..old(self)@
            }),
    {
        if !self.enable_eval {
            return;
        }
        let ghost targets = self.targets@;
        let ghost all = found@;
        let mut found = found;
        let mut commands: SortedMap<NormalPath, Vec<String>> = SortedMap::new();
        let mut i: usize = 0;
        let n: usize = self.targets.len();
        while i < n
            invariant
                i <= n == targets.len() == all.len(),
                found@.len() == n,
                forall|j: int| i <= j < n ==> found@[j] == all[j],
                targets == self.targets@,
                *self == *old(self),
                commands@ == all_commands(targets.take(i as int), all.take(i as int)),
                commands.key_list() == all_paths(targets.take(i as int), all.take(i as int)),
            decreases n - i,
        {
            proof {
                assert(targets.take(i + 1).drop_last() =~= targets.take(i as int));
                assert(all.take(i + 1).drop_last() =~= all.take(i as int));
            }
            let mut one: Vec<String> = Vec::new();
            std::mem::swap(&mut one, &mut found[i]);
            if one.len() > 0 {
                commands.insert(self.targets.at(i).path().clone(), one);
            }
            i = i + 1;
        }
        proof {
            assert(targets.take(n as int) =~= targets);
            assert(all.take(n as int) =~= all);
        }
        self.eval_commands = commands;
    }

    /// Takes over the commands to evaluate in one source. `found` is `None` if its module name is not
    /// known.
    pub fn refresh_eval_commands_for_path(&mut self, path: &NormalPath, found: Option<Vec<String>>)
        ensures
            final(self)@ == (GhciView {
                eval_paths: if old(self)@.enable_eval {
                    refreshed_paths(old(self)@.eval_paths, path@, found)
                } else {
                    old(self)@.eval_paths
                },
                eval_commands: if old(self)@.enable_eval {
                    refreshed(old(self)@.eval_commands, path@, found)
                } else {
                    old(self)@.eval_commands
                },
                ..old(self)@
            }),
    {
        if !self.enable_eval {
            return;
        }
        match found {
            Some(found) => {
                if found.len() == 0 {
                    let _ = self.eval_commands.remove(path);
                } else {
                    self.eval_commands.insert(path.clone(), found);
                }
            },
            None => {
                let _ = self.eval_commands.remove(path);
            },
        }
    }

    /// Drops the commands to evaluate in these sources.
    pub fn clear_eval_commands_for_paths(&mut self, paths: &Vec<NormalPath>)
        ensures
            final(self)@ == (GhciView {
                eval_paths: if old(self)@.enable_eval {
                    without_all::<NormalPath>(old(self)@.eval_paths, views(paths@))
                } else {
                    old(self)@.eval_paths
                },
                eval_commands: if old(self)@.enable_eval {
                    cleared(old(self)@.eval_commands, views(paths@))
                } else {
                    old(self)@.eval_commands
                },
                ..old(self)@
            }),
    {
        if !self.enable_eval {
            return;
        }
        let ghost all = views(paths@);
        let ghost start = self@;
        let mut i: usize = 0;
        proof {
            assert(all.take(0).len() == 0);
        }
        while i < paths.len()
            invariant
                i <= paths@.len(),
                all == views(paths@),
                start == old(self)@,
                self@ == (GhciView {
                    eval_paths: without_all::<NormalPath>(start.eval_paths, all.take(i as int)),
                    eval_commands: cleared(start.eval_commands, all.take(i as int)),
                    ..start
                }),
            decreases paths@.len() - i,
        {
            proof {
                assert(all.take(i + 1).drop_last() =~= all.take(i as int));
                assert(all[i as int] == paths@[i as int]@);
            }
            let _ = self.eval_commands.remove(&paths[i]);
            i = i + 1;
        }
        proof {
            assert(all.take(all.len() as int) =~= all);
        }
    }

    /// The modules with these source paths, as the session is told of them.
    pub fn import_names(&self, paths: &Vec<NormalPath>) -> (r: Vec<LoadedModule>)
        ensures
            r@.len() == paths@.len(),
            forall|i: int|
                0 <= i < r@.len() ==> if has_source(self@.targets, paths@[i]@) {
                    self@.targets.contains((#[trigger] r@[i])@) && path_key(r@[i]@.path.absolute) == path_key(
                        paths@[i]@.absolute,
                    )
                } else {
                    r@[i]@ == ModuleView::at(paths@[i]@)
                },
    {
        let mut r: Vec<LoadedModule> = Vec::new();
        let mut i: usize = 0;
        while i < paths.len()
            invariant
                i <= paths@.len(),
                r@.len() == i,
                forall|n: int|
                    0 <= n < i ==> if has_source(self@.targets, paths@[n]@) {
                        self@.targets.contains((#[trigger] r@[n])@) && path_key(r@[n]@.path.absolute)
                            == path_key(paths@[n]@.absolute)
                    } else {
                        r@[n]@ == ModuleView::at(paths@[n]@)
                    },
            decreases paths@.len() - i,
        {
            r.push(self.targets.get_import_name(&paths[i]));
            i = i + 1;
        }
        r
    }

    /// Records that these sources are no targets any more.
    pub fn remove_modules(&mut self, paths: &Vec<NormalPath>)
        ensures
            final(self)@ == (GhciView {
                targets: without_sources(old(self)@.targets, views(paths@)),
                eval_paths: if old(self)@.enable_eval {
                    without_all::<NormalPath>(old(self)@.eval_paths, views(paths@))
                } else {
                    old(self)@.eval_paths
                },
                eval_commands: if old(self)@.enable_eval {
                    cleared(old(self)@.eval_commands, views(paths@))
                } else {
                    old(self)@.eval_commands
                },
                ..old(self)@
            }),
    {
        let ghost all = views(paths@);
        let ghost start = self@;
        let mut i: usize = 0;
        proof {
            assert(all.take(0).len() == 0);
        }
        while i < paths.len()
            invariant
                i <= paths@.len(),
                all == views(paths@),
                start == old(self)@,
                self@ == (GhciView {
                    targets: without_sources(start.targets, all.take(i as int)),
                    ..start
                }),
            decreases paths@.len() - i,
        {
            proof {
                assert(all.take(i + 1).drop_last() =~= all.take(i as int));
                assert(all[i as int] == paths@[i as int]@);
            }
            self.targets.remove_source_path(&paths[i]);
            i = i + 1;
        }
        proof {
            assert(all.take(all.len() as int) =~= all);
        }
        self.clear_eval_commands_for_paths(paths);
    }

    /// Records that the module with this source path is interpreted: it is a target now.
    pub fn interpret_module(&mut self, path: &NormalPath)
        ensures
            final(self)@ == (GhciView {
                targets: with::<LoadedModule>(old(self)@.targets, ModuleView::at(path@)),
                ..old(self)@
            }),
    {
        self.targets.insert_module(LoadedModule::new(path.clone()));
    }

    /// What has to be removed from the targets and added to them so that they fit the sources. A
    /// session that was just started may have any targets, so all sources are compared with them.
    pub fn synchronize_haskell_files(&self, files: &SortedSet<NormalPath>) -> (r: (Vec<NormalPath>, Vec<NormalPath>))
        ensures
            views(r.0@) == gone_sources(files@, self@.known, self@.targets),
            views(r.1@) == unresolved(files@, self@.targets),
    {
        let gone = crate::ghci::reload_actions::find_gone(files, &self.known_haskell_files, &self.targets);
        let mut all: Vec<NormalPath> = Vec::new();
        let mut i: usize = 0;
        let n: usize = files.len();
        proof {
            assert(views(all@) =~= files@.take(0));
        }
        while i < n
            invariant
                i <= n == files@.len(),
                views(all@) == files@.take(i as int),
            decreases n - i,
        {
            let ghost before = views(all@);
            all.push(files.at(i).clone());
            proof {
                assert(views(all@) =~= before.push(files@[i as int]));
                assert(files@.take(i + 1) =~= files@.take(i as int).push(files@[i as int]));
            }
            i = i + 1;
        }
        proof {
            assert(files@.take(n as int) =~= files@);
        }
        let (_, missing) = divide_paths(&all, &self.targets);
        (gone, missing)
    }

    /// Accepts the sources that the targets were synchronized with, without those that GHCi did not
    /// accept.
    pub fn accept_haskell_files(&mut self, files: &SortedSet<NormalPath>, rejected: &Vec<NormalPath>)
        ensures
            final(self)@ == (GhciView { known: rest_of(files@, views(rejected@)), ..old(self)@ }),
    {
        self.known_haskell_files = without_rejected(files, rejected);
    }
}

/// The search paths are those that the session shows and the configured ones, with none of the shown ones moved or
/// dropped, and no configured one twice.
pub proof fn search_paths_are_kept(shown: Seq<Seq<char>>, extra: Seq<Seq<char>>, path: Seq<char>)
    ensures
        shown.len() <= with_extra(shown, extra).len(),
        with_extra(shown, extra).take(shown.len() as int) == shown,
        holds_path(with_extra(shown, extra), path) <==> holds_path(shown, path) || holds_path(extra, path),
        forall|i: int, j: int|
            0 <= i < j < with_extra(shown, extra).len() && shown.len() <= j ==> path_parts(
                #[trigger] with_extra(shown, extra)[i],
            ) != path_parts(#[trigger] with_extra(shown, extra)[j]),
    decreases extra.len(),
{
    let all = with_extra(shown, extra);
    if extra.len() == 0 {
        assert(all.take(shown.len() as int) =~= shown);
    } else {
        let rest = extra.drop_last();
        let last = extra.last();
        let before = with_extra(shown, rest);
        search_paths_are_kept(shown, rest, path);
        assert(all.take(shown.len() as int) =~= shown) by {
            assert forall|i: int| 0 <= i < shown.len() implies all[i] == shown[i] by {
                assert(before.take(shown.len() as int)[i] == shown[i]);
            }
        }
        if holds_path(before, path) {
            let i = choose|i: int| 0 <= i < before.len() && path_parts(#[trigger] before[i]) == path_parts(path);
            assert(path_parts(all[i]) == path_parts(path));
        }
        if holds_path(rest, path) {
            let i = choose|i: int| 0 <= i < rest.len() && path_parts(#[trigger] rest[i]) == path_parts(path);
            assert(path_parts(extra[i]) == path_parts(path));
        }
        if holds_path(extra, path) {
            let i = choose|i: int| 0 <= i < extra.len() && path_parts(#[trigger] extra[i]) == path_parts(path);
            if i < rest.len() {
                assert(path_parts(rest[i]) == path_parts(path));
            } else if !holds_path(before, last) {
                assert(path_parts(all[before.len() as int]) == path_parts(path));
            } else {
                let k = choose|k: int| 0 <= k < before.len() && path_parts(#[trigger] before[k]) == path_parts(last);
                assert(path_parts(all[k]) == path_parts(path));
            }
        }
        if holds_path(all, path) {
            let i = choose|i: int| 0 <= i < all.len() && path_parts(#[trigger] all[i]) == path_parts(path);
            if i < before.len() {
                assert(path_parts(before[i]) == path_parts(path));
            } else {
                assert(path_parts(extra[extra.len() - 1]) == path_parts(path));
            }
        }
        assert forall|i: int, j: int| 0 <= i < j < all.len() && shown.len() <= j implies path_parts(
            #[trigger] all[i],
        ) != path_parts(#[trigger] all[j]) by {
            assert(all[i] == before[i]);
            if j < before.len() {
                assert(all[j] == before[j]);
            }
        }
    }
}

/// Reading the commands of a source again changes those of no other source. The source has exactly the commands that
/// were found, and none if none were found or its module name is not known.
pub proof fn commands_of_one_source_are_refreshed(
    commands: Map<Key, Vec<String>>,
    path: NormalPathView,
    found: Option<Vec<String>>,
    k: Key,
)
    ensures
        ({
            let after = refreshed(commands, path, found);
            let own = path_key(path.absolute);
            &&& k != own ==> (after.contains_key(k) <==> commands.contains_key(k))
            &&& k != own && commands.contains_key(k) ==> after[k] == commands[k]
            &&& after.contains_key(own) <==> found is Some && found->0@.len() > 0
            &&& after.contains_key(own) ==> after[own] == found->0
        }),
{
}

/// The targets without these sources are exactly those with another source.
pub proof fn removed_sources_are_no_targets(targets: Seq<ModuleView>, paths: Seq<NormalPathView>, v: ModuleView)
    requires
        sorted::<LoadedModule>(targets),
    ensures
        sorted::<LoadedModule>(without_sources(targets, paths)),
        without_sources(targets, paths).contains(v) <==> targets.contains(v) && forall|i: int|
            0 <= i < paths.len() ==> path_parts((#[trigger] paths[i]).absolute) != path_parts(v.path.absolute),
    decreases paths.len(),
{
    if paths.len() > 0 {
        let rest = paths.drop_last();
        let last = paths.last();
        let before = without_sources(targets, rest);
        removed_sources_are_no_targets(targets, rest, v);
        let p = |v: ModuleView| path_key(v.path.absolute) != path_key(last.absolute);
        lemma_filter::<LoadedModule>(before, p);
        assert(without_sources(targets, paths) == before.filter(p));
        if forall|i: int|
            0 <= i < paths.len() ==> path_parts((#[trigger] paths[i]).absolute) != path_parts(v.path.absolute) {
            assert forall|i: int| 0 <= i < rest.len() implies path_parts((#[trigger] rest[i]).absolute) != path_parts(
                v.path.absolute,
            ) by {
                assert(rest[i] == paths[i]);
            }
            assert(path_parts(paths[paths.len() - 1].absolute) != path_parts(v.path.absolute));
        }
        if without_sources(targets, paths).contains(v) {
            assert forall|i: int| 0 <= i < paths.len() implies path_parts((#[trigger] paths[i]).absolute) != path_parts(
                v.path.absolute,
            ) by {
                if i < rest.len() {
                    assert(rest[i] == paths[i]);
                }
            }
        }
    }
}

/// Dropping the commands of these sources drops exactly those.
pub proof fn commands_of_these_sources_are_dropped(
    commands: Map<Key, Vec<String>>,
    paths: Seq<NormalPathView>,
    k: Key,
)
    ensures
        cleared(commands, paths).contains_key(k) <==> commands.contains_key(k) && forall|i: int|
            0 <= i < paths.len() ==> path_key((#[trigger] paths[i]).absolute) != k,
        cleared(commands, paths).contains_key(k) ==> cleared(commands, paths)[k] == commands[k],
    decreases paths.len(),
{
    if paths.len() > 0 {
        let rest = paths.drop_last();
        commands_of_these_sources_are_dropped(commands, rest, k);
        if forall|i: int| 0 <= i < paths.len() ==> path_key((#[trigger] paths[i]).absolute) != k {
            assert forall|i: int| 0 <= i < rest.len() implies path_key((#[trigger] rest[i]).absolute) != k by {
                assert(rest[i] == paths[i]);
            }
            assert(path_key(paths[paths.len() - 1].absolute) != k);
        }
        if cleared(commands, paths).contains_key(k) {
            assert forall|i: int| 0 <= i < paths.len() implies path_key((#[trigger] paths[i]).absolute) != k by {
                if i < rest.len() {
                    assert(rest[i] == paths[i]);
                }
            }
        }
    }
}

/// After all targets were read, a source has commands exactly if the last of the targets with its path has some, and
/// then those.
pub proof fn commands_of_all_targets_are_read(
    targets: Seq<ModuleView>,
    found: Seq<Vec<String>>,
    i: int,
)
    requires
        targets.len() == found.len(),
        0 <= i < targets.len(),
        forall|j: int|
            0 <= j < targets.len() && j != i ==> path_key((#[trigger] targets[j]).path.absolute) != path_key(
                targets[i].path.absolute,
            ),
    ensures
        ({
            let k = path_key(targets[i].path.absolute);
            &&& all_commands(targets, found).contains_key(k) <==> found[i]@.len() > 0
            &&& found[i]@.len() > 0 ==> all_commands(targets, found)[k] == found[i]
        }),
    decreases targets.len(),
{
    let rest = targets.drop_last();
    let before = found.drop_last();
    if i < rest.len() {
        assert forall|j: int| 0 <= j < rest.len() && j != i implies path_key((#[trigger] rest[j]).path.absolute)
            != path_key(rest[i].path.absolute) by {
            assert(rest[j] == targets[j]);
        }
        commands_of_all_targets_are_read(rest, before, i);
        assert(path_key(targets[targets.len() - 1].path.absolute) != path_key(targets[i].path.absolute));
    } else {
        lemma_no_commands(rest, before, path_key(targets[i].path.absolute));
    }
}

proof fn lemma_no_commands(targets: Seq<ModuleView>, found: Seq<Vec<String>>, k: Key)
    requires
        targets.len() == found.len(),
        forall|j: int| 0 <= j < targets.len() ==> path_key((#[trigger] targets[j]).path.absolute) != k,
    ensures
        !all_commands(targets, found).contains_key(k),
    decreases targets.len(),
{
    if targets.len() > 0 {
        let rest = targets.drop_last();
        assert forall|j: int| 0 <= j < rest.len() implies path_key((#[trigger] rest[j]).path.absolute) != k by {
            assert(rest[j] == targets[j]);
        }
        lemma_no_commands(rest, found.drop_last(), k);
        assert(path_key(targets[targets.len() - 1].path.absolute) != k);
    }
}

/// Exactly the targets in which commands were found are remembered as having some.
pub proof fn targets_with_commands_are_remembered(targets: Seq<ModuleView>, found: Seq<Vec<String>>, k: Key)
    requires
        targets.len() == found.len(),
    ensures
        sorted::<NormalPath>(all_paths(targets, found)),
        has_key::<NormalPath>(all_paths(targets, found), k) <==> exists|i: int|
            0 <= i < targets.len() && path_key((#[trigger] targets[i]).path.absolute) == k && found[i]@.len() > 0,
    decreases targets.len(),
{
    if targets.len() > 0 {
        let rest = targets.drop_last();
        let before = all_paths(rest, found.drop_last());
        let last = targets.len() - 1;
        targets_with_commands_are_remembered(rest, found.drop_last(), k);
        if found.last()@.len() > 0 {
            added_keys_are_held::<NormalPath>(before, targets.last().path, k);
        }
        if has_key::<NormalPath>(before, k) {
            let i = choose|i: int|
                0 <= i < rest.len() && path_key((#[trigger] rest[i]).path.absolute) == k && found.drop_last()[i]@.len() > 0;
            assert(targets[i] == rest[i]);
            assert(found[i] == found.drop_last()[i]);
        }
        if exists|i: int|
            0 <= i < targets.len() && path_key((#[trigger] targets[i]).path.absolute) == k && found[i]@.len() > 0 {
            let i = choose|i: int|
                0 <= i < targets.len() && path_key((#[trigger] targets[i]).path.absolute) == k && found[i]@.len() > 0;
            if i < last {
                assert(rest[i] == targets[i]);
                assert(found[i] == found.drop_last()[i]);
            }
        }
        if found.last()@.len() > 0 && path_key(targets.last().path.absolute) == k {
            assert(path_key(targets[last].path.absolute) == k && found[last]@.len() > 0);
        }
    } else {
        assert(all_paths(targets, found) =~= seq![]);
    }
}

} // verus!
