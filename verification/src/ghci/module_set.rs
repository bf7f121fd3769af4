//! The targets of a session.

use crate::path::{path_parts, NormalPath, NormalPathView, Rank};
use crate::sorted::{
    has_key, lemma_filter, lemma_key_total, path_key, sorted, sorted_determined, with, Key, Keyed, SortedSet,
};
use vstd::prelude::*;

verus! {

/// A module that is a target of a session: its source path, and its name if it is known by that.
#[derive(Debug)]
pub struct LoadedModule {
    path: NormalPath,
    name: Option<String>,
}

/// The model of a [`LoadedModule`].
pub struct ModuleView {
    pub path: NormalPathView,
    pub name: Option<Seq<char>>,
}

impl ModuleView {
    /// How a session is told of the module: by its name, or by its path.
    pub open spec fn text(self) -> Seq<char> {
        match self.name {
            Some(name) => name,
            None => self.path.relative,
        }
    }

    /// The module at this path, with no name.
    pub open spec fn at(path: NormalPathView) -> ModuleView {
        ModuleView { path, name: None }
    }
}

/// The model of an optional text.
pub open spec fn text_option(text: Option<String>) -> Option<Seq<char>> {
    match text {
        Some(text) => Some(text@),
        None => None,
    }
}

impl View for LoadedModule {
    type V = ModuleView;

    closed spec fn view(&self) -> ModuleView {
        ModuleView { path: self.path@, name: text_option(self.name) }
    }
}

impl LoadedModule {
    /// The module at this path.
    pub fn new(path: NormalPath) -> (r: Self)
        ensures
            r@ == ModuleView::at(path@),
    {
        LoadedModule { path, name: None }
    }

    /// The module at this path, known by this name.
    pub fn with_name(path: NormalPath, name: String) -> (r: Self)
        ensures
            r@ == (ModuleView { path: path@, name: Some(name@) }),
    {
        LoadedModule { path, name: Some(name) }
    }

    /// The path of the module.
    pub fn path(&self) -> (r: &NormalPath)
        ensures
            r@ == self@.path,
    {
        &self.path
    }

    /// How a session is told of the module.
    pub fn show(&self) -> (r: String)
        ensures
            r@ == self@.text(),
    {
        match &self.name {
            Some(name) => name.clone(),
            None => self.path.relative().as_str().to_owned(),
        }
    }
}

impl Keyed for LoadedModule {
    open spec fn key(v: ModuleView) -> Key {
        path_key(v.path.absolute)
    }

    fn rank_key(&self, other: &Self) -> (r: Rank) {
        self.path.rank_key(&other.path)
    }

    fn duplicate(&self) -> (r: Self) {
        let name = match &self.name {
            Some(name) => Some(name.clone()),
            None => None,
        };
        LoadedModule { path: self.path.clone(), name }
    }
}

/// Whether a module with this source path is among the targets.
pub open spec fn has_source(targets: Seq<ModuleView>, path: NormalPathView) -> bool {
    has_key::<LoadedModule>(targets, path_key(path.absolute))
}

/// The targets other than the one with this source path.
pub open spec fn without_source(targets: Seq<ModuleView>, path: NormalPathView) -> Seq<ModuleView> {
    targets.filter(|v: ModuleView| path_key(v.path.absolute) != path_key(path.absolute))
}

/// The targets of a session, at most one with each source path.
#[derive(Debug)]
pub struct ModuleSet {
    set: SortedSet<LoadedModule>,
}

impl View for ModuleSet {
    type V = Seq<ModuleView>;

    closed spec fn view(&self) -> Seq<ModuleView> {
        self.set@
    }
}

impl ModuleSet {
    /// No targets.
    pub fn new() -> (r: Self)
        ensures
            r@ == Seq::<ModuleView>::empty(),
    {
        ModuleSet { set: SortedSet::new() }
    }

    /// The number of targets.
    pub fn len(&self) -> (r: usize)
        ensures
            r == self@.len(),
    {
        self.set.len()
    }

    /// The target at place `i`.
    pub fn at(&self, i: usize) -> (r: &LoadedModule)
        requires
            i < self@.len(),
        ensures
            r@ == self@[i as int],
    {
        self.set.at(i)
    }

    /// Adds a target, unless there is one with its source path already.
    pub fn insert_module(&mut self, module: LoadedModule)
        ensures
            final(self)@ == with::<LoadedModule>(old(self)@, module@),
    {
        let _ = self.set.insert(module);
    }

    /// Whether a module with this source path is a target.
    pub fn contains_source_path(&self, path: &NormalPath) -> (r: bool)
        ensures
            r == has_source(self@, path@),
    {
        self.set.contains(&LoadedModule::new(path.clone()))
    }

    /// The target with this source path, or the module at that path if it is no target.
    pub fn get_import_name(&self, path: &NormalPath) -> (r: LoadedModule)
        ensures
            if has_source(self@, path@) {
                self@.contains(r@) && path_key(r@.path.absolute) == path_key(path@.absolute)
            } else {
                r@ == ModuleView::at(path@)
            },
    {
        let plain = LoadedModule::new(path.clone());
        match self.set.find(&plain) {
            Some(i) => {
                proof {
                    assert(self@[i as int] == self.set@[i as int]);
                    assert(LoadedModule::key(self@[i as int]) == path_key(path@.absolute));
                }
                self.set.at(i).duplicate()
            },
            None => plain,
        }
    }

    /// Removes the target with this source path.
    pub fn remove_source_path(&mut self, path: &NormalPath)
        ensures
            final(self)@ == without_source(old(self)@, path@),
    {
        let plain = LoadedModule::new(path.clone());
        let mut keep: Vec<bool> = Vec::new();
        let mut i: usize = 0;
        let n: usize = self.set.len();
        self.set.order();
        while i < n
            invariant
                i <= n == self.set@.len(),
                keep@.len() == i,
                plain@ == ModuleView::at(path@),
                *self == *old(self),
                forall|j: int|
                    0 <= j < i ==> #[trigger] keep@[j] == (path_key(self.set@[j].path.absolute) != path_key(
                        path@.absolute,
                    )),
            decreases n - i,
        {
            proof {
                lemma_key_total(LoadedModule::key(self.set@[i as int]), LoadedModule::key(plain@));
            }
            let other = match self.set.at(i).rank_key(&plain) {
                Rank::Same => false,
                _ => true,
            };
            keep.push(other);
            i = i + 1;
        }
        let rest = self.set.select(&keep);
        proof {
            let before = self.set@;
            let p = |v: ModuleView| path_key(v.path.absolute) != path_key(path@.absolute);
            lemma_filter::<LoadedModule>(before, p);
            assert forall|v: ModuleView| rest@.contains(v) <==> before.filter(p).contains(v) by {
                if rest@.contains(v) {
                    let i = choose|i: int| 0 <= i < before.len() && #[trigger] keep@[i] && before[i] == v;
                    assert(before.contains(v));
                }
                if before.filter(p).contains(v) {
                    let i = choose|i: int| 0 <= i < before.len() && before[i] == v;
                    assert(keep@[i]);
                }
            }
            sorted_determined::<LoadedModule>(rest@, before.filter(p));
        }
        self.set = rest;
    }
}

/// A removed source path is no target any more, and all other targets stay.
pub proof fn removed_source_is_gone(targets: Seq<ModuleView>, path: NormalPathView, v: ModuleView)
    requires
        sorted::<LoadedModule>(targets),
    ensures
        !has_source(without_source(targets, path), path),
        path_key(v.path.absolute) != path_key(path.absolute) ==> without_source(targets, path).contains(v)
            == targets.contains(v),
{
    let p = |v: ModuleView| path_key(v.path.absolute) != path_key(path.absolute);
    lemma_filter::<LoadedModule>(targets, p);
    let rest = targets.filter(p);
    assert forall|i: int| 0 <= i < rest.len() implies LoadedModule::key(#[trigger] rest[i]) != path_key(
        path.absolute,
    ) by {
        assert(rest.contains(rest[i]));
    }
}

/// A path is the source of a target exactly if one of the targets has a path with the same components.
pub proof fn targets_are_known_by_their_paths(targets: Seq<ModuleView>, path: NormalPathView)
    ensures
        has_source(targets, path) <==> exists|i: int|
            0 <= i < targets.len() && path_parts((#[trigger] targets[i]).path.absolute) == path_parts(path.absolute),
{
    if has_source(targets, path) {
        let i = choose|i: int|
            0 <= i < targets.len() && LoadedModule::key(#[trigger] targets[i]) == path_key(path.absolute);
        assert(path_parts(targets[i].path.absolute) == path_parts(path.absolute));
    }
    if exists|i: int|
        0 <= i < targets.len() && path_parts((#[trigger] targets[i]).path.absolute) == path_parts(path.absolute) {
        let i = choose|i: int|
            0 <= i < targets.len() && path_parts((#[trigger] targets[i]).path.absolute) == path_parts(path.absolute);
        assert(LoadedModule::key(targets[i]) == path_key(path.absolute));
    }
}

} // verus!
