//! What a session does about a batch of changes.

use crate::event_filter::{FileEvent, FileEventView};
use crate::ghci::module_set::{has_source, ModuleSet, ModuleView};
use crate::haskell_source_file::{haskell_source, is_haskell_source_file};
use crate::path::{path_parts, NormalPath, NormalPathView};
use crate::sorted::{has_key, lemma_with, path_key, sorted, views, with, Keyed, SortedSet};
use vstd::prelude::*;

verus! {

/// What is to be done about a batch of changes, and about which paths.
#[derive(Debug)]
pub struct ReloadActions {
    /// The paths for which the session is restarted.
    pub needs_restart: Vec<NormalPath>,
    /// The paths that are reloaded.
    pub needs_reload: Vec<NormalPath>,
    /// The paths that become targets.
    pub needs_add: Vec<NormalPath>,
    /// The paths that are no targets any more.
    pub needs_remove: Vec<NormalPath>,
}

/// The model of [`ReloadActions`].
pub struct ActionsView {
    pub restart: Seq<NormalPathView>,
    pub reload: Seq<NormalPathView>,
    pub additions: Seq<NormalPathView>,
    pub removals: Seq<NormalPathView>,
}

impl View for ReloadActions {
    type V = ActionsView;

    open spec fn view(&self) -> ActionsView {
        ActionsView {
            restart: views(self.needs_restart@),
            reload: views(self.needs_reload@),
            additions: views(self.needs_add@),
            removals: views(self.needs_remove@),
        }
    }
}

impl ReloadActions {
    /// Whether the session is restarted.
    pub fn needs_restart(&self) -> (r: bool)
        ensures
            r == (self@.restart.len() > 0),
    {
        self.needs_restart.len() > 0
    }

    /// Whether anything is done with the session as it is.
    pub fn needs_modify(&self) -> (r: bool)
        ensures
            r == self@.modifies(),
    {
        self.needs_reload.len() > 0 || self.needs_add.len() > 0 || self.needs_remove.len() > 0
    }
}

impl ActionsView {
    /// Whether anything is done with the session as it is.
    pub open spec fn modifies(self) -> bool {
        self.reload.len() > 0 || self.additions.len() > 0 || self.removals.len() > 0
    }
}

/// How a session treats changes.
#[derive(Clone, Copy, Debug, PartialEq, Eq, Structural)]
pub struct ReloadOptions {
    /// Whether a change to a source reloads the session.
    pub auto_reload: bool,
    /// Whether new sources become targets and removed ones stop being targets.
    pub auto_targets: bool,
    /// Whether a new source restarts the session.
    pub restart_on_add: bool,
    /// Whether a command takes the place of adding new sources. They do not become targets then, so
    /// a later change to one that is known reloads the session.
    pub replace_auto_add: bool,
}

/// Whether a path with the same absolute path is in the list.
pub open spec fn lists(s: Seq<NormalPathView>, p: NormalPathView) -> bool {
    has_key::<NormalPath>(s, path_key(p.absolute))
}

/// `s` with `p` at its end, unless it lists it already.
pub open spec fn pushed(s: Seq<NormalPathView>, p: NormalPathView) -> Seq<NormalPathView> {
    if lists(s, p) {
        s
    } else {
        s.push(p)
    }
}

/// `s` with each of `items` at its end in turn, unless it is listed already.
pub open spec fn pushed_all(s: Seq<NormalPathView>, items: Seq<NormalPathView>) -> Seq<NormalPathView>
    decreases items.len(),
{
    if items.len() == 0 {
        s
    } else {
        pushed(pushed_all(s, items.drop_last()), items.last())
    }
}

/// Whether a path with the same absolute path is in the list.
pub fn is_listed(list: &Vec<NormalPath>, path: &NormalPath) -> (r: bool)
    ensures
        r == lists(views(list@), path@),
{
    let ghost s = views(list@);
    let mut i: usize = 0;
    while i < list.len()
        invariant
            i <= list@.len(),
            s == views(list@),
            forall|j: int| 0 <= j < i ==> NormalPath::key(#[trigger] s[j]) != path_key(path@.absolute),
        decreases list@.len() - i,
    {
        proof {
            assert(s[i as int] == list@[i as int]@);
        }
        if *list[i].absolute() == *path.absolute() {
            proof {
                assert(NormalPath::key(s[i as int]) == path_key(path@.absolute));
            }
            return true;
        }
        i = i + 1;
    }
    false
}

fn push_new(list: &mut Vec<NormalPath>, path: &NormalPath)
    ensures
        views(final(list)@) == pushed(views(old(list)@), path@),
{
    if !is_listed(list, path) {
        list.push(path.clone());
    }
    proof {
        assert(views(list@) =~= pushed(views(old(list)@), path@));
    }
}

fn push_all(list: &mut Vec<NormalPath>, items: &Vec<NormalPath>)
    ensures
        views(final(list)@) == pushed_all(views(old(list)@), views(items@)),
{
    let ghost all = views(items@);
    let mut i: usize = 0;
    proof {
        assert(all.take(0).len() == 0);
    }
    while i < items.len()
        invariant
            i <= items@.len(),
            all == views(items@),
            views(list@) == pushed_all(views(old(list)@), all.take(i as int)),
        decreases items@.len() - i,
    {
        push_new(list, &items[i]);
        proof {
            assert(all.take(i + 1).drop_last() =~= all.take(i as int));
        }
        i = i + 1;
    }
    proof {
        assert(all.take(all.len() as int) =~= all);
    }
}

/// The event, with the kind that the snapshot shows if it is about a Haskell source: a change if the
/// source is there, a removal if it is not.
pub open spec fn reconciled(event: FileEventView, path: NormalPathView, files: Seq<NormalPathView>) -> FileEventView {
    if !haskell_source(path.absolute) {
        event
    } else if lists(files, path) {
        FileEventView::Modify(event.path())
    } else {
        FileEventView::Remove(event.path())
    }
}

/// The events, each with the kind that the snapshot shows. `paths` holds the path of each event in
/// its normal form.
pub open spec fn reconciled_all(
    events: Seq<FileEventView>,
    paths: Seq<NormalPathView>,
    files: Seq<NormalPathView>,
) -> Seq<FileEventView>
    decreases events.len(),
{
    if events.len() == 0 || paths.len() == 0 {
        Seq::empty()
    } else {
        with::<FileEvent>(
            reconciled_all(events.drop_last(), paths.drop_last(), files),
            reconciled(events.last(), paths.last(), files),
        )
    }
}

/// Gives each event about a Haskell source the kind that the snapshot `files` shows. Notifications
/// may come in another order than the changes, and the snapshot is newer than all of them. `paths`
/// holds the path of each event in its normal form.
pub fn reconcile_events(events: &SortedSet<FileEvent>, paths: &Vec<NormalPath>, files: &SortedSet<NormalPath>) -> (r:
    SortedSet<FileEvent>)
    requires
        paths@.len() == events@.len(),
    ensures
        r@ == reconciled_all(events@, views(paths@), files@),
{
    let ghost all = views(paths@);
    let mut r: SortedSet<FileEvent> = SortedSet::new();
    let mut i: usize = 0;
    let n: usize = events.len();
    while i < n
        invariant
            i <= n == events@.len() == paths@.len(),
            all == views(paths@),
            r@ == reconciled_all(events@.take(i as int), all.take(i as int), files@),
        decreases n - i,
    {
        let event = events.at(i);
        let path = &paths[i];
        proof {
            assert(all[i as int] == path@);
            assert(events@.take(i + 1).drop_last() =~= events@.take(i as int));
            assert(all.take(i + 1).drop_last() =~= all.take(i as int));
        }
        let event = if !is_haskell_source_file(path.absolute()) {
            event.duplicate()
        } else if files.contains(path) {
            FileEvent::Modify(event.as_path().clone())
        } else {
            FileEvent::Remove(event.as_path().clone())
        };
        let _ = r.insert(event);
        i = i + 1;
    }
    proof {
        assert(events@.take(n as int) =~= events@);
        assert(all.take(n as int) =~= all);
    }
    r
}

/// The paths of the events about Haskell sources.
pub open spec fn haskell_paths(events: Seq<FileEventView>, paths: Seq<NormalPathView>) -> Seq<NormalPathView>
    decreases events.len(),
{
    if events.len() == 0 || paths.len() == 0 {
        Seq::empty()
    } else {
        let before = haskell_paths(events.drop_last(), paths.drop_last());
        if haskell_source(events.last().path()) {
            before.push(paths.last())
        } else {
            before
        }
    }
}

/// The paths for which a session is restarted whose start failed: those of all changed Haskell
/// sources. `paths` holds the path of each event in its normal form.
pub fn recovery_paths(start_failed: bool, events: &SortedSet<FileEvent>, paths: &Vec<NormalPath>) -> (r: Vec<NormalPath>)
    requires
        paths@.len() == events@.len(),
    ensures
        views(r@) == (if start_failed {
            haskell_paths(events@, views(paths@))
        } else {
            Seq::empty()
        }),
{
    let ghost all = views(paths@);
    let mut r: Vec<NormalPath> = Vec::new();
    proof {
        assert(views(r@) =~= Seq::empty());
    }
    if !start_failed {
        return r;
    }
    let mut i: usize = 0;
    let n: usize = events.len();
    while i < n
        invariant
            i <= n == events@.len() == paths@.len(),
            all == views(paths@),
            views(r@) == haskell_paths(events@.take(i as int), all.take(i as int)),
        decreases n - i,
    {
        proof {
            assert(all[i as int] == paths@[i as int]@);
            assert(events@.take(i + 1).drop_last() =~= events@.take(i as int));
            assert(all.take(i + 1).drop_last() =~= all.take(i as int));
        }
        let ghost before = views(r@);
        if is_haskell_source_file(events.at(i).as_path()) {
            r.push(paths[i].clone());
            proof {
                assert(views(r@) =~= before.push(all[i as int]));
            }
        }
        i = i + 1;
    }
    proof {
        assert(events@.take(n as int) =~= events@);
        assert(all.take(n as int) =~= all);
    }
    r
}

/// The sources of the snapshot that are new since `known` and no targets.
pub open spec fn new_sources(
    files: Seq<NormalPathView>,
    known: Seq<NormalPathView>,
    targets: Seq<ModuleView>,
) -> Seq<NormalPathView>
    decreases files.len(),
{
    if files.len() == 0 {
        Seq::empty()
    } else {
        let before = new_sources(files.drop_last(), known, targets);
        if !lists(known, files.last()) && !has_source(targets, files.last()) {
            before.push(files.last())
        } else {
            before
        }
    }
}

/// The known sources that are gone from the snapshot and still targets.
pub open spec fn gone_sources(
    files: Seq<NormalPathView>,
    known: Seq<NormalPathView>,
    targets: Seq<ModuleView>,
) -> Seq<NormalPathView>
    decreases known.len(),
{
    if known.len() == 0 {
        Seq::empty()
    } else {
        let before = gone_sources(files, known.drop_last(), targets);
        if !lists(files, known.last()) && has_source(targets, known.last()) {
            before.push(known.last())
        } else {
            before
        }
    }
}

/// The paths that are in the other list, or those that are not.
pub open spec fn sifted(s: Seq<NormalPathView>, other: Seq<NormalPathView>, inside: bool) -> Seq<NormalPathView>
    decreases s.len(),
{
    if s.len() == 0 {
        Seq::empty()
    } else {
        let before = sifted(s.drop_last(), other, inside);
        if lists(other, s.last()) == inside {
            before.push(s.last())
        } else {
            before
        }
    }
}

/// What is done about a batch of changes, given how the changed paths were classified, the paths
/// for which a session whose start failed is restarted, the snapshot of the sources, and what the
/// session knows.
pub open spec fn planned(
    classified: ActionsView,
    recovery: Seq<NormalPathView>,
    options: ReloadOptions,
    files: Seq<NormalPathView>,
    known: Seq<NormalPathView>,
    targets: Seq<ModuleView>,
) -> ActionsView {
    let restart = pushed_all(classified.restart, recovery);
    let found = pushed_all(classified.additions, new_sources(files, known, targets));
    let additions = if options.replace_auto_add {
        sifted(found, known, false)
    } else {
        found
    };
    let reload = if !options.auto_reload {
        Seq::empty()
    } else if options.replace_auto_add {
        pushed_all(classified.reload, sifted(found, known, true))
    } else {
        classified.reload
    };
    let removals = pushed_all(classified.removals, gone_sources(files, known, targets));
    ActionsView {
        restart: if options.restart_on_add {
            restart + additions
        } else {
            restart
        },
        reload,
        additions: if options.restart_on_add || !options.auto_targets {
            Seq::empty()
        } else {
            additions
        },
        removals: if options.auto_targets {
            removals
        } else {
            Seq::empty()
        },
    }
}

fn find_new(files: &SortedSet<NormalPath>, known: &SortedSet<NormalPath>, targets: &ModuleSet) -> (r: Vec<NormalPath>)
    ensures
        views(r@) == new_sources(files@, known@, targets@),
{
    let mut r: Vec<NormalPath> = Vec::new();
    let mut i: usize = 0;
    let n: usize = files.len();
    proof {
        assert(views(r@) =~= Seq::empty());
    }
    while i < n
        invariant
            i <= n == files@.len(),
            views(r@) == new_sources(files@.take(i as int), known@, targets@),
        decreases n - i,
    {
        let path = files.at(i);
        let ghost before = views(r@);
        proof {
            assert(files@.take(i + 1).drop_last() =~= files@.take(i as int));
        }
        if !known.contains(path) && !targets.contains_source_path(path) {
            r.push(path.clone());
            proof {
                assert(views(r@) =~= before.push(path@));
            }
        }
        i = i + 1;
    }
    proof {
        assert(files@.take(n as int) =~= files@);
    }
    r
}

/// The known sources that are gone from the snapshot and still targets.
pub fn find_gone(files: &SortedSet<NormalPath>, known: &SortedSet<NormalPath>, targets: &ModuleSet) -> (r: Vec<NormalPath>)
    ensures
        views(r@) == gone_sources(files@, known@, targets@),
{
    let mut r: Vec<NormalPath> = Vec::new();
    let mut i: usize = 0;
    let n: usize = known.len();
    proof {
        assert(views(r@) =~= Seq::empty());
    }
    while i < n
        invariant
            i <= n == known@.len(),
            views(r@) == gone_sources(files@, known@.take(i as int), targets@),
        decreases n - i,
    {
        let path = known.at(i);
        let ghost before = views(r@);
        proof {
            assert(known@.take(i + 1).drop_last() =~= known@.take(i as int));
        }
        if !files.contains(path) && targets.contains_source_path(path) {
            r.push(path.clone());
            proof {
                assert(views(r@) =~= before.push(path@));
            }
        }
        i = i + 1;
    }
    proof {
        assert(known@.take(n as int) =~= known@);
    }
    r
}

fn sift(list: &Vec<NormalPath>, other: &SortedSet<NormalPath>, inside: bool) -> (r: Vec<NormalPath>)
    ensures
        views(r@) == sifted(views(list@), other@, inside),
{
    let ghost all = views(list@);
    let mut r: Vec<NormalPath> = Vec::new();
    let mut i: usize = 0;
    proof {
        assert(views(r@) =~= Seq::empty());
    }
    while i < list.len()
        invariant
            i <= list@.len(),
            all == views(list@),
            views(r@) == sifted(all.take(i as int), other@, inside),
        decreases list@.len() - i,
    {
        let ghost before = views(r@);
        proof {
            assert(all[i as int] == list@[i as int]@);
            assert(all.take(i + 1).drop_last() =~= all.take(i as int));
        }
        if other.contains(&list[i]) == inside {
            r.push(list[i].clone());
            proof {
                assert(views(r@) =~= before.push(all[i as int]));
            }
        }
        i = i + 1;
    }
    proof {
        assert(all.take(all.len() as int) =~= all);
    }
    r
}

/// Completes what the classification of the changed paths says: a session whose start failed is
/// restarted for any changed source, and sources that appeared or vanished without an event of
/// their own are added and removed all the same.
pub fn complete_actions(
    classified: ReloadActions,
    recovery: Vec<NormalPath>,
    options: ReloadOptions,
    files: &SortedSet<NormalPath>,
    known: &SortedSet<NormalPath>,
    targets: &ModuleSet,
) -> (r: ReloadActions)
    ensures
        r@ == planned(classified@, views(recovery@), options, files@, known@, targets@),
{
    let ReloadActions { mut needs_restart, mut needs_reload, mut needs_add, mut needs_remove } = classified;
    push_all(&mut needs_restart, &recovery);
    let new = find_new(files, known, targets);
    push_all(&mut needs_add, &new);
    let gone = find_gone(files, known, targets);
    push_all(&mut needs_remove, &gone);
    if options.replace_auto_add {
        let again = sift(&needs_add, known, true);
        needs_add = sift(&needs_add, known, false);
        push_all(&mut needs_reload, &again);
    }
    if !options.auto_reload {
        needs_reload = Vec::new();
    }
    if options.restart_on_add {
        let ghost restart = views(needs_restart@);
        let ghost additions = views(needs_add@);
        needs_restart.append(&mut needs_add);
        proof {
            assert(views(needs_restart@) =~= restart + additions);
            assert(views(needs_add@) =~= Seq::empty());
        }
    }
    if !options.auto_targets {
        needs_add = Vec::new();
        needs_remove = Vec::new();
    }
    let r = ReloadActions { needs_restart, needs_reload, needs_add, needs_remove };
    proof {
        let p = planned(classified@, views(recovery@), options, files@, known@, targets@);
        assert(r@.restart =~= p.restart);
        assert(r@.reload =~= p.reload);
        assert(r@.additions =~= p.additions);
        assert(r@.removals =~= p.removals);
    }
    r
}

proof fn lemma_lists_push(s: Seq<NormalPathView>, q: NormalPathView, p: NormalPathView)
    ensures
        lists(s.push(q), p) == (lists(s, p) || path_key(q.absolute) == path_key(p.absolute)),
{
    let t = s.push(q);
    if lists(s, p) {
        let i = choose|i: int| 0 <= i < s.len() && NormalPath::key(#[trigger] s[i]) == path_key(p.absolute);
        assert(NormalPath::key(t[i]) == path_key(p.absolute));
    }
    if path_key(q.absolute) == path_key(p.absolute) {
        assert(NormalPath::key(t[s.len() as int]) == path_key(p.absolute));
    }
    if lists(t, p) {
        let i = choose|i: int| 0 <= i < t.len() && NormalPath::key(#[trigger] t[i]) == path_key(p.absolute);
        if i < s.len() {
            assert(NormalPath::key(s[i]) == path_key(p.absolute));
        }
    }
}

proof fn lemma_sifted(s: Seq<NormalPathView>, other: Seq<NormalPathView>, inside: bool, p: NormalPathView)
    ensures
        lists(sifted(s, other, inside), p) == (lists(s, p) && lists(other, p) == inside),
    decreases s.len(),
{
    if s.len() > 0 {
        let rest = s.drop_last();
        lemma_sifted(rest, other, inside, p);
        assert(s =~= rest.push(s.last()));
        lemma_lists_push(rest, s.last(), p);
        lemma_lists_push(sifted(rest, other, inside), s.last(), p);
    }
}

proof fn lemma_new_sources(
    files: Seq<NormalPathView>,
    known: Seq<NormalPathView>,
    targets: Seq<ModuleView>,
    p: NormalPathView,
)
    ensures
        lists(new_sources(files, known, targets), p) == (lists(files, p) && !lists(known, p) && !has_source(
            targets,
            p,
        )),
    decreases files.len(),
{
    if files.len() > 0 {
        let rest = files.drop_last();
        lemma_new_sources(rest, known, targets, p);
        assert(files =~= rest.push(files.last()));
        lemma_lists_push(rest, files.last(), p);
        lemma_lists_push(new_sources(rest, known, targets), files.last(), p);
    }
}

proof fn lemma_gone_sources(
    files: Seq<NormalPathView>,
    known: Seq<NormalPathView>,
    targets: Seq<ModuleView>,
    p: NormalPathView,
)
    ensures
        lists(gone_sources(files, known, targets), p) == (lists(known, p) && !lists(files, p) && has_source(
            targets,
            p,
        )),
    decreases known.len(),
{
    if known.len() > 0 {
        let rest = known.drop_last();
        lemma_gone_sources(files, rest, targets, p);
        assert(known =~= rest.push(known.last()));
        lemma_lists_push(rest, known.last(), p);
        lemma_lists_push(gone_sources(files, rest, targets), known.last(), p);
    }
}

proof fn lemma_lists_all(s: Seq<NormalPathView>, items: Seq<NormalPathView>, p: NormalPathView)
    ensures
        lists(pushed_all(s, items), p) == (lists(s, p) || lists(items, p)),
    decreases items.len(),
{
    if items.len() > 0 {
        let rest = items.drop_last();
        lemma_lists_all(s, rest, p);
        assert(items =~= rest.push(items.last()));
        lemma_lists_push(rest, items.last(), p);
        lemma_lists_push(pushed_all(s, rest), items.last(), p);
    }
}

proof fn lemma_lists_added(a: Seq<NormalPathView>, b: Seq<NormalPathView>, p: NormalPathView)
    ensures
        lists(a + b, p) == (lists(a, p) || lists(b, p)),
    decreases b.len(),
{
    if b.len() == 0 {
        assert(a + b =~= a);
    } else {
        assert(a + b =~= (a + b.drop_last()).push(b.last()));
        assert(b =~= b.drop_last().push(b.last()));
        lemma_lists_added(a, b.drop_last(), p);
        lemma_lists_push(a + b.drop_last(), b.last(), p);
        lemma_lists_push(b.drop_last(), b.last(), p);
    }
}

/// A source of the snapshot that the session has not seen, and that is no target, is added even if
/// no event tells of it and even if changes do not reload the session. Where new sources restart the
/// session, it is restarted for it.
pub proof fn new_source_is_added(
    classified: ActionsView,
    recovery: Seq<NormalPathView>,
    options: ReloadOptions,
    files: Seq<NormalPathView>,
    known: Seq<NormalPathView>,
    targets: Seq<ModuleView>,
    p: NormalPathView,
)
    requires
        lists(files, p),
        !lists(known, p),
        !has_source(targets, p),
    ensures
        ({
            let plan = planned(classified, recovery, options, files, known, targets);
            &&& options.restart_on_add ==> lists(plan.restart, p) && plan.additions.len() == 0
            &&& !options.restart_on_add && options.auto_targets ==> lists(plan.additions, p)
        }),
{
    let found = pushed_all(classified.additions, new_sources(files, known, targets));
    lemma_new_sources(files, known, targets, p);
    lemma_lists_all(classified.additions, new_sources(files, known, targets), p);
    lemma_sifted(found, known, false, p);
    let additions = if options.replace_auto_add {
        sifted(found, known, false)
    } else {
        found
    };
    lemma_lists_added(pushed_all(classified.restart, recovery), additions, p);
}

/// A known source that is gone from the snapshot stops being a target even if no event tells of it
/// and even if changes do not reload the session.
pub proof fn gone_source_is_removed(
    classified: ActionsView,
    recovery: Seq<NormalPathView>,
    options: ReloadOptions,
    files: Seq<NormalPathView>,
    known: Seq<NormalPathView>,
    targets: Seq<ModuleView>,
    p: NormalPathView,
)
    requires
        lists(known, p),
        !lists(files, p),
        has_source(targets, p),
        options.auto_targets,
    ensures
        lists(planned(classified, recovery, options, files, known, targets).removals, p),
{
    lemma_gone_sources(files, known, targets, p);
    lemma_lists_all(classified.removals, gone_sources(files, known, targets), p);
}

/// Where changes do not reload the session, none does; what restarts the session still does.
pub proof fn edits_are_not_reloaded(
    classified: ActionsView,
    recovery: Seq<NormalPathView>,
    options: ReloadOptions,
    files: Seq<NormalPathView>,
    known: Seq<NormalPathView>,
    targets: Seq<ModuleView>,
    p: NormalPathView,
)
    requires
        !options.auto_reload,
    ensures
        planned(classified, recovery, options, files, known, targets).reload.len() == 0,
        lists(classified.restart, p) ==> lists(
            planned(classified, recovery, options, files, known, targets).restart,
            p,
        ),
{
    let found = pushed_all(classified.additions, new_sources(files, known, targets));
    let additions = if options.replace_auto_add {
        sifted(found, known, false)
    } else {
        found
    };
    lemma_lists_all(classified.restart, recovery, p);
    lemma_lists_added(pushed_all(classified.restart, recovery), additions, p);
}

/// A session whose start failed is restarted for every path in `recovery`, whatever the options.
pub proof fn failed_start_is_restarted(
    classified: ActionsView,
    recovery: Seq<NormalPathView>,
    options: ReloadOptions,
    files: Seq<NormalPathView>,
    known: Seq<NormalPathView>,
    targets: Seq<ModuleView>,
    p: NormalPathView,
)
    requires
        lists(recovery, p),
    ensures
        lists(planned(classified, recovery, options, files, known, targets).restart, p),
{
    let found = pushed_all(classified.additions, new_sources(files, known, targets));
    let additions = if options.replace_auto_add {
        sifted(found, known, false)
    } else {
        found
    };
    lemma_lists_all(classified.restart, recovery, p);
    lemma_lists_added(pushed_all(classified.restart, recovery), additions, p);
}

/// Where a command takes the place of adding sources, it does so once for each: a source that is
/// known already is not added again, and a change to it reloads the session.
pub proof fn replaced_source_is_reloaded(
    classified: ActionsView,
    recovery: Seq<NormalPathView>,
    options: ReloadOptions,
    files: Seq<NormalPathView>,
    known: Seq<NormalPathView>,
    targets: Seq<ModuleView>,
    p: NormalPathView,
)
    requires
        options.replace_auto_add,
        lists(known, p),
        lists(classified.additions, p),
    ensures
        !lists(planned(classified, recovery, options, files, known, targets).additions, p),
        options.auto_reload ==> lists(planned(classified, recovery, options, files, known, targets).reload, p),
{
    let found = pushed_all(classified.additions, new_sources(files, known, targets));
    lemma_lists_all(classified.additions, new_sources(files, known, targets), p);
    lemma_sifted(found, known, false, p);
    lemma_sifted(found, known, true, p);
    lemma_lists_all(classified.reload, sifted(found, known, true), p);
}

/// After an event about a Haskell source was reconciled with the snapshot, it is a change if the
/// source is in the snapshot and a removal if it is not, whatever kind it had. It stays an event
/// about the same path, and no event is lost.
pub proof fn snapshot_settles_events(
    events: Seq<FileEventView>,
    paths: Seq<NormalPathView>,
    files: Seq<NormalPathView>,
    i: int,
)
    requires
        events.len() == paths.len(),
        0 <= i < events.len(),
    ensures
        reconciled(events[i], paths[i], files).path() == events[i].path(),
        haskell_source(paths[i].absolute) ==> (reconciled(events[i], paths[i], files) is Modify <==> lists(
            files,
            paths[i],
        )),
        sorted::<FileEvent>(reconciled_all(events, paths, files)),
        has_key::<FileEvent>(
            reconciled_all(events, paths, files),
            FileEvent::key(reconciled(events[i], paths[i], files)),
        ),
    decreases events.len(),
{
    let before = reconciled_all(events.drop_last(), paths.drop_last(), files);
    let v = reconciled(events.last(), paths.last(), files);
    if events.len() == 1 {
        assert(events.drop_last().len() == 0);
        assert(before =~= Seq::empty());
    } else {
        let j = if i < events.len() - 1 {
            i
        } else {
            0
        };
        snapshot_settles_events(events.drop_last(), paths.drop_last(), files, j);
    }
    lemma_with::<FileEvent>(before, v);
    if i < events.len() - 1 {
        let k = FileEvent::key(reconciled(events[i], paths[i], files));
        let n = choose|n: int| 0 <= n < before.len() && FileEvent::key(#[trigger] before[n]) == k;
        let after = with::<FileEvent>(before, v);
        assert(before.contains(before[n]));
        assert(after.contains(before[n]));
        let m = choose|m: int| 0 <= m < after.len() && after[m] == before[n];
        assert(FileEvent::key(after[m]) == k);
    }
}

/// A path is listed exactly if one with the same components is in the list.
pub proof fn paths_are_listed_by_their_components(s: Seq<NormalPathView>, p: NormalPathView)
    ensures
        lists(s, p) <==> exists|i: int|
            0 <= i < s.len() && path_parts((#[trigger] s[i]).absolute) == path_parts(p.absolute),
{
    if lists(s, p) {
        let i = choose|i: int| 0 <= i < s.len() && NormalPath::key(#[trigger] s[i]) == path_key(p.absolute);
        assert(path_parts(s[i].absolute) == path_parts(p.absolute));
    }
    if exists|i: int| 0 <= i < s.len() && path_parts((#[trigger] s[i]).absolute) == path_parts(p.absolute) {
        let i = choose|i: int| 0 <= i < s.len() && path_parts((#[trigger] s[i]).absolute) == path_parts(p.absolute);
        assert(NormalPath::key(s[i]) == path_key(p.absolute));
    }
}

/// Where changes reload the session, every path that is to be reloaded is, whatever the other options
/// are. Beside them only sources are that a command has added before, where it takes the place of adding
/// them.
pub proof fn edits_are_reloaded(
    classified: ActionsView,
    recovery: Seq<NormalPathView>,
    options: ReloadOptions,
    files: Seq<NormalPathView>,
    known: Seq<NormalPathView>,
    targets: Seq<ModuleView>,
    p: NormalPathView,
)
    ensures
        ({
            let plan = planned(classified, recovery, options, files, known, targets);
            &&& options.auto_reload && lists(classified.reload, p) ==> lists(plan.reload, p)
            &&& lists(plan.reload, p) ==> options.auto_reload && (lists(classified.reload, p) || (
            options.replace_auto_add && lists(known, p) && lists(classified.additions, p)))
        }),
{
    let new = new_sources(files, known, targets);
    let found = pushed_all(classified.additions, new);
    lemma_new_sources(files, known, targets, p);
    lemma_lists_all(classified.additions, new, p);
    lemma_sifted(found, known, true, p);
    lemma_lists_all(classified.reload, sifted(found, known, true), p);
}

/// The session is restarted for exactly these paths: those that take a restart, those for which a session
/// whose start failed is restarted, and new sources if they restart it.
pub proof fn restarts_are_exact(
    classified: ActionsView,
    recovery: Seq<NormalPathView>,
    options: ReloadOptions,
    files: Seq<NormalPathView>,
    known: Seq<NormalPathView>,
    targets: Seq<ModuleView>,
    p: NormalPathView,
)
    ensures
        ({
            let plan = planned(classified, recovery, options, files, known, targets);
            let new = lists(classified.additions, p) || (lists(files, p) && !lists(known, p) && !has_source(
                targets,
                p,
            ));
            lists(plan.restart, p) <==> lists(classified.restart, p) || lists(recovery, p) || (
            options.restart_on_add && new && !(options.replace_auto_add && lists(known, p)))
        }),
{
    let new = new_sources(files, known, targets);
    let found = pushed_all(classified.additions, new);
    let additions = if options.replace_auto_add {
        sifted(found, known, false)
    } else {
        found
    };
    lemma_new_sources(files, known, targets, p);
    lemma_lists_all(classified.additions, new, p);
    lemma_sifted(found, known, false, p);
    lemma_lists_all(classified.restart, recovery, p);
    lemma_lists_added(pushed_all(classified.restart, recovery), additions, p);
}

/// Exactly these sources are added: those that a change asks for, and those that are new in the snapshot,
/// unless the targets do not follow the sources, or new sources restart the session, or a command has added
/// them before.
pub proof fn additions_are_exact(
    classified: ActionsView,
    recovery: Seq<NormalPathView>,
    options: ReloadOptions,
    files: Seq<NormalPathView>,
    known: Seq<NormalPathView>,
    targets: Seq<ModuleView>,
    p: NormalPathView,
)
    ensures
        ({
            let plan = planned(classified, recovery, options, files, known, targets);
            let new = lists(classified.additions, p) || (lists(files, p) && !lists(known, p) && !has_source(
                targets,
                p,
            ));
            lists(plan.additions, p) <==> options.auto_targets && !options.restart_on_add && new && !(
            options.replace_auto_add && lists(known, p))
        }),
{
    let new = new_sources(files, known, targets);
    let found = pushed_all(classified.additions, new);
    lemma_new_sources(files, known, targets, p);
    lemma_lists_all(classified.additions, new, p);
    lemma_sifted(found, known, false, p);
}

/// Exactly these sources are removed: those that a change asks for, and known targets that are gone from
/// the snapshot, unless the targets do not follow the sources.
pub proof fn removals_are_exact(
    classified: ActionsView,
    recovery: Seq<NormalPathView>,
    options: ReloadOptions,
    files: Seq<NormalPathView>,
    known: Seq<NormalPathView>,
    targets: Seq<ModuleView>,
    p: NormalPathView,
)
    ensures
        lists(planned(classified, recovery, options, files, known, targets).removals, p) <==> options.auto_targets
            && (lists(classified.removals, p) || (lists(known, p) && !lists(files, p) && has_source(targets, p))),
{
    lemma_gone_sources(files, known, targets, p);
    lemma_lists_all(classified.removals, gone_sources(files, known, targets), p);
}

/// A session whose start failed is restarted for exactly the changed sources.
pub proof fn recovery_follows_the_changed_sources(
    events: Seq<FileEventView>,
    paths: Seq<NormalPathView>,
    p: NormalPathView,
)
    requires
        events.len() == paths.len(),
    ensures
        haskell_paths(events, paths).contains(p) <==> exists|i: int|
            0 <= i < events.len() && haskell_source((#[trigger] events[i]).path()) && paths[i] == p,
    decreases events.len(),
{
    if events.len() > 0 {
        let before = haskell_paths(events.drop_last(), paths.drop_last());
        recovery_follows_the_changed_sources(events.drop_last(), paths.drop_last(), p);
        let all = haskell_paths(events, paths);
        let last = events.len() - 1;
        if exists|i: int| 0 <= i < events.len() && haskell_source((#[trigger] events[i]).path()) && paths[i] == p {
            let i = choose|i: int|
                0 <= i < events.len() && haskell_source((#[trigger] events[i]).path()) && paths[i] == p;
            if i < last {
                assert(events.drop_last()[i] == events[i]);
                let k = choose|k: int| 0 <= k < before.len() && before[k] == p;
                assert(all[k] == p);
            } else {
                assert(all[before.len() as int] == p);
            }
        }
        if all.contains(p) {
            let k = choose|k: int| 0 <= k < all.len() && all[k] == p;
            if k < before.len() {
                assert(before[k] == p);
                let i = choose|i: int|
                    0 <= i < events.drop_last().len() && haskell_source((#[trigger] events.drop_last()[i]).path())
                        && paths.drop_last()[i] == p;
                assert(haskell_source(events[i].path()) && paths[i] == p);
            } else {
                assert(haskell_source(events[last].path()) && paths[last] == p);
            }
        }
    }
}

/// Only an event about a source is settled by the snapshot; every other one keeps its kind. An event that
/// comes of settling comes of one that was there.
pub proof fn settling_adds_nothing(
    events: Seq<FileEventView>,
    paths: Seq<NormalPathView>,
    files: Seq<NormalPathView>,
    v: FileEventView,
) -> (i: int)
    requires
        events.len() == paths.len(),
        reconciled_all(events, paths, files).contains(v),
    ensures
        0 <= i < events.len(),
        v.path() == events[i].path(),
        !haskell_source(paths[i].absolute) ==> v == events[i],
        haskell_source(paths[i].absolute) ==> (v is Modify <==> lists(files, paths[i])),
    decreases events.len(),
{
    if events.len() == 0 {
        0
    } else {
        let before = reconciled_all(events.drop_last(), paths.drop_last(), files);
        let last = reconciled(events.last(), paths.last(), files);
        crate::sorted::lemma_with_adds_one::<FileEvent>(before, last, v);
        if before.contains(v) {
            settling_adds_nothing(events.drop_last(), paths.drop_last(), files, v)
        } else {
            events.len() - 1
        }
    }
}

/// The session is left as it is exactly if nothing is reloaded, added or removed.
pub proof fn nothing_to_do_leaves_the_session(plan: ActionsView)
    ensures
        !plan.modifies() <==> plan.reload =~= seq![] && plan.additions =~= seq![] && plan.removals =~= seq![],
{
}

} // verus!
