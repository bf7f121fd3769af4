//! Telling real changes from notifications: by the contents of files alone.

use crate::event_filter::{FileEvent, FileEventView, FileState};
use crate::path::{path_parts, starts_with, FilePath};
use crate::sorted::{
    has_key, lemma_has_key_take, path_key, views, with, with_all, without_all, Key, Keyed, SortedMap, SortedSet,
};
use vstd::prelude::*;

verus! {

/// What is done about an entry of a directory that is scanned.
#[derive(Clone, Copy, Debug, PartialEq, Eq, Structural)]
pub enum ScanStep {
    /// Nothing.
    Skip,
    /// Scan its entries.
    Descend,
    /// Read its contents.
    Take,
}

/// What stands at a path that is scanned.
#[derive(Clone, Copy, Debug, PartialEq, Eq, Structural)]
pub enum ScanKind {
    Missing,
    File,
    Directory,
    Other,
}

/// What is done about a path that is scanned. A link to a directory is not followed inside a
/// directory: it may lead back to where the scan came from.
pub fn scan(kind: ScanKind, is_link: bool) -> (r: ScanStep)
    ensures
        r == (match kind {
            ScanKind::Directory => if is_link {
                ScanStep::Skip
            } else {
                ScanStep::Descend
            },
            ScanKind::File => ScanStep::Take,
            _ => ScanStep::Skip,
        }),
{
    match kind {
        ScanKind::Directory => if is_link {
            ScanStep::Skip
        } else {
            ScanStep::Descend
        },
        ScanKind::File => ScanStep::Take,
        _ => ScanStep::Skip,
    }
}

/// The key of a path as such.
pub open spec fn plain(e: Key) -> Key {
    Key { tag: 0, parts: e.parts }
}

/// Whether the path with this key is `path` or lies under it.
pub open spec fn under(k: Key, path: Seq<char>) -> bool {
    let first = path_parts(path);
    first.len() <= k.parts.len() && k.parts.take(first.len() as int) == first
}

/// The known files after a path was scanned again.
pub open spec fn rescanned(files: Map<Key, FileState>, path: Seq<char>, current: Map<Key, FileState>) -> Map<
    Key,
    FileState,
> {
    Map::new(
        |k: Key| current.contains_key(k) || (files.contains_key(k) && !under(k, path)),
        |k: Key|
            if current.contains_key(k) {
                current[k]
            } else {
                files[k]
            },
    )
}

/// Whether scanning a path again shows the event with key `e`: a change of a file that is new or has
/// other contents, or the removal of one that was known.
pub open spec fn reports(files: Map<Key, FileState>, path: Seq<char>, current: Map<Key, FileState>, e: Key) -> bool {
    let k = plain(e);
    let known = files.contains_key(k) && under(k, path);
    if e.tag == 0 {
        current.contains_key(k) && !(known && files[k] == current[k])
    } else {
        e.tag == 1 && known && !current.contains_key(k)
    }
}

/// The event that scanning a path again shows of a file that was known.
pub open spec fn known_change(
    files: Map<Key, FileState>,
    path: Seq<char>,
    current: Map<Key, FileState>,
    file: Seq<char>,
) -> Option<FileEventView> {
    let k = path_key(file);
    if !under(k, path) {
        None
    } else if !current.contains_key(k) {
        Some(FileEventView::Remove(file))
    } else if files[k] != current[k] {
        Some(FileEventView::Modify(file))
    } else {
        None
    }
}

/// `events` with those that scanning a path again shows of the known files, in turn.
pub open spec fn with_known(
    events: Seq<FileEventView>,
    known: Seq<Seq<char>>,
    files: Map<Key, FileState>,
    path: Seq<char>,
    current: Map<Key, FileState>,
) -> Seq<FileEventView>
    decreases known.len(),
{
    if known.len() == 0 {
        events
    } else {
        let before = with_known(events, known.drop_last(), files, path, current);
        match known_change(files, path, current, known.last()) {
            Some(event) => with::<FileEvent>(before, event),
            None => before,
        }
    }
}

/// `events` with those that scanning a path again shows of the files that were not known under it, in
/// turn.
pub open spec fn with_new(
    events: Seq<FileEventView>,
    found: Seq<Seq<char>>,
    files: Map<Key, FileState>,
    path: Seq<char>,
) -> Seq<FileEventView>
    decreases found.len(),
{
    if found.len() == 0 {
        events
    } else {
        let before = with_new(events, found.drop_last(), files, path);
        let k = path_key(found.last());
        if files.contains_key(k) && under(k, path) {
            before
        } else {
            with::<FileEvent>(before, FileEventView::Modify(found.last()))
        }
    }
}

/// The known files under a path that scanning it again does not show any more.
pub open spec fn gone_from(known: Seq<Seq<char>>, path: Seq<char>, current: Map<Key, FileState>) -> Seq<Seq<char>>
    decreases known.len(),
{
    if known.len() == 0 {
        seq![]
    } else {
        let before = gone_from(known.drop_last(), path, current);
        let k = path_key(known.last());
        if under(k, path) && !current.contains_key(k) {
            before.push(known.last())
        } else {
            before
        }
    }
}

/// The paths of the known files after a path was scanned again. A file that was known keeps the path
/// that it was known by.
pub open spec fn rescanned_paths(
    known: Seq<Seq<char>>,
    path: Seq<char>,
    scan: SortedMap<FilePath, FileState>,
) -> Seq<Seq<char>> {
    with_all::<FilePath>(without_all::<FilePath>(known, gone_from(known, path, scan@)), scan.key_list())
}

/// `events` with those that scanning a path again shows.
pub open spec fn with_reports(
    events: Seq<FileEventView>,
    known: Seq<Seq<char>>,
    files: Map<Key, FileState>,
    path: Seq<char>,
    scan: SortedMap<FilePath, FileState>,
) -> Seq<FileEventView> {
    with_new(with_known(events, known, files, path, scan@), scan.key_list(), files, path)
}

/// The last observed contents of the watched files.
#[derive(Debug)]
pub struct ContentChanges {
    files: SortedMap<FilePath, FileState>,
}

impl View for ContentChanges {
    type V = Map<Key, FileState>;

    closed spec fn view(&self) -> Map<Key, FileState> {
        self.files@
    }
}

/// The files that were known under the path, as far as `seen` goes, and what they show.
spec fn shown_by_known(
    files: Map<Key, FileState>,
    path: Seq<char>,
    current: Map<Key, FileState>,
    seen: Seq<Seq<char>>,
    e: Key,
) -> bool {
    let k = plain(e);
    has_key::<FilePath>(seen, k) && under(k, path) && if e.tag == 0 {
        current.contains_key(k) && files[k] != current[k]
    } else {
        e.tag == 1 && !current.contains_key(k)
    }
}

/// The files that were not known under the path, as far as `seen` goes.
spec fn shown_by_new(files: Map<Key, FileState>, path: Seq<char>, seen: Seq<Seq<char>>, e: Key) -> bool {
    let k = plain(e);
    e.tag == 0 && has_key::<FilePath>(seen, k) && !(files.contains_key(k) && under(k, path))
}

impl ContentChanges {
    /// The paths of the files, as they were first seen.
    pub closed spec fn known(&self) -> Seq<Seq<char>> {
        self.files.key_list()
    }

    /// Begins with what the scans of the watched roots show, so that the first notification is
    /// compared with something, too.
    pub fn new(scans: &Vec<SortedMap<FilePath, FileState>>) -> (r: Self)
        ensures
            r@ == united(scans@),
            r.known() == united_paths(scans@),
    {
        let mut files: SortedMap<FilePath, FileState> = SortedMap::new();
        let mut i: usize = 0;
        proof {
            assert(scans@.take(0).len() == 0);
        }
        while i < scans.len()
            invariant
                i <= scans@.len(),
                files@ == united(scans@.take(i as int)),
                files.key_list() == united_paths(scans@.take(i as int)),
            decreases scans@.len() - i,
        {
            files.extend(&scans[i]);
            proof {
                assert(scans@.take(i + 1).drop_last() =~= scans@.take(i as int));
            }
            i = i + 1;
        }
        proof {
            assert(scans@.take(scans@.len() as int) =~= scans@);
        }
        ContentChanges { files }
    }

    fn report_known(
        &self,
        path: &FilePath,
        current: &SortedMap<FilePath, FileState>,
        changed: &mut SortedSet<FileEvent>,
    ) -> (gone: Vec<FilePath>)
        ensures
            forall|e: Key| #[trigger]
                has_key::<FileEvent>(final(changed)@, e) <==> has_key::<FileEvent>(old(changed)@, e)
                    || shown_by_known(self@, path@, current@, self.files.key_list(), e),
            forall|k: Key| #[trigger]
                has_key::<FilePath>(views(gone@), k) <==> self@.contains_key(k) && under(k, path@)
                    && !current@.contains_key(k),
            final(changed)@ == with_known(old(changed)@, self.known(), self@, path@, current@),
            views(gone@) == gone_from(self.known(), path@, current@),
    {
        let ghost keys = self.files.key_list();
        let ghost files = self.files@;
        self.files.order();
        let mut gone: Vec<FilePath> = Vec::new();
        let mut i: usize = 0;
        let n: usize = self.files.len();
        proof {
            assert(keys.take(0) =~= seq![]);
            assert(views(gone@) =~= seq![]);
        }
        while i < n
            invariant
                i <= n == keys.len(),
                changed@ == with_known(old(changed)@, keys.take(i as int), files, path@, current@),
                views(gone@) == gone_from(keys.take(i as int), path@, current@),
                keys == self.files.key_list(),
                files == self.files@,
                forall|j: int|
                    0 <= j < keys.len() ==> files.contains_key(FilePath::key(#[trigger] keys[j])),
                forall|e: Key| #[trigger]
                    has_key::<FileEvent>(changed@, e) <==> has_key::<FileEvent>(old(changed)@, e)
                        || shown_by_known(files, path@, current@, keys.take(i as int), e),
                forall|k: Key| #[trigger]
                    has_key::<FilePath>(views(gone@), k) <==> has_key::<FilePath>(keys.take(i as int), k)
                        && under(k, path@) && !current@.contains_key(k),
            decreases n - i,
        {
            let file = self.files.key_at(i);
            let ghost before = changed@;
            let ghost k = FilePath::key(file@);
            let ghost old_gone = views(gone@);
            proof {
                lemma_has_key_take::<FilePath>(keys, i as int);
                assert(keys.take(i + 1).drop_last() =~= keys.take(i as int));
                assert(under(k, path@) == starts_with(file@, path@));
                assert(files.contains_key(k));
            }
            if file.starts_with(path) {
                match (self.files.get(file), current.get(file)) {
                    (Some(previous), Some(state)) => {
                        if !state.same(previous) {
                            let _ = changed.insert(FileEvent::Modify(file.clone()));
                        }
                        proof {
                            lemma_step(files, path@, current@, keys, i as int, before, changed@, *old(changed));
                        }
                    },
                    (_, None) => {
                        let _ = changed.insert(FileEvent::Remove(file.clone()));
                        gone.push(file.clone());
                        proof {
                            lemma_step(files, path@, current@, keys, i as int, before, changed@, *old(changed));
                            assert(views(gone@) =~= old_gone.push(file@));
                            lemma_has_key_take::<FilePath>(views(gone@), old_gone.len() as int);
                            assert(views(gone@).take(old_gone.len() as int) =~= old_gone);
                            assert(views(gone@).take(old_gone.len() as int + 1) =~= views(gone@));
                        }
                    },
                    (None, Some(_)) => {},
                }
            } else {
                proof {
                    lemma_step(files, path@, current@, keys, i as int, before, changed@, *old(changed));
                }
            }
            i = i + 1;
        }
        proof {
            assert(keys.take(n as int) =~= keys);
        }
        gone
    }

    fn report_new(
        &self,
        path: &FilePath,
        current: &SortedMap<FilePath, FileState>,
        changed: &mut SortedSet<FileEvent>,
    )
        ensures
            forall|e: Key| #[trigger]
                has_key::<FileEvent>(final(changed)@, e) <==> has_key::<FileEvent>(old(changed)@, e)
                    || shown_by_new(self@, path@, current.key_list(), e),
            final(changed)@ == with_new(old(changed)@, current.key_list(), self@, path@),
    {
        let ghost keys = current.key_list();
        let ghost files = self.files@;
        let mut i: usize = 0;
        let n: usize = current.len();
        proof {
            assert(keys.take(0) =~= seq![]);
        }
        while i < n
            invariant
                i <= n == keys.len(),
                keys == current.key_list(),
                changed@ == with_new(old(changed)@, keys.take(i as int), files, path@),
                files == self.files@,
                forall|e: Key| #[trigger]
                    has_key::<FileEvent>(changed@, e) <==> has_key::<FileEvent>(old(changed)@, e)
                        || shown_by_new(files, path@, keys.take(i as int), e),
            decreases n - i,
        {
            let file = current.key_at(i);
            let ghost before = changed@;
            let ghost k = FilePath::key(file@);
            let known = self.files.get(file).is_some() && file.starts_with(path);
            proof {
                lemma_has_key_take::<FilePath>(keys, i as int);
                assert(keys.take(i + 1).drop_last() =~= keys.take(i as int));
                assert(under(k, path@) == starts_with(file@, path@));
                assert(FileEvent::key(FileEventView::Modify(file@)) == k);
            }
            if !known {
                let _ = changed.insert(FileEvent::Modify(file.clone()));
            }
            proof {
                assert forall|e: Key| #[trigger] has_key::<FileEvent>(changed@, e) <==> has_key::<FileEvent>(
                    old(changed)@,
                    e,
                ) || shown_by_new(files, path@, keys.take(i + 1), e) by {
                    assert(has_key::<FileEvent>(before, e) <==> has_key::<FileEvent>(old(changed)@, e)
                        || shown_by_new(files, path@, keys.take(i as int), e));
                    assert(has_key::<FilePath>(keys.take(i + 1), plain(e)) <==> has_key::<FilePath>(
                        keys.take(i as int),
                        plain(e),
                    ) || k == plain(e));
                    if e.tag == 0 {
                        assert(plain(e) == e);
                    }
                }
            }
            i = i + 1;
        }
        proof {
            assert(keys.take(n as int) =~= keys);
        }
    }

    fn forget(&mut self, gone: &Vec<FilePath>)
        ensures
            forall|k: Key| #[trigger]
                final(self)@.contains_key(k) <==> old(self)@.contains_key(k) && !has_key::<FilePath>(
                    views(gone@),
                    k,
                ),
            forall|k: Key| #[trigger] final(self)@.contains_key(k) ==> final(self)@[k] == old(self)@[k],
            final(self).known() == without_all::<FilePath>(old(self).known(), views(gone@)),
    {
        let ghost all = views(gone@);
        let mut i: usize = 0;
        proof {
            assert(all.take(0) =~= seq![]);
        }
        while i < gone.len()
            invariant
                i <= gone@.len(),
                all == views(gone@),
                self.known() == without_all::<FilePath>(old(self).known(), all.take(i as int)),
                forall|k: Key| #[trigger]
                    self@.contains_key(k) <==> old(self)@.contains_key(k) && !has_key::<FilePath>(
                        all.take(i as int),
                        k,
                    ),
                forall|k: Key| #[trigger] self@.contains_key(k) ==> self@[k] == old(self)@[k],
            decreases gone@.len() - i,
        {
            let ghost before = self@;
            let _ = self.files.remove(&gone[i]);
            proof {
                lemma_has_key_take::<FilePath>(all, i as int);
                assert(all.take(i + 1).drop_last() =~= all.take(i as int));
                let q = FilePath::key(all[i as int]);
                assert(self@ == before.remove(q));
                assert forall|k: Key| #[trigger] self@.contains_key(k) <==> old(self)@.contains_key(k)
                    && !has_key::<FilePath>(all.take(i + 1), k) by {
                    assert(self@.contains_key(k) <==> before.contains_key(k) && k != q);
                }
                assert forall|k: Key| #[trigger] self@.contains_key(k) implies self@[k] == old(self)@[k] by {
                    assert(before.contains_key(k));
                }
            }
            i = i + 1;
        }
        proof {
            assert(all.take(all.len() as int) =~= all);
        }
    }

    /// Takes in what a scan of a path shows now, and adds the changes to those that were reported.
    pub fn observe_path(
        &mut self,
        path: &FilePath,
        current: &SortedMap<FilePath, FileState>,
        changed: &mut SortedSet<FileEvent>,
    )
        ensures
            final(self)@ == rescanned(old(self)@, path@, current@),
            final(self).known() == rescanned_paths(old(self).known(), path@, *current),
            final(changed)@ == with_reports(
                old(changed)@,
                old(self).known(),
                old(self)@,
                path@,
                *current,
            ),
            forall|e: Key| #[trigger]
                has_key::<FileEvent>(final(changed)@, e) <==> has_key::<FileEvent>(old(changed)@, e)
                    || reports(old(self)@, path@, current@, e),
    {
        let ghost files = self@;
        let gone = self.report_known(path, current, changed);
        self.report_new(path, current, changed);
        self.forget(&gone);
        let ghost kept = self@;
        self.files.extend(current);
        proof {
            assert(self@ == kept.union_prefer_right(current@));
            assert forall|k: Key| self@.contains_key(k) <==> rescanned(files, path@, current@).contains_key(k) by {
                assert(kept.contains_key(k) <==> files.contains_key(k) && !has_key::<FilePath>(
                    views(gone@),
                    k,
                ));
            }
            assert forall|k: Key| self@.contains_key(k) implies self@[k] == rescanned(files, path@, current@)[k] by {
                assert(kept.contains_key(k) ==> kept[k] == files[k]);
            }
            assert(self@ =~= rescanned(files, path@, current@));
            assert forall|e: Key| #[trigger] has_key::<FileEvent>(changed@, e) <==> has_key::<FileEvent>(
                old(changed)@,
                e,
            ) || reports(files, path@, current@, e) by {
                let k = plain(e);
                assert(files.contains_key(k) <==> has_key::<FilePath>(old(self).files.key_list(), k));
                assert(current@.contains_key(k) <==> has_key::<FilePath>(current.key_list(), k));
            }
        }
    }

    /// Takes in what a scan of the path of each event shows now, and returns the changes. Events
    /// about directories stand for the files under them; a file whose contents did not change is not
    /// reported, whatever else did. A file is reported by the path that it was known by, and a new one
    /// by that which the scan shows.
    pub fn observe(&mut self, events: &SortedSet<FileEvent>, scans: &Vec<SortedMap<FilePath, FileState>>) -> (r:
        SortedSet<FileEvent>)
        requires
            scans@.len() == events@.len(),
        ensures
            final(self)@ == observed(old(self)@, events@, scans@),
            final(self).known() == observed_paths(old(self).known(), events@, scans@),
            r@ == all_reports(old(self).known(), old(self)@, events@, scans@),
            forall|e: Key| #[trigger]
                has_key::<FileEvent>(r@, e) <==> reported(old(self)@, events@, scans@, e),
    {
        let mut changed: SortedSet<FileEvent> = SortedSet::new();
        let ghost files = self@;
        let ghost known = self.known();
        let mut i: usize = 0;
        let n: usize = events.len();
        proof {
            assert(events@.take(0).len() == 0);
            assert(changed@ =~= seq![]);
            assert forall|e: Key| !(#[trigger] has_key::<FileEvent>(changed@, e)) by {}
        }
        while i < n
            invariant
                i <= n == events@.len() == scans@.len(),
                files == old(self)@,
                known == old(self).known(),
                self@ == observed(files, events@.take(i as int), scans@.take(i as int)),
                self.known() == observed_paths(known, events@.take(i as int), scans@.take(i as int)),
                changed@ == all_reports(known, files, events@.take(i as int), scans@.take(i as int)),
                forall|e: Key| #[trigger]
                    has_key::<FileEvent>(changed@, e) <==> reported(
                        files,
                        events@.take(i as int),
                        scans@.take(i as int),
                        e,
                    ),
            decreases n - i,
        {
            proof {
                assert(events@.take(i + 1).drop_last() =~= events@.take(i as int));
                assert(scans@.take(i + 1).drop_last() =~= scans@.take(i as int));
            }
            self.observe_path(events.at(i).as_path(), &scans[i], &mut changed);
            i = i + 1;
        }
        proof {
            assert(events@.take(n as int) =~= events@);
            assert(scans@.take(n as int) =~= scans@);
        }
        changed
    }
}

proof fn lemma_step(
    files: Map<Key, FileState>,
    path: Seq<char>,
    current: Map<Key, FileState>,
    keys: Seq<Seq<char>>,
    i: int,
    before: Seq<FileEventView>,
    after: Seq<FileEventView>,
    start: SortedSet<FileEvent>,
)
    requires
        0 <= i < keys.len(),
        forall|e: Key| #[trigger]
            has_key::<FileEvent>(before, e) <==> has_key::<FileEvent>(start@, e) || shown_by_known(
                files,
                path,
                current,
                keys.take(i),
                e,
            ),
        forall|e: Key| #[trigger]
            has_key::<FileEvent>(after, e) <==> has_key::<FileEvent>(before, e) || (plain(e)
                == FilePath::key(keys[i]) && under(plain(e), path) && if e.tag == 0 {
                current.contains_key(plain(e)) && files[plain(e)] != current[plain(e)]
            } else {
                e.tag == 1 && !current.contains_key(plain(e))
            }),
    ensures
        forall|e: Key| #[trigger]
            has_key::<FileEvent>(after, e) <==> has_key::<FileEvent>(start@, e) || shown_by_known(
                files,
                path,
                current,
                keys.take(i + 1),
                e,
            ),
{
    lemma_has_key_take::<FilePath>(keys, i);
    assert forall|e: Key| #[trigger] has_key::<FileEvent>(after, e) <==> has_key::<FileEvent>(start@, e)
        || shown_by_known(files, path, current, keys.take(i + 1), e) by {
        assert(has_key::<FileEvent>(before, e) <==> has_key::<FileEvent>(start@, e) || shown_by_known(
            files,
            path,
            current,
            keys.take(i),
            e,
        ));
        assert(has_key::<FilePath>(keys.take(i + 1), plain(e)) <==> has_key::<FilePath>(
            keys.take(i),
            plain(e),
        ) || FilePath::key(keys[i]) == plain(e));
    }
}

/// What the scans show together. Of two that show the same file, the later counts.
pub open spec fn united(scans: Seq<SortedMap<FilePath, FileState>>) -> Map<Key, FileState>
    decreases scans.len(),
{
    if scans.len() == 0 {
        Map::empty()
    } else {
        united(scans.drop_last()).union_prefer_right(scans.last()@)
    }
}

/// The paths that the scans show together. Of two that show the same file, the earlier counts.
pub open spec fn united_paths(scans: Seq<SortedMap<FilePath, FileState>>) -> Seq<Seq<char>>
    decreases scans.len(),
{
    if scans.len() == 0 {
        seq![]
    } else {
        with_all::<FilePath>(united_paths(scans.drop_last()), scans.last().key_list())
    }
}

/// The paths of the known files after the path of each event was scanned again.
pub open spec fn observed_paths(
    known: Seq<Seq<char>>,
    events: Seq<FileEventView>,
    scans: Seq<SortedMap<FilePath, FileState>>,
) -> Seq<Seq<char>>
    decreases events.len(),
{
    if events.len() == 0 || scans.len() == 0 {
        known
    } else {
        rescanned_paths(
            observed_paths(known, events.drop_last(), scans.drop_last()),
            events.last().path(),
            scans.last(),
        )
    }
}

/// The events that scanning the path of each event again shows.
pub open spec fn all_reports(
    known: Seq<Seq<char>>,
    files: Map<Key, FileState>,
    events: Seq<FileEventView>,
    scans: Seq<SortedMap<FilePath, FileState>>,
) -> Seq<FileEventView>
    decreases events.len(),
{
    if events.len() == 0 || scans.len() == 0 {
        seq![]
    } else {
        with_reports(
            all_reports(known, files, events.drop_last(), scans.drop_last()),
            observed_paths(known, events.drop_last(), scans.drop_last()),
            observed(files, events.drop_last(), scans.drop_last()),
            events.last().path(),
            scans.last(),
        )
    }
}

/// The known files after the path of each event was scanned again.
pub open spec fn observed(
    files: Map<Key, FileState>,
    events: Seq<FileEventView>,
    scans: Seq<SortedMap<FilePath, FileState>>,
) -> Map<Key, FileState>
    decreases events.len(),
{
    if events.len() == 0 || scans.len() == 0 {
        files
    } else {
        rescanned(
            observed(files, events.drop_last(), scans.drop_last()),
            events.last().path(),
            scans.last()@,
        )
    }
}

/// Whether scanning the path of each event again shows the event with key `e`.
pub open spec fn reported(
    files: Map<Key, FileState>,
    events: Seq<FileEventView>,
    scans: Seq<SortedMap<FilePath, FileState>>,
    e: Key,
) -> bool
    decreases events.len(),
{
    if events.len() == 0 || scans.len() == 0 {
        false
    } else {
        reported(files, events.drop_last(), scans.drop_last(), e) || reports(
            observed(files, events.drop_last(), scans.drop_last()),
            events.last().path(),
            scans.last()@,
            e,
        )
    }
}

/// Scanning a path twice reports nothing the second time if nothing changed in between, however many
/// notifications came.
pub proof fn unchanged_files_are_not_reported(
    files: Map<Key, FileState>,
    path: Seq<char>,
    current: Map<Key, FileState>,
    e: Key,
)
    requires
        forall|k: Key| #[trigger] current.contains_key(k) ==> under(k, path),
    ensures
        !reports(rescanned(files, path, current), path, current, e),
        rescanned(rescanned(files, path, current), path, current) == rescanned(files, path, current),
{
    let k = plain(e);
    let after = rescanned(files, path, current);
    assert(after.contains_key(k) <==> current.contains_key(k) || (files.contains_key(k) && !under(k, path)));
    assert(rescanned(after, path, current) =~= after);
}

/// Every difference between what was known under a path and what a scan shows is reported, and
/// nothing else: a change exactly if the file is new or its contents differ, a removal exactly if it
/// is gone.
pub proof fn reports_are_exact(
    files: Map<Key, FileState>,
    path: Seq<char>,
    current: Map<Key, FileState>,
    parts: Seq<Seq<char>>,
)
    requires
        forall|k: Key| #[trigger] current.contains_key(k) ==> under(k, path),
    ensures
        ({
            let k = Key { tag: 0, parts };
            &&& reports(files, path, current, Key { tag: 0, parts }) <==> current.contains_key(k) && (
            !files.contains_key(k) || files[k] != current[k])
            &&& reports(files, path, current, Key { tag: 1, parts }) <==> files.contains_key(k) && under(k, path)
                && !current.contains_key(k)
        }),
{
}

/// A path lies under another if its components begin with all of that path's, itself included.
pub proof fn paths_lie_under_their_prefixes(k: Key, path: Seq<char>)
    ensures
        under(k, path) <==> path_parts(path).len() <= k.parts.len() && forall|i: int|
            0 <= i < path_parts(path).len() ==> k.parts[i] == #[trigger] path_parts(path)[i],
{
    let first = path_parts(path);
    if first.len() <= k.parts.len() {
        if forall|i: int| 0 <= i < first.len() ==> k.parts[i] == #[trigger] first[i] {
            assert(k.parts.take(first.len() as int) =~= first);
        }
        if k.parts.take(first.len() as int) == first {
            assert forall|i: int| 0 <= i < first.len() implies k.parts[i] == #[trigger] first[i] by {
                assert(k.parts.take(first.len() as int)[i] == first[i]);
            }
        }
    }
}

/// Scanning a path again forgets the files under it that are gone, takes over what the scan shows, and leaves all other
/// files alone.
pub proof fn other_files_are_left_alone(
    files: Map<Key, FileState>,
    path: Seq<char>,
    current: Map<Key, FileState>,
    k: Key,
)
    requires
        forall|k: Key| #[trigger] current.contains_key(k) ==> under(k, path),
    ensures
        under(k, path) ==> (rescanned(files, path, current).contains_key(k) <==> current.contains_key(k)),
        current.contains_key(k) ==> rescanned(files, path, current)[k] == current[k],
        !under(k, path) ==> (rescanned(files, path, current).contains_key(k) <==> files.contains_key(k)),
        !under(k, path) && files.contains_key(k) ==> rescanned(files, path, current)[k] == files[k],
        !under(k, path) && k.tag == 0 ==> !reports(files, path, current, k),
{
    assert(plain(k).parts == k.parts);
    if k.tag == 0 {
        assert(plain(k) == k);
    }
}

/// Of scans that show the same file the last counts, and every file that a scan shows is known.
pub proof fn last_scan_counts(scans: Seq<SortedMap<FilePath, FileState>>, i: int, k: Key)
    ensures
        united(scans).contains_key(k) <==> exists|j: int|
            0 <= j < scans.len() && (#[trigger] scans[j])@.contains_key(k),
        0 <= i < scans.len() && scans[i]@.contains_key(k) && (forall|j: int|
            i < j < scans.len() ==> !(#[trigger] scans[j])@.contains_key(k)) ==> united(scans)[k] == scans[i]@[k],
    decreases scans.len(),
{
    if scans.len() > 0 {
        let rest = scans.drop_last();
        let last = scans.len() - 1;
        last_scan_counts(rest, i, k);
        if united(rest).contains_key(k) {
            let j = choose|j: int| 0 <= j < rest.len() && (#[trigger] rest[j])@.contains_key(k);
            assert(scans[j] == rest[j]);
        }
        if exists|j: int| 0 <= j < scans.len() && (#[trigger] scans[j])@.contains_key(k) {
            let j = choose|j: int| 0 <= j < scans.len() && (#[trigger] scans[j])@.contains_key(k);
            if j < last {
                assert(rest[j] == scans[j]);
            }
        }
        if scans.last()@.contains_key(k) {
            assert(scans[last]@.contains_key(k));
        }
        if 0 <= i < last && scans[i]@.contains_key(k) && (forall|j: int|
            i < j < scans.len() ==> !(#[trigger] scans[j])@.contains_key(k)) {
            assert(rest[i] == scans[i]);
            assert(!scans[last]@.contains_key(k));
            assert forall|j: int| i < j < rest.len() implies !(#[trigger] rest[j])@.contains_key(k) by {
                assert(rest[j] == scans[j]);
            }
        }
    }
}

/// What several notifications show is what each of them shows after those before it.
pub proof fn notifications_are_observed_in_turn(
    files: Map<Key, FileState>,
    events: Seq<FileEventView>,
    scans: Seq<SortedMap<FilePath, FileState>>,
    e: Key,
)
    requires
        events.len() == scans.len(),
        events.len() > 0,
    ensures
        ({
            let before = observed(files, events.drop_last(), scans.drop_last());
            &&& observed(files, events, scans) == rescanned(before, events.last().path(), scans.last()@)
            &&& reported(files, events, scans, e) <==> reported(files, events.drop_last(), scans.drop_last(), e)
                || reports(before, events.last().path(), scans.last()@, e)
            &&& observed(files, seq![], seq![]) == files
            &&& !reported(files, seq![], seq![], e)
        }),
{
}

/// A known file shows as removed exactly if it lies under the path and is gone, as changed exactly if it lies there with
/// other contents, and not at all otherwise.
pub proof fn known_files_show_their_changes(
    files: Map<Key, FileState>,
    path: Seq<char>,
    current: Map<Key, FileState>,
    file: Seq<char>,
)
    ensures
        ({
            let k = path_key(file);
            let change = known_change(files, path, current, file);
            let below = under(k, path);
            &&& change == Some(FileEventView::Remove(file)) <==> below && !current.contains_key(k)
            &&& change == Some(FileEventView::Modify(file)) <==> below && current.contains_key(k) && files[k] != current[k]
            &&& change is None <==> !below || (current.contains_key(k) && files[k] == current[k])
        }),
{
}

} // verus!
