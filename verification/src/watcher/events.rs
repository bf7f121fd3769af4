//! The events that the watcher sends.

use crate::event_filter::{file_events_from_action, FileEvent, FileEventView, FileState, Observation};
use crate::ghci::manager::{lookup, ReloadView, WatcherEvent};
use crate::haskell_source_file::{haskell_source, is_haskell_source_file};
use crate::path::{parent_of, path_parts, FilePath};
use crate::sorted::{
    added_keys_are_held, has_key, lemma_filter, lemma_has_key_take, path_key, sorted, sorted_determined, with, Key,
    Keyed, SortedMap, SortedSet,
};
use crate::watcher::content::{ScanKind, ScanStep};
use vstd::prelude::*;

verus! {

/// What went wrong while files were watched.
#[derive(Clone, Copy, Debug, PartialEq, Eq, Structural)]
pub enum NotifyError {
    /// Reading or writing failed, because nothing stands at a path or for another reason.
    Io { not_found: bool },
    /// A watched path does not exist.
    PathNotFound,
    /// A path is not watched.
    WatchNotFound,
    /// Anything else.
    Other,
}

/// Whether an error ends the watch. That a path does not exist does not.
pub open spec fn is_fatal(error: NotifyError) -> bool {
    match error {
        NotifyError::Io { not_found } => !not_found,
        NotifyError::PathNotFound => false,
        NotifyError::WatchNotFound => false,
        NotifyError::Other => true,
    }
}

/// Whether an error ends the watch.
pub fn notify_error_is_fatal(error: NotifyError) -> (r: bool)
    ensures
        r == is_fatal(error),
{
    match error {
        NotifyError::Io { not_found } => !not_found,
        NotifyError::PathNotFound => false,
        NotifyError::WatchNotFound => false,
        NotifyError::Other => true,
    }
}

/// Watching files failed.
#[derive(Clone, Copy, Debug, PartialEq, Eq, Structural)]
pub struct WatchFailed;

/// The changes that a batch of notifications tells of, or that errors came instead. `exists` tells of
/// each path whether something stands there now. Errors that do not end the watch tell of no change.
pub fn process_debounced_events(
    batch: Result<(&SortedSet<FilePath>, &Vec<bool>), &Vec<NotifyError>>,
) -> (r: Result<SortedSet<FileEvent>, WatchFailed>)
    requires
        batch matches Ok((paths, exists)) ==> exists@.len() == paths@.len(),
    ensures
        match batch {
            Ok((paths, exists)) => {
                &&& r is Ok
                &&& sorted::<FileEvent>(r->Ok_0@)
                &&& forall|v: FileEventView| #[trigger]
                    r->Ok_0@.contains(v) <==> exists|i: int|
                        0 <= i < paths@.len() && paths@[i] == v.path() && #[trigger] exists@[i] == (v is Modify)
            },
            Err(errors) => if exists|i: int| 0 <= i < errors@.len() && is_fatal(#[trigger] errors@[i]) {
                r is Err
            } else {
                r is Ok && r->Ok_0@ == Seq::<FileEventView>::empty()
            },
        },
{
    match batch {
        Ok((paths, exists)) => Ok(file_events_from_action(paths, exists)),
        Err(errors) => {
            let mut i: usize = 0;
            while i < errors.len()
                invariant
                    i <= errors@.len(),
                    batch is Err,
                    batch->Err_0 == errors,
                    forall|n: int| 0 <= n < i ==> !is_fatal(#[trigger] errors@[n]),
                decreases errors@.len() - i,
            {
                if notify_error_is_fatal(errors[i]) {
                    return Err(WatchFailed);
                }
                i = i + 1;
            }
            Ok(SortedSet::new())
        },
    }
}

/// The events at the places where `relevant` holds.
pub open spec fn relevant_events(events: Seq<FileEventView>, relevant: Seq<bool>) -> Seq<FileEventView>
    decreases events.len(),
{
    if events.len() == 0 || relevant.len() == 0 {
        seq![]
    } else {
        let before = relevant_events(events.drop_last(), relevant.drop_last());
        if relevant.last() {
            before.push(events.last())
        } else {
            before
        }
    }
}

proof fn lemma_relevant(events: Seq<FileEventView>, relevant: Seq<bool>)
    requires
        events.len() == relevant.len(),
        sorted::<FileEvent>(events),
    ensures
        sorted::<FileEvent>(relevant_events(events, relevant)),
        forall|v: FileEventView| #[trigger]
            relevant_events(events, relevant).contains(v) <==> exists|i: int|
                0 <= i < events.len() && #[trigger] relevant[i] && events[i] == v,
    decreases events.len(),
{
    if events.len() > 0 {
        let rest = events.drop_last();
        let flags = relevant.drop_last();
        assert(sorted::<FileEvent>(rest));
        lemma_relevant(rest, flags);
        let before = relevant_events(rest, flags);
        let after = relevant_events(events, relevant);
        let n = events.len() - 1;
        assert forall|i: int, j: int| 0 <= i < j < after.len() implies crate::sorted::key_less(
            FileEvent::key(after[i]),
            FileEvent::key(after[j]),
        ) by {
            if j < before.len() {
                assert(after[i] == before[i] && after[j] == before[j]);
            } else {
                assert(before.contains(before[i]));
                let m = choose|m: int| 0 <= m < rest.len() && #[trigger] flags[m] && rest[m] == before[i];
                assert(events[m] == before[i]);
            }
        }
        assert forall|v: FileEventView| #[trigger] after.contains(v) <==> exists|i: int|
            0 <= i < events.len() && #[trigger] relevant[i] && events[i] == v by {
            if after.contains(v) {
                let i = choose|i: int| 0 <= i < after.len() && after[i] == v;
                if i < before.len() {
                    assert(before[i] == v);
                    assert(before.contains(v));
                    let m = choose|m: int| 0 <= m < rest.len() && #[trigger] flags[m] && rest[m] == v;
                    assert(relevant[m] && events[m] == v);
                } else {
                    assert(relevant[n] && events[n] == v);
                }
            }
            if exists|i: int| 0 <= i < events.len() && #[trigger] relevant[i] && events[i] == v {
                let i = choose|i: int| 0 <= i < events.len() && #[trigger] relevant[i] && events[i] == v;
                if i < n {
                    assert(flags[i] && rest[i] == v);
                    assert(before.contains(v));
                    let m = choose|m: int| 0 <= m < before.len() && before[m] == v;
                    assert(after[m] == v);
                } else {
                    assert(after[before.len() as int] == v);
                }
            }
        }
    }
}

/// Keeps the events at the places where `relevant` holds.
pub fn keep_relevant(events: &SortedSet<FileEvent>, relevant: &Vec<bool>) -> (r: SortedSet<FileEvent>)
    requires
        relevant@.len() == events@.len(),
    ensures
        r@ == relevant_events(events@, relevant@),
{
    events.order();
    let r = events.select(relevant);
    proof {
        lemma_relevant(events@, relevant@);
        sorted_determined::<FileEvent>(r@, relevant_events(events@, relevant@));
    }
    r
}

/// The event that tells the manager of these changes. `states` are those of the changed paths, and
/// `source_snapshot` is that of all sources.
pub open spec fn reload_event(
    events: Seq<FileEventView>,
    states: Map<Key, FileState>,
    files: Seq<Seq<char>>,
    snapshot: Map<Key, FileState>,
    startup_retry: bool,
) -> ReloadView {
    ReloadView { events, states, haskell_files: files, source_snapshot: snapshot, startup_retry }
}

/// The event that tells the manager of these changes; none if there are none.
pub fn send_event(
    events: SortedSet<FileEvent>,
    states: SortedMap<FilePath, FileState>,
    source_snapshot: SortedMap<FilePath, FileState>,
    startup_retry: bool,
) -> (r: Option<WatcherEvent>)
    ensures
        match r {
            Some(event) => events@.len() > 0 && event@ == reload_event(
                events@,
                states@,
                source_snapshot.key_list(),
                source_snapshot@,
                startup_retry,
            ),
            None => events@.len() == 0,
        },
{
    if events.is_empty() {
        return None;
    }
    let haskell_files = source_snapshot.key_set();
    Some(WatcherEvent::Reload { events, states, haskell_files, source_snapshot, startup_retry })
}

/// The snapshot of the sources among the files that were read. Of two that stand for the same path,
/// the later counts.
pub open spec fn snapshot_of(files: Seq<(FilePath, Observation)>) -> Map<Key, FileState>
    decreases files.len(),
{
    if files.len() == 0 {
        Map::empty()
    } else {
        let before = snapshot_of(files.drop_last());
        let (path, observation) = files.last();
        if haskell_source(path@) {
            before.insert(path_key(path@), FileState::of(observation))
        } else {
            before
        }
    }
}

/// The paths of the sources among these files, each once.
pub open spec fn source_paths(files: Seq<(FilePath, Observation)>) -> Seq<Seq<char>>
    decreases files.len(),
{
    if files.len() == 0 {
        seq![]
    } else {
        let before = source_paths(files.drop_last());
        if haskell_source(files.last().0@) {
            with::<FilePath>(before, files.last().0@)
        } else {
            before
        }
    }
}

/// The snapshot of the sources among the files under the watched roots.
pub fn scan_haskell_files(files: &Vec<(FilePath, Observation)>) -> (r: SortedMap<FilePath, FileState>)
    ensures
        r@ == snapshot_of(files@),
        r.key_list() == source_paths(files@),
{
    let mut r: SortedMap<FilePath, FileState> = SortedMap::new();
    let mut i: usize = 0;
    proof {
        assert(files@.take(0).len() == 0);
    }
    while i < files.len()
        invariant
            i <= files@.len(),
            r@ == snapshot_of(files@.take(i as int)),
            r.key_list() == source_paths(files@.take(i as int)),
        decreases files@.len() - i,
    {
        let (path, observation) = &files[i];
        proof {
            assert(files@.take(i + 1).drop_last() =~= files@.take(i as int));
            assert(files@.take(i + 1).last() == files@[i as int]);
        }
        if is_haskell_source_file(path) {
            r.insert(path.clone(), FileState::capture(observation));
        }
        i = i + 1;
    }
    proof {
        assert(files@.take(files@.len() as int) =~= files@);
    }
    r
}

/// Whether a snapshot shows the event with key `e` when it is compared with another: a change of a
/// source that is new or differs, or the removal of one that is gone.
pub open spec fn differs(expected: Map<Key, FileState>, current: Map<Key, FileState>, e: Key) -> bool {
    let k = Key { tag: 0, parts: e.parts };
    lookup(expected, k) != lookup(current, k) && (if e.tag == 0 {
        current.contains_key(k)
    } else {
        e.tag == 1 && !current.contains_key(k)
    })
}

/// The event that a snapshot shows of the path when it is compared with another.
pub open spec fn difference(
    expected: Map<Key, FileState>,
    current: Map<Key, FileState>,
    path: Seq<char>,
) -> Option<FileEventView> {
    let k = path_key(path);
    if lookup(expected, k) == lookup(current, k) {
        None
    } else if current.contains_key(k) {
        Some(FileEventView::Modify(path))
    } else {
        Some(FileEventView::Remove(path))
    }
}

/// `events` with those that a snapshot shows of the paths, in turn.
pub open spec fn with_differences(
    events: Seq<FileEventView>,
    paths: Seq<Seq<char>>,
    expected: Map<Key, FileState>,
    current: Map<Key, FileState>,
) -> Seq<FileEventView>
    decreases paths.len(),
{
    if paths.len() == 0 {
        events
    } else {
        let before = with_differences(events, paths.drop_last(), expected, current);
        match difference(expected, current, paths.last()) {
            Some(event) => with::<FileEvent>(before, event),
            None => before,
        }
    }
}

spec fn differs_among(
    expected: Map<Key, FileState>,
    current: Map<Key, FileState>,
    seen: Seq<Seq<char>>,
    e: Key,
) -> bool {
    differs(expected, current, e) && has_key::<FilePath>(seen, Key { tag: 0, parts: e.parts })
}

fn same_state(a: Option<&FileState>, b: Option<&FileState>) -> (r: bool)
    ensures
        r == (match (a, b) {
            (Some(a), Some(b)) => *a == *b,
            (None, None) => true,
            _ => false,
        }),
{
    match (a, b) {
        (Some(a), Some(b)) => a.same(b),
        (None, None) => true,
        _ => false,
    }
}

fn compare_paths(
    paths: &SortedMap<FilePath, FileState>,
    expected: &SortedMap<FilePath, FileState>,
    current: &SortedMap<FilePath, FileState>,
    events: &mut SortedSet<FileEvent>,
)
    ensures
        forall|e: Key| #[trigger]
            has_key::<FileEvent>(final(events)@, e) <==> has_key::<FileEvent>(old(events)@, e) || differs_among(
                expected@,
                current@,
                paths.key_list(),
                e,
            ),
        final(events)@ == with_differences(old(events)@, paths.key_list(), expected@, current@),
{
    let ghost keys = paths.key_list();
    let mut i: usize = 0;
    let n: usize = paths.len();
    proof {
        assert(keys.take(0) =~= seq![]);
    }
    while i < n
        invariant
            i <= n == keys.len(),
            keys == paths.key_list(),
            events@ == with_differences(old(events)@, keys.take(i as int), expected@, current@),
            forall|e: Key| #[trigger]
                has_key::<FileEvent>(events@, e) <==> has_key::<FileEvent>(old(events)@, e) || differs_among(
                    expected@,
                    current@,
                    keys.take(i as int),
                    e,
                ),
        decreases n - i,
    {
        let path = paths.key_at(i);
        let ghost before = events@;
        let ghost k = FilePath::key(path@);
        proof {
            lemma_has_key_take::<FilePath>(keys, i as int);
            assert(keys.take(i + 1).drop_last() =~= keys.take(i as int));
        }
        let now = current.get(path);
        if !same_state(expected.get(path), now) {
            if now.is_some() {
                let _ = events.insert(FileEvent::Modify(path.clone()));
            } else {
                let _ = events.insert(FileEvent::Remove(path.clone()));
            }
        }
        proof {
            assert forall|e: Key| #[trigger] has_key::<FileEvent>(events@, e) <==> has_key::<FileEvent>(
                old(events)@,
                e,
            ) || differs_among(expected@, current@, keys.take(i + 1), e) by {
                let q = Key { tag: 0, parts: e.parts };
                assert(has_key::<FileEvent>(before, e) <==> has_key::<FileEvent>(old(events)@, e)
                    || differs_among(expected@, current@, keys.take(i as int), e));
                assert(has_key::<FilePath>(keys.take(i + 1), q) <==> has_key::<FilePath>(
                    keys.take(i as int),
                    q,
                ) || k == q);
            }
        }
        i = i + 1;
    }
    proof {
        assert(keys.take(n as int) =~= keys);
    }
}

/// The differences between the snapshot that was compiled and the one that was taken now. A path that
/// both show is written as the former has it.
pub fn compare_snapshots(expected: &SortedMap<FilePath, FileState>, current: &SortedMap<FilePath, FileState>) -> (r:
    SortedSet<FileEvent>)
    ensures
        forall|e: Key| #[trigger] has_key::<FileEvent>(r@, e) <==> differs(expected@, current@, e),
        r@ == with_differences(
            with_differences(seq![], expected.key_list(), expected@, current@),
            current.key_list(),
            expected@,
            current@,
        ),
{
    let mut events: SortedSet<FileEvent> = SortedSet::new();
    proof {
        assert forall|e: Key| !(#[trigger] has_key::<FileEvent>(events@, e)) by {}
        assert(events@ =~= seq![]);
    }
    compare_paths(expected, expected, current, &mut events);
    compare_paths(current, expected, current, &mut events);
    proof {
        assert forall|e: Key| #[trigger] has_key::<FileEvent>(events@, e) <==> differs(
            expected@,
            current@,
            e,
        ) by {
            let q = Key { tag: 0, parts: e.parts };
            assert(expected@.contains_key(q) <==> has_key::<FilePath>(expected.key_list(), q));
            assert(current@.contains_key(q) <==> has_key::<FilePath>(current.key_list(), q));
        }
    }
    events
}

/// What comes of comparing the sources with those that were compiled. `changes` are the differences,
/// `relevant` tells which of them count, and `states` holds the states of those. If none counts, the
/// result of the compilation is current. If some do, it is not, and the event tells the manager to
/// compile again.
pub fn validate_source_snapshot(
    changes: &SortedSet<FileEvent>,
    relevant: &Vec<bool>,
    states: SortedMap<FilePath, FileState>,
    current: SortedMap<FilePath, FileState>,
) -> (r: Option<WatcherEvent>)
    requires
        relevant@.len() == changes@.len(),
    ensures
        ({
            let events = relevant_events(changes@, relevant@);
            match r {
                Some(event) => events.len() > 0 && event@ == reload_event(
                    events,
                    states@,
                    current.key_list(),
                    current@,
                    false,
                ),
                None => events.len() == 0,
            }
        }),
{
    let events = keep_relevant(changes, relevant);
    send_event(events, states, current, false)
}

/// Two snapshots show no difference exactly if they are the same.
pub proof fn equal_snapshots_are_valid(expected: Map<Key, FileState>, current: Map<Key, FileState>)
    requires
        forall|k: Key| #[trigger] expected.contains_key(k) ==> k.tag == 0,
        forall|k: Key| #[trigger] current.contains_key(k) ==> k.tag == 0,
    ensures
        (forall|e: Key| !differs(expected, current, e)) <==> expected == current,
{
    if forall|e: Key| !differs(expected, current, e) {
        assert forall|k: Key| expected.contains_key(k) <==> current.contains_key(k) by {
            if expected.contains_key(k) && !current.contains_key(k) {
                let e = Key { tag: 1, parts: k.parts };
                assert(Key { tag: 0, parts: e.parts } == k);
                assert(differs(expected, current, e));
            }
            if current.contains_key(k) && !expected.contains_key(k) {
                assert(Key { tag: 0, parts: k.parts } == k);
                assert(differs(expected, current, k));
            }
        }
        assert forall|k: Key| expected.contains_key(k) implies expected[k] == current[k] by {
            if expected[k] != current[k] {
                assert(Key { tag: 0, parts: k.parts } == k);
                assert(differs(expected, current, k));
            }
        }
        assert(expected =~= current);
    }
}

/// Whether a change is a reason to try the setup commands again. One of the error log is none: a failed
/// attempt writes it.
pub open spec fn counts_for_setup(v: FileEventView, error_path: Option<Seq<char>>) -> bool {
    match error_path {
        Some(path) => v.path_key() != path_key(path),
        None => true,
    }
}

/// Whether the changes are a reason to try the setup commands again. `error_path` is where the error log
/// is written.
pub fn retries_setup(changes: &SortedSet<FileEvent>, error_path: Option<&FilePath>) -> (r: bool)
    ensures
        ({
            let path = match error_path {
                Some(path) => Some(path@),
                None => None,
            };
            r <==> exists|i: int| 0 <= i < changes@.len() && counts_for_setup(#[trigger] changes@[i], path)
        }),
{
    let ghost path = match error_path {
        Some(path) => Some(path@),
        None => None,
    };
    let mut i: usize = 0;
    let n: usize = changes.len();
    while i < n
        invariant
            i <= n == changes@.len(),
            path == (match error_path {
                Some(path) => Some(path@),
                None => None,
            }),
            forall|j: int| 0 <= j < i ==> !counts_for_setup(#[trigger] changes@[j], path),
        decreases n - i,
    {
        let counts = match error_path {
            Some(path) => !(*changes.at(i).as_path() == *path),
            None => true,
        };
        proof {
            assert(counts == counts_for_setup(changes@[i as int], path));
        }
        if counts {
            return true;
        }
        i = i + 1;
    }
    false
}

/// Writing the error log is no reason to try the setup commands again, whatever kind of change it is
/// reported as.
pub proof fn failed_setup_does_not_retry_itself(error_path: Seq<char>)
    ensures
        !counts_for_setup(FileEventView::Modify(error_path), Some(error_path)),
        !counts_for_setup(FileEventView::Remove(error_path), Some(error_path)),
{
}

/// What is done about a path under a watched root when the sources are scanned.
pub fn scan_source(kind: ScanKind, path: &FilePath) -> (r: ScanStep)
    ensures
        r == (match kind {
            ScanKind::Missing => ScanStep::Skip,
            ScanKind::Directory => ScanStep::Descend,
            _ => if haskell_source(path@) {
                ScanStep::Take
            } else {
                ScanStep::Skip
            },
        }),
{
    match kind {
        ScanKind::Missing => ScanStep::Skip,
        ScanKind::Directory => ScanStep::Descend,
        _ => if is_haskell_source_file(path) {
            ScanStep::Take
        } else {
            ScanStep::Skip
        },
    }
}

/// The changes to files that are watched for a retry. Only their states are looked at.
pub fn retry_candidates(events: &SortedSet<FileEvent>, files: &SortedSet<FilePath>) -> (r: SortedSet<FileEvent>)
    ensures
        r@ == events@.filter(|v: FileEventView| has_key::<FilePath>(files@, v.path_key())),
{
    let mut keep: Vec<bool> = Vec::new();
    let mut i: usize = 0;
    let n: usize = events.len();
    events.order();
    while i < n
        invariant
            i <= n == events@.len(),
            keep@.len() == i,
            forall|j: int|
                0 <= j < i ==> #[trigger] keep@[j] == has_key::<FilePath>(files@, events@[j].path_key()),
        decreases n - i,
    {
        keep.push(files.contains(events.at(i).as_path()));
        i = i + 1;
    }
    let r = events.select(&keep);
    proof {
        let p = |v: FileEventView| has_key::<FilePath>(files@, v.path_key());
        lemma_filter::<FileEvent>(events@, p);
        assert forall|v: FileEventView| r@.contains(v) <==> events@.filter(p).contains(v) by {
            if r@.contains(v) {
                let i = choose|i: int| 0 <= i < events@.len() && #[trigger] keep@[i] && events@[i] == v;
                assert(events@.contains(v));
            }
            if events@.filter(p).contains(v) {
                let i = choose|i: int| 0 <= i < events@.len() && events@[i] == v;
                assert(keep@[i]);
            }
        }
        sorted_determined::<FileEvent>(r@, events@.filter(p));
    }
    r
}

/// Whether a change to one of the files that are watched for a retry counts: its state is not the
/// one that it had when the watch began.
pub open spec fn counts_for_retry(
    v: FileEventView,
    files: Seq<Seq<char>>,
    states: Map<Key, FileState>,
    baseline: Map<Key, FileState>,
) -> bool {
    has_key::<FilePath>(files, v.path_key()) && lookup(states, v.path_key()) != lookup(baseline, v.path_key())
}

/// The changes that count for a retry. `states` holds the states of the changed paths now, and
/// `baseline` those that the files had when the watch began.
pub fn retry_events(
    events: &SortedSet<FileEvent>,
    files: &SortedSet<FilePath>,
    states: &SortedMap<FilePath, FileState>,
    baseline: &SortedMap<FilePath, FileState>,
) -> (r: SortedSet<FileEvent>)
    ensures
        r@ == events@.filter(|v: FileEventView| counts_for_retry(v, files@, states@, baseline@)),
{
    let mut keep: Vec<bool> = Vec::new();
    let mut i: usize = 0;
    let n: usize = events.len();
    events.order();
    while i < n
        invariant
            i <= n == events@.len(),
            keep@.len() == i,
            forall|j: int|
                0 <= j < i ==> #[trigger] keep@[j] == counts_for_retry(events@[j], files@, states@, baseline@),
        decreases n - i,
    {
        let path = events.at(i).as_path();
        let counts = files.contains(path) && !same_state(states.get(path), baseline.get(path));
        keep.push(counts);
        i = i + 1;
    }
    let r = events.select(&keep);
    proof {
        let p = |v: FileEventView| counts_for_retry(v, files@, states@, baseline@);
        lemma_filter::<FileEvent>(events@, p);
        assert forall|v: FileEventView| r@.contains(v) <==> events@.filter(p).contains(v) by {
            if r@.contains(v) {
                let i = choose|i: int| 0 <= i < events@.len() && #[trigger] keep@[i] && events@[i] == v;
                assert(events@.contains(v));
            }
            if events@.filter(p).contains(v) {
                let i = choose|i: int| 0 <= i < events@.len() && events@[i] == v;
                assert(keep@[i]);
            }
        }
        sorted_determined::<FileEvent>(r@, events@.filter(p));
    }
    r
}

/// The changes that stand for the files that are watched for a retry, by which their states are
/// taken when the watch begins.
pub fn baseline_events(files: &SortedSet<FilePath>) -> (r: SortedSet<FileEvent>)
    ensures
        sorted::<FileEvent>(r@),
        forall|v: FileEventView| #[trigger]
            r@.contains(v) <==> v is Modify && files@.contains(v.path()),
{
    let mut exists: Vec<bool> = Vec::new();
    let mut i: usize = 0;
    let n: usize = files.len();
    while i < n
        invariant
            i <= n == files@.len(),
            exists@.len() == i,
            forall|j: int| 0 <= j < i ==> #[trigger] exists@[j],
        decreases n - i,
    {
        exists.push(true);
        i = i + 1;
    }
    let r = file_events_from_action(files, &exists);
    proof {
        assert forall|v: FileEventView| #[trigger] r@.contains(v) <==> v is Modify && files@.contains(v.path()) by {
            if v is Modify && files@.contains(v.path()) {
                let j = choose|j: int| 0 <= j < files@.len() && files@[j] == v.path();
                assert(exists@[j]);
            }
        }
    }
    r
}

/// The directories that hold the files, each once and written as it follows from the first file in it.
pub open spec fn parents_of(files: Seq<Seq<char>>) -> Seq<Seq<char>>
    decreases files.len(),
{
    if files.len() == 0 {
        seq![]
    } else {
        let before = parents_of(files.drop_last());
        match parent_of(files.last()) {
            Some(parent) => with::<FilePath>(before, parent),
            None => before,
        }
    }
}

/// The directories that hold the files, each once.
pub fn retry_parents(files: &SortedSet<FilePath>) -> (r: SortedSet<FilePath>)
    ensures
        forall|k: Key| #[trigger]
            has_key::<FilePath>(r@, k) <==> exists|i: int|
                0 <= i < files@.len() && is_parent(k, #[trigger] files@[i]),
        r@ == parents_of(files@),
{
    let mut r: SortedSet<FilePath> = SortedSet::new();
    let mut i: usize = 0;
    let n: usize = files.len();
    proof {
        assert forall|k: Key| !(#[trigger] has_key::<FilePath>(r@, k)) by {}
        assert(r@ =~= parents_of(files@.take(0)));
    }
    while i < n
        invariant
            i <= n == files@.len(),
            forall|k: Key| #[trigger]
                has_key::<FilePath>(r@, k) <==> exists|j: int|
                    0 <= j < i && is_parent(k, #[trigger] files@[j]),
            r@ == parents_of(files@.take(i as int)),
        decreases n - i,
    {
        let ghost before = r@;
        proof {
            assert(files@.take(i + 1).drop_last() =~= files@.take(i as int));
        }
        match files.at(i).parent() {
            Some(parent) => {
                let ghost q = path_key(parent@);
                let _ = r.insert(parent);
                proof {
                    assert(is_parent(q, files@[i as int]));
                    assert forall|k: Key| #[trigger] has_key::<FilePath>(r@, k) <==> exists|j: int|
                        0 <= j < i + 1 && is_parent(k, #[trigger] files@[j]) by {
                        assert(has_key::<FilePath>(r@, k) <==> has_key::<FilePath>(before, k) || k == q);
                        assert(is_parent(k, files@[i as int]) <==> k == q);
                    }
                }
            },
            None => {
                proof {
                    assert forall|k: Key| #[trigger] has_key::<FilePath>(r@, k) <==> exists|j: int|
                        0 <= j < i + 1 && is_parent(k, #[trigger] files@[j]) by {
                        assert(!is_parent(k, files@[i as int]));
                    }
                }
            },
        }
        i = i + 1;
    }
    proof {
        assert(files@.take(n as int) =~= files@);
    }
    r
}

/// Whether this is the key of the directory that holds the file.
pub open spec fn is_parent(k: Key, file: Seq<char>) -> bool {
    let parts = path_parts(file);
    parts.len() > 0 && parts.last() != seq!['/'] && k == (Key { tag: 0, parts: parts.drop_last() })
}

/// Only a path that does not exist, or is not watched, is an error that the watch survives.
pub proof fn missing_paths_do_not_end_the_watch(error: NotifyError)
    ensures
        is_fatal(error) <==> error is Other || error == (NotifyError::Io { not_found: false }),
{
}

/// Exactly the changes that count are kept, in their order.
pub proof fn relevant_changes_are_kept(events: Seq<FileEventView>, relevant: Seq<bool>, v: FileEventView)
    requires
        events.len() == relevant.len(),
        sorted::<FileEvent>(events),
    ensures
        sorted::<FileEvent>(relevant_events(events, relevant)),
        relevant_events(events, relevant).contains(v) <==> exists|i: int|
            0 <= i < events.len() && #[trigger] relevant[i] && events[i] == v,
{
    lemma_relevant(events, relevant);
}

/// The manager is told of the changes, their states, the files and the snapshot as they are.
pub proof fn changes_are_told_as_they_are(
    events: Seq<FileEventView>,
    states: Map<Key, FileState>,
    files: Seq<Seq<char>>,
    snapshot: Map<Key, FileState>,
    startup_retry: bool,
)
    ensures
        ({
            let event = reload_event(events, states, files, snapshot, startup_retry);
            &&& event.events == events
            &&& event.states == states
            &&& event.haskell_files == files
            &&& event.source_snapshot == snapshot
            &&& event.startup_retry == startup_retry
        }),
{
}

/// The snapshot holds exactly the sources among the files, each with the state that was read last.
pub proof fn snapshots_hold_the_sources(files: Seq<(FilePath, Observation)>, i: int, k: Key)
    ensures
        snapshot_of(files).contains_key(k) <==> exists|j: int|
            0 <= j < files.len() && haskell_source((#[trigger] files[j]).0@) && path_key(files[j].0@) == k,
        0 <= i < files.len() && haskell_source(files[i].0@) && path_key(files[i].0@) == k && (forall|j: int|
            i < j < files.len() ==> !(haskell_source((#[trigger] files[j]).0@) && path_key(files[j].0@) == k))
            ==> snapshot_of(files)[k] == FileState::of(files[i].1),
    decreases files.len(),
{
    if files.len() > 0 {
        let rest = files.drop_last();
        let last = files.len() - 1;
        snapshots_hold_the_sources(rest, i, k);
        if snapshot_of(rest).contains_key(k) {
            let j = choose|j: int|
                0 <= j < rest.len() && haskell_source((#[trigger] rest[j]).0@) && path_key(rest[j].0@) == k;
            assert(files[j] == rest[j]);
        }
        if exists|j: int|
            0 <= j < files.len() && haskell_source((#[trigger] files[j]).0@) && path_key(files[j].0@) == k {
            let j = choose|j: int|
                0 <= j < files.len() && haskell_source((#[trigger] files[j]).0@) && path_key(files[j].0@) == k;
            if j < last {
                assert(rest[j] == files[j]);
            }
        }
        if haskell_source(files.last().0@) && path_key(files.last().0@) == k {
            assert(haskell_source(files[last].0@));
        }
        if 0 <= i < files.len() && haskell_source(files[i].0@) && path_key(files[i].0@) == k && (forall|j: int|
            i < j < files.len() ==> !(haskell_source((#[trigger] files[j]).0@) && path_key(files[j].0@) == k)) {
            if i < last {
                assert(rest[i] == files[i]);
                assert(!(haskell_source(files[last].0@) && path_key(files[last].0@) == k));
                assert forall|j: int| i < j < rest.len() implies !(haskell_source((#[trigger] rest[j]).0@) && path_key(
                    rest[j].0@,
                ) == k) by {
                    assert(rest[j] == files[j]);
                }
            }
        }
    }
}

/// A source that is new or has another state shows as a change, one that is gone as a removal, and nothing else shows.
pub proof fn differences_are_exact(
    expected: Map<Key, FileState>,
    current: Map<Key, FileState>,
    parts: Seq<Seq<char>>,
    tag: nat,
)
    ensures
        ({
            let k = Key { tag: 0, parts };
            &&& differs(expected, current, Key { tag: 0, parts }) <==> current.contains_key(k) && (!expected.contains_key(k)
                || expected[k] != current[k])
            &&& differs(expected, current, Key { tag: 1, parts }) <==> expected.contains_key(k) && !current.contains_key(k)
            &&& tag > 1 ==> !differs(expected, current, Key { tag: tag as int, parts })
        }),
{
}

/// Every change but one of the error log is a reason to try the setup commands again, and without an error log every
/// change is.
pub proof fn other_changes_retry_the_setup(v: FileEventView, error_path: Seq<char>)
    ensures
        counts_for_setup(v, None),
        counts_for_setup(v, Some(error_path)) <==> path_parts(v.path()) != path_parts(error_path),
{
}

/// A change counts for a retry exactly if its file is watched for one and is not as it was when the watch began.
pub proof fn changed_files_count_for_a_retry(
    v: FileEventView,
    files: Seq<Seq<char>>,
    states: Map<Key, FileState>,
    baseline: Map<Key, FileState>,
)
    ensures
        ({
            let k = v.path_key();
            let changed = if states.contains_key(k) {
                !baseline.contains_key(k) || states[k] != baseline[k]
            } else {
                baseline.contains_key(k)
            };
            counts_for_retry(v, files, states, baseline) <==> changed && exists|i: int|
                0 <= i < files.len() && path_parts(#[trigger] files[i]) == path_parts(v.path())
        }),
{
    let k = v.path_key();
    if has_key::<FilePath>(files, k) {
        let i = choose|i: int| 0 <= i < files.len() && FilePath::key(#[trigger] files[i]) == k;
        assert(path_parts(files[i]) == path_parts(v.path()));
    }
    if exists|i: int| 0 <= i < files.len() && path_parts(#[trigger] files[i]) == path_parts(v.path()) {
        let i = choose|i: int| 0 <= i < files.len() && path_parts(#[trigger] files[i]) == path_parts(v.path());
        assert(FilePath::key(files[i]) == k);
    }
}

/// A directory holds a file exactly if the file's path is the directory's and one more component.
pub proof fn directories_hold_their_files(directory: Seq<char>, file: Seq<char>, name: Seq<char>)
    ensures
        is_parent(path_key(directory), file) && path_parts(file).last() == name ==> path_parts(file) == path_parts(
            directory,
        ).push(name) && name != seq!['/'],
        path_parts(file) == path_parts(directory).push(name) && name != seq!['/'] ==> is_parent(path_key(directory), file),
{
    let parts = path_parts(file);
    if parts.len() > 0 {
        assert(parts =~= parts.drop_last().push(parts.last()));
    }
    assert(path_parts(directory).push(name).drop_last() =~= path_parts(directory));
}

/// The paths of a snapshot are those of the sources among the files, and no others.
pub proof fn snapshots_list_the_sources(files: Seq<(FilePath, Observation)>, k: Key)
    ensures
        sorted::<FilePath>(source_paths(files)),
        has_key::<FilePath>(source_paths(files), k) <==> exists|i: int|
            0 <= i < files.len() && haskell_source((#[trigger] files[i]).0@) && path_key(files[i].0@) == k,
    decreases files.len(),
{
    if files.len() > 0 {
        let rest = files.drop_last();
        let before = source_paths(rest);
        let last = files.len() - 1;
        snapshots_list_the_sources(rest, k);
        if haskell_source(files.last().0@) {
            added_keys_are_held::<FilePath>(before, files.last().0@, k);
        }
        if has_key::<FilePath>(before, k) {
            let i = choose|i: int|
                0 <= i < rest.len() && haskell_source((#[trigger] rest[i]).0@) && path_key(rest[i].0@) == k;
            assert(files[i] == rest[i]);
        }
        if exists|i: int| 0 <= i < files.len() && haskell_source((#[trigger] files[i]).0@) && path_key(files[i].0@) == k {
            let i = choose|i: int|
                0 <= i < files.len() && haskell_source((#[trigger] files[i]).0@) && path_key(files[i].0@) == k;
            if i < last {
                assert(rest[i] == files[i]);
            }
        }
        if haskell_source(files.last().0@) && path_key(files.last().0@) == k {
            assert(haskell_source(files[last].0@) && path_key(files[last].0@) == k);
        }
    } else {
        assert(source_paths(files) =~= seq![]);
    }
}

} // verus!
