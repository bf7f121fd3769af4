//! From filesystem notifications to the changes that a session responds to.

use crate::path::{path_parts, FilePath, Rank};
use crate::sorted::{
    has_key, key_less, lemma_key_total, path_key, sorted, with, Key, Keyed, SortedMap, SortedSet,
};
use std::collections::hash_map::DefaultHasher;
use std::hash::Hasher;
use vstd::prelude::*;
use vstd::std_specs::hash::DefaultHasherAdditionalSpecFns;

verus! {

/// A change to a file that a session responds to.
#[derive(Debug)]
pub enum FileEvent {
    /// The file is there: it was modified, or created.
    Modify(FilePath),
    /// The file is gone.
    Remove(FilePath),
}

/// The model of a [`FileEvent`]: the kind of change and the text of the path.
pub enum FileEventView {
    Modify(Seq<char>),
    Remove(Seq<char>),
}

impl FileEventView {
    /// The text of the path.
    pub open spec fn path(self) -> Seq<char> {
        match self {
            FileEventView::Modify(path) => path,
            FileEventView::Remove(path) => path,
        }
    }

    /// The key of the path.
    pub open spec fn path_key(self) -> Key {
        path_key(self.path())
    }
}

impl View for FileEvent {
    type V = FileEventView;

    open spec fn view(&self) -> FileEventView {
        match self {
            FileEvent::Modify(path) => FileEventView::Modify(path@),
            FileEvent::Remove(path) => FileEventView::Remove(path@),
        }
    }
}

impl Clone for FileEvent {
    fn clone(&self) -> (r: Self)
        ensures
            r == *self,
    {
        match self {
            FileEvent::Modify(path) => FileEvent::Modify(path.clone()),
            FileEvent::Remove(path) => FileEvent::Remove(path.clone()),
        }
    }
}

impl Keyed for FileEvent {
    open spec fn key(v: FileEventView) -> Key {
        match v {
            FileEventView::Modify(path) => Key { tag: 0, parts: path_parts(path) },
            FileEventView::Remove(path) => Key { tag: 1, parts: path_parts(path) },
        }
    }

    fn rank_key(&self, other: &Self) -> (r: Rank) {
        match (self, other) {
            (FileEvent::Modify(a), FileEvent::Modify(b)) => a.rank(b),
            (FileEvent::Remove(a), FileEvent::Remove(b)) => a.rank(b),
            (FileEvent::Modify(_), FileEvent::Remove(_)) => Rank::Before,
            (FileEvent::Remove(_), FileEvent::Modify(_)) => Rank::After,
        }
    }

    fn duplicate(&self) -> (r: Self) {
        self.clone()
    }
}

impl FileEvent {
    /// The path of the changed file.
    pub fn as_path(&self) -> (r: &FilePath)
        ensures
            r@ == self@.path(),
    {
        match self {
            FileEvent::Modify(path) => path,
            FileEvent::Remove(path) => path,
        }
    }
}

/// What stands at a path.
#[derive(Clone, Copy, Debug, PartialEq, Eq, Structural)]
pub enum FileStateKind {
    Missing,
    File,
    Directory,
    Other,
}

/// The state of a path when a batch of changes was delivered. Two states are equal when the same
/// kind of thing stands there with the same length and contents; timestamps play no part.
#[derive(Clone, Copy, Debug, PartialEq, Eq, Structural)]
pub struct FileState {
    kind: FileStateKind,
    len: u64,
    content_hash: Option<u64>,
}

/// What was read of a path.
#[derive(Debug)]
pub enum Observation {
    /// Nothing stood there, or it vanished before it could be opened.
    Missing,
    /// A regular file with its length and what was read of its contents.
    File {
        len: u64,
        contents: Vec<u8>,
    },
    /// A directory.
    Directory {
        len: u64,
    },
    /// Something else.
    Other {
        len: u64,
    },
}

/// What a new hasher makes of a sequence of bytes. It depends on the bytes alone. Nothing is known of
/// which hash it is, nor that different bytes get different hashes.
pub open spec fn content_hash(bytes: Seq<u8>) -> u64 {
    DefaultHasher::spec_finish(seq![bytes])
}

fn hash_contents(bytes: &Vec<u8>) -> (r: u64)
    ensures
        r == content_hash(bytes@),
{
    let mut hasher = DefaultHasher::new();
    hasher.write(bytes.as_slice());
    proof {
        assert(hasher@ =~= seq![bytes@]);
    }
    hasher.finish()
}

impl FileState {
    /// The state of a path where nothing stands.
    pub open spec fn missing() -> FileState {
        FileState::made(FileStateKind::Missing, 0, None)
    }

    /// The state with these parts.
    pub closed spec fn made(kind: FileStateKind, len: u64, content_hash: Option<u64>) -> FileState {
        FileState { kind, len, content_hash }
    }

    /// The state that an observation shows.
    pub open spec fn of(observation: Observation) -> FileState {
        match observation {
            Observation::Missing => FileState::missing(),
            Observation::File { len, contents } => FileState::made(
                FileStateKind::File,
                len,
                Some(content_hash(contents@)),
            ),
            Observation::Directory { len } => FileState::made(FileStateKind::Directory, len, None),
            Observation::Other { len } => FileState::made(FileStateKind::Other, len, None),
        }
    }

    /// The state of a regular file with this length and content hash.
    pub fn of_file(len: u64, hash: u64) -> (r: Self)
        ensures
            r == FileState::made(FileStateKind::File, len, Some(hash)),
    {
        FileState { kind: FileStateKind::File, len, content_hash: Some(hash) }
    }

    /// The state that an observation of a path shows.
    pub fn capture(observation: &Observation) -> (r: Self)
        ensures
            r == FileState::of(*observation),
    {
        match observation {
            Observation::Missing => FileState {
                kind: FileStateKind::Missing,
                len: 0,
                content_hash: None,
            },
            Observation::File { len, contents } => FileState::of_file(*len, hash_contents(contents)),
            Observation::Directory { len } => FileState {
                kind: FileStateKind::Directory,
                len: *len,
                content_hash: None,
            },
            Observation::Other { len } => FileState {
                kind: FileStateKind::Other,
                len: *len,
                content_hash: None,
            },
        }
    }

    /// Whether the two states are equal.
    pub fn same(&self, other: &FileState) -> (r: bool)
        ensures
            r == (*self == *other),
    {
        self.kind == other.kind && self.len == other.len && match (self.content_hash, other.content_hash) {
            (Some(a), Some(b)) => a == b,
            (None, None) => true,
            _ => false,
        }
    }
}

/// States are equal exactly when kind, length and content hash are.
pub proof fn state_equality(
    a_kind: FileStateKind,
    a_len: u64,
    a_hash: Option<u64>,
    b_kind: FileStateKind,
    b_len: u64,
    b_hash: Option<u64>,
)
    ensures
        FileState::made(a_kind, a_len, a_hash) == FileState::made(b_kind, b_len, b_hash) <==> a_kind
            == b_kind && a_len == b_len && a_hash == b_hash,
{
}

/// The state of a file is that of its contents: it stays the same as long as they do, and an edit gives
/// it another one even where the length stays the same, unless the hash does too.
pub proof fn contents_decide_the_state(a: Observation, b: Observation)
    requires
        a is File,
        b is File,
        a->File_len == b->File_len,
    ensures
        a->File_contents@ == b->File_contents@ ==> FileState::of(a) == FileState::of(b),
        content_hash(a->File_contents@) != content_hash(b->File_contents@) ==> FileState::of(a)
            != FileState::of(b),
{
}

/// The classes of filesystem notifications.
#[derive(Clone, Copy, Debug, PartialEq, Eq, Structural)]
pub enum NotificationKind {
    Any,
    Access,
    Create,
    Modify,
    Remove,
    Other,
}

/// A debounced filesystem notification. A path that is not UTF-8 is `None`.
#[derive(Debug)]
pub struct Notification {
    pub kind: NotificationKind,
    pub paths: Vec<Option<String>>,
}

/// A notification named a path that is not UTF-8.
#[derive(Clone, Copy, Debug, PartialEq, Eq, Structural)]
pub struct NonUtf8Path;

/// Whether notification `n` tells of a change to a path with this text.
pub open spec fn mutates(n: Notification, path: Seq<char>) -> bool {
    n.kind != NotificationKind::Access && exists|j: int|
        0 <= j < n.paths@.len() && (#[trigger] n.paths@[j]) is Some && n.paths@[j]->0@ == path
}

/// Whether notification `n` tells of a change to a path that is not UTF-8.
pub open spec fn mutates_non_utf8(n: Notification) -> bool {
    n.kind != NotificationKind::Access && exists|j: int|
        0 <= j < n.paths@.len() && (#[trigger] n.paths@[j]) is None
}

/// The paths that the notifications tell of changes to, each once. Accesses change nothing.
pub fn mutation_paths(events: &Vec<Notification>) -> (r: Result<SortedSet<FilePath>, NonUtf8Path>)
    ensures
        match r {
            Ok(paths) => {
                &&& forall|i: int| 0 <= i < events@.len() ==> !mutates_non_utf8(#[trigger] events@[i])
                &&& sorted::<FilePath>(paths@)
                &&& forall|p: Seq<char>|
                    paths@.contains(p) ==> exists|i: int|
                        0 <= i < events@.len() && #[trigger] mutates(events@[i], p)
                &&& forall|i: int, p: Seq<char>|
                    0 <= i < events@.len() && #[trigger] mutates(events@[i], p) ==> has_key::<FilePath>(
                        paths@,
                        path_key(p),
                    )
            },
            Err(_) => exists|i: int|
                0 <= i < events@.len() && mutates_non_utf8(#[trigger] events@[i]),
        },
{
    let mut paths: SortedSet<FilePath> = SortedSet::new();
    let mut i: usize = 0;
    while i < events.len()
        invariant
            i <= events@.len(),
            sorted::<FilePath>(paths@),
            forall|n: int| 0 <= n < i ==> !mutates_non_utf8(#[trigger] events@[n]),
            forall|p: Seq<char>|
                paths@.contains(p) ==> exists|n: int|
                    0 <= n < i && #[trigger] mutates(events@[n], p),
            forall|n: int, p: Seq<char>|
                0 <= n < i && #[trigger] mutates(events@[n], p) ==> has_key::<FilePath>(
                    paths@,
                    path_key(p),
                ),
        decreases events@.len() - i,
    {
        let event = &events[i];
        if event.kind != NotificationKind::Access {
            let mut j: usize = 0;
            while j < event.paths.len()
                invariant
                    i < events@.len(),
                    *event == events@[i as int],
                    event.kind != NotificationKind::Access,
                    j <= event.paths@.len(),
                    sorted::<FilePath>(paths@),
                    forall|n: int| 0 <= n < j ==> (#[trigger] event.paths@[n]) is Some,
                    forall|p: Seq<char>|
                        paths@.contains(p) ==> exists|n: int|
                            0 <= n <= i && #[trigger] mutates(events@[n], p),
                    forall|n: int, p: Seq<char>|
                        0 <= n < i && #[trigger] mutates(events@[n], p) ==> has_key::<FilePath>(
                            paths@,
                            path_key(p),
                        ),
                    forall|n: int|
                        0 <= n < j ==> has_key::<FilePath>(
                            paths@,
                            path_key((#[trigger] event.paths@[n])->0@),
                        ),
                decreases event.paths@.len() - j,
            {
                match &event.paths[j] {
                    Some(text) => {
                        let path = FilePath::new(text.clone());
                        let ghost p = path@;
                        let ghost before = paths@;
                        proof {
                            assert(event.paths@[j as int] is Some);
                            assert(mutates(events@[i as int], p));
                        }
                        let _ = paths.insert(path);
                        proof {
                            assert(has_key::<FilePath>(paths@, path_key(p)));
                        }
                    },
                    None => {
                        proof {
                            assert(event.paths@[j as int] is None);
                            assert(mutates_non_utf8(events@[i as int]));
                        }
                        return Err(NonUtf8Path);
                    },
                }
                j = j + 1;
            }
        }
        i = i + 1;
    }
    Ok(paths)
}

/// The change at each path, by whether something exists there now. A batch may hold contradictory
/// notifications of one path; what stands there in the end decides.
pub fn file_events_from_action(paths: &SortedSet<FilePath>, exists: &Vec<bool>) -> (r: SortedSet<
    FileEvent,
>)
    requires
        exists@.len() == paths@.len(),
    ensures
        sorted::<FileEvent>(r@),
        forall|v: FileEventView| #[trigger]
            r@.contains(v) <==> exists|i: int|
                0 <= i < paths@.len() && v == (if #[trigger] exists@[i] {
                    FileEventView::Modify(paths@[i])
                } else {
                    FileEventView::Remove(paths@[i])
                }),
{
    paths.order();
    let mut events: SortedSet<FileEvent> = SortedSet::new();
    let mut i: usize = 0;
    while i < paths.len()
        invariant
            i <= paths@.len(),
            exists@.len() == paths@.len(),
            sorted::<FilePath>(paths@),
            sorted::<FileEvent>(events@),
            forall|v: FileEventView| #[trigger]
                events@.contains(v) <==> exists|n: int|
                    0 <= n < i && v == (if #[trigger] exists@[n] {
                        FileEventView::Modify(paths@[n])
                    } else {
                        FileEventView::Remove(paths@[n])
                    }),
        decreases paths@.len() - i,
    {
        let path = paths.at(i).clone();
        let event = if exists[i] {
            FileEvent::Modify(path)
        } else {
            FileEvent::Remove(path)
        };
        let ghost before = events@;
        let ghost new = event@;
        proof {
            assert(!has_key::<FileEvent>(before, FileEvent::key(new))) by {
                if has_key::<FileEvent>(before, FileEvent::key(new)) {
                    let n = choose|n: int|
                        0 <= n < before.len() && FileEvent::key(#[trigger] before[n]) == FileEvent::key(new);
                    assert(before.contains(before[n]));
                    let m = choose|m: int|
                        0 <= m < i && before[n] == (if #[trigger] exists@[m] {
                            FileEventView::Modify(paths@[m])
                        } else {
                            FileEventView::Remove(paths@[m])
                        });
                    assert(key_less(FilePath::key(paths@[m]), FilePath::key(paths@[i as int])));
                    lemma_key_total(path_key(paths@[m]), path_key(paths@[i as int]));
                    assert(path_parts(paths@[m]) == path_parts(paths@[i as int]));
                }
            }
        }
        let _ = events.insert(event);
        proof {
            assert forall|v: FileEventView| #[trigger] events@.contains(v) <==> exists|n: int|
                0 <= n < i + 1 && v == (if #[trigger] exists@[n] {
                    FileEventView::Modify(paths@[n])
                } else {
                    FileEventView::Remove(paths@[n])
                }) by {
                if v == new {
                    assert(v == (if exists@[i as int] {
                        FileEventView::Modify(paths@[i as int])
                    } else {
                        FileEventView::Remove(paths@[i as int])
                    }));
                }
            }
        }
        i = i + 1;
    }
    events
}

/// The states of the event paths: the map takes each path to what was observed there.
pub open spec fn states_of(events: Seq<FileEventView>, observed: Seq<Observation>) -> Map<Key, FileState>
    decreases events.len(),
{
    if events.len() == 0 || observed.len() == 0 {
        Map::empty()
    } else {
        states_of(events.drop_last(), observed.drop_last()).insert(
            events.last().path_key(),
            FileState::of(observed.last()),
        )
    }
}

/// The event paths, each once. Of two events about the same path, the first gives its text.
pub open spec fn state_paths(events: Seq<FileEventView>) -> Seq<Seq<char>>
    decreases events.len(),
{
    if events.len() == 0 {
        seq![]
    } else {
        with::<FilePath>(state_paths(events.drop_last()), events.last().path())
    }
}

/// Records the state of each event path, as it was observed in the order of the events.
pub fn file_states(events: &SortedSet<FileEvent>, observed: &Vec<Observation>) -> (r: SortedMap<
    FilePath,
    FileState,
>)
    requires
        observed@.len() == events@.len(),
    ensures
        r@ == states_of(events@, observed@),
        r.key_list() == state_paths(events@),
{
    let mut states: SortedMap<FilePath, FileState> = SortedMap::new();
    let mut i: usize = 0;
    proof {
        assert(events@.take(0).len() == 0);
    }
    while i < events.len()
        invariant
            i <= events@.len(),
            observed@.len() == events@.len(),
            states@ == states_of(events@.take(i as int), observed@.take(i as int)),
            states.key_list() == state_paths(events@.take(i as int)),
        decreases events@.len() - i,
    {
        let state = FileState::capture(&observed[i]);
        states.insert(events.at(i).as_path().clone(), state);
        proof {
            assert(events@.take(i + 1).drop_last() =~= events@.take(i as int));
            assert(observed@.take(i + 1).drop_last() =~= observed@.take(i as int));
        }
        i = i + 1;
    }
    proof {
        assert(events@.take(events@.len() as int) =~= events@);
        assert(observed@.take(observed@.len() as int) =~= observed@);
    }
    states
}

/// States tell apart what stands at a path: different kinds of things, and things of different lengths, have different
/// states. That nothing stands there has a state of its own.
pub proof fn states_tell_things_apart(a: u64, b: u64, x: Vec<u8>, y: Vec<u8>)
    ensures
        ({
            let missing = FileState::of(Observation::Missing);
            let file = FileState::of(Observation::File { len: a, contents: x });
            let directory = FileState::of(Observation::Directory { len: a });
            let other = FileState::of(Observation::Other { len: a });
            &&& missing != file && missing != directory && missing != other
            &&& file != directory && file != other && directory != other
            &&& a != b ==> file != FileState::of(Observation::File { len: b, contents: y })
            &&& a != b ==> directory != FileState::of(Observation::Directory { len: b })
            &&& a != b ==> other != FileState::of(Observation::Other { len: b })
        }),
{
}

/// Each changed path has the state that was observed for it; of two changes at the same path the last counts. No other
/// path has a state.
pub proof fn each_path_has_its_state(events: Seq<FileEventView>, observed: Seq<Observation>, i: int, k: Key)
    requires
        events.len() == observed.len(),
    ensures
        states_of(events, observed).contains_key(k) <==> exists|j: int|
            0 <= j < events.len() && (#[trigger] events[j]).path_key() == k,
        0 <= i < events.len() && events[i].path_key() == k && (forall|j: int|
            i < j < events.len() ==> (#[trigger] events[j]).path_key() != k) ==> states_of(events, observed)[k]
            == FileState::of(observed[i]),
    decreases events.len(),
{
    if events.len() > 0 {
        let rest = events.drop_last();
        let seen = observed.drop_last();
        let last = events.len() - 1;
        each_path_has_its_state(rest, seen, i, k);
        if states_of(rest, seen).contains_key(k) {
            let j = choose|j: int| 0 <= j < rest.len() && (#[trigger] rest[j]).path_key() == k;
            assert(events[j] == rest[j]);
        }
        if events.last().path_key() == k {
            assert(events[last].path_key() == k);
        }
        if exists|j: int| 0 <= j < events.len() && (#[trigger] events[j]).path_key() == k {
            let j = choose|j: int| 0 <= j < events.len() && (#[trigger] events[j]).path_key() == k;
            if j < last {
                assert(rest[j] == events[j]);
            }
        }
        if 0 <= i < last && events[i].path_key() == k && (forall|j: int|
            i < j < events.len() ==> (#[trigger] events[j]).path_key() != k) {
            assert(rest[i] == events[i]);
            assert(events[last].path_key() != k);
            assert forall|j: int| i < j < rest.len() implies (#[trigger] rest[j]).path_key() != k by {
                assert(rest[j] == events[j]);
            }
        }
    }
}

/// Two events are the same change exactly if they are of the same kind and their paths have the same components; the
/// changes of files that are there come before those of files that are gone.
pub proof fn events_are_told_apart(a: FileEventView, b: FileEventView)
    ensures
        FileEvent::key(a) == FileEvent::key(b) <==> (a is Modify <==> b is Modify) && path_parts(a.path()) == path_parts(
            b.path(),
        ),
        a is Modify && b is Remove ==> key_less(FileEvent::key(a), FileEvent::key(b)),
        a.path_key() == b.path_key() <==> path_parts(a.path()) == path_parts(b.path()),
{
}

/// A notification tells of a change to each of its paths, unless it is of an access.
pub proof fn accesses_change_nothing(n: Notification, i: int)
    requires
        0 <= i < n.paths@.len(),
    ensures
        n.kind is Access ==> !mutates_non_utf8(n) && (n.paths@[i] is Some ==> !mutates(n, n.paths@[i]->0@)),
        !(n.kind is Access) && n.paths@[i] is Some ==> mutates(n, n.paths@[i]->0@),
        !(n.kind is Access) && n.paths@[i] is None ==> mutates_non_utf8(n),
{
}

/// The kind of a state is that of what was observed, and so is its length; only a file has a hash.
pub proof fn states_show_what_was_observed(o: Observation, kind: FileStateKind, len: u64, hash: Option<u64>)
    requires
        FileState::of(o) == FileState::made(kind, len, hash),
    ensures
        kind is Missing <==> o is Missing,
        kind is File <==> o is File,
        kind is Directory <==> o is Directory,
        kind is Other <==> o is Other,
        hash is Some <==> o is File,
        o matches Observation::Directory { len: l } ==> len == l,
        o matches Observation::Other { len: l } ==> len == l,
        o is Missing ==> len == 0,
{
}

} // verus!
