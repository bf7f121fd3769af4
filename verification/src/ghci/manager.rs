//! What the manager of a session decides: which changes are still to be dispatched, when a running
//! reload gives way to a newer change, and how a session that died is replaced.

use crate::event_filter::{FileEvent, FileEventView, FileState};
use crate::path::FilePath;
use crate::sorted::{
    has_key, lemma_filter, lemma_key_total, lemma_with, sorted, sorted_determined, with, Key, Keyed, SortedMap,
    SortedSet,
};
use crate::text::join;
use crate::text::{joined, texts};
use vstd::prelude::*;

pub mod details;
pub mod handle;
pub mod restart;
pub mod run;

verus! {

/// An event that the watcher sends to the manager.
#[derive(Debug)]
pub enum WatcherEvent {
    /// Reload the session.
    Reload {
        /// The changes to respond to.
        events: SortedSet<FileEvent>,
        /// The state of each changed path when the batch was delivered.
        states: SortedMap<FilePath, FileState>,
        /// The Haskell files under all watched roots.
        haskell_files: SortedSet<FilePath>,
        /// The contents that the result of this compilation must be validated against.
        source_snapshot: SortedMap<FilePath, FileState>,
        /// Whether a temporary watch for startup retries produced the event.
        startup_retry: bool,
    },
}

/// The model of a [`WatcherEvent`].
pub struct ReloadView {
    pub events: Seq<FileEventView>,
    pub states: Map<Key, FileState>,
    pub haskell_files: Seq<Seq<char>>,
    pub source_snapshot: Map<Key, FileState>,
    pub startup_retry: bool,
}

impl View for WatcherEvent {
    type V = ReloadView;

    open spec fn view(&self) -> ReloadView {
        match self {
            WatcherEvent::Reload { events, states, haskell_files, source_snapshot, startup_retry } => ReloadView {
                events: events@,
                states: states@,
                haskell_files: haskell_files@,
                source_snapshot: source_snapshot@,
                startup_retry: *startup_retry,
            },
        }
    }
}

/// The value of a key, if the map has it.
pub open spec fn lookup(m: Map<Key, FileState>, k: Key) -> Option<FileState> {
    if m.contains_key(k) {
        Some(m[k])
    } else {
        None
    }
}

/// The events of `s` at other paths.
pub open spec fn without_path(s: Seq<FileEventView>, k: Key) -> Seq<FileEventView> {
    s.filter(|e: FileEventView| e.path_key() != k)
}

/// The events of `a`, each replaced by the events of `b` at the same path, the last of which stays.
pub open spec fn merged_events(a: Seq<FileEventView>, b: Seq<FileEventView>) -> Seq<FileEventView>
    decreases b.len(),
{
    if b.len() == 0 {
        a
    } else {
        with::<FileEvent>(without_path(merged_events(a, b.drop_last()), b.last().path_key()), b.last())
    }
}

impl ReloadView {
    /// This event with the newer event `other` added to it.
    pub open spec fn merged(self, other: ReloadView) -> ReloadView {
        ReloadView {
            events: merged_events(self.events, other.events),
            states: self.states.union_prefer_right(other.states),
            haskell_files: other.haskell_files,
            source_snapshot: other.source_snapshot,
            startup_retry: self.startup_retry || other.startup_retry,
        }
    }

    /// The changes whose captured state differs from the applied one.
    pub open spec fn unapplied(self, applied: Map<Key, FileState>) -> Seq<FileEventView> {
        self.events.filter(
            |e: FileEventView| lookup(self.states, e.path_key()) != lookup(applied, e.path_key()),
        )
    }

    /// This event without the changes that are applied already.
    pub open spec fn pruned(self, applied: Map<Key, FileState>) -> ReloadView {
        ReloadView { events: self.unapplied(applied), ..self }
    }

    /// Whether neither the changed files nor the set of Haskell files differ from what is applied.
    pub open spec fn is_applied(
        self,
        applied: Map<Key, FileState>,
        applied_files: Option<Seq<Seq<char>>>,
    ) -> bool {
        self.unapplied(applied).len() == 0 && applied_files is Some && same_files(
            applied_files->0,
            self.haskell_files,
        )
    }

    /// Whether the changes are in order and the state of each was captured.
    pub open spec fn captured(self) -> bool {
        &&& sorted::<FileEvent>(self.events)
        &&& forall|e: FileEventView| #[trigger]
            self.events.contains(e) ==> self.states.contains_key(e.path_key())
    }

    /// The paths of the changes, one to a line, if there is a change.
    pub open spec fn affected_paths(self) -> Option<Seq<char>> {
        if self.events.len() == 0 {
            None
        } else {
            Some(
                joined(
                    Seq::new(self.events.len(), |i: int| "  - "@ + self.events[i].path()),
                    "\n"@,
                ),
            )
        }
    }
}

/// Whether two sets of files hold the same paths.
pub open spec fn same_files(a: Seq<Seq<char>>, b: Seq<Seq<char>>) -> bool {
    forall|k: Key| has_key::<FilePath>(a, k) <==> has_key::<FilePath>(b, k)
}

/// The files of a snapshot option.
pub open spec fn files_view(files: Option<SortedSet<FilePath>>) -> Option<Seq<Seq<char>>> {
    match files {
        Some(files) => Some(files@),
        None => None,
    }
}

fn states_differ(a: Option<&FileState>, b: Option<&FileState>) -> (r: bool)
    ensures
        r == (match (a, b) {
            (Some(a), Some(b)) => *a != *b,
            (None, None) => false,
            _ => true,
        }),
{
    match (a, b) {
        (Some(a), Some(b)) => !a.same(b),
        (None, None) => false,
        _ => true,
    }
}

impl WatcherEvent {
    /// Another event like this one.
    pub fn duplicate(&self) -> (r: Self)
        ensures
            r@ == self@,
    {
        match self {
            WatcherEvent::Reload { events, states, haskell_files, source_snapshot, startup_retry } => WatcherEvent::Reload {
                events: events.duplicate(),
                states: states.duplicate(),
                haskell_files: haskell_files.duplicate(),
                source_snapshot: source_snapshot.duplicate(),
                startup_retry: *startup_retry,
            },
        }
    }

    /// Adds a newer event, so that no work is lost: of each path the newest change and state stay,
    /// and the newer snapshots replace the older ones.
    pub fn merge(&mut self, other: WatcherEvent)
        ensures
            final(self)@ == old(self)@.merged(other@),
    {
        let WatcherEvent::Reload { events, states, haskell_files, source_snapshot, startup_retry } = self;
        let WatcherEvent::Reload {
            events: other_events,
            states: other_states,
            haskell_files: other_haskell_files,
            source_snapshot: other_source_snapshot,
            startup_retry: other_startup_retry,
        } = other;
        replace_events(events, &other_events);
        states.extend(&other_states);
        *haskell_files = other_haskell_files;
        *source_snapshot = other_source_snapshot;
        *startup_retry = *startup_retry || other_startup_retry;
    }

    /// Drops the changes whose captured contents have been dispatched already. Returns whether
    /// neither contents nor the complete set of Haskell files changed.
    pub fn discard_applied(
        &mut self,
        applied_states: &SortedMap<FilePath, FileState>,
        applied_haskell_files: &Option<SortedSet<FilePath>>,
    ) -> (r: bool)
        ensures
            final(self)@ == old(self)@.pruned(applied_states@),
            r == old(self)@.is_applied(applied_states@, files_view(*applied_haskell_files)),
    {
        let WatcherEvent::Reload { events, states, haskell_files, .. } = self;
        retain_unapplied(events, states, applied_states);
        if !events.is_empty() {
            return false;
        }
        match applied_haskell_files {
            Some(applied) => applied.same_keys(haskell_files),
            None => false,
        }
    }

    /// Records this event as dispatched.
    pub fn mark_applied(
        &self,
        applied_states: &mut SortedMap<FilePath, FileState>,
        applied_haskell_files: &mut Option<SortedSet<FilePath>>,
    )
        ensures
            final(applied_states)@ == old(applied_states)@.union_prefer_right(self@.states),
            files_view(*final(applied_haskell_files)) == Some(self@.haskell_files),
    {
        let WatcherEvent::Reload { states, haskell_files, .. } = self;
        applied_states.extend(states);
        *applied_haskell_files = Some(haskell_files.duplicate());
    }

    /// The Haskell files of the snapshot.
    pub fn haskell_files(&self) -> (r: SortedSet<FilePath>)
        ensures
            r@ == self@.haskell_files,
    {
        let WatcherEvent::Reload { haskell_files, .. } = self;
        haskell_files.duplicate()
    }

    /// The paths of the changes, one to a line.
    pub fn affected_paths(&self) -> (r: Option<String>)
        ensures
            match r {
                Some(text) => self@.affected_paths() == Some(text@),
                None => self@.affected_paths() is None,
            },
    {
        let WatcherEvent::Reload { events, .. } = self;
        if events.is_empty() {
            return None;
        }
        let mut lines: Vec<String> = Vec::new();
        let mut i: usize = 0;
        while i < events.len()
            invariant
                i <= events@.len(),
                texts(lines@) == Seq::new(i as nat, |n: int| "  - "@ + events@[n].path()),
            decreases events@.len() - i,
        {
            let mut line = String::new();
            line.append("  - ");
            line.append(events.at(i).as_path().as_str());
            let ghost before = lines@;
            proof {
                assert(line@ =~= "  - "@ + events@[i as int].path());
            }
            lines.push(line);
            i = i + 1;
            proof {
                assert(texts(lines@) =~= texts(before).push("  - "@ + events@[i - 1].path()));
                assert(Seq::new(i as nat, |n: int| "  - "@ + events@[n].path()) =~= Seq::new(
                    (i - 1) as nat,
                    |n: int| "  - "@ + events@[n].path(),
                ).push("  - "@ + events@[i - 1].path()));
            }
        }
        proof {
            assert(texts(lines@) =~= Seq::new(self@.events.len(), |n: int| "  - "@ + self@.events[n].path()));
        }
        Some(join(&lines, "\n"))
    }
}

/// Replaces the events of `events` by those of `other` at the same paths.
fn replace_events(events: &mut SortedSet<FileEvent>, other: &SortedSet<FileEvent>)
    ensures
        final(events)@ == merged_events(old(events)@, other@),
{
    let ghost before = events@;
    let mut i: usize = 0;
    proof {
        assert(other@.take(0).len() == 0);
    }
    while i < other.len()
        invariant
            i <= other@.len(),
            events@ == merged_events(before, other@.take(i as int)),
        decreases other@.len() - i,
    {
        let newer = other.at(i);
        remove_path(events, newer.as_path());
        let _ = events.insert(newer.clone());
        proof {
            assert(other@.take(i + 1).drop_last() =~= other@.take(i as int));
        }
        i = i + 1;
    }
    proof {
        assert(other@.take(other@.len() as int) =~= other@);
    }
}

/// Removes the events at `path`.
fn remove_path(events: &mut SortedSet<FileEvent>, path: &FilePath)
    ensures
        final(events)@ == without_path(old(events)@, FilePath::key(path@)),
{
    let ghost k = FilePath::key(path@);
    events.order();
    let mut keep: Vec<bool> = Vec::new();
    let mut i: usize = 0;
    while i < events.len()
        invariant
            i <= events@.len(),
            keep@.len() == i,
            k == FilePath::key(path@),
            forall|n: int| 0 <= n < i ==> #[trigger] keep@[n] == (events@[n].path_key() != k),
        decreases events@.len() - i,
    {
        proof {
            lemma_key_total(events@[i as int].path_key(), k);
        }
        let other = match events.at(i).as_path().rank_key(path) {
            crate::path::Rank::Same => false,
            _ => true,
        };
        keep.push(other);
        i = i + 1;
    }
    let kept = events.select(&keep);
    proof {
        lemma_selected(events@, keep@, kept@, |e: FileEventView| e.path_key() != k);
    }
    *events = kept;
}

/// Keeps the events whose captured state differs from the applied one.
fn retain_unapplied(
    events: &mut SortedSet<FileEvent>,
    states: &SortedMap<FilePath, FileState>,
    applied: &SortedMap<FilePath, FileState>,
)
    ensures
        final(events)@ == old(events)@.filter(
            |e: FileEventView| lookup(states@, e.path_key()) != lookup(applied@, e.path_key()),
        ),
{
    events.order();
    let mut keep: Vec<bool> = Vec::new();
    let mut i: usize = 0;
    while i < events.len()
        invariant
            i <= events@.len(),
            keep@.len() == i,
            forall|n: int|
                0 <= n < i ==> #[trigger] keep@[n] == (lookup(states@, events@[n].path_key()) != lookup(
                    applied@,
                    events@[n].path_key(),
                )),
        decreases events@.len() - i,
    {
        let path = events.at(i).as_path();
        keep.push(states_differ(states.get(path), applied.get(path)));
        i = i + 1;
    }
    let kept = events.select(&keep);
    proof {
        lemma_selected(
            events@,
            keep@,
            kept@,
            |e: FileEventView| lookup(states@, e.path_key()) != lookup(applied@, e.path_key()),
        );
    }
    *events = kept;
}

/// Selecting by a predicate is filtering.
proof fn lemma_selected(
    s: Seq<FileEventView>,
    keep: Seq<bool>,
    kept: Seq<FileEventView>,
    p: spec_fn(FileEventView) -> bool,
)
    requires
        sorted::<FileEvent>(s),
        keep.len() == s.len(),
        forall|i: int| 0 <= i < s.len() ==> #[trigger] keep[i] == p(s[i]),
        sorted::<FileEvent>(kept),
        forall|v: FileEventView| #[trigger]
            kept.contains(v) <==> exists|i: int| 0 <= i < s.len() && #[trigger] keep[i] && s[i] == v,
    ensures
        kept == s.filter(p),
{
    lemma_filter::<FileEvent>(s, p);
    assert forall|v: FileEventView| kept.contains(v) <==> s.filter(p).contains(v) by {
        if s.contains(v) && p(v) {
            let i = choose|i: int| 0 <= i < s.len() && s[i] == v;
            assert(keep[i]);
        }
    }
    sorted_determined::<FileEvent>(kept, s.filter(p));
}

/// Whether event `v` stays when the events of `b` are merged into those of `a`: it is the last
/// event of `b` at its path, or an event of `a` at a path where `b` has none.
pub open spec fn stays(a: Seq<FileEventView>, b: Seq<FileEventView>, v: FileEventView) -> bool {
    ||| exists|i: int|
        0 <= i < b.len() && #[trigger] b[i] == v && forall|j: int|
            i < j < b.len() ==> (#[trigger] b[j]).path_key() != v.path_key()
    ||| a.contains(v) && forall|j: int| 0 <= j < b.len() ==> (#[trigger] b[j]).path_key() != v.path_key()
}

/// Merging keeps, of each path, exactly the newest event, and keeps the order of events.
pub proof fn newest_event_stays(a: Seq<FileEventView>, b: Seq<FileEventView>)
    requires
        sorted::<FileEvent>(a),
        sorted::<FileEvent>(b),
    ensures
        sorted::<FileEvent>(merged_events(a, b)),
        forall|v: FileEventView| #[trigger] merged_events(a, b).contains(v) <==> stays(a, b, v),
    decreases b.len(),
{
    if b.len() > 0 {
        let t = b.drop_last();
        let x = b.last();
        let k = x.path_key();
        assert(sorted::<FileEvent>(t));
        newest_event_stays(a, t);
        let m = merged_events(a, t);
        lemma_filter::<FileEvent>(m, |e: FileEventView| e.path_key() != k);
        let f = without_path(m, k);
        assert(!has_key::<FileEvent>(f, FileEvent::key(x))) by {
            if has_key::<FileEvent>(f, FileEvent::key(x)) {
                let i = choose|i: int| 0 <= i < f.len() && FileEvent::key(#[trigger] f[i]) == FileEvent::key(x);
                assert(f.contains(f[i]));
            }
        }
        lemma_with::<FileEvent>(f, x);
        assert forall|v: FileEventView| #[trigger] merged_events(a, b).contains(v) <==> stays(a, b, v) by {
            if v == x {
                assert(b[b.len() - 1] == v);
            }
            if stays(a, t, v) && v.path_key() != k {
                if exists|i: int|
                    0 <= i < t.len() && #[trigger] t[i] == v && forall|j: int|
                        i < j < t.len() ==> (#[trigger] t[j]).path_key() != v.path_key() {
                    let i = choose|i: int|
                        0 <= i < t.len() && #[trigger] t[i] == v && forall|j: int|
                            i < j < t.len() ==> (#[trigger] t[j]).path_key() != v.path_key();
                    assert(b[i] == v);
                    assert forall|j: int| i < j < b.len() implies (#[trigger] b[j]).path_key() != v.path_key() by {
                        if j < t.len() {
                            assert(t[j] == b[j]);
                        }
                    }
                } else {
                    assert forall|j: int| 0 <= j < b.len() implies (#[trigger] b[j]).path_key() != v.path_key() by {
                        if j < t.len() {
                            assert(t[j] == b[j]);
                        }
                    }
                }
            }
            if stays(a, b, v) && v != x {
                if exists|i: int|
                    0 <= i < b.len() && #[trigger] b[i] == v && forall|j: int|
                        i < j < b.len() ==> (#[trigger] b[j]).path_key() != v.path_key() {
                    let i = choose|i: int|
                        0 <= i < b.len() && #[trigger] b[i] == v && forall|j: int|
                            i < j < b.len() ==> (#[trigger] b[j]).path_key() != v.path_key();
                    assert(i < t.len());
                    assert(t[i] == v);
                    assert(b[b.len() - 1].path_key() != v.path_key());
                    assert forall|j: int| i < j < t.len() implies (#[trigger] t[j]).path_key() != v.path_key() by {
                        assert(b[j] == t[j]);
                    }
                } else {
                    assert(b[b.len() - 1].path_key() != v.path_key());
                    assert forall|j: int| 0 <= j < t.len() implies (#[trigger] t[j]).path_key() != v.path_key() by {
                        assert(b[j] == t[j]);
                    }
                }
                assert(stays(a, t, v));
            }
        }
    }
}

/// If the older events are at different paths, so are the merged ones.
pub proof fn merging_keeps_paths_apart(a: Seq<FileEventView>, b: Seq<FileEventView>)
    requires
        sorted::<FileEvent>(a),
        sorted::<FileEvent>(b),
        forall|v: FileEventView, w: FileEventView|
            a.contains(v) && a.contains(w) && v.path_key() == w.path_key() ==> v == w,
    ensures
        forall|v: FileEventView, w: FileEventView| #[trigger]
            merged_events(a, b).contains(v) && #[trigger] merged_events(a, b).contains(w) && v.path_key()
                == w.path_key() ==> v == w,
{
    newest_event_stays(a, b);
    assert forall|v: FileEventView, w: FileEventView| #[trigger]
        merged_events(a, b).contains(v) && #[trigger] merged_events(a, b).contains(w) && v.path_key()
            == w.path_key() implies v == w by {
        let in_b = |u: FileEventView| exists|i: int|
            0 <= i < b.len() && #[trigger] b[i] == u && forall|j: int|
                i < j < b.len() ==> (#[trigger] b[j]).path_key() != u.path_key();
        if in_b(v) && in_b(w) {
            let i = choose|i: int|
                0 <= i < b.len() && #[trigger] b[i] == v && forall|j: int|
                    i < j < b.len() ==> (#[trigger] b[j]).path_key() != v.path_key();
            let n = choose|n: int|
                0 <= n < b.len() && #[trigger] b[n] == w && forall|j: int|
                    n < j < b.len() ==> (#[trigger] b[j]).path_key() != w.path_key();
            assert(b[i].path_key() == b[n].path_key());
        }
    }
}

/// Merging two events whose states were captured gives such an event again.
pub proof fn merging_keeps_states(a: ReloadView, b: ReloadView)
    requires
        a.captured(),
        b.captured(),
    ensures
        a.merged(b).captured(),
{
    newest_event_stays(a.events, b.events);
    assert forall|e: FileEventView| #[trigger] a.merged(b).events.contains(e) implies a.merged(
        b,
    ).states.contains_key(e.path_key()) by {
        assert(stays(a.events, b.events, e));
        if !a.events.contains(e) {
            let i = choose|i: int|
                0 <= i < b.events.len() && #[trigger] b.events[i] == e && forall|j: int|
                    i < j < b.events.len() ==> (#[trigger] b.events[j]).path_key() != e.path_key();
            assert(b.events.contains(b.events[i]));
        }
    }
}

/// An event that was marked as applied is discarded when it comes again.
pub proof fn marked_event_is_discarded(
    event: ReloadView,
    applied: Map<Key, FileState>,
)
    requires
        event.captured(),
    ensures
        event.is_applied(applied.union_prefer_right(event.states), Some(event.haskell_files)),
{
    let after = applied.union_prefer_right(event.states);
    let p = |e: FileEventView| lookup(event.states, e.path_key()) != lookup(after, e.path_key());
    lemma_filter::<FileEvent>(event.events, p);
    let rest = event.events.filter(p);
    if rest.len() > 0 {
        assert(rest.contains(rest[0]));
        assert(event.events.contains(rest[0]));
    }
}

/// An event is discarded only if each of its changes shows the state that is applied already and
/// the set of Haskell files is the applied one.
pub proof fn discarded_event_is_applied(
    event: ReloadView,
    applied: Map<Key, FileState>,
    applied_files: Option<Seq<Seq<char>>>,
)
    requires
        sorted::<FileEvent>(event.events),
        event.is_applied(applied, applied_files),
    ensures
        forall|e: FileEventView| #[trigger]
            event.events.contains(e) ==> lookup(event.states, e.path_key()) == lookup(
                applied,
                e.path_key(),
            ),
        applied_files is Some,
        same_files(applied_files->0, event.haskell_files),
{
    let p = |e: FileEventView| lookup(event.states, e.path_key()) != lookup(applied, e.path_key());
    lemma_filter::<FileEvent>(event.events, p);
    let rest = event.events.filter(p);
    assert forall|e: FileEventView| #[trigger] event.events.contains(e) implies lookup(
        event.states,
        e.path_key(),
    ) == lookup(applied, e.path_key()) by {
        if p(e) {
            assert(rest.contains(e));
        }
    }
}

/// A changed path whose captured state differs from the applied one is never dropped.
pub proof fn newer_state_is_kept(
    event: ReloadView,
    applied: Map<Key, FileState>,
    applied_files: Option<Seq<Seq<char>>>,
    e: FileEventView,
)
    requires
        sorted::<FileEvent>(event.events),
        event.events.contains(e),
        lookup(event.states, e.path_key()) != lookup(applied, e.path_key()),
    ensures
        event.pruned(applied).events.contains(e),
        !event.is_applied(applied, applied_files),
{
    let p = |e: FileEventView| lookup(event.states, e.path_key()) != lookup(applied, e.path_key());
    lemma_filter::<FileEvent>(event.events, p);
    assert(event.unapplied(applied) == event.events.filter(p));
    assert(p(e));
}

/// Whether some event of `s` is at the path with key `k`.
pub open spec fn touches(s: Seq<FileEventView>, k: Key) -> bool {
    exists|w: FileEventView| #[trigger] s.contains(w) && w.path_key() == k
}

/// Whether `v` is the last of the events of `s` at its path.
pub open spec fn last_at_path(s: Seq<FileEventView>, v: FileEventView) -> bool {
    s.contains(v) && forall|w: FileEventView| #[trigger]
        s.contains(w) && w.path_key() == v.path_key() ==> FileEvent::key(w).tag <= FileEvent::key(v).tag
}

proof fn lemma_stays(a: Seq<FileEventView>, b: Seq<FileEventView>, v: FileEventView)
    requires
        sorted::<FileEvent>(b),
    ensures
        stays(a, b, v) <==> last_at_path(b, v) || (a.contains(v) && !touches(b, v.path_key())),
{
    if last_at_path(b, v) {
        let i = choose|i: int| 0 <= i < b.len() && b[i] == v;
        assert forall|j: int| i < j < b.len() implies (#[trigger] b[j]).path_key() != v.path_key() by {
            assert(b.contains(b[j]));
            lemma_key_total(FileEvent::key(b[i]), FileEvent::key(b[j]));
            lemma_key_total(FileEvent::key(b[i]), FileEvent::key(b[i]));
        }
        assert(b[i] == v);
    }
    if exists|i: int|
        0 <= i < b.len() && #[trigger] b[i] == v && forall|j: int|
            i < j < b.len() ==> (#[trigger] b[j]).path_key() != v.path_key() {
        let i = choose|i: int|
            0 <= i < b.len() && #[trigger] b[i] == v && forall|j: int|
                i < j < b.len() ==> (#[trigger] b[j]).path_key() != v.path_key();
        assert forall|w: FileEventView| #[trigger]
            b.contains(w) && w.path_key() == v.path_key() implies FileEvent::key(w).tag <= FileEvent::key(
            v,
        ).tag by {
            let j = choose|j: int| 0 <= j < b.len() && b[j] == w;
            if j < i {
                assert(crate::sorted::key_less(FileEvent::key(b[j]), FileEvent::key(b[i])));
            }
        }
    }
    if a.contains(v) && !touches(b, v.path_key()) {
        assert forall|j: int| 0 <= j < b.len() implies (#[trigger] b[j]).path_key() != v.path_key() by {
            assert(b.contains(b[j]));
        }
    }
    if a.contains(v) && forall|j: int| 0 <= j < b.len() ==> (#[trigger] b[j]).path_key() != v.path_key() {
        if touches(b, v.path_key()) {
            let w = choose|w: FileEventView| #[trigger] b.contains(w) && w.path_key() == v.path_key();
            let j = choose|j: int| 0 <= j < b.len() && b[j] == w;
            assert(b[j].path_key() == v.path_key());
        }
    }
}

proof fn lemma_has_last(s: Seq<FileEventView>, k: Key) -> (v: FileEventView)
    requires
        touches(s, k),
    ensures
        last_at_path(s, v),
        v.path_key() == k,
{
    let w = choose|w: FileEventView| #[trigger] s.contains(w) && w.path_key() == k;
    if last_at_path(s, w) {
        w
    } else {
        let u = choose|u: FileEventView| #[trigger]
            s.contains(u) && u.path_key() == w.path_key() && FileEvent::key(u).tag > FileEvent::key(w).tag;
        u
    }
}

proof fn lemma_merged_members(a: Seq<FileEventView>, b: Seq<FileEventView>)
    requires
        sorted::<FileEvent>(a),
        sorted::<FileEvent>(b),
    ensures
        sorted::<FileEvent>(merged_events(a, b)),
        forall|v: FileEventView| #[trigger]
            merged_events(a, b).contains(v) <==> last_at_path(b, v) || (a.contains(v) && !touches(
                b,
                v.path_key(),
            )),
        forall|k: Key| #[trigger] touches(merged_events(a, b), k) <==> touches(a, k) || touches(b, k),
{
    newest_event_stays(a, b);
    assert forall|v: FileEventView| #[trigger] merged_events(a, b).contains(v) <==> last_at_path(b, v) || (
    a.contains(v) && !touches(b, v.path_key())) by {
        lemma_stays(a, b, v);
    }
    assert forall|k: Key| #[trigger] touches(merged_events(a, b), k) <==> touches(a, k) || touches(b, k) by {
        if touches(b, k) {
            let v = lemma_has_last(b, k);
            assert(merged_events(a, b).contains(v));
        } else if touches(a, k) {
            let w = choose|w: FileEventView| #[trigger] a.contains(w) && w.path_key() == k;
            assert(merged_events(a, b).contains(w));
        }
        if touches(merged_events(a, b), k) {
            let w = choose|w: FileEventView| #[trigger] merged_events(a, b).contains(w) && w.path_key() == k;
        }
    }
}

proof fn lemma_merged_events_associative(
    a: Seq<FileEventView>,
    b: Seq<FileEventView>,
    c: Seq<FileEventView>,
)
    requires
        sorted::<FileEvent>(a),
        sorted::<FileEvent>(b),
        sorted::<FileEvent>(c),
    ensures
        merged_events(merged_events(a, b), c) == merged_events(a, merged_events(b, c)),
{
    let ab = merged_events(a, b);
    let bc = merged_events(b, c);
    lemma_merged_members(a, b);
    lemma_merged_members(b, c);
    lemma_merged_members(ab, c);
    lemma_merged_members(a, bc);
    assert forall|v: FileEventView| merged_events(ab, c).contains(v) <==> merged_events(a, bc).contains(v) by {
        let k = v.path_key();
        assert(touches(bc, k) <==> touches(b, k) || touches(c, k));
        if touches(c, k) {
            assert(last_at_path(bc, v) <==> last_at_path(c, v)) by {
                if last_at_path(c, v) {
                    assert(bc.contains(v));
                    assert forall|w: FileEventView| #[trigger]
                        bc.contains(w) && w.path_key() == v.path_key() implies FileEvent::key(w).tag
                        <= FileEvent::key(v).tag by {
                        assert(last_at_path(c, w));
                    }
                }
            }
        } else {
            assert(last_at_path(bc, v) <==> last_at_path(b, v)) by {
                if last_at_path(b, v) {
                    assert(bc.contains(v));
                    assert forall|w: FileEventView| #[trigger]
                        bc.contains(w) && w.path_key() == v.path_key() implies FileEvent::key(w).tag
                        <= FileEvent::key(v).tag by {
                        if last_at_path(c, w) {
                            assert(c.contains(w));
                        }
                        assert(b.contains(w));
                    }
                }
                if last_at_path(bc, v) {
                    if last_at_path(c, v) {
                        assert(c.contains(v));
                    }
                    assert(b.contains(v));
                    assert forall|w: FileEventView| #[trigger]
                        b.contains(w) && w.path_key() == v.path_key() implies FileEvent::key(w).tag
                        <= FileEvent::key(v).tag by {
                        assert(bc.contains(w));
                    }
                }
            }
            if last_at_path(c, v) {
                assert(c.contains(v));
            }
        }
    }
    sorted_determined::<FileEvent>(merged_events(ab, c), merged_events(a, bc));
}

/// Merging is associative: it does not matter which of three events in a row are merged first.
pub proof fn merging_is_associative(a: ReloadView, b: ReloadView, c: ReloadView)
    requires
        sorted::<FileEvent>(a.events),
        sorted::<FileEvent>(b.events),
        sorted::<FileEvent>(c.events),
    ensures
        a.merged(b).merged(c) == a.merged(b.merged(c)),
{
    lemma_merged_events_associative(a.events, b.events, c.events);
    assert(a.states.union_prefer_right(b.states).union_prefer_right(c.states)
        =~= a.states.union_prefer_right(b.states.union_prefer_right(c.states)));
}

/// A merged event has the files and the snapshot of the newer one, of each path the newer state, and it is about
/// a startup retry if one of the two is.
pub proof fn merging_takes_the_newer(a: ReloadView, b: ReloadView, k: Key)
    ensures
        a.merged(b).haskell_files == b.haskell_files,
        a.merged(b).source_snapshot == b.source_snapshot,
        a.merged(b).startup_retry <==> a.startup_retry || b.startup_retry,
        lookup(b.states, k) is Some ==> lookup(a.merged(b).states, k) == lookup(b.states, k),
        lookup(b.states, k) is None ==> lookup(a.merged(b).states, k) == lookup(a.states, k),
{
}

/// An event counts as applied exactly if the state of each change is the applied one and the files are the same
/// paths as the applied ones.
pub proof fn applied_means_nothing_differs(
    event: ReloadView,
    applied: Map<Key, FileState>,
    applied_files: Option<Seq<Seq<char>>>,
)
    requires
        sorted::<FileEvent>(event.events),
    ensures
        event.is_applied(applied, applied_files) <==> applied_files is Some && (forall|k: Key|
            has_key::<FilePath>(applied_files->0, k) <==> has_key::<FilePath>(event.haskell_files, k)) && (forall|
            e: FileEventView,
        | #[trigger]
            event.events.contains(e) ==> lookup(event.states, e.path_key()) == lookup(applied, e.path_key())),
{
    let p = |e: FileEventView| lookup(event.states, e.path_key()) != lookup(applied, e.path_key());
    let rest = event.events.filter(p);
    lemma_filter::<FileEvent>(event.events, p);
    assert(rest == event.unapplied(applied));
    if rest.len() > 0 {
        assert(rest.contains(rest[0]));
        assert(event.events.contains(rest[0]) && p(rest[0]));
    } else {
        assert forall|e: FileEventView| #[trigger] event.events.contains(e) implies !p(e) by {
            if p(e) {
                assert(rest.contains(e));
            }
        }
    }
}

/// Of an event that is to be handled, exactly the changes are dropped whose state is the applied one; the rest of it
/// stays.
pub proof fn only_applied_changes_are_dropped(
    event: ReloadView,
    applied: Map<Key, FileState>,
    e: FileEventView,
)
    requires
        sorted::<FileEvent>(event.events),
    ensures
        event.pruned(applied).events.contains(e) <==> event.events.contains(e) && lookup(event.states, e.path_key())
            != lookup(applied, e.path_key()),
        event.pruned(applied).states == event.states,
        event.pruned(applied).haskell_files == event.haskell_files,
        event.pruned(applied).source_snapshot == event.source_snapshot,
        event.pruned(applied).startup_retry == event.startup_retry,
{
    let p = |c: FileEventView| lookup(event.states, c.path_key()) != lookup(applied, c.path_key());
    lemma_filter::<FileEvent>(event.events, p);
    assert(event.unapplied(applied) == event.events.filter(p));
}

} // verus!
