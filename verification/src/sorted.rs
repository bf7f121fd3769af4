//! Sets and maps kept in the order of their keys, each key held once.

use crate::path::{
    lemma_parts_total, lemma_parts_transitive, parts_less, path_parts, FilePath, NormalPath, NormalPathView,
    Rank,
};
use vstd::prelude::*;

verus! {

/// What an element is ordered and found by: first a number, then the components of a path.
pub struct Key {
    pub tag: int,
    pub parts: Seq<Seq<char>>,
}

/// Whether key `a` comes before key `b`.
pub open spec fn key_less(a: Key, b: Key) -> bool {
    a.tag < b.tag || (a.tag == b.tag && parts_less(a.parts, b.parts))
}

/// Of two keys either one comes first or they are the same.
pub proof fn lemma_key_total(a: Key, b: Key)
    ensures
        !(key_less(a, b) && key_less(b, a)),
        key_less(a, b) || key_less(b, a) || a == b,
        !key_less(a, a),
{
    lemma_parts_total(a.parts, b.parts);
    lemma_parts_total(a.parts, a.parts);
}

/// The order of keys is transitive.
pub proof fn lemma_key_transitive(a: Key, b: Key, c: Key)
    requires
        key_less(a, b),
        key_less(b, c),
    ensures
        key_less(a, c),
{
    if a.tag == b.tag && b.tag == c.tag {
        lemma_parts_transitive(a.parts, b.parts, c.parts);
    }
}

/// A type whose values are ordered and found by a key.
pub trait Keyed: View + Sized {
    /// The key of a value.
    spec fn key(v: Self::V) -> Key;

    /// How two values stand in the order of their keys.
    fn rank_key(&self, other: &Self) -> (r: Rank)
        ensures
            r == (if key_less(Self::key(self@), Self::key(other@)) {
                Rank::Before
            } else if Self::key(self@) == Self::key(other@) {
                Rank::Same
            } else {
                Rank::After
            }),
    ;

    /// Another value like this one.
    fn duplicate(&self) -> (r: Self)
        ensures
            r@ == self@,
    ;
}

/// The key of a path.
pub open spec fn path_key(path: Seq<char>) -> Key {
    Key { tag: 0, parts: path_parts(path) }
}

impl Keyed for FilePath {
    open spec fn key(v: Seq<char>) -> Key {
        path_key(v)
    }

    fn rank_key(&self, other: &Self) -> (r: Rank) {
        self.rank(other)
    }

    fn duplicate(&self) -> (r: Self) {
        self.clone()
    }
}

impl Keyed for NormalPath {
    open spec fn key(v: NormalPathView) -> Key {
        path_key(v.absolute)
    }

    fn rank_key(&self, other: &Self) -> (r: Rank) {
        let (a, b) = (self.absolute(), other.absolute());
        proof {
            assert(Self::key(self@) == path_key(a@));
            assert(Self::key(other@) == path_key(b@));
            lemma_key_total(path_key(a@), path_key(b@));
        }
        a.rank_key(b)
    }

    fn duplicate(&self) -> (r: Self) {
        self.clone()
    }
}

/// The views of a sequence of elements.
pub open spec fn views<T: View>(items: Seq<T>) -> Seq<T::V> {
    Seq::new(items.len(), |i: int| items[i]@)
}

/// Whether the elements stand in the strict order of their keys.
pub open spec fn sorted<T: Keyed>(s: Seq<T::V>) -> bool {
    forall|i: int, j: int| 0 <= i < j < s.len() ==> key_less(T::key(s[i]), T::key(s[j]))
}

/// Whether some element has this key.
pub open spec fn has_key<T: Keyed>(s: Seq<T::V>, k: Key) -> bool {
    exists|i: int| 0 <= i < s.len() && T::key(#[trigger] s[i]) == k
}

/// The keys of one more element of a sequence.
pub proof fn lemma_has_key_take<T: Keyed>(s: Seq<T::V>, i: int)
    requires
        0 <= i < s.len(),
    ensures
        forall|k: Key| #[trigger]
            has_key::<T>(s.take(i + 1), k) <==> has_key::<T>(s.take(i), k) || T::key(s[i]) == k,
{
    assert forall|k: Key| #[trigger]
        has_key::<T>(s.take(i + 1), k) <==> has_key::<T>(s.take(i), k) || T::key(s[i]) == k by {
        let a = s.take(i);
        let b = s.take(i + 1);
        if has_key::<T>(a, k) {
            let n = choose|n: int| 0 <= n < a.len() && T::key(#[trigger] a[n]) == k;
            assert(b[n] == a[n]);
        }
        if T::key(s[i]) == k {
            assert(b[i] == s[i]);
        }
        if has_key::<T>(b, k) {
            let n = choose|n: int| 0 <= n < b.len() && T::key(#[trigger] b[n]) == k;
            if n < i {
                assert(a[n] == b[n]);
            }
        }
    }
}

/// Two elements of a sorted sequence with the same key stand at the same place.
pub proof fn lemma_sorted_unique<T: Keyed>(s: Seq<T::V>, i: int, j: int)
    requires
        sorted::<T>(s),
        0 <= i < s.len(),
        0 <= j < s.len(),
        T::key(s[i]) == T::key(s[j]),
    ensures
        i == j,
{
    lemma_key_total(T::key(s[i]), T::key(s[j]));
}

/// A sorted sequence is determined by the elements that it holds.
pub proof fn sorted_determined<T: Keyed>(a: Seq<T::V>, b: Seq<T::V>)
    requires
        sorted::<T>(a),
        sorted::<T>(b),
        forall|v: T::V| a.contains(v) <==> b.contains(v),
    ensures
        a == b,
    decreases a.len(),
{
    if a.len() == 0 {
        if b.len() > 0 {
            assert(b.contains(b[0]));
        }
        assert(a =~= b);
    } else {
        assert(a.contains(a[0]));
        assert(b.contains(a[0]));
        let j = choose|j: int| 0 <= j < b.len() && b[j] == a[0];
        assert(b.contains(b[0]));
        assert(a.contains(b[0]));
        let i = choose|i: int| 0 <= i < a.len() && a[i] == b[0];
        if j > 0 {
            if i > 0 {
                lemma_key_total(T::key(a[0]), T::key(b[0]));
            }
        }
        assert(a[0] == b[0]);
        let x = a.skip(1);
        let y = b.skip(1);
        assert forall|v: T::V| x.contains(v) <==> y.contains(v) by {
            if x.contains(v) {
                let n = choose|n: int| 0 <= n < x.len() && x[n] == v;
                assert(a[n + 1] == v);
                assert(a.contains(v));
                let m = choose|m: int| 0 <= m < b.len() && b[m] == v;
                if m == 0 {
                    lemma_sorted_unique::<T>(a, 0, n + 1);
                }
                assert(y[m - 1] == v);
            }
            if y.contains(v) {
                let n = choose|n: int| 0 <= n < y.len() && y[n] == v;
                assert(b[n + 1] == v);
                assert(b.contains(v));
                let m = choose|m: int| 0 <= m < a.len() && a[m] == v;
                if m == 0 {
                    lemma_sorted_unique::<T>(b, 0, n + 1);
                }
                assert(x[m - 1] == v);
            }
        }
        sorted_determined::<T>(x, y);
        assert(a =~= seq![a[0]] + x);
        assert(b =~= seq![b[0]] + y);
    }
}

/// A set of elements in the order of their keys.
#[derive(Debug)]
pub struct SortedSet<T: Keyed> {
    items: Vec<T>,
}

impl<T: Keyed> View for SortedSet<T> {
    type V = Seq<T::V>;

    closed spec fn view(&self) -> Seq<T::V> {
        views(self.items@)
    }
}

impl<T: Keyed> SortedSet<T> {
    #[verifier::type_invariant]
    pub closed spec fn inv(self) -> bool {
        sorted::<T>(views(self.items@))
    }

    /// The empty set.
    pub fn new() -> (r: Self)
        ensures
            r@ == Seq::<T::V>::empty(),
    {
        let r = SortedSet { items: Vec::new() };
        proof {
            assert(r@ =~= Seq::<T::V>::empty());
        }
        r
    }

    /// The elements stand in the strict order of their keys.
    pub fn order(&self)
        ensures
            sorted::<T>(self@),
    {
        proof {
            use_type_invariant(self);
        }
    }

    /// The number of elements.
    pub fn len(&self) -> (r: usize)
        ensures
            r == self@.len(),
    {
        self.items.len()
    }

    /// Whether there is no element.
    pub fn is_empty(&self) -> (r: bool)
        ensures
            r == (self@.len() == 0),
    {
        self.items.len() == 0
    }

    /// The element at place `i`.
    pub fn at(&self, i: usize) -> (r: &T)
        requires
            i < self@.len(),
        ensures
            r@ == self@[i as int],
    {
        &self.items[i]
    }

    /// The number of elements whose keys come before that of `item`, and whether the next has it.
    fn place(&self, item: &T) -> (r: (usize, bool))
        ensures
            r.0 <= self@.len(),
            forall|i: int| 0 <= i < r.0 ==> key_less(T::key(#[trigger] self@[i]), T::key(item@)),
            r.1 == has_key::<T>(self@, T::key(item@)),
            r.1 ==> r.0 < self@.len() && T::key(self@[r.0 as int]) == T::key(item@),
            !r.1 ==> forall|i: int|
                r.0 <= i < self@.len() ==> key_less(T::key(item@), T::key(#[trigger] self@[i])),
    {
        proof {
            use_type_invariant(self);
        }
        let mut at: usize = 0;
        while at < self.items.len()
            invariant
                at <= self@.len(),
                sorted::<T>(self@),
                forall|i: int| 0 <= i < at ==> key_less(T::key(#[trigger] self@[i]), T::key(item@)),
            decreases self@.len() - at,
        {
            match self.items[at].rank_key(item) {
                Rank::Before => {},
                Rank::Same => {
                    proof {
                        assert(T::key(self@[at as int]) == T::key(item@));
                    }
                    return (at, true);
                },
                Rank::After => {
                    proof {
                        lemma_key_total(T::key(self@[at as int]), T::key(item@));
                        assert forall|i: int| at <= i < self@.len() implies key_less(
                            T::key(item@),
                            T::key(#[trigger] self@[i]),
                        ) by {
                            if i > at {
                                lemma_key_transitive(T::key(item@), T::key(self@[at as int]), T::key(self@[i]));
                            }
                        }
                        assert forall|i: int| 0 <= i < self@.len() implies T::key(#[trigger] self@[i])
                            != T::key(item@) by {
                            lemma_key_total(T::key(self@[i]), T::key(item@));
                            lemma_key_total(T::key(item@), T::key(item@));
                        }
                    }
                    return (at, false);
                },
            }
            at = at + 1;
        }
        proof {
            assert forall|i: int| 0 <= i < self@.len() implies T::key(#[trigger] self@[i]) != T::key(item@) by {
                lemma_key_total(T::key(item@), T::key(item@));
            }
        }
        (at, false)
    }

    /// The place of the element with the key of `item`.
    pub fn find(&self, item: &T) -> (r: Option<usize>)
        ensures
            match r {
                Some(i) => i < self@.len() && T::key(self@[i as int]) == T::key(item@),
                None => !has_key::<T>(self@, T::key(item@)),
            },
    {
        let (at, found) = self.place(item);
        if found {
            Some(at)
        } else {
            None
        }
    }

    /// Whether some element has the key of `item`.
    pub fn contains(&self, item: &T) -> (r: bool)
        ensures
            r == has_key::<T>(self@, T::key(item@)),
    {
        self.place(item).1
    }

    /// Adds `item` unless an element with its key is there already.
    pub fn insert(&mut self, item: T) -> (r: bool)
        ensures
            r == !has_key::<T>(old(self)@, T::key(item@)),
            final(self)@ == with::<T>(old(self)@, item@),
            sorted::<T>(final(self)@),
            !r ==> final(self)@ == old(self)@,
            r ==> forall|v: T::V| #[trigger]
                final(self)@.contains(v) <==> old(self)@.contains(v) || v == item@,
            r ==> final(self)@.len() == old(self)@.len() + 1,
            forall|k: Key| #[trigger]
                has_key::<T>(final(self)@, k) <==> has_key::<T>(old(self)@, k) || k == T::key(item@),
    {
        let (at, there) = self.place(&item);
        let ghost before = self@;
        proof {
            use_type_invariant(&*self);
        }
        if there {
            return false;
        }
        let mut items: Vec<T> = Vec::new();
        std::mem::swap(&mut items, &mut self.items);
        let ghost old_items = items@;
        items.insert(at, item);
        proof {
            let after = views(items@);
            assert(after =~= before.insert(at as int, item@));
            assert forall|i: int, j: int| 0 <= i < j < after.len() implies key_less(
                T::key(after[i]),
                T::key(after[j]),
            ) by {
                if i < at && j > at {
                    assert(after[i] == before[i] && after[j] == before[j - 1]);
                } else if i == at {
                    assert(after[j] == before[j - 1]);
                } else if j == at {
                    assert(after[i] == before[i]);
                } else if i > at {
                    assert(after[i] == before[i - 1] && after[j] == before[j - 1]);
                }
            }
            lemma_insert_members(before, at as int, item@);
            lemma_with::<T>(before, item@);
            assert forall|v: T::V| after.contains(v) <==> with::<T>(before, item@).contains(v) by {}
            sorted_determined::<T>(after, with::<T>(before, item@));
            assert forall|k: Key| #[trigger] has_key::<T>(after, k) <==> has_key::<T>(before, k) || k == T::key(
                item@,
            ) by {
                if has_key::<T>(before, k) {
                    let i = choose|i: int| 0 <= i < before.len() && T::key(#[trigger] before[i]) == k;
                    if i < at {
                        assert(after[i] == before[i]);
                    } else {
                        assert(after[i + 1] == before[i]);
                    }
                }
                if k == T::key(item@) {
                    assert(T::key(after[at as int]) == k);
                }
                if has_key::<T>(after, k) {
                    let i = choose|i: int| 0 <= i < after.len() && T::key(#[trigger] after[i]) == k;
                    if i < at {
                        assert(before[i] == after[i]);
                    } else if i > at {
                        assert(before[i - 1] == after[i]);
                    }
                }
            }
        }
        self.items = items;
        true
    }

    /// Another set with the same elements.
    pub fn duplicate(&self) -> (r: Self)
        ensures
            r@ == self@,
    {
        proof {
            use_type_invariant(self);
        }
        let mut items: Vec<T> = Vec::new();
        let mut i: usize = 0;
        while i < self.items.len()
            invariant
                i <= self.items@.len(),
                views(items@) == self@.take(i as int),
            decreases self.items@.len() - i,
        {
            let ghost before = items@;
            items.push(self.items[i].duplicate());
            i = i + 1;
            proof {
                assert(views(items@) =~= views(before).push(self@[i - 1]));
                assert(self@.take(i as int) =~= self@.take(i - 1).push(self@[i - 1]));
            }
        }
        proof {
            assert(self@.take(self@.len() as int) =~= self@);
        }
        SortedSet { items }
    }

    /// The elements at the places where `keep` holds.
    pub fn select(&self, keep: &Vec<bool>) -> (r: Self)
        requires
            keep@.len() == self@.len(),
        ensures
            sorted::<T>(r@),
            forall|v: T::V| #[trigger]
                r@.contains(v) <==> exists|i: int|
                    0 <= i < self@.len() && #[trigger] keep@[i] && self@[i] == v,
    {
        proof {
            use_type_invariant(self);
        }
        let mut items: Vec<T> = Vec::new();
        let mut i: usize = 0;
        while i < self.items.len()
            invariant
                i <= self.items@.len(),
                keep@.len() == self@.len(),
                sorted::<T>(self@),
                sorted::<T>(views(items@)),
                forall|v: T::V| #[trigger]
                    views(items@).contains(v) <==> exists|j: int|
                        0 <= j < i && #[trigger] keep@[j] && self@[j] == v,
            decreases self.items@.len() - i,
        {
            let ghost before = views(items@);
            if keep[i] {
                items.push(self.items[i].duplicate());
                proof {
                    let after = views(items@);
                    assert(after =~= before.push(self@[i as int]));
                    assert forall|a: int, b: int| 0 <= a < b < after.len() implies key_less(
                        T::key(after[a]),
                        T::key(after[b]),
                    ) by {
                        if b == before.len() {
                            assert(before.contains(before[a]));
                            let j = choose|j: int| 0 <= j < i && #[trigger] keep@[j] && self@[j] == before[a];
                        } else {
                            assert(after[a] == before[a] && after[b] == before[b]);
                        }
                    }
                    assert forall|v: T::V| #[trigger] after.contains(v) <==> exists|j: int|
                        0 <= j < i + 1 && #[trigger] keep@[j] && self@[j] == v by {
                        if after.contains(v) {
                            let n = choose|n: int| 0 <= n < after.len() && after[n] == v;
                            if n == before.len() {
                                assert(keep@[i as int]);
                            } else {
                                assert(before[n] == v);
                                assert(before.contains(v));
                            }
                        }
                        if exists|j: int| 0 <= j < i + 1 && #[trigger] keep@[j] && self@[j] == v {
                            let j = choose|j: int| 0 <= j < i + 1 && #[trigger] keep@[j] && self@[j] == v;
                            if j == i {
                                assert(after[before.len() as int] == v);
                            } else {
                                assert(before.contains(v));
                                let n = choose|n: int| 0 <= n < before.len() && before[n] == v;
                                assert(after[n] == v);
                            }
                        }
                    }
                }
            }
            i = i + 1;
        }
        SortedSet { items }
    }

    /// Whether the two sets hold the same keys.
    pub fn same_keys(&self, other: &Self) -> (r: bool)
        ensures
            r == (forall|k: Key| has_key::<T>(self@, k) <==> has_key::<T>(other@, k)),
    {
        let mut i: usize = 0;
        while i < self.items.len()
            invariant
                i <= self.items@.len(),
                forall|k: int| 0 <= k < i ==> has_key::<T>(other@, T::key(#[trigger] self@[k])),
            decreases self.items@.len() - i,
        {
            if !other.contains(&self.items[i]) {
                proof {
                    assert(has_key::<T>(self@, T::key(self@[i as int])));
                }
                return false;
            }
            i = i + 1;
        }
        let mut j: usize = 0;
        while j < other.items.len()
            invariant
                j <= other.items@.len(),
                forall|k: int| 0 <= k < j ==> has_key::<T>(self@, T::key(#[trigger] other@[k])),
            decreases other.items@.len() - j,
        {
            if !self.contains(&other.items[j]) {
                proof {
                    assert(has_key::<T>(other@, T::key(other@[j as int])));
                }
                return false;
            }
            j = j + 1;
        }
        true
    }
}

/// Inserting adds the one element.
pub proof fn lemma_insert_members<V>(s: Seq<V>, at: int, x: V)
    requires
        0 <= at <= s.len(),
    ensures
        forall|v: V| #[trigger] s.insert(at, x).contains(v) <==> s.contains(v) || v == x,
{
    let t = s.insert(at, x);
    assert forall|v: V| #[trigger] t.contains(v) <==> s.contains(v) || v == x by {
        if s.contains(v) {
            let i = choose|i: int| 0 <= i < s.len() && s[i] == v;
            if i < at {
                assert(t[i] == v);
            } else {
                assert(t[i + 1] == v);
            }
        }
        if v == x {
            assert(t[at] == v);
        }
        if t.contains(v) {
            let i = choose|i: int| 0 <= i < t.len() && t[i] == v;
            if i < at {
                assert(s[i] == v);
            } else if i > at {
                assert(s[i - 1] == v);
            }
        }
    }
}

/// The place of the element with key `k`.
pub open spec fn place_of<T: Keyed>(s: Seq<T::V>, k: Key) -> int {
    choose|i: int| 0 <= i < s.len() && T::key(#[trigger] s[i]) == k
}

/// The map from the keys of `names` to the values at the same places.
pub open spec fn map_of<T: Keyed, S>(names: Seq<T::V>, values: Seq<S>) -> Map<Key, S> {
    Map::new(|k: Key| has_key::<T>(names, k), |k: Key| values[place_of::<T>(names, k)])
}

proof fn lemma_map_at<T: Keyed, S>(names: Seq<T::V>, values: Seq<S>, i: int)
    requires
        sorted::<T>(names),
        names.len() == values.len(),
        0 <= i < names.len(),
    ensures
        map_of::<T, S>(names, values).contains_key(T::key(names[i])),
        map_of::<T, S>(names, values)[T::key(names[i])] == values[i],
{
    let k = T::key(names[i]);
    assert(has_key::<T>(names, k));
    lemma_sorted_unique::<T>(names, place_of::<T>(names, k), i);
}

/// A map from keys to values, in the order of the keys.
#[derive(Debug)]
pub struct SortedMap<K: Keyed, S> {
    names: Vec<K>,
    values: Vec<S>,
}

impl<K: Keyed, S> View for SortedMap<K, S> {
    type V = Map<Key, S>;

    open spec fn view(&self) -> Map<Key, S> {
        map_of::<K, S>(self.key_list(), self.value_list())
    }
}

impl<K: Keyed, S> SortedMap<K, S> {
    #[verifier::type_invariant]
    pub closed spec fn inv(self) -> bool {
        sorted::<K>(views(self.names@)) && self.names@.len() == self.values@.len()
    }

    /// The keys as they were first given, in order.
    pub closed spec fn key_list(&self) -> Seq<K::V> {
        views(self.names@)
    }

    /// The values, in the order of their keys.
    pub closed spec fn value_list(&self) -> Seq<S> {
        self.values@
    }

    /// The empty map.
    pub fn new() -> (r: Self)
        ensures
            r@ == Map::<Key, S>::empty(),
            r.key_list() == Seq::<K::V>::empty(),
    {
        let r: SortedMap<K, S> = SortedMap { names: Vec::new(), values: Vec::new() };
        proof {
            assert(r.key_list() =~= Seq::<K::V>::empty());
            assert(r@ =~= Map::<Key, S>::empty());
        }
        r
    }

    /// The keys stand in their strict order, each with one value.
    pub fn order(&self)
        ensures
            sorted::<K>(self.key_list()),
            self.key_list().len() == self.value_list().len(),
            forall|i: int|
                0 <= i < self.key_list().len() ==> self@.contains_key(K::key(#[trigger] self.key_list()[i]))
                    && self@[K::key(self.key_list()[i])] == self.value_list()[i],
    {
        proof {
            use_type_invariant(self);
            assert forall|i: int| 0 <= i < self.key_list().len() implies self@.contains_key(
                K::key(#[trigger] self.key_list()[i]),
            ) && self@[K::key(self.key_list()[i])] == self.value_list()[i] by {
                lemma_map_at::<K, S>(self.key_list(), self.value_list(), i);
            }
        }
    }

    /// The number of entries.
    pub fn len(&self) -> (r: usize)
        ensures
            r == self.key_list().len(),
            r == self.value_list().len(),
    {
        proof {
            use_type_invariant(self);
        }
        self.names.len()
    }

    /// The key at place `i`.
    pub fn key_at(&self, i: usize) -> (r: &K)
        requires
            i < self.key_list().len(),
        ensures
            r@ == self.key_list()[i as int],
    {
        &self.names[i]
    }

    /// The value at place `i`.
    pub fn value_at(&self, i: usize) -> (r: &S)
        requires
            i < self.value_list().len(),
        ensures
            *r == self.value_list()[i as int],
    {
        &self.values[i]
    }

    /// The number of keys that come before `name`, and whether the next one is its key.
    fn place(&self, name: &K) -> (r: (usize, bool))
        ensures
            r.0 <= self.names@.len(),
            forall|i: int| 0 <= i < r.0 ==> key_less(K::key(#[trigger] self.key_list()[i]), K::key(name@)),
            r.1 == has_key::<K>(self.key_list(), K::key(name@)),
            r.1 ==> r.0 < self.names@.len() && K::key(self.key_list()[r.0 as int]) == K::key(name@),
            !r.1 ==> forall|i: int|
                r.0 <= i < self.names@.len() ==> key_less(
                    K::key(name@),
                    K::key(#[trigger] self.key_list()[i]),
                ),
    {
        proof {
            use_type_invariant(self);
        }
        let ghost keys = self.key_list();
        let mut at: usize = 0;
        while at < self.names.len()
            invariant
                at <= self.names@.len(),
                keys == self.key_list(),
                sorted::<K>(keys),
                forall|i: int| 0 <= i < at ==> key_less(K::key(#[trigger] keys[i]), K::key(name@)),
            decreases self.names@.len() - at,
        {
            match self.names[at].rank_key(name) {
                Rank::Before => {},
                Rank::Same => {
                    proof {
                        assert(K::key(keys[at as int]) == K::key(name@));
                    }
                    return (at, true);
                },
                Rank::After => {
                    proof {
                        lemma_key_total(K::key(keys[at as int]), K::key(name@));
                        assert forall|i: int| at <= i < keys.len() implies key_less(
                            K::key(name@),
                            K::key(#[trigger] keys[i]),
                        ) by {
                            if i > at {
                                lemma_key_transitive(K::key(name@), K::key(keys[at as int]), K::key(keys[i]));
                            }
                        }
                        assert forall|i: int| 0 <= i < keys.len() implies K::key(#[trigger] keys[i])
                            != K::key(name@) by {
                            lemma_key_total(K::key(keys[i]), K::key(name@));
                            lemma_key_total(K::key(name@), K::key(name@));
                        }
                    }
                    return (at, false);
                },
            }
            at = at + 1;
        }
        proof {
            assert forall|i: int| 0 <= i < keys.len() implies K::key(#[trigger] keys[i]) != K::key(name@) by {
                lemma_key_total(K::key(name@), K::key(name@));
            }
        }
        (at, false)
    }

    /// The value of the key of `name`.
    pub fn get(&self, name: &K) -> (r: Option<&S>)
        ensures
            match r {
                Some(value) => self@.contains_key(K::key(name@)) && *value == self@[K::key(name@)],
                None => !self@.contains_key(K::key(name@)),
            },
    {
        proof {
            use_type_invariant(self);
        }
        let (at, there) = self.place(name);
        if there {
            proof {
                lemma_map_at::<K, S>(self.key_list(), self.value_list(), at as int);
            }
            Some(&self.values[at])
        } else {
            None
        }
    }

    /// Gives the key of `name` this value.
    pub fn insert(&mut self, name: K, value: S)
        ensures
            final(self)@ == old(self)@.insert(K::key(name@), value),
            final(self).key_list() == with::<K>(old(self).key_list(), name@),
            forall|v: K::V| #[trigger]
                final(self).key_list().contains(v) <==> old(self).key_list().contains(v) || (v == name@
                    && !old(self)@.contains_key(K::key(name@))),
    {
        let (at, there) = self.place(&name);
        let ghost keys = self.key_list();
        let ghost vals = self.value_list();
        let ghost k = K::key(name@);
        proof {
            use_type_invariant(&*self);
        }
        let mut taken: SortedMap<K, S> = SortedMap { names: Vec::new(), values: Vec::new() };
        std::mem::swap(&mut taken, self);
        let SortedMap { mut names, mut values } = taken;
        if there {
            values.set(at, value);
            proof {
                let new_vals = values@;
                let m = map_of::<K, S>(keys, new_vals);
                assert(m =~= map_of::<K, S>(keys, vals).insert(k, value)) by {
                    assert forall|q: Key| m.contains_key(q) implies m[q] == map_of::<K, S>(
                        keys,
                        vals,
                    ).insert(k, value)[q] by {
                        let i = place_of::<K>(keys, q);
                        lemma_map_at::<K, S>(keys, new_vals, i);
                        lemma_map_at::<K, S>(keys, vals, i);
                        if q == k {
                            lemma_sorted_unique::<K>(keys, i, at as int);
                        } else {
                            assert(i != at);
                        }
                    }
                }
            }
        } else {
            names.insert(at, name);
            values.insert(at, value);
            proof {
                let new_keys = views(names@);
                let new_vals = values@;
                assert(new_keys =~= keys.insert(at as int, name@));
                assert forall|i: int, j: int| 0 <= i < j < new_keys.len() implies key_less(
                    K::key(new_keys[i]),
                    K::key(new_keys[j]),
                ) by {
                    if i < at && j > at {
                        assert(new_keys[i] == keys[i] && new_keys[j] == keys[j - 1]);
                    } else if i == at {
                        assert(new_keys[j] == keys[j - 1]);
                    } else if j == at {
                        assert(new_keys[i] == keys[i]);
                    } else if i > at {
                        assert(new_keys[i] == keys[i - 1] && new_keys[j] == keys[j - 1]);
                    }
                }
                lemma_insert_members(keys, at as int, name@);
                lemma_with::<K>(keys, name@);
                assert forall|v: K::V| new_keys.contains(v) <==> with::<K>(keys, name@).contains(v) by {}
                sorted_determined::<K>(new_keys, with::<K>(keys, name@));
                let m = map_of::<K, S>(new_keys, new_vals);
                let old_m = map_of::<K, S>(keys, vals);
                assert forall|q: Key| m.contains_key(q) <==> old_m.insert(k, value).contains_key(q) by {
                    if has_key::<K>(keys, q) {
                        let i = place_of::<K>(keys, q);
                        if i < at {
                            assert(new_keys[i] == keys[i]);
                        } else {
                            assert(new_keys[i + 1] == keys[i]);
                        }
                    }
                    if q == k {
                        assert(K::key(new_keys[at as int]) == k);
                    }
                    if has_key::<K>(new_keys, q) {
                        let i = place_of::<K>(new_keys, q);
                        if i < at {
                            assert(keys[i] == new_keys[i]);
                        } else if i > at {
                            assert(keys[i - 1] == new_keys[i]);
                        }
                    }
                }
                assert forall|q: Key| m.contains_key(q) implies m[q] == old_m.insert(k, value)[q] by {
                    let i = place_of::<K>(new_keys, q);
                    lemma_map_at::<K, S>(new_keys, new_vals, i);
                    if i < at {
                        assert(keys[i] == new_keys[i]);
                        lemma_map_at::<K, S>(keys, vals, i);
                        assert(has_key::<K>(keys, q));
                    } else if i > at {
                        assert(keys[i - 1] == new_keys[i]);
                        lemma_map_at::<K, S>(keys, vals, i - 1);
                        assert(has_key::<K>(keys, q));
                    }
                }
                assert(m =~= old_m.insert(k, value));
            }
        }
        *self = SortedMap { names, values };
    }

    /// Takes out the entry with the key of `name`.
    pub fn remove(&mut self, name: &K) -> (r: Option<S>)
        ensures
            final(self)@ == old(self)@.remove(K::key(name@)),
            final(self).key_list() == without_key::<K>(old(self).key_list(), K::key(name@)),
            match r {
                Some(value) => old(self)@.contains_key(K::key(name@)) && value == old(self)@[K::key(
                    name@,
                )],
                None => !old(self)@.contains_key(K::key(name@)),
            },
            forall|v: K::V| #[trigger]
                final(self).key_list().contains(v) <==> old(self).key_list().contains(v) && K::key(v)
                    != K::key(name@),
    {
        let (at, there) = self.place(name);
        let ghost keys = self.key_list();
        let ghost vals = self.value_list();
        let ghost k = K::key(name@);
        proof {
            use_type_invariant(&*self);
        }
        if !there {
            proof {
                assert(self@ =~= self@.remove(k));
                assert forall|v: K::V| #[trigger] keys.contains(v) implies K::key(v) != k by {
                    let i = choose|i: int| 0 <= i < keys.len() && keys[i] == v;
                    assert(has_key::<K>(keys, K::key(keys[i])));
                }
                lemma_without_key::<K>(keys, k);
                sorted_determined::<K>(keys, without_key::<K>(keys, k));
            }
            return None;
        }
        let mut taken: SortedMap<K, S> = SortedMap { names: Vec::new(), values: Vec::new() };
        std::mem::swap(&mut taken, self);
        let SortedMap { mut names, mut values } = taken;
        let _ = names.remove(at);
        let value = values.remove(at);
        proof {
            let new_keys = views(names@);
            let new_vals = values@;
            assert(new_keys =~= keys.remove(at as int));
            lemma_map_at::<K, S>(keys, vals, at as int);
            assert forall|i: int, j: int| 0 <= i < j < new_keys.len() implies key_less(
                K::key(new_keys[i]),
                K::key(new_keys[j]),
            ) by {
                let x = if i < at { i } else { i + 1 };
                let y = if j < at { j } else { j + 1 };
                assert(new_keys[i] == keys[x] && new_keys[j] == keys[y]);
            }
            let m = map_of::<K, S>(new_keys, new_vals);
            let old_m = map_of::<K, S>(keys, vals);
            assert forall|q: Key| m.contains_key(q) <==> old_m.remove(k).contains_key(q) by {
                if has_key::<K>(new_keys, q) {
                    let i = place_of::<K>(new_keys, q);
                    let x = if i < at { i } else { i + 1 };
                    assert(keys[x] == new_keys[i]);
                    if q == k {
                        lemma_sorted_unique::<K>(keys, x, at as int);
                    }
                }
                if has_key::<K>(keys, q) && q != k {
                    let i = place_of::<K>(keys, q);
                    assert(i != at);
                    let x = if i < at { i } else { i - 1 };
                    assert(new_keys[x] == keys[i]);
                }
            }
            assert forall|q: Key| m.contains_key(q) implies m[q] == old_m.remove(k)[q] by {
                let i = place_of::<K>(new_keys, q);
                let x = if i < at { i } else { i + 1 };
                assert(keys[x] == new_keys[i]);
                lemma_map_at::<K, S>(new_keys, new_vals, i);
                lemma_map_at::<K, S>(keys, vals, x);
            }
            assert(m =~= old_m.remove(k));
            assert forall|v: K::V| #[trigger] new_keys.contains(v) <==> keys.contains(v) && K::key(v) != k by {
                if new_keys.contains(v) {
                    let i = choose|i: int| 0 <= i < new_keys.len() && new_keys[i] == v;
                    let x = if i < at { i } else { i + 1 };
                    assert(keys[x] == v);
                    if K::key(v) == k {
                        lemma_sorted_unique::<K>(keys, x, at as int);
                    }
                }
                if keys.contains(v) && K::key(v) != k {
                    let i = choose|i: int| 0 <= i < keys.len() && keys[i] == v;
                    let x = if i < at { i } else { i - 1 };
                    assert(new_keys[x] == v);
                }
            }
            lemma_without_key::<K>(keys, k);
            sorted_determined::<K>(new_keys, without_key::<K>(keys, k));
        }
        *self = SortedMap { names, values };
        Some(value)
    }

    /// The set of keys.
    pub fn key_set(&self) -> (r: SortedSet<K>)
        ensures
            r@ == self.key_list(),
    {
        proof {
            use_type_invariant(self);
        }
        let mut items: Vec<K> = Vec::new();
        let mut i: usize = 0;
        while i < self.names.len()
            invariant
                i <= self.names@.len(),
                views(items@) == self.key_list().take(i as int),
            decreases self.names@.len() - i,
        {
            let ghost before = items@;
            items.push(self.names[i].duplicate());
            i = i + 1;
            proof {
                assert(views(items@) =~= views(before).push(self.key_list()[i - 1]));
                assert(self.key_list().take(i as int) =~= self.key_list().take(i - 1).push(
                    self.key_list()[i - 1],
                ));
            }
        }
        proof {
            assert(self.key_list().take(self.key_list().len() as int) =~= self.key_list());
        }
        SortedSet { items }
    }
}

impl<K: Keyed, S: Copy> SortedMap<K, S> {
    /// Another map with the same entries.
    pub fn duplicate(&self) -> (r: Self)
        ensures
            r@ == self@,
            r.key_list() == self.key_list(),
            r.value_list() == self.value_list(),
    {
        proof {
            use_type_invariant(self);
        }
        let mut names: Vec<K> = Vec::new();
        let mut values: Vec<S> = Vec::new();
        let mut i: usize = 0;
        while i < self.names.len()
            invariant
                i <= self.names@.len(),
                self.names@.len() == self.values@.len(),
                views(names@) == self.key_list().take(i as int),
                values@ == self.values@.take(i as int),
            decreases self.names@.len() - i,
        {
            let ghost before = names@;
            names.push(self.names[i].duplicate());
            values.push(self.values[i]);
            i = i + 1;
            proof {
                assert(views(names@) =~= views(before).push(self.key_list()[i - 1]));
                assert(self.key_list().take(i as int) =~= self.key_list().take(i - 1).push(
                    self.key_list()[i - 1],
                ));
                assert(self.values@.take(i as int) =~= self.values@.take(i - 1).push(self.values@[i - 1]));
            }
        }
        proof {
            assert(self.key_list().take(self.key_list().len() as int) =~= self.key_list());
            assert(self.values@.take(self.values@.len() as int) =~= self.values@);
        }
        SortedMap { names, values }
    }

    /// Gives each key of `other` its value there.
    pub fn extend(&mut self, other: &Self)
        ensures
            final(self)@ == old(self)@.union_prefer_right(other@),
            final(self).key_list() == with_all::<K>(old(self).key_list(), other.key_list()),
    {
        let ghost before = self@;
        let ghost names = self.key_list();
        other.order();
        let mut i: usize = 0;
        let ghost keys = other.key_list();
        let ghost vals = other.value_list();
        proof {
            assert(map_of::<K, S>(keys.take(0), vals.take(0)) =~= Map::empty());
            assert(before.union_prefer_right(Map::empty()) =~= before);
            assert(keys.take(0).len() == 0);
        }
        while i < other.len()
            invariant
                i <= keys.len(),
                keys == other.key_list(),
                vals == other.value_list(),
                keys.len() == vals.len(),
                sorted::<K>(keys),
                self@ == before.union_prefer_right(map_of::<K, S>(keys.take(i as int), vals.take(i as int))),
                self.key_list() == with_all::<K>(names, keys.take(i as int)),
            decreases keys.len() - i,
        {
            self.insert(other.key_at(i).duplicate(), *other.value_at(i));
            proof {
                lemma_map_push::<K, S>(keys, vals, i as int);
                assert(keys.take(i + 1).drop_last() =~= keys.take(i as int));
                let m = map_of::<K, S>(keys.take(i as int), vals.take(i as int));
                let k = K::key(keys[i as int]);
                assert(before.union_prefer_right(m.insert(k, vals[i as int])) =~= before.union_prefer_right(
                    m,
                ).insert(k, vals[i as int]));
            }
            i = i + 1;
        }
        proof {
            assert(keys.take(keys.len() as int) =~= keys);
            assert(vals.take(vals.len() as int) =~= vals);
        }
    }
}

proof fn lemma_map_push<K: Keyed, S>(keys: Seq<K::V>, vals: Seq<S>, i: int)
    requires
        sorted::<K>(keys),
        keys.len() == vals.len(),
        0 <= i < keys.len(),
    ensures
        map_of::<K, S>(keys.take(i + 1), vals.take(i + 1)) == map_of::<K, S>(
            keys.take(i),
            vals.take(i),
        ).insert(K::key(keys[i]), vals[i]),
{
    let a = map_of::<K, S>(keys.take(i), vals.take(i));
    let b = map_of::<K, S>(keys.take(i + 1), vals.take(i + 1));
    let k = K::key(keys[i]);
    assert(sorted::<K>(keys.take(i + 1)));
    assert(sorted::<K>(keys.take(i)));
    assert forall|q: Key| b.contains_key(q) <==> a.insert(k, vals[i]).contains_key(q) by {
        if has_key::<K>(keys.take(i), q) {
            let n = place_of::<K>(keys.take(i), q);
            assert(keys.take(i + 1)[n] == keys.take(i)[n]);
        }
        if q == k {
            assert(keys.take(i + 1)[i] == keys[i]);
        }
        if has_key::<K>(keys.take(i + 1), q) {
            let n = place_of::<K>(keys.take(i + 1), q);
            if n < i {
                assert(keys.take(i)[n] == keys.take(i + 1)[n]);
            }
        }
    }
    assert forall|q: Key| b.contains_key(q) implies b[q] == a.insert(k, vals[i])[q] by {
        let n = place_of::<K>(keys.take(i + 1), q);
        lemma_map_at::<K, S>(keys.take(i + 1), vals.take(i + 1), n);
        if n < i {
            assert(keys.take(i)[n] == keys.take(i + 1)[n]);
            lemma_map_at::<K, S>(keys.take(i), vals.take(i), n);
            if q == k {
                lemma_sorted_unique::<K>(keys, n, i);
            }
        }
    }
    assert(b =~= a.insert(k, vals[i]));
}

/// The number of leading elements whose keys come before `k`.
pub open spec fn place<T: Keyed>(s: Seq<T::V>, k: Key) -> int
    decreases s.len(),
{
    if s.len() > 0 && key_less(T::key(s[0]), k) {
        1 + place::<T>(s.skip(1), k)
    } else {
        0
    }
}

/// `s` with `v` added at its place.
pub open spec fn with<T: Keyed>(s: Seq<T::V>, v: T::V) -> Seq<T::V> {
    if has_key::<T>(s, T::key(v)) {
        s
    } else {
        s.insert(place::<T>(s, T::key(v)), v)
    }
}

/// `s` with the elements of `added`, in turn.
pub open spec fn with_all<T: Keyed>(s: Seq<T::V>, added: Seq<T::V>) -> Seq<T::V>
    decreases added.len(),
{
    if added.len() == 0 {
        s
    } else {
        with::<T>(with_all::<T>(s, added.drop_last()), added.last())
    }
}

/// That a key is another one than `k`.
pub open spec fn other_than<T: Keyed>(k: Key) -> spec_fn(T::V) -> bool {
    |v: T::V| T::key(v) != k
}

/// `s` without the element with key `k`.
pub open spec fn without_key<T: Keyed>(s: Seq<T::V>, k: Key) -> Seq<T::V> {
    s.filter(other_than::<T>(k))
}

/// `s` without the elements that have the keys of those of `removed`.
pub open spec fn without_all<T: Keyed>(s: Seq<T::V>, removed: Seq<T::V>) -> Seq<T::V>
    decreases removed.len(),
{
    if removed.len() == 0 {
        s
    } else {
        without_key::<T>(without_all::<T>(s, removed.drop_last()), T::key(removed.last()))
    }
}

proof fn lemma_without_key<T: Keyed>(s: Seq<T::V>, k: Key)
    requires
        sorted::<T>(s),
    ensures
        sorted::<T>(without_key::<T>(s, k)),
        forall|v: T::V| #[trigger] without_key::<T>(s, k).contains(v) <==> s.contains(v) && T::key(v) != k,
{
    lemma_filter::<T>(s, other_than::<T>(k));
}

proof fn lemma_place<T: Keyed>(s: Seq<T::V>, k: Key)
    requires
        sorted::<T>(s),
    ensures
        0 <= place::<T>(s, k) <= s.len(),
        forall|i: int| 0 <= i < place::<T>(s, k) ==> key_less(T::key(#[trigger] s[i]), k),
        forall|i: int| place::<T>(s, k) <= i < s.len() ==> !key_less(T::key(#[trigger] s[i]), k),
    decreases s.len(),
{
    if s.len() > 0 && key_less(T::key(s[0]), k) {
        let t = s.skip(1);
        assert(sorted::<T>(t));
        lemma_place::<T>(t, k);
        assert forall|i: int| 0 <= i < place::<T>(s, k) implies key_less(T::key(#[trigger] s[i]), k) by {
            if i > 0 {
                assert(s[i] == t[i - 1]);
            }
        }
        assert forall|i: int| place::<T>(s, k) <= i < s.len() implies !key_less(
            T::key(#[trigger] s[i]),
            k,
        ) by {
            assert(s[i] == t[i - 1]);
        }
    } else if s.len() > 0 {
        assert forall|i: int| 0 <= i < s.len() implies !key_less(T::key(#[trigger] s[i]), k) by {
            if i > 0 && key_less(T::key(s[i]), k) {
                lemma_key_transitive(T::key(s[0]), T::key(s[i]), k);
            }
        }
    }
}

proof fn lemma_place_bounds<T: Keyed>(s: Seq<T::V>, k: Key)
    ensures
        0 <= place::<T>(s, k) <= s.len(),
    decreases s.len(),
{
    if s.len() > 0 && key_less(T::key(s[0]), k) {
        lemma_place_bounds::<T>(s.skip(1), k);
    }
}

/// Adding an element adds no other.
pub proof fn lemma_with_adds_one<T: Keyed>(s: Seq<T::V>, v: T::V, w: T::V)
    requires
        with::<T>(s, v).contains(w),
    ensures
        s.contains(w) || w == v,
{
    if !has_key::<T>(s, T::key(v)) {
        lemma_place_bounds::<T>(s, T::key(v));
        lemma_insert_members(s, place::<T>(s, T::key(v)), v);
    }
}

/// Adding an element keeps the order and adds just that element, unless its key is there already.
pub proof fn lemma_with<T: Keyed>(s: Seq<T::V>, v: T::V)
    requires
        sorted::<T>(s),
    ensures
        sorted::<T>(with::<T>(s, v)),
        has_key::<T>(with::<T>(s, v), T::key(v)),
        !has_key::<T>(s, T::key(v)) ==> forall|w: T::V| #[trigger]
            with::<T>(s, v).contains(w) <==> s.contains(w) || w == v,
{
    let k = T::key(v);
    if !has_key::<T>(s, k) {
        lemma_place::<T>(s, k);
        let at = place::<T>(s, k);
        let t = s.insert(at, v);
        lemma_insert_members(s, at, v);
        assert forall|i: int, j: int| 0 <= i < j < t.len() implies key_less(T::key(t[i]), T::key(t[j])) by {
            let x = if i < at { i } else { i - 1 };
            let y = if j < at { j } else { j - 1 };
            if i != at && j != at {
                assert(t[i] == s[x] && t[j] == s[y]);
            } else if i == at {
                assert(t[j] == s[y]);
                lemma_key_total(T::key(s[y]), k);
                assert(has_key::<T>(s, T::key(s[y])));
            } else {
                assert(t[i] == s[x]);
            }
        }
        assert(T::key(t[at]) == k);
    }
}

/// Filtering keeps the order and just the elements for which the predicate holds.
pub proof fn lemma_filter<T: Keyed>(s: Seq<T::V>, p: spec_fn(T::V) -> bool)
    requires
        sorted::<T>(s),
    ensures
        sorted::<T>(s.filter(p)),
        forall|v: T::V| #[trigger] s.filter(p).contains(v) <==> s.contains(v) && p(v),
    decreases s.len(),
{
    reveal(Seq::filter);
    if s.len() > 0 {
        let t = s.drop_last();
        assert(sorted::<T>(t));
        lemma_filter::<T>(t, p);
        let f = t.filter(p);
        assert(s =~= t.push(s.last()));
        assert forall|v: T::V| #[trigger] s.contains(v) <==> t.contains(v) || v == s.last() by {
            if s.contains(v) {
                let i = choose|i: int| 0 <= i < s.len() && s[i] == v;
                if i < t.len() {
                    assert(t[i] == v);
                }
            }
            if t.contains(v) {
                let i = choose|i: int| 0 <= i < t.len() && t[i] == v;
                assert(s[i] == v);
            }
        }
        if p(s.last()) {
            let g = f.push(s.last());
            assert(s.filter(p) == g);
            assert forall|i: int, j: int| 0 <= i < j < g.len() implies key_less(T::key(g[i]), T::key(g[j])) by {
                if j == f.len() {
                    assert(f.contains(f[i]));
                    let n = choose|n: int| 0 <= n < t.len() && t[n] == f[i];
                    assert(s[n] == f[i]);
                } else {
                    assert(g[i] == f[i] && g[j] == f[j]);
                }
            }
            assert forall|v: T::V| #[trigger] g.contains(v) <==> s.contains(v) && p(v) by {
                if g.contains(v) {
                    let i = choose|i: int| 0 <= i < g.len() && g[i] == v;
                    if i < f.len() {
                        assert(f[i] == v);
                        assert(f.contains(v));
                    }
                }
                if s.contains(v) && p(v) {
                    if t.contains(v) {
                        assert(f.contains(v));
                        let i = choose|i: int| 0 <= i < f.len() && f[i] == v;
                        assert(g[i] == v);
                    } else {
                        assert(g[f.len() as int] == v);
                    }
                }
            }
        } else {
            assert(s.filter(p) == f);
        }
    }
}

/// Paths have the same key exactly if they have the same components.
pub proof fn keys_tell_paths_apart(a: Seq<char>, b: Seq<char>, x: NormalPathView, y: NormalPathView)
    ensures
        FilePath::key(a) == FilePath::key(b) <==> path_parts(a) == path_parts(b),
        NormalPath::key(x) == NormalPath::key(y) <==> path_parts(x.absolute) == path_parts(y.absolute),
        NormalPath::key(x) == FilePath::key(x.absolute),
{
}

/// A set to which an element is added holds the keys that it held before, that of the element, and no other.
pub proof fn added_keys_are_held<T: Keyed>(s: Seq<T::V>, v: T::V, k: Key)
    requires
        sorted::<T>(s),
    ensures
        sorted::<T>(with::<T>(s, v)),
        has_key::<T>(with::<T>(s, v), k) <==> has_key::<T>(s, k) || T::key(v) == k,
{
    lemma_with::<T>(s, v);
    let after = with::<T>(s, v);
    if !has_key::<T>(s, T::key(v)) {
        if has_key::<T>(s, k) {
            let n = choose|n: int| 0 <= n < s.len() && T::key(#[trigger] s[n]) == k;
            assert(s.contains(s[n]));
            assert(after.contains(s[n]));
            let m = choose|m: int| 0 <= m < after.len() && after[m] == s[n];
            assert(T::key(after[m]) == k);
        }
        if has_key::<T>(after, k) {
            let n = choose|n: int| 0 <= n < after.len() && T::key(#[trigger] after[n]) == k;
            assert(after.contains(after[n]));
            lemma_with_adds_one::<T>(s, v, after[n]);
            if after[n] != v {
                let m = choose|m: int| 0 <= m < s.len() && s[m] == after[n];
                assert(T::key(s[m]) == k);
            }
        }
    }
}

} // verus!
