//! Walking the process tables, which are maps keyed by process ID.

use std::collections::BTreeMap;
use vstd::prelude::*;

verus! {

broadcast use {vstd::laws_cmp::group_laws_cmp, vstd::std_specs::btree::group_btree_axioms};

/// Whether the numbers strictly ascend.
pub open spec fn ascending(s: Seq<i32>) -> bool {
    forall|i: int, j: int| 0 <= i < j < s.len() ==> s[i] < s[j]
}

/// Inserts `key`, which `keys` does not hold, at its place.
fn insert_ascending(keys: &mut Vec<i32>, key: i32)
    requires
        ascending(old(keys)@),
        !old(keys)@.contains(key),
    ensures
        ascending(final(keys)@),
        final(keys)@.to_set() == old(keys)@.to_set().insert(key),
{
    let ghost before = keys@;
    let mut at: usize = keys.len();
    while at > 0 && keys[at - 1] > key
        invariant
            at <= keys@.len(),
            keys@ == before,
            ascending(before),
            forall|k: int| at <= k < keys@.len() ==> keys@[k] > key,
        decreases at,
    {
        at = at - 1;
    }
    keys.insert(at, key);
    proof {
        if at > 0 {
            assert(before.contains(before[at - 1]));
        }
        let after = before.insert(at as int, key);
        assert forall|i: int, j: int| 0 <= i < j < after.len() implies after[i] < after[j] by {
            if i < at && j > at {
                assert(before[i] < before[j - 1]);
            } else if i < at && j == at {
                if i < at - 1 {
                    assert(before[i] < before[at - 1]);
                }
            }
        }
        assert forall|k: i32| after.to_set().contains(k) == before.to_set().insert(key).contains(k) by {
            if before.contains(k) {
                let i = choose|i: int| 0 <= i < before.len() && before[i] == k;
                if i < at {
                    assert(after[i] == k);
                } else {
                    assert(after[i + 1] == k);
                }
            }
            if k == key {
                assert(after[at as int] == k);
            }
            if after.contains(k) {
                let i = choose|i: int| 0 <= i < after.len() && after[i] == k;
                if i < at {
                    assert(before[i] == k);
                } else if i > at {
                    assert(before[i - 1] == k);
                }
            }
        }
        assert(after.to_set() =~= before.to_set().insert(key));
    }
}

/// Pushing an element inserts it into the set of elements.
pub proof fn lemma_push_to_set<T>(s: Seq<T>, x: T)
    ensures
        s.push(x).to_set() == s.to_set().insert(x),
{
    assert forall|y: T| s.push(x).to_set().contains(y) == s.to_set().insert(x).contains(y) by {
        if s.contains(y) {
            let i = choose|i: int| 0 <= i < s.len() && s[i] == y;
            assert(s.push(x)[i] == y);
        }
        if y == x {
            assert(s.push(x)[s.len() as int] == y);
        }
    }
    assert(s.push(x).to_set() =~= s.to_set().insert(x));
}

/// The keys of `m`, in ascending order.
pub fn ascending_keys<V>(m: &BTreeMap<i32, V>) -> (keys: Vec<i32>)
    ensures
        ascending(keys@),
        keys@.to_set() == m@.dom(),
{
    let mut keys: Vec<i32> = Vec::new();
    let ghost all: Seq<i32> = vstd::std_specs::iter::IteratorSpec::remaining(&m.keys()).unref();
    proof {
        assert(keys@.to_set() =~= all.take(0).to_set());
    }
    for key in it: m.keys()
        invariant
            ascending(keys@),
            it.seq().unref() == all,
            it.seq().len() == all.len(),
            all.to_set() == m@.dom(),
            it.seq().no_duplicates(),
            keys@.to_set() == all.take(it.index() as int).to_set(),
    {
        proof {
            let n = it.index() as int;
            if keys@.contains(*key) {
                assert(keys@.to_set().contains(*key));
                assert(all.take(n).contains(*key));
                let i = choose|i: int| 0 <= i < n && all.take(n)[i] == *key;
                assert(it.seq()[i] == it.seq()[n]);
            }
            assert(all.take(n + 1) =~= all.take(n).push(*key));
            lemma_push_to_set(all.take(n), *key);
        }
        insert_ascending(&mut keys, *key);
    }
    proof {
        assert(all.take(all.len() as int) =~= all);
    }
    keys
}

} // verus!
