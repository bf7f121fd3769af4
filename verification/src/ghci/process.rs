//! The processes of a session: finding all of them, and ending all of them.

use crate::haskell_source_file::{last_index, last_places_are_last, last_position};
use crate::pids::{ascending, ascending_keys};
use crate::text::{
    as_i32, as_u64, decimal, decimal_round_trip, from_chars, is_digit, parse_i32, parse_u64, signed_decimal,
    signed_decimal_round_trip, split_words, texts, to_chars, words,
};
use std::collections::{BTreeMap, BTreeSet};
use vstd::prelude::*;

pub mod kill;
pub mod watch;

verus! {

broadcast use {vstd::laws_cmp::group_laws_cmp, vstd::std_specs::btree::group_btree_axioms};

/// A process, as the process table shows it.
#[derive(Clone, Copy, Debug, PartialEq, Eq, Structural)]
pub struct ProcessStat {
    pub pid: i32,
    pub parent_pid: i32,
    pub process_group_id: i32,
    /// When the process was started. Together with the process ID this identifies it.
    pub start_time: u64,
}

/// The process that the text of a process status line shows. The name of the command stands in
/// parentheses and may itself hold spaces and parentheses, so the fields start after the last one.
pub open spec fn stat_of(pid: i32, stat: Seq<char>) -> Option<ProcessStat> {
    let paren = last_index(stat, ')');
    let fields = words(stat.skip(paren + 1));
    if paren < 0 || fields.len() < 20 {
        None
    } else {
        match (as_i32(fields[1]), as_i32(fields[2]), as_u64(fields[19])) {
            (Some(parent_pid), Some(process_group_id), Some(start_time)) => Some(
                ProcessStat { pid, parent_pid, process_group_id, start_time },
            ),
            _ => None,
        }
    }
}

/// Reads a process from the text of its status line.
pub fn parse_process_stat(pid: i32, stat: &str) -> (r: Option<ProcessStat>)
    ensures
        r == stat_of(pid, stat@),
{
    let v = to_chars(stat);
    let paren = match last_position(&v, ')') {
        Some(paren) => paren,
        None => {
            return None;
        },
    };
    let n: usize = v.len();
    proof {
        assert(v@.subrange(paren + 1, n as int) =~= v@.skip(paren + 1));
    }
    let rest = from_chars(&v, paren + 1, n);
    let fields = split_words(rest.as_str());
    proof {
        assert(texts(fields@).len() == fields@.len());
    }
    if fields.len() < 20 {
        return None;
    }
    proof {
        assert(texts(fields@)[1] == fields@[1]@);
        assert(texts(fields@)[2] == fields@[2]@);
        assert(texts(fields@)[19] == fields@[19]@);
    }
    match (
        parse_i32(fields[1].as_str()),
        parse_i32(fields[2].as_str()),
        parse_u64(fields[19].as_str()),
    ) {
        (Some(parent_pid), Some(process_group_id), Some(start_time)) => Some(
            ProcessStat { pid, parent_pid, process_group_id, start_time },
        ),
        _ => None,
    }
}

/// What was read of one entry of the process table: its name and its status line, if that could be
/// read.
#[derive(Debug)]
pub struct StatEntry {
    pub name: String,
    pub stat: Option<String>,
}

/// The process that an entry shows.
pub open spec fn entry_stat(entry: StatEntry) -> Option<ProcessStat> {
    match (as_i32(entry.name@), entry.stat) {
        (Some(pid), Some(stat)) => stat_of(pid, stat@),
        _ => None,
    }
}

/// The processes that the entries show, by process ID.
pub open spec fn table_of(entries: Seq<StatEntry>) -> Map<i32, ProcessStat>
    decreases entries.len(),
{
    if entries.len() == 0 {
        Map::empty()
    } else {
        let before = table_of(entries.drop_last());
        match entry_stat(entries.last()) {
            Some(stat) => before.insert(stat.pid, stat),
            None => before,
        }
    }
}

/// Whether each process of the table stands under its process ID.
pub open spec fn by_pid(table: Map<i32, ProcessStat>) -> bool {
    forall|k: i32| #[trigger] table.contains_key(k) ==> table[k].pid == k
}

/// Builds the table of processes. Entries that are no process, or whose process vanished while it
/// was read, are left out.
pub fn process_snapshot(entries: &Vec<StatEntry>) -> (r: BTreeMap<i32, ProcessStat>)
    ensures
        r@ == table_of(entries@),
        by_pid(r@),
{
    let mut snapshot: BTreeMap<i32, ProcessStat> = BTreeMap::new();
    let mut i: usize = 0;
    proof {
        assert(entries@.take(0).len() == 0);
    }
    while i < entries.len()
        invariant
            i <= entries@.len(),
            snapshot@ == table_of(entries@.take(i as int)),
            by_pid(snapshot@),
        decreases entries@.len() - i,
    {
        match (parse_i32(entries[i].name.as_str()), &entries[i].stat) {
            (Some(pid), Some(stat)) => match parse_process_stat(pid, stat.as_str()) {
                Some(stat) => {
                    let _ = snapshot.insert(pid, stat);
                },
                None => {},
            },
            _ => {},
        }
        proof {
            assert(entries@.take(i + 1).drop_last() =~= entries@.take(i as int));
        }
        i = i + 1;
    }
    proof {
        assert(entries@.take(entries@.len() as int) =~= entries@);
    }
    snapshot
}

/// Whether discovery starts at process `k`: it is the command process, or in its process group. A
/// command may exit after it has started the session, so every member of the group counts.
pub open spec fn is_seed(k: i32, process_id: i32, process_group_id: i32, table: Map<i32, ProcessStat>) -> bool {
    k == process_id || (table.contains_key(k) && table[k].process_group_id == process_group_id)
}

/// Whether process `k` is `steps` generations below a process at which discovery starts.
pub open spec fn descends(
    k: i32,
    steps: nat,
    process_id: i32,
    process_group_id: i32,
    table: Map<i32, ProcessStat>,
) -> bool
    decreases steps,
{
    if steps == 0 {
        is_seed(k, process_id, process_group_id, table)
    } else {
        table.contains_key(k) && descends(
            table[k].parent_pid,
            (steps - 1) as nat,
            process_id,
            process_group_id,
            table,
        )
    }
}

/// Whether process `k` is in the tree of the command.
pub open spec fn in_family(k: i32, process_id: i32, process_group_id: i32, table: Map<i32, ProcessStat>) -> bool {
    exists|steps: nat| #[trigger] descends(k, steps, process_id, process_group_id, table)
}

/// Whether a set of processes holds all at which discovery starts, and with each process its
/// children.
pub open spec fn is_closed(
    family: Set<i32>,
    process_id: i32,
    process_group_id: i32,
    table: Map<i32, ProcessStat>,
) -> bool {
    &&& family.contains(process_id)
    &&& forall|k: i32| #[trigger]
        table.contains_key(k) && is_seed(k, process_id, process_group_id, table) ==> family.contains(k)
    &&& forall|k: i32| #[trigger]
        table.contains_key(k) && family.contains(table[k].parent_pid) ==> family.contains(k)
}

proof fn lemma_closed(
    k: i32,
    steps: nat,
    family: Set<i32>,
    process_id: i32,
    process_group_id: i32,
    table: Map<i32, ProcessStat>,
)
    requires
        is_closed(family, process_id, process_group_id, table),
        descends(k, steps, process_id, process_group_id, table),
    ensures
        family.contains(k),
    decreases steps,
{
    if steps > 0 {
        lemma_closed(
            table[k].parent_pid,
            (steps - 1) as nat,
            family,
            process_id,
            process_group_id,
            table,
        );
    }
}

/// The tree of the command is the least set that holds the command process and its process group,
/// and with each process its children.
pub proof fn family_is_least(
    family: Set<i32>,
    process_id: i32,
    process_group_id: i32,
    table: Map<i32, ProcessStat>,
)
    ensures
        is_closed(
            Set::new(|k: i32| in_family(k, process_id, process_group_id, table)),
            process_id,
            process_group_id,
            table,
        ),
        is_closed(family, process_id, process_group_id, table) ==> forall|k: i32| #[trigger]
            in_family(k, process_id, process_group_id, table) ==> family.contains(k),
{
    let least = Set::new(|k: i32| in_family(k, process_id, process_group_id, table));
    assert(descends(process_id, 0, process_id, process_group_id, table));
    assert forall|k: i32| #[trigger]
        table.contains_key(k) && is_seed(k, process_id, process_group_id, table) implies least.contains(k) by {
        assert(descends(k, 0, process_id, process_group_id, table));
    }
    assert forall|k: i32| #[trigger]
        table.contains_key(k) && least.contains(table[k].parent_pid) implies least.contains(k) by {
        let n = choose|n: nat| #[trigger]
            descends(table[k].parent_pid, n, process_id, process_group_id, table);
        assert(descends(k, n + 1, process_id, process_group_id, table));
    }
    if is_closed(family, process_id, process_group_id, table) {
        assert forall|k: i32| #[trigger] in_family(k, process_id, process_group_id, table) implies family.contains(
            k,
        ) by {
            let n = choose|n: nat| #[trigger] descends(k, n, process_id, process_group_id, table);
            lemma_closed(k, n, family, process_id, process_group_id, table);
        }
    }
}

/// Whether process `k` is found: it is the command process, or in the list.
pub open spec fn is_found(list: Seq<ProcessStat>, k: i32, process_id: i32) -> bool {
    k == process_id || exists|i: int| 0 <= i < list.len() && (#[trigger] list[i]).pid == k
}

/// The processes among these at which discovery starts, in order.
pub open spec fn seeds(
    keys: Seq<i32>,
    process_id: i32,
    process_group_id: i32,
    table: Map<i32, ProcessStat>,
) -> Seq<ProcessStat>
    decreases keys.len(),
{
    if keys.len() == 0 {
        seq![]
    } else {
        let before = seeds(keys.drop_last(), process_id, process_group_id, table);
        if is_seed(keys.last(), process_id, process_group_id, table) {
            before.push(table[keys.last()])
        } else {
            before
        }
    }
}

/// The list after a sweep over these processes, in order: each child of one that is found by then is
/// added.
pub open spec fn swept(
    list: Seq<ProcessStat>,
    keys: Seq<i32>,
    process_id: i32,
    table: Map<i32, ProcessStat>,
) -> Seq<ProcessStat>
    decreases keys.len(),
{
    if keys.len() == 0 {
        list
    } else {
        let before = swept(list, keys.drop_last(), process_id, table);
        let stat = table[keys.last()];
        if !is_found(before, stat.pid, process_id) && is_found(before, stat.parent_pid, process_id) {
            before.push(stat)
        } else {
            before
        }
    }
}

/// The list after a number of sweeps.
pub open spec fn swept_often(
    list: Seq<ProcessStat>,
    times: nat,
    keys: Seq<i32>,
    process_id: i32,
    table: Map<i32, ProcessStat>,
) -> Seq<ProcessStat>
    decreases times,
{
    if times == 0 {
        list
    } else {
        swept(swept_often(list, (times - 1) as nat, keys, process_id, table), keys, process_id, table)
    }
}

/// Whether the list is in the order of discovery: the processes at which it starts come first, from
/// the lowest process ID up, and then those that each sweep over the table finds, until one finds no
/// more.
pub open spec fn is_discovery(
    list: Seq<ProcessStat>,
    process_id: i32,
    process_group_id: i32,
    table: Map<i32, ProcessStat>,
) -> bool {
    exists|keys: Seq<i32>, times: nat|
        ascending(keys) && keys.to_set() == table.dom() && list == #[trigger] swept_often(
            seeds(keys, process_id, process_group_id, table),
            times,
            keys,
            process_id,
            table,
        ) && swept(list, keys, process_id, table) == list
}

/// Whether the list holds the processes of the tree of the command in the table, each once, and in
/// the order of discovery.
pub open spec fn lists_tree(
    list: Seq<ProcessStat>,
    process_id: i32,
    process_group_id: i32,
    table: Map<i32, ProcessStat>,
) -> bool {
    &&& forall|i: int|
        0 <= i < list.len() ==> table.contains_key((#[trigger] list[i]).pid) && list[i]
            == table[list[i].pid] && in_family(list[i].pid, process_id, process_group_id, table)
    &&& forall|i: int, j: int| 0 <= i < j < list.len() ==> list[i].pid != list[j].pid
    &&& forall|k: i32| #[trigger]
        table.contains_key(k) && in_family(k, process_id, process_group_id, table) ==> exists|i: int|
            0 <= i < list.len() && list[i].pid == k
    &&& is_discovery(list, process_id, process_group_id, table)
}

/// Whether `list` holds the processes of the table that are in `family`, each once.
spec fn lists(list: Seq<ProcessStat>, family: Set<i32>, table: Map<i32, ProcessStat>) -> bool {
    &&& forall|i: int|
        0 <= i < list.len() ==> table.contains_key((#[trigger] list[i]).pid) && list[i]
            == table[list[i].pid] && family.contains(list[i].pid)
    &&& forall|i: int, j: int| 0 <= i < j < list.len() ==> list[i].pid != list[j].pid
    &&& forall|k: i32| #[trigger]
        table.contains_key(k) && family.contains(k) ==> exists|i: int| 0 <= i < list.len() && list[i].pid == k
}

proof fn lemma_lists_push(
    list: Seq<ProcessStat>,
    family: Set<i32>,
    stat: ProcessStat,
    table: Map<i32, ProcessStat>,
)
    requires
        lists(list, family, table),
        table.contains_key(stat.pid),
        table[stat.pid] == stat,
        !family.contains(stat.pid),
    ensures
        lists(list.push(stat), family.insert(stat.pid), table),
{
    let after = list.push(stat);
    assert forall|k: i32| #[trigger]
        table.contains_key(k) && family.insert(stat.pid).contains(k) implies exists|i: int|
        0 <= i < after.len() && after[i].pid == k by {
        if k == stat.pid {
            assert(after[list.len() as int].pid == k);
        } else {
            assert(family.contains(k));
            let i = choose|i: int| 0 <= i < list.len() && list[i].pid == k;
            assert(after[i].pid == k);
        }
    }
}

proof fn lemma_found_push(list: Seq<ProcessStat>, stat: ProcessStat, process_id: i32)
    ensures
        forall|k: i32| #[trigger]
            is_found(list.push(stat), k, process_id) <==> is_found(list, k, process_id) || k == stat.pid,
{
    let after = list.push(stat);
    assert forall|k: i32| #[trigger] is_found(after, k, process_id) <==> is_found(list, k, process_id) || k
        == stat.pid by {
        if k == stat.pid {
            assert(after[list.len() as int].pid == k);
        }
        if exists|i: int| 0 <= i < list.len() && (#[trigger] list[i]).pid == k {
            let i = choose|i: int| 0 <= i < list.len() && (#[trigger] list[i]).pid == k;
            assert(after[i].pid == k);
        }
        if exists|i: int| 0 <= i < after.len() && (#[trigger] after[i]).pid == k {
            let i = choose|i: int| 0 <= i < after.len() && (#[trigger] after[i]).pid == k;
            if i < list.len() {
                assert(list[i].pid == k);
            }
        }
    }
}

/// Finds the processes of the tree of the command, even those that left its process group.
pub fn process_tree(process_id: i32, process_group_id: i32, snapshot: &BTreeMap<i32, ProcessStat>) -> (r: Vec<
    ProcessStat,
>)
    requires
        by_pid(snapshot@),
    ensures
        lists_tree(r@, process_id, process_group_id, snapshot@),
{
    let ghost table = snapshot@;
    let keys = ascending_keys(snapshot);
    let mut family: BTreeSet<i32> = BTreeSet::new();
    let mut processes: Vec<ProcessStat> = Vec::new();
    let _ = family.insert(process_id);
    proof {
        assert(descends(process_id, 0, process_id, process_group_id, table));
    }
    let mut i: usize = 0;
    // The command process counts as found before it is seen in the table.
    while i < keys.len()
        invariant
            i <= keys@.len(),
            table == snapshot@,
            by_pid(table),
            ascending(keys@),
            keys@.to_set() == table.dom(),
            family@.contains(process_id),
            forall|k: i32| #[trigger]
                family@.contains(k) ==> in_family(k, process_id, process_group_id, table),
            forall|k: i32| #[trigger]
                family@.contains(k) && k != process_id ==> exists|n: int| 0 <= n < i && keys@[n] == k,
            forall|n: int|
                0 <= n < i && is_seed(#[trigger] keys@[n], process_id, process_group_id, table)
                    ==> family@.contains(keys@[n]),
            lists(processes@, family@.intersect(keys@.take(i as int).to_set()), table),
            processes@ == seeds(keys@.take(i as int), process_id, process_group_id, table),
        decreases keys@.len() - i,
    {
        let k = keys[i];
        let ghost seen = keys@.take(i as int).to_set();
        let ghost before = family@;
        proof {
            assert(keys@.to_set().contains(k)) by {
                assert(keys@.contains(keys@[i as int]));
            }
            assert(!seen.contains(k)) by {
                if seen.contains(k) {
                    let n = choose|n: int| 0 <= n < i && keys@.take(i as int)[n] == k;
                }
            }
            crate::pids::lemma_push_to_set(keys@.take(i as int), k);
            assert(keys@.take(i + 1) =~= keys@.take(i as int).push(k));
            assert(keys@.take(i + 1).drop_last() =~= keys@.take(i as int));
        }
        match snapshot.get(&k) {
            Some(stat) => {
                if k == process_id || stat.process_group_id == process_group_id {
                    let _ = family.insert(k);
                    proof {
                        assert(descends(k, 0, process_id, process_group_id, table));
                        lemma_lists_push(processes@, before.intersect(seen), *stat, table);
                        assert(before.intersect(seen).insert(k) =~= family@.intersect(
                            keys@.take(i + 1).to_set(),
                        )) by {
                            assert forall|q: i32| before.intersect(seen).insert(k).contains(q)
                                == family@.intersect(keys@.take(i + 1).to_set()).contains(q) by {
                                if q == process_id && q != k && !seen.contains(q) {
                                }
                            }
                        }
                    }
                    processes.push(*stat);
                } else {
                    proof {
                        assert(!before.contains(k)) by {
                            if before.contains(k) {
                                let n = choose|n: int| 0 <= n < i && keys@[n] == k;
                            }
                        }
                        assert(before.intersect(seen) =~= family@.intersect(keys@.take(i + 1).to_set()));
                    }
                }
            },
            None => {},
        }
        i = i + 1;
    }
    proof {
        assert(keys@.take(keys@.len() as int) =~= keys@);
        assert forall|k: i32| #[trigger]
            table.contains_key(k) && is_seed(k, process_id, process_group_id, table) implies family@.contains(k) by {
            assert(keys@.to_set().contains(k));
            let n = choose|n: int| 0 <= n < keys@.len() && keys@[n] == k;
        }
        lemma_lists_restrict(processes@, family@, keys@.to_set(), table);
        assert forall|k: i32| family@.contains(k) <==> #[trigger] is_found(processes@, k, process_id) by {
            if family@.contains(k) && k != process_id {
                let n = choose|n: int| 0 <= n < keys@.len() && keys@[n] == k;
                assert(keys@.contains(keys@[n]));
                assert(table.contains_key(k));
            }
        }
    }
    let ghost start = processes@;
    let ghost mut times: nat = 0;
    let mut changed = true;
    while changed
        invariant
            table == snapshot@,
            by_pid(table),
            ascending(keys@),
            keys@.to_set() == table.dom(),
            start == seeds(keys@, process_id, process_group_id, table),
            processes@ == swept_often(start, times, keys@, process_id, table),
            !changed ==> swept(processes@, keys@, process_id, table) == processes@,
            forall|k: i32| family@.contains(k) <==> #[trigger] is_found(processes@, k, process_id),
            family@.contains(process_id),
            forall|k: i32| #[trigger]
                family@.contains(k) ==> in_family(k, process_id, process_group_id, table),
            forall|k: i32| #[trigger]
                table.contains_key(k) && is_seed(k, process_id, process_group_id, table)
                    ==> family@.contains(k),
            lists(processes@, family@, table),
            processes@.len() <= table.len(),
            !changed ==> is_closed(family@, process_id, process_group_id, table),
        decreases table.len() - processes@.len() + (if changed {
            1int
        } else {
            0int
        }),
    {
        changed = false;
        let ghost first = family@;
        let ghost list = processes@;
        let ghost count = processes@.len();
        let mut j: usize = 0;
        proof {
            assert(keys@.take(0).len() == 0);
        }
        while j < keys.len()
            invariant
                j <= keys@.len(),
                table == snapshot@,
                by_pid(table),
                keys@.to_set() == table.dom(),
                family@.contains(process_id),
                forall|k: i32| #[trigger]
                    family@.contains(k) ==> in_family(k, process_id, process_group_id, table),
                forall|k: i32| #[trigger]
                    table.contains_key(k) && is_seed(k, process_id, process_group_id, table)
                        ==> family@.contains(k),
                lists(processes@, family@, table),
                forall|k: i32| family@.contains(k) <==> #[trigger] is_found(processes@, k, process_id),
                processes@ == swept(list, keys@.take(j as int), process_id, table),
                first.subset_of(family@),
                list.len() == count,
                changed ==> processes@.len() > count,
                !changed ==> processes@ == list && family@ == first,
                !changed ==> forall|n: int|
                    0 <= n < j && first.contains(table[#[trigger] keys@[n]].parent_pid)
                        ==> first.contains(keys@[n]),
            decreases keys@.len() - j,
        {
            let k = keys[j];
            proof {
                assert(keys@.to_set().contains(k)) by {
                    assert(keys@.contains(keys@[j as int]));
                }
                assert(keys@.take(j + 1).drop_last() =~= keys@.take(j as int));
                assert(is_found(processes@, table[k].pid, process_id) == family@.contains(table[k].pid));
                assert(is_found(processes@, table[k].parent_pid, process_id) == family@.contains(
                    table[k].parent_pid,
                ));
            }
            match snapshot.get(&k) {
                Some(stat) => {
                    if !family.contains(&stat.pid) && family.contains(&stat.parent_pid) {
                        proof {
                            let n = choose|n: nat| #[trigger]
                                descends(stat.parent_pid, n, process_id, process_group_id, table);
                            assert(descends(k, n + 1, process_id, process_group_id, table));
                            lemma_lists_push(processes@, family@, *stat, table);
                            lemma_found_push(processes@, *stat, process_id);
                        }
                        let _ = family.insert(stat.pid);
                        processes.push(*stat);
                        changed = true;
                    }
                },
                None => {},
            }
            j = j + 1;
        }
        proof {
            assert(keys@.take(keys@.len() as int) =~= keys@);
            times = times + 1;
            lemma_lists_len(processes@, family@, table);
            if !changed {
                assert forall|k: i32| #[trigger]
                    table.contains_key(k) && family@.contains(table[k].parent_pid) implies family@.contains(k) by {
                    assert(keys@.to_set().contains(k));
                    let n = choose|n: int| 0 <= n < keys@.len() && keys@[n] == k;
                }
            }
        }
    }
    proof {
        assert forall|k: i32| #[trigger]
            table.contains_key(k) && in_family(k, process_id, process_group_id, table) implies exists|i: int|
            0 <= i < processes@.len() && processes@[i].pid == k by {
            let n = choose|n: nat| #[trigger] descends(k, n, process_id, process_group_id, table);
            lemma_closed(k, n, family@, process_id, process_group_id, table);
        }
    }
    processes
}

proof fn lemma_lists_restrict(
    list: Seq<ProcessStat>,
    family: Set<i32>,
    keys: Set<i32>,
    table: Map<i32, ProcessStat>,
)
    requires
        lists(list, family.intersect(keys), table),
        keys == table.dom(),
        table.dom().finite(),
    ensures
        lists(list, family, table),
        list.len() <= table.len(),
{
    assert forall|k: i32| #[trigger] table.contains_key(k) && family.contains(k) implies exists|i: int|
        0 <= i < list.len() && list[i].pid == k by {
        assert(family.intersect(keys).contains(k));
    }
    lemma_lists_len(list, family, table);
}

proof fn lemma_lists_len(list: Seq<ProcessStat>, family: Set<i32>, table: Map<i32, ProcessStat>)
    requires
        lists(list, family, table),
        table.dom().finite(),
    ensures
        list.len() <= table.len(),
{
    let pids = Seq::new(list.len(), |i: int| list[i].pid);
    assert(pids.no_duplicates());
    pids.unique_seq_to_set();
    assert(pids.to_set().subset_of(table.dom())) by {
        assert forall|k: i32| pids.to_set().contains(k) implies table.dom().contains(k) by {
            let i = choose|i: int| 0 <= i < pids.len() && pids[i] == k;
            assert(list[i].pid == k);
        }
    }
    vstd::set_lib::lemma_len_subset(pids.to_set(), table.dom());
}

/// A process is read back from its status line, whatever the name of its command is: what stands before the last
/// parenthesis does not matter.
pub proof fn processes_are_read_back(pid: i32, head: Seq<char>, rest: Seq<char>, stat: ProcessStat)
    requires
        forall|i: int| 0 <= i < rest.len() ==> #[trigger] rest[i] != ')',
        words(rest).len() >= 20,
        words(rest)[1] == signed_decimal(stat.parent_pid as int),
        words(rest)[2] == signed_decimal(stat.process_group_id as int),
        words(rest)[19] == decimal(stat.start_time as nat),
        stat.pid == pid,
    ensures
        stat_of(pid, head + seq![')'] + rest) == Some(stat),
{
    let line = head + seq![')'] + rest;
    let n = head.len() as int;
    last_places_are_last(line, ')');
    assert(line[n] == ')');
    assert(last_index(line, ')') == n) by {
        let paren = last_index(line, ')');
        if paren > n {
            assert(line[paren] == rest[paren - n - 1]);
        }
    }
    assert(line.skip(n + 1) =~= rest);
    signed_decimal_round_trip(stat.parent_pid as int);
    signed_decimal_round_trip(stat.process_group_id as int);
    decimal_round_trip(stat.start_time as nat);
    let start = decimal(stat.start_time as nat);
    assert(is_digit(start[0]));
}

/// The table holds exactly the processes that the entries show, and of two with the same ID the last.
pub proof fn tables_hold_the_processes(entries: Seq<StatEntry>, i: int, pid: i32)
    ensures
        table_of(entries).contains_key(pid) <==> exists|j: int|
            0 <= j < entries.len() && entry_stat(#[trigger] entries[j]) is Some && entry_stat(entries[j])->0.pid == pid,
        0 <= i < entries.len() && entry_stat(entries[i]) is Some && entry_stat(entries[i])->0.pid == pid && (forall|j: int|
            i < j < entries.len() ==> !(entry_stat(#[trigger] entries[j]) is Some && entry_stat(entries[j])->0.pid == pid))
            ==> table_of(entries)[pid] == entry_stat(entries[i])->0,
    decreases entries.len(),
{
    if entries.len() > 0 {
        let rest = entries.drop_last();
        let last = entries.len() - 1;
        tables_hold_the_processes(rest, i, pid);
        if table_of(rest).contains_key(pid) {
            let j = choose|j: int|
                0 <= j < rest.len() && entry_stat(#[trigger] rest[j]) is Some && entry_stat(rest[j])->0.pid == pid;
            assert(entries[j] == rest[j]);
        }
        if exists|j: int|
            0 <= j < entries.len() && entry_stat(#[trigger] entries[j]) is Some && entry_stat(entries[j])->0.pid == pid {
            let j = choose|j: int|
                0 <= j < entries.len() && entry_stat(#[trigger] entries[j]) is Some && entry_stat(entries[j])->0.pid == pid;
            if j < last {
                assert(rest[j] == entries[j]);
            }
        }
        if entry_stat(entries.last()) is Some && entry_stat(entries.last())->0.pid == pid {
            assert(entry_stat(entries[last]) is Some);
        }
        if 0 <= i < last && entry_stat(entries[i]) is Some && entry_stat(entries[i])->0.pid == pid && (forall|j: int|
            i < j < entries.len() ==> !(entry_stat(#[trigger] entries[j]) is Some && entry_stat(entries[j])->0.pid == pid)) {
            assert(rest[i] == entries[i]);
            assert(!(entry_stat(entries[last]) is Some && entry_stat(entries[last])->0.pid == pid));
            assert forall|j: int| i < j < rest.len() implies !(entry_stat(#[trigger] rest[j]) is Some && entry_stat(
                rest[j],
            )->0.pid == pid) by {
                assert(rest[j] == entries[j]);
            }
        }
    }
}

/// The tree of the command holds its process, its process group, and with each process its children; and it holds no
/// process for another reason.
pub proof fn trees_hold_all_descendants(
    k: i32,
    process_id: i32,
    process_group_id: i32,
    table: Map<i32, ProcessStat>,
)
    ensures
        in_family(process_id, process_id, process_group_id, table),
        table.contains_key(k) && table[k].process_group_id == process_group_id ==> in_family(
            k,
            process_id,
            process_group_id,
            table,
        ),
        table.contains_key(k) && in_family(table[k].parent_pid, process_id, process_group_id, table) ==> in_family(
            k,
            process_id,
            process_group_id,
            table,
        ),
        in_family(k, process_id, process_group_id, table) ==> k == process_id || (table.contains_key(k) && (
        table[k].process_group_id == process_group_id || in_family(
            table[k].parent_pid,
            process_id,
            process_group_id,
            table,
        ))),
{
    assert(descends(process_id, 0, process_id, process_group_id, table));
    if table.contains_key(k) && table[k].process_group_id == process_group_id {
        assert(descends(k, 0, process_id, process_group_id, table));
    }
    if table.contains_key(k) && in_family(table[k].parent_pid, process_id, process_group_id, table) {
        let n = choose|n: nat| #[trigger] descends(table[k].parent_pid, n, process_id, process_group_id, table);
        assert(descends(k, n + 1, process_id, process_group_id, table));
    }
    if in_family(k, process_id, process_group_id, table) {
        let n = choose|n: nat| #[trigger] descends(k, n, process_id, process_group_id, table);
        if n > 0 {
            assert(descends(table[k].parent_pid, (n - 1) as nat, process_id, process_group_id, table));
        }
    }
}

/// A process is listed exactly if it is in the table and in the tree, with what the table tells of it, and none is listed
/// twice.
pub proof fn listed_processes_are_those_of_the_tree(
    list: Seq<ProcessStat>,
    stat: ProcessStat,
    process_id: i32,
    process_group_id: i32,
    table: Map<i32, ProcessStat>,
)
    requires
        lists_tree(list, process_id, process_group_id, table),
        forall|k: i32| #[trigger] table.contains_key(k) ==> table[k].pid == k,
    ensures
        list.contains(stat) <==> table.contains_key(stat.pid) && table[stat.pid] == stat && in_family(
            stat.pid,
            process_id,
            process_group_id,
            table,
        ),
        list.no_duplicates(),
{
    if table.contains_key(stat.pid) && table[stat.pid] == stat && in_family(
        stat.pid,
        process_id,
        process_group_id,
        table,
    ) {
        let i = choose|i: int| 0 <= i < list.len() && list[i].pid == stat.pid;
        assert(list[i] == stat);
    }
    if list.contains(stat) {
        let i = choose|i: int| 0 <= i < list.len() && list[i] == stat;
        assert(list[i].pid == stat.pid);
    }
}

/// Discovery starts at the command process and at the members of its group, and nowhere else.
pub proof fn discovery_starts_at_the_command(
    keys: Seq<i32>,
    process_id: i32,
    process_group_id: i32,
    table: Map<i32, ProcessStat>,
    stat: ProcessStat,
)
    ensures
        seeds(keys, process_id, process_group_id, table).contains(stat) <==> exists|i: int|
            0 <= i < keys.len() && table[#[trigger] keys[i]] == stat && (keys[i] == process_id || (table.contains_key(
                keys[i],
            ) && table[keys[i]].process_group_id == process_group_id)),
    decreases keys.len(),
{
    if keys.len() > 0 {
        let rest = keys.drop_last();
        let last = keys.len() - 1;
        let before = seeds(rest, process_id, process_group_id, table);
        let all = seeds(keys, process_id, process_group_id, table);
        discovery_starts_at_the_command(rest, process_id, process_group_id, table, stat);
        if before.contains(stat) {
            let i = choose|i: int|
                0 <= i < rest.len() && table[#[trigger] rest[i]] == stat && (rest[i] == process_id || (table.contains_key(
                    rest[i],
                ) && table[rest[i]].process_group_id == process_group_id));
            assert(keys[i] == rest[i]);
            let n = choose|n: int| 0 <= n < before.len() && before[n] == stat;
            assert(all[n] == stat);
        }
        if is_seed(keys.last(), process_id, process_group_id, table) {
            assert(all =~= before.push(table[keys[last]]));
            assert(all[before.len() as int] == table[keys[last]]);
        }
        if all.contains(stat) && !before.contains(stat) {
            let n = choose|n: int| 0 <= n < all.len() && all[n] == stat;
            if n < before.len() {
                assert(before[n] == stat);
            }
            assert(table[keys[last]] == stat);
        }
        if exists|i: int|
            0 <= i < keys.len() && table[#[trigger] keys[i]] == stat && (keys[i] == process_id || (table.contains_key(
                keys[i],
            ) && table[keys[i]].process_group_id == process_group_id)) {
            let i = choose|i: int|
                0 <= i < keys.len() && table[#[trigger] keys[i]] == stat && (keys[i] == process_id || (table.contains_key(
                    keys[i],
                ) && table[keys[i]].process_group_id == process_group_id));
            if i < last {
                assert(rest[i] == keys[i]);
            }
        }
    }
}

/// A sweep keeps what was found in its order, and adds each process behind its parent and only once.
pub proof fn parents_are_found_before_their_children(
    list: Seq<ProcessStat>,
    keys: Seq<i32>,
    process_id: i32,
    table: Map<i32, ProcessStat>,
    i: int,
)
    ensures
        ({
            let after = swept(list, keys, process_id, table);
            &&& after.len() >= list.len()
            &&& after.take(list.len() as int) == list
            &&& list.len() <= i < after.len() ==> is_found(after.take(i), after[i].parent_pid, process_id)
            &&& list.len() <= i < after.len() ==> !is_found(after.take(i), after[i].pid, process_id)
        }),
    decreases keys.len(),
{
    let after = swept(list, keys, process_id, table);
    if keys.len() > 0 {
        let before = swept(list, keys.drop_last(), process_id, table);
        parents_are_found_before_their_children(list, keys.drop_last(), process_id, table, i);
        if after != before {
            assert(after =~= before.push(table[keys.last()]));
            assert(after.take(list.len() as int) =~= before.take(list.len() as int));
            if i < before.len() && list.len() <= i {
                assert(after.take(i) =~= before.take(i));
            } else if i == before.len() {
                assert(after.take(i) =~= before);
            }
        }
    } else {
        assert(after.take(list.len() as int) =~= list);
    }
}

} // verus!
