//! Resident-memory accounting for a long-lived session.
//!
//! Tests and compilers that a session starts are not charged to it. What is charged are exactly two
//! processes: the interactive GHC two steps below the configured command process, and its immediate
//! Cabal parent.

use crate::path::{file_name_of, FilePath};
use crate::pids::ascending_keys;
use crate::text::{
    as_i32, as_u64, decimal, decimal_round_trip, digit_value, field_word, field_word_of, format_i32, format_u64,
    has_prefix, is_digit, natural, parse_i32, parse_u64, same_text, signed_decimal, signed_decimal_round_trip,
    strip_prefix,
};
use std::collections::BTreeMap;
use vstd::prelude::*;

verus! {

broadcast use {vstd::laws_cmp::group_laws_cmp, vstd::std_specs::btree::group_btree_axioms};

/// A process, as far as the accounting looks at it.
#[derive(Clone, Copy, Debug)]
pub struct Process {
    pub pid: i32,
    pub parent_pid: i32,
    pub process_group_id: i32,
    pub resident_bytes: u64,
    /// Whether an argument of the command line is `--interactive`.
    pub interactive: bool,
    /// Whether the executable is a GHC.
    pub ghc_executable: bool,
    /// Whether the executable is a Cabal.
    pub cabal_executable: bool,
}

/// The resident memory of the interactive GHC and its immediate Cabal parent.
#[derive(Debug)]
pub struct MemoryUsage {
    pub bytes: u64,
    pub command_pid: i32,
    /// The process ID and memory of the Cabal parent.
    pub cabal_parent: Option<(i32, u64)>,
    /// The process ID and memory of the interactive GHC.
    pub interactive_ghc: Option<(i32, u64)>,
}

pub const KIB: u64 = 1024;

pub const MIB: u64 = 1048576;

pub const GIB: u64 = 1073741824;

pub const TIB: u64 = 1099511627776;

/// `n / d` rounded to the nearest integer, and to the even one of two that are equally near.
pub open spec fn round_half_even(n: nat, d: nat) -> nat {
    let q = n / d;
    let r = n % d;
    if 2 * r > d || (2 * r == d && q % 2 == 1) {
        q + 1
    } else {
        q
    }
}

/// The distance between the numbers of 53 significant bits near `n`.
pub open spec fn spacing(n: nat) -> nat
    decreases n,
{
    if n < 9007199254740992 {
        1
    } else {
        2 * spacing(n / 2)
    }
}

/// `n` rounded to 53 significant bits.
pub open spec fn rounded(n: nat) -> nat {
    round_half_even(n, spacing(n)) * spacing(n)
}

/// The hundredths of a quantity with two decimal places.
pub open spec fn two_places(hundredths: nat) -> Seq<char> {
    decimal(hundredths / 100) + "."@ + decimal(hundredths / 10 % 10) + decimal(hundredths % 10)
}

/// `bytes` in units of `unit` bytes, with two decimal places.
pub open spec fn in_units(bytes: u64, unit: u64) -> Seq<char> {
    two_places(round_half_even(100 * rounded(bytes as nat), unit as nat))
}

/// A byte count in the largest binary unit that it reaches.
pub open spec fn bytes_text(bytes: u64) -> Seq<char> {
    if bytes >= TIB {
        in_units(bytes, TIB) + " TiB"@
    } else if bytes >= GIB {
        in_units(bytes, GIB) + " GiB"@
    } else if bytes >= MIB {
        in_units(bytes, MIB) + " MiB"@
    } else if bytes >= KIB {
        in_units(bytes, KIB) + " KiB"@
    } else {
        decimal(bytes as nat) + " bytes"@
    }
}

fn rounded_quotient(n: u128, d: u128) -> (r: u128)
    requires
        0 < d <= 0x1_0000_0000_0000_0000,
        n < 0x1_0000_0000_0000_0000_0000_0000_0000_0000 - 1,
    ensures
        r == round_half_even(n as nat, d as nat),
        r <= n / d + 1,
{
    let q: u128 = n / d;
    let rest: u128 = n % d;
    if 2 * rest > d || (2 * rest == d && q % 2 == 1) {
        assert(q < 0xffff_ffff_ffff_ffff_ffff_ffff_ffff_ffff) by (nonlinear_arith)
            requires
                q == n / d,
                d > 0,
                n < 0x1_0000_0000_0000_0000_0000_0000_0000_0000 - 1,
        ;
        q + 1
    } else {
        q
    }
}

fn spacing_of(n: u64) -> (r: u64)
    ensures
        r == spacing(n as nat),
        r == 1 || r * 4503599627370496 <= n,
        n < 9007199254740992 * r,
    decreases n,
{
    if n < 9007199254740992 {
        1
    } else {
        2 * spacing_of(n / 2)
    }
}

/// `bytes` in units of `unit` bytes, as hundredths.
fn hundredths(bytes: u64, unit: u64) -> (r: u64)
    requires
        1024 <= unit <= TIB,
        unit <= bytes,
    ensures
        r == round_half_even(100 * rounded(bytes as nat), unit as nat),
{
    let step = spacing_of(bytes);
    let steps: u128 = rounded_quotient(bytes as u128, step as u128);
    proof {
        let b = bytes as nat;
        let s = step as nat;
        assert(b / s < 9007199254740992) by (nonlinear_arith)
            requires
                b < 9007199254740992 * s,
                s > 0,
        ;
        assert(steps * s <= 9007199254740992 * s) by (nonlinear_arith)
            requires
                steps <= 9007199254740992,
        ;
        assert(step <= 4096);
        assert(9007199254740992 * s <= 9007199254740992 * 4096);
    }
    let value: u128 = steps * step as u128;
    let r: u128 = rounded_quotient(100 * value, unit as u128);
    proof {
        let v = value as nat;
        let u = unit as nat;
        assert((100 * v) / u <= 100 * v / 1024) by (nonlinear_arith)
            requires
                u >= 1024,
        ;
    }
    r as u64
}

fn write_in_units(bytes: u64, unit: u64, name: &str) -> (r: String)
    requires
        1024 <= unit <= TIB,
        unit <= bytes,
    ensures
        r@ == in_units(bytes, unit) + name@,
{
    let h = hundredths(bytes, unit);
    let mut r = format_u64(h / 100);
    r.append(".");
    r.append(format_u64(h / 10 % 10).as_str());
    r.append(format_u64(h % 10).as_str());
    r.append(name);
    r
}

/// Writes a byte count in the largest binary unit that it reaches, with two decimal places.
pub fn format_bytes(bytes: u64) -> (r: String)
    ensures
        r@ == bytes_text(bytes),
{
    if bytes >= TIB {
        write_in_units(bytes, TIB, " TiB")
    } else if bytes >= GIB {
        write_in_units(bytes, GIB, " GiB")
    } else if bytes >= MIB {
        write_in_units(bytes, MIB, " MiB")
    } else if bytes >= KIB {
        write_in_units(bytes, KIB, " KiB")
    } else {
        let mut r = format_u64(bytes);
        r.append(" bytes");
        r
    }
}

impl MemoryUsage {
    /// The lines that tell which processes are charged.
    pub open spec fn details_text(self) -> Seq<char> {
        let command = "Command PID: "@ + signed_decimal(self.command_pid as int);
        match (self.cabal_parent, self.interactive_ghc) {
            (Some((cabal_pid, cabal_bytes)), Some((ghc_pid, ghc_bytes))) => command
                + " (not counted)\nCabal parent PID: "@ + signed_decimal(cabal_pid as int) + " ("@ + bytes_text(
                cabal_bytes,
            ) + ")\nInteractive GHC PID: "@ + signed_decimal(ghc_pid as int) + " ("@ + bytes_text(ghc_bytes)
                + ")"@,
            _ => command
                + " (not counted)\nCabal parent PID: not found\nInteractive GHC PID: not found"@,
        }
    }

    /// Tells which processes are charged.
    pub fn details(&self) -> (r: String)
        ensures
            r@ == self.details_text(),
    {
        let mut r = String::new();
        r.append("Command PID: ");
        r.append(format_i32(self.command_pid).as_str());
        proof {
            assert(r@ =~= "Command PID: "@ + signed_decimal(self.command_pid as int));
        }
        match (self.cabal_parent, self.interactive_ghc) {
            (Some((cabal_pid, cabal_bytes)), Some((ghc_pid, ghc_bytes))) => {
                r.append(" (not counted)\nCabal parent PID: ");
                r.append(format_i32(cabal_pid).as_str());
                r.append(" (");
                r.append(format_bytes(cabal_bytes).as_str());
                r.append(")\nInteractive GHC PID: ");
                r.append(format_i32(ghc_pid).as_str());
                r.append(" (");
                r.append(format_bytes(ghc_bytes).as_str());
                r.append(")");
            },
            _ => {
                r.append(" (not counted)\nCabal parent PID: not found\nInteractive GHC PID: not found");
            },
        }
        r
    }
}

/// Whether a path leads to a file that is called like a GHC.
pub open spec fn ghc_path(path: Seq<char>) -> bool {
    match file_name_of(path) {
        Some(name) => name == "ghc"@ || (has_prefix(name, "ghc-"@) && name.len() > "ghc-"@.len()),
        None => false,
    }
}

/// Whether a path leads to a file that is called like a Cabal.
pub open spec fn cabal_path(path: Seq<char>) -> bool {
    match file_name_of(path) {
        Some(name) => name == "cabal"@ || name == ".cabal-wrapped"@ || (has_prefix(name, "cabal-"@)
            && name.len() > "cabal-"@.len()),
        None => false,
    }
}

fn has_version_after(name: &str, prefix: &str) -> (r: bool)
    ensures
        r == (has_prefix(name@, prefix@) && name@.len() > prefix@.len()),
{
    match strip_prefix(name, prefix) {
        Some(version) => !version.as_str().is_empty(),
        None => false,
    }
}

/// Whether `path` leads to a GHC executable: `ghc`, or `ghc-` with a version.
pub fn is_ghc_executable(path: &str) -> (r: bool)
    ensures
        r == ghc_path(path@),
{
    match FilePath::new(path.to_owned()).file_name() {
        Some(name) => same_text(name.as_str(), "ghc") || has_version_after(name.as_str(), "ghc-"),
        None => false,
    }
}

/// Whether `path` leads to a Cabal executable: `cabal`, `.cabal-wrapped`, or `cabal-` with a version.
pub fn is_cabal_executable(path: &str) -> (r: bool)
    ensures
        r == cabal_path(path@),
{
    match FilePath::new(path.to_owned()).file_name() {
        Some(name) => same_text(name.as_str(), "cabal") || same_text(name.as_str(), ".cabal-wrapped")
            || has_version_after(name.as_str(), "cabal-"),
        None => false,
    }
}

/// The number that the first word of a status field writes.
pub open spec fn status_number(status: Seq<char>, name: Seq<char>) -> Option<i32> {
    match field_word(status, name) {
        Some(word) => as_i32(word),
        None => None,
    }
}

/// The resident memory of a process status, in bytes.
pub open spec fn status_memory(status: Seq<char>) -> u64 {
    let kib = match field_word(status, "VmRSS:"@) {
        Some(word) => match as_u64(word) {
            Some(kib) => kib,
            None => 0,
        },
        None => 0,
    };
    if kib * 1024 <= u64::MAX {
        (kib * 1024) as u64
    } else {
        u64::MAX
    }
}

/// The parent, the process group and the memory that a process status tells of.
pub open spec fn status_fields(status: Seq<char>) -> Option<(i32, i32, u64)> {
    match (status_number(status, "PPid:"@), status_number(status, "NSpgid:"@)) {
        (Some(parent), Some(group)) => Some((parent, group, status_memory(status))),
        _ => None,
    }
}

fn status_value(status: &str, name: &str) -> (r: Option<i32>)
    ensures
        r == status_number(status@, name@),
{
    match field_word_of(status, name) {
        Some(word) => parse_i32(word.as_str()),
        None => None,
    }
}

/// Reads the parent, the process group and the resident memory from the text of a process status.
/// The process group is the one in the PID namespace of the mount, which comes first. A process
/// without memory of its own has none.
pub fn parse_process_status(status: &str) -> (r: Option<(i32, i32, u64)>)
    ensures
        r == status_fields(status@),
{
    let parent_pid = match status_value(status, "PPid:") {
        Some(pid) => pid,
        None => {
            return None;
        },
    };
    let process_group_id = match status_value(status, "NSpgid:") {
        Some(pid) => pid,
        None => {
            return None;
        },
    };
    let resident_kib: u64 = match field_word_of(status, "VmRSS:") {
        Some(word) => match parse_u64(word.as_str()) {
            Some(kib) => kib,
            None => 0,
        },
        None => 0,
    };
    let bytes: u64 = if resident_kib <= 18014398509481983 {
        resident_kib * 1024
    } else {
        u64::MAX
    };
    Some((parent_pid, process_group_id, bytes))
}

/// The process that is `steps` parents above `pid`, if the table leads there.
pub open spec fn ancestor(pid: i32, steps: nat, processes: Map<i32, Process>) -> Option<i32>
    decreases steps,
{
    if steps == 0 {
        Some(pid)
    } else {
        match ancestor(pid, (steps - 1) as nat, processes) {
            Some(below) => if processes.contains_key(below) {
                Some(processes[below].parent_pid)
            } else {
                None
            },
            None => None,
        }
    }
}

/// Whether `pid` is `depth` steps below `ancestor_pid`, on a walk no longer than the table.
pub open spec fn is_depth(pid: i32, ancestor_pid: i32, processes: Map<i32, Process>, depth: nat) -> bool {
    &&& depth < processes.len()
    &&& ancestor(pid, depth, processes) == Some(ancestor_pid)
    &&& forall|d: nat| d < depth ==> #[trigger] ancestor(pid, d, processes) != Some(ancestor_pid)
}

proof fn lemma_walk_ends(pid: i32, d: nat, e: nat, processes: Map<i32, Process>)
    requires
        d <= e,
    ensures
        ancestor(pid, d, processes) is None ==> ancestor(pid, e, processes) is None,
        ({
            let below = ancestor(pid, d, processes);
            below is Some && processes.contains_key(below->0) && processes[below->0].parent_pid == below->0
                ==> ancestor(pid, e, processes) == below
        }),
    decreases e,
{
    if d < e {
        lemma_walk_ends(pid, d, (e - 1) as nat, processes);
    }
}

/// How many steps `pid` is below `ancestor_pid`.
pub fn descendant_depth(pid: i32, ancestor_pid: i32, processes: &BTreeMap<i32, Process>) -> (r: Option<
    usize,
>)
    ensures
        match r {
            Some(depth) => is_depth(pid, ancestor_pid, processes@, depth as nat),
            None => forall|d: nat|
                d < processes@.len() ==> #[trigger] ancestor(pid, d, processes@) != Some(ancestor_pid),
        },
{
    let mut current: i32 = pid;
    let mut depth: usize = 0;
    while depth < processes.len()
        invariant
            ancestor(pid, depth as nat, processes@) == Some(current),
            forall|d: nat| d < depth ==> #[trigger] ancestor(pid, d, processes@) != Some(ancestor_pid),
        decreases processes@.len() - depth,
    {
        if current == ancestor_pid {
            return Some(depth);
        }
        match processes.get(&current) {
            Some(process) => {
                let parent_pid = process.parent_pid;
                if parent_pid == current {
                    proof {
                        assert forall|d: nat| d < processes@.len() implies #[trigger] ancestor(
                            pid,
                            d,
                            processes@,
                        ) != Some(ancestor_pid) by {
                            if d >= depth {
                                lemma_walk_ends(pid, depth as nat, d, processes@);
                            }
                        }
                    }
                    return None;
                }
                current = parent_pid;
            },
            None => {
                proof {
                    assert forall|d: nat| d < processes@.len() implies #[trigger] ancestor(
                        pid,
                        d,
                        processes@,
                    ) != Some(ancestor_pid) by {
                        if d > depth {
                            assert(ancestor(pid, (depth + 1) as nat, processes@) is None);
                            lemma_walk_ends(pid, (depth + 1) as nat, d, processes@);
                        }
                    }
                }
                return None;
            },
        }
        depth = depth + 1;
    }
    None
}

/// Whether the process with key `k` is the interactive GHC of the command, or could be: a GHC with
/// an interactive command line two steps below the command, whose parent is a Cabal one step below.
pub open spec fn is_candidate(k: i32, command_pid: i32, processes: Map<i32, Process>) -> bool {
    processes.contains_key(k) && {
        let ghc = processes[k];
        &&& ghc.interactive
        &&& ghc.ghc_executable
        &&& is_depth(ghc.pid, command_pid, processes, 2)
        &&& processes.contains_key(ghc.parent_pid)
        &&& processes[ghc.parent_pid].cabal_executable
        &&& is_depth(processes[ghc.parent_pid].pid, command_pid, processes, 1)
    }
}

/// Whether, of all candidates, the process with key `k` is the one that is charged: the one with the
/// lowest process ID.
pub open spec fn is_selected(k: i32, command_pid: i32, processes: Map<i32, Process>) -> bool {
    &&& is_candidate(k, command_pid, processes)
    &&& forall|other: i32| #[trigger]
        is_candidate(other, command_pid, processes) ==> processes[k].pid < processes[other].pid || (
        processes[k].pid == processes[other].pid && k <= other)
}

/// Whether the table still shows the command process in its process group.
pub open spec fn command_is_current(
    command_pid: i32,
    process_group_id: i32,
    processes: Map<i32, Process>,
) -> bool {
    processes.contains_key(command_pid) && processes[command_pid].process_group_id == process_group_id
}

/// What is charged if the process with key `k` is selected.
pub open spec fn usage_of(k: i32, command_pid: i32, processes: Map<i32, Process>) -> MemoryUsage {
    let ghc = processes[k];
    let cabal = processes[ghc.parent_pid];
    let sum = cabal.resident_bytes + ghc.resident_bytes;
    MemoryUsage {
        bytes: if sum <= u64::MAX {
            sum as u64
        } else {
            u64::MAX
        },
        command_pid,
        cabal_parent: Some((cabal.pid, cabal.resident_bytes)),
        interactive_ghc: Some((ghc.pid, ghc.resident_bytes)),
    }
}

fn check_candidate(k: i32, command_pid: i32, processes: &BTreeMap<i32, Process>) -> (r: bool)
    ensures
        r == is_candidate(k, command_pid, processes@),
{
    match processes.get(&k) {
        Some(ghc) => {
            if !ghc.interactive || !ghc.ghc_executable {
                return false;
            }
            if !has_depth(ghc.pid, command_pid, processes, 2) {
                return false;
            }
            match processes.get(&ghc.parent_pid) {
                Some(cabal) => cabal.cabal_executable && has_depth(cabal.pid, command_pid, processes, 1),
                None => false,
            }
        },
        None => false,
    }
}

fn has_depth(pid: i32, ancestor_pid: i32, processes: &BTreeMap<i32, Process>, depth: usize) -> (r: bool)
    ensures
        r == is_depth(pid, ancestor_pid, processes@, depth as nat),
{
    match descendant_depth(pid, ancestor_pid, processes) {
        Some(found) => found == depth,
        None => false,
    }
}

/// Selects the processes that are charged to the command. The command process is checked against
/// the process group that it was started in; the interactive GHC may have left that group.
pub fn select_repl_processes(
    command_pid: i32,
    process_group_id: i32,
    processes: &BTreeMap<i32, Process>,
) -> (r: MemoryUsage)
    ensures
        if command_is_current(command_pid, process_group_id, processes@) && exists|k: i32|
            is_candidate(k, command_pid, processes@) {
            exists|k: i32|
                #[trigger] is_selected(k, command_pid, processes@) && r == usage_of(k, command_pid, processes@)
        } else {
            r == (MemoryUsage { bytes: 0, command_pid, cabal_parent: None, interactive_ghc: None })
        },
{
    let current = match processes.get(&command_pid) {
        Some(process) => process.process_group_id == process_group_id,
        None => false,
    };
    let mut best: Option<i32> = None;
    if current {
        let keys = ascending_keys(processes);
        let mut i: usize = 0;
        while i < keys.len()
            invariant
                i <= keys@.len(),
                keys@.to_set() == processes@.dom(),
                match best {
                    Some(b) => is_candidate(b, command_pid, processes@) && forall|n: int|
                        0 <= n < i && is_candidate(#[trigger] keys@[n], command_pid, processes@)
                            ==> processes@[b].pid < processes@[keys@[n]].pid || (processes@[b].pid
                            == processes@[keys@[n]].pid && b <= keys@[n]),
                    None => forall|n: int|
                        0 <= n < i ==> !is_candidate(#[trigger] keys@[n], command_pid, processes@),
                },
            decreases keys@.len() - i,
        {
            let k = keys[i];
            if check_candidate(k, command_pid, processes) {
                match best {
                    Some(b) => {
                        match (processes.get(&k), processes.get(&b)) {
                            (Some(new), Some(old_best)) => {
                                if new.pid < old_best.pid || (new.pid == old_best.pid && k < b) {
                                    best = Some(k);
                                }
                            },
                            _ => {},
                        }
                    },
                    None => {
                        best = Some(k);
                    },
                }
            }
            i = i + 1;
        }
        proof {
            assert forall|k: i32| is_candidate(k, command_pid, processes@) implies exists|n: int|
                0 <= n < keys@.len() && #[trigger] keys@[n] == k by {
                assert(keys@.to_set().contains(k));
                assert(keys@.contains(k));
            }
        }
    }
    match best {
        Some(k) => {
            proof {
                assert(is_selected(k, command_pid, processes@));
            }
            match processes.get(&k) {
                Some(ghc) => match processes.get(&ghc.parent_pid) {
                    Some(cabal) => {
                        let bytes = cabal.resident_bytes.saturating_add(ghc.resident_bytes);
                        return MemoryUsage {
                            bytes,
                            command_pid,
                            cabal_parent: Some((cabal.pid, cabal.resident_bytes)),
                            interactive_ghc: Some((ghc.pid, ghc.resident_bytes)),
                        };
                    },
                    None => {},
                },
                None => {},
            }
        },
        None => {},
    }
    MemoryUsage { bytes: 0, command_pid, cabal_parent: None, interactive_ghc: None }
}

/// At most one process is selected.
pub proof fn selection_is_unique(a: i32, b: i32, command_pid: i32, processes: Map<i32, Process>)
    requires
        is_selected(a, command_pid, processes),
        is_selected(b, command_pid, processes),
    ensures
        a == b,
{
}

/// Whether one of the arguments of a command line, each ended by a zero byte, is `argument`.
pub open spec fn has_argument(cmdline: Seq<u8>, argument: Seq<u8>) -> bool {
    exists|i: int| #[trigger] argument_at(cmdline, argument, i)
}

/// Whether `argument` is the argument that starts at `i`.
pub open spec fn argument_at(cmdline: Seq<u8>, argument: Seq<u8>, i: int) -> bool {
    &&& 0 <= i
    &&& i + argument.len() <= cmdline.len()
    &&& cmdline.subrange(i, i + argument.len()) == argument
    &&& i == 0 || cmdline[i - 1] == 0
    &&& i + argument.len() == cmdline.len() || cmdline[i + argument.len()] == 0
}

/// The bytes of `--interactive`.
pub open spec fn interactive_flag() -> Seq<u8> {
    seq![45u8, 45, 105, 110, 116, 101, 114, 97, 99, 116, 105, 118, 101]
}

fn is_argument_at(cmdline: &Vec<u8>, argument: &Vec<u8>, i: usize) -> (r: bool)
    requires
        i <= cmdline@.len(),
    ensures
        r == argument_at(cmdline@, argument@, i as int),
{
    if argument.len() > cmdline.len() - i {
        return false;
    }
    if i > 0 && cmdline[i - 1] != 0 {
        return false;
    }
    let end: usize = i + argument.len();
    if end < cmdline.len() && cmdline[end] != 0 {
        return false;
    }
    let mut n: usize = 0;
    while n < argument.len()
        invariant
            n <= argument@.len(),
            end == i + argument.len(),
            end <= cmdline@.len(),
            forall|k: int| 0 <= k < n ==> cmdline@[i + k] == argument@[k],
        decreases argument@.len() - n,
    {
        if cmdline[i + n] != argument[n] {
            proof {
                assert(cmdline@.subrange(i as int, end as int)[n as int] == cmdline@[i + n]);
            }
            return false;
        }
        n = n + 1;
    }
    proof {
        assert(cmdline@.subrange(i as int, end as int) =~= argument@);
    }
    true
}

/// Whether a command line has the argument `--interactive`.
pub fn is_interactive(cmdline: &Vec<u8>) -> (r: bool)
    ensures
        r == has_argument(cmdline@, interactive_flag()),
{
    let flag: Vec<u8> = vec![45, 45, 105, 110, 116, 101, 114, 97, 99, 116, 105, 118, 101];
    proof {
        assert(flag@ =~= interactive_flag());
    }
    let mut i: usize = 0;
    while i < cmdline.len()
        invariant
            i <= cmdline@.len(),
            flag@ == interactive_flag(),
            forall|k: int| 0 <= k < i ==> !argument_at(cmdline@, flag@, k),
        decreases cmdline@.len() - i,
    {
        if is_argument_at(cmdline, &flag, i) {
            return true;
        }
        i = i + 1;
    }
    false
}

/// What was read of one entry of the process table. What could not be read is missing.
#[derive(Debug)]
pub struct ProcEntry {
    /// The name of the entry.
    pub name: String,
    /// The text of the process status.
    pub status: Option<String>,
    /// The command line, with a zero byte after each argument.
    pub cmdline: Option<Vec<u8>>,
    /// The path of the executable.
    pub executable: Option<String>,
}

/// The process that an entry shows: its name is the process ID and its status could be read.
pub open spec fn process_of(entry: ProcEntry) -> Option<Process> {
    match (as_i32(entry.name@), entry.status) {
        (Some(pid), Some(status)) => match status_fields(status@) {
            Some((parent_pid, process_group_id, resident_bytes)) => Some(
                Process {
                    pid,
                    parent_pid,
                    process_group_id,
                    resident_bytes,
                    interactive: entry.cmdline is Some && has_argument(
                        entry.cmdline->0@,
                        interactive_flag(),
                    ),
                    ghc_executable: entry.executable is Some && ghc_path(entry.executable->0@),
                    cabal_executable: entry.executable is Some && cabal_path(entry.executable->0@),
                },
            ),
            None => None,
        },
        _ => None,
    }
}

/// The processes that the entries show, by process ID.
pub open spec fn processes_of(entries: Seq<ProcEntry>) -> Map<i32, Process>
    decreases entries.len(),
{
    if entries.len() == 0 {
        Map::empty()
    } else {
        let before = processes_of(entries.drop_last());
        match process_of(entries.last()) {
            Some(process) => before.insert(process.pid, process),
            None => before,
        }
    }
}

fn read_process(entry: &ProcEntry) -> (r: Option<Process>)
    ensures
        r == process_of(*entry),
{
    let pid = match parse_i32(entry.name.as_str()) {
        Some(pid) => pid,
        None => {
            return None;
        },
    };
    let (parent_pid, process_group_id, resident_bytes) = match &entry.status {
        Some(status) => match parse_process_status(status.as_str()) {
            Some(fields) => fields,
            None => {
                return None;
            },
        },
        None => {
            return None;
        },
    };
    let interactive = match &entry.cmdline {
        Some(cmdline) => is_interactive(cmdline),
        None => false,
    };
    let ghc_executable = match &entry.executable {
        Some(path) => is_ghc_executable(path.as_str()),
        None => false,
    };
    let cabal_executable = match &entry.executable {
        Some(path) => is_cabal_executable(path.as_str()),
        None => false,
    };
    Some(
        Process {
            pid,
            parent_pid,
            process_group_id,
            resident_bytes,
            interactive,
            ghc_executable,
            cabal_executable,
        },
    )
}

/// Builds the table of processes. Entries that are no process, or whose process vanished while it
/// was read, are left out.
pub fn process_snapshot(entries: &Vec<ProcEntry>) -> (r: BTreeMap<i32, Process>)
    ensures
        r@ == processes_of(entries@),
{
    let mut processes: BTreeMap<i32, Process> = BTreeMap::new();
    let mut i: usize = 0;
    proof {
        assert(entries@.take(0).len() == 0);
    }
    while i < entries.len()
        invariant
            i <= entries@.len(),
            processes@ == processes_of(entries@.take(i as int)),
        decreases entries@.len() - i,
    {
        match read_process(&entries[i]) {
            Some(process) => {
                let _ = processes.insert(process.pid, process);
            },
            None => {},
        }
        proof {
            assert(entries@.take(i + 1).drop_last() =~= entries@.take(i as int));
        }
        i = i + 1;
    }
    proof {
        assert(entries@.take(entries@.len() as int) =~= entries@);
    }
    processes
}

/// The memory that is charged to the command, given what was read of the process table or why it
/// could not be read.
pub fn repl_resident_memory<E>(
    command_pid: i32,
    process_group_id: i32,
    entries: Result<Vec<ProcEntry>, E>,
) -> (r: Result<MemoryUsage, E>)
    ensures
        match (entries, r) {
            (Ok(entries), Ok(usage)) => {
                let processes = processes_of(entries@);
                if command_is_current(command_pid, process_group_id, processes) && exists|k: i32|
                    is_candidate(k, command_pid, processes) {
                    exists|k: i32|
                        #[trigger] is_selected(k, command_pid, processes) && usage == usage_of(
                            k,
                            command_pid,
                            processes,
                        )
                } else {
                    usage == (MemoryUsage {
                        bytes: 0,
                        command_pid,
                        cabal_parent: None,
                        interactive_ghc: None,
                    })
                }
            },
            (Err(error), Err(same)) => same == error,
            _ => false,
        },
{
    match entries {
        Ok(entries) => {
            let processes = process_snapshot(&entries);
            Ok(select_repl_processes(command_pid, process_group_id, &processes))
        },
        Err(error) => Err(error),
    }
}

/// How often the memory of a session is checked, in seconds.
pub const MEMORY_WATCHDOG_INTERVAL: u64 = 30;

/// The resident memory that the charged processes may use together: 28 GiB.
pub const GHCI_MEMORY_LIMIT_BYTES: u64 = 30064771072;

/// What the memory watchdog says when it restarts a session.
pub open spec fn limit_text(usage: MemoryUsage) -> Seq<char> {
    "Component: GHCi and immediate Cabal parent\n"@ + usage.details_text()
        + "\nCombined resident memory: "@ + bytes_text(usage.bytes) + "\nLimit: "@ + bytes_text(
        GHCI_MEMORY_LIMIT_BYTES,
    )
        + "\nRecovery: restarting GHCi through the normal lifecycle-hook and target-synchronization machinery"@
}

/// What the memory watchdog does with a reading: nothing, or it restarts the session and says why.
/// A reading that failed changes nothing.
pub fn run_memory_watchdog(usage: Option<&MemoryUsage>) -> (r: Option<String>)
    ensures
        match usage {
            Some(usage) => if usage.bytes > GHCI_MEMORY_LIMIT_BYTES {
                r is Some && r->0@ == limit_text(*usage)
            } else {
                r is None
            },
            None => r is None,
        },
{
    let usage = match usage {
        Some(usage) => usage,
        None => {
            return None;
        },
    };
    if usage.bytes <= GHCI_MEMORY_LIMIT_BYTES {
        return None;
    }
    let mut text = String::new();
    text.append("Component: GHCi and immediate Cabal parent\n");
    proof {
        assert(text@ =~= "Component: GHCi and immediate Cabal parent\n"@);
    }
    text.append(usage.details().as_str());
    text.append("\nCombined resident memory: ");
    text.append(format_bytes(usage.bytes).as_str());
    text.append("\nLimit: ");
    text.append(format_bytes(GHCI_MEMORY_LIMIT_BYTES).as_str());
    text.append(
        "\nRecovery: restarting GHCi through the normal lifecycle-hook and target-synchronization machinery",
    );
    Some(text)
}

proof fn lemma_least_depth(pid: i32, target: i32, processes: Map<i32, Process>, d: nat) -> (least: nat)
    requires
        ancestor(pid, d, processes) == Some(target),
    ensures
        least <= d,
        ancestor(pid, least, processes) == Some(target),
        forall|e: nat| e < least ==> #[trigger] ancestor(pid, e, processes) != Some(target),
    decreases d,
{
    if exists|e: nat| e < d && #[trigger] ancestor(pid, e, processes) == Some(target) {
        let e = choose|e: nat| e < d && #[trigger] ancestor(pid, e, processes) == Some(target);
        lemma_least_depth(pid, target, processes, e)
    } else {
        d
    }
}

proof fn lemma_shift(pid: i32, i: nat, j: nat, n: nat, processes: Map<i32, Process>)
    requires
        ancestor(pid, i, processes) == ancestor(pid, j, processes),
    ensures
        ancestor(pid, i + n, processes) == ancestor(pid, j + n, processes),
    decreases n,
{
    if n > 0 {
        lemma_shift(pid, i, j, (n - 1) as nat, processes);
        assert((i + n - 1) as nat == i + (n - 1) as nat);
        assert((j + n - 1) as nat == j + (n - 1) as nat);
    }
}

proof fn lemma_walk_exists(pid: i32, d: nat, e: nat, processes: Map<i32, Process>)
    requires
        d <= e,
        ancestor(pid, e, processes) is Some,
    ensures
        ancestor(pid, d, processes) is Some,
{
    lemma_walk_ends(pid, d, e, processes);
}

/// Following parents for as many steps as the table has entries finds every ancestor that is in the
/// table: the depth is missing only if the process is no descendant at all.
pub proof fn depth_finds_every_ancestor(pid: i32, target: i32, processes: Map<i32, Process>, d: nat)
    requires
        processes.dom().finite(),
        processes.contains_key(target),
        ancestor(pid, d, processes) == Some(target),
    ensures
        exists|depth: nat| #[trigger] is_depth(pid, target, processes, depth),
{
    let least = lemma_least_depth(pid, target, processes, d);
    let walk = Seq::new((least + 1) as nat, |i: int| ancestor(pid, i as nat, processes)->0);
    assert forall|i: int| 0 <= i < walk.len() implies processes.dom().contains(#[trigger] walk[i]) by {
        if i < least {
            lemma_walk_exists(pid, i as nat, least, processes);
            lemma_walk_exists(pid, (i + 1) as nat, least, processes);
        }
    }
    assert forall|i: int, j: int| 0 <= i < j < walk.len() implies walk[i] != walk[j] by {
        lemma_walk_exists(pid, i as nat, least, processes);
        lemma_walk_exists(pid, j as nat, least, processes);
        if walk[i] == walk[j] {
            let n = (least - j) as nat;
            lemma_shift(pid, i as nat, j as nat, n, processes);
            assert(ancestor(pid, i as nat + n, processes) == Some(target));
        }
    }
    assert(walk.no_duplicates());
    walk.unique_seq_to_set();
    assert(walk.to_set().subset_of(processes.dom())) by {
        assert forall|k: i32| walk.to_set().contains(k) implies processes.dom().contains(k) by {
            let i = choose|i: int| 0 <= i < walk.len() && walk[i] == k;
        }
    }
    vstd::set_lib::lemma_len_subset(walk.to_set(), processes.dom());
    assert(is_depth(pid, target, processes, least));
}

/// A quotient is rounded to the nearest number, and to the even one if two are as near.
pub proof fn quotients_are_rounded_to_the_nearest(n: nat, d: nat)
    requires
        d > 0,
    ensures
        ({
            let q = round_half_even(n, d);
            &&& 2 * (q * d) <= 2 * n + d
            &&& 2 * n <= 2 * (q * d) + d
            &&& 2 * (q * d) == 2 * n + d || 2 * n == 2 * (q * d) + d ==> q % 2 == 0
        }),
{
    let q = n / d;
    let r = n % d;
    assert(n == q * d + r && r < d) by (nonlinear_arith)
        requires
            q == n / d,
            r == n % d,
            d > 0,
    ;
    assert((q + 1) * d == q * d + d) by (nonlinear_arith);
}

/// A number of bytes that a 64-bit float holds exactly is not rounded before it is shown.
pub proof fn small_numbers_are_exact(n: nat)
    requires
        n < 9007199254740992,
    ensures
        rounded(n) == n,
{
    assert(spacing(n) == 1);
    assert(n / 1 == n && n % 1 == 0);
    assert(round_half_even(n, 1) == n);
    assert(n * 1 == n);
}

/// A number of bytes is shown in the largest unit that it reaches, of which each is 1024 of the one before; below the
/// first it is shown exactly.
pub proof fn bytes_are_shown_in_the_largest_unit(bytes: u64)
    ensures
        KIB == 1024 && MIB == 1024 * KIB && GIB == 1024 * MIB && TIB == 1024 * GIB,
        bytes < 1024 ==> bytes_text(bytes) == decimal(bytes as nat) + " bytes"@,
        1024 <= bytes < 1024 * KIB ==> bytes_text(bytes) == in_units(bytes, KIB) + " KiB"@,
        1024 * KIB <= bytes < 1024 * MIB ==> bytes_text(bytes) == in_units(bytes, MIB) + " MiB"@,
        1024 * MIB <= bytes < 1024 * GIB ==> bytes_text(bytes) == in_units(bytes, GIB) + " GiB"@,
        1024 * GIB <= bytes ==> bytes_text(bytes) == in_units(bytes, TIB) + " TiB"@,
{
}

/// Hundredths are shown as the whole number, a point and two digits, which give the number back.
pub proof fn two_digits_follow_the_point(hundredths: nat)
    ensures
        ({
            let text = two_places(hundredths);
            let n = text.len() - 3;
            &&& n > 0
            &&& text[n] == '.'
            &&& is_digit(text[n + 1]) && is_digit(text[n + 2])
            &&& natural(text.take(n)) == Some((hundredths / 100) as int)
            &&& hundredths == 100 * (hundredths / 100) + 10 * digit_value(text[n + 1]) + digit_value(text[n + 2])
        }),
{
    reveal_strlit(".");
    let whole = decimal(hundredths / 100);
    let tens = decimal(hundredths / 10 % 10);
    let ones = decimal(hundredths % 10);
    decimal_round_trip(hundredths / 100);
    assert(tens.len() == 1 && ones.len() == 1);
    let text = two_places(hundredths);
    assert(text.take(whole.len() as int) =~= whole);
    assert(text[whole.len() as int] == '.');
    assert(text[whole.len() as int + 1] == tens[0]);
    assert(text[whole.len() as int + 2] == ones[0]);
}

/// The session is the interactive GHC two levels below the command, with Cabal between them. Nothing else is counted.
pub proof fn sessions_are_found_below_their_cabal(k: i32, command_pid: i32, processes: Map<i32, Process>)
    requires
        forall|p: i32| #[trigger] processes.contains_key(p) ==> processes[p].pid == p,
    ensures
        is_candidate(k, command_pid, processes) <==> {
            let cabal = processes[k].parent_pid;
            &&& processes.contains_key(k)
            &&& processes[k].interactive && processes[k].ghc_executable
            &&& processes.contains_key(cabal)
            &&& processes[cabal].cabal_executable
            &&& processes[cabal].parent_pid == command_pid
            &&& k != command_pid && cabal != command_pid
            &&& processes.len() > 2
        },
{
    if processes.contains_key(k) {
        let cabal = processes[k].parent_pid;
        lemma_two_levels(k, processes);
        lemma_two_levels(cabal, processes);
        if is_candidate(k, command_pid, processes) {
            assert(ancestor(k, 0, processes) != Some(command_pid));
            assert(ancestor(cabal, 0, processes) != Some(command_pid));
        } else if processes.contains_key(cabal) && processes[cabal].parent_pid == command_pid && k != command_pid && cabal
            != command_pid && processes.len() > 2 {
            assert forall|d: nat| d < 2 implies #[trigger] ancestor(k, d, processes) != Some(command_pid) by {
                assert(d == 0 || d == 1);
            }
            assert forall|d: nat| d < 1 implies #[trigger] ancestor(cabal, d, processes) != Some(command_pid) by {
                assert(d == 0);
            }
        }
    }
}

proof fn lemma_two_levels(k: i32, processes: Map<i32, Process>)
    ensures
        ancestor(k, 0, processes) == Some(k),
        processes.contains_key(k) ==> ancestor(k, 1, processes) == Some(processes[k].parent_pid),
        processes.contains_key(k) && processes.contains_key(processes[k].parent_pid) ==> ancestor(k, 2, processes) == Some(
            processes[processes[k].parent_pid].parent_pid,
        ),
{
    reveal_with_fuel(ancestor, 3);
}

/// The memory of the session is that of its GHC and its Cabal together, as far as 64 bits hold it.
pub proof fn memory_of_both_is_counted(k: i32, command_pid: i32, processes: Map<i32, Process>)
    ensures
        ({
            let usage = usage_of(k, command_pid, processes);
            let ghc = processes[k];
            let cabal = processes[ghc.parent_pid];
            &&& usage.bytes >= ghc.resident_bytes && usage.bytes >= cabal.resident_bytes
            &&& ghc.resident_bytes + cabal.resident_bytes <= u64::MAX ==> usage.bytes == ghc.resident_bytes
                + cabal.resident_bytes
            &&& ghc.resident_bytes + cabal.resident_bytes > u64::MAX ==> usage.bytes == u64::MAX
            &&& usage.command_pid == command_pid
            &&& usage.cabal_parent == Some((cabal.pid, cabal.resident_bytes))
            &&& usage.interactive_ghc == Some((ghc.pid, ghc.resident_bytes))
        }),
{
}

/// An argument is found wherever it stands in the command line, and only as a whole.
pub proof fn arguments_are_found_as_a_whole(before: Seq<u8>, argument: Seq<u8>, after: Seq<u8>)
    requires
        before.len() == 0 || before.last() == 0,
        after.len() == 0 || after[0] == 0,
    ensures
        has_argument(before + argument + after, argument),
{
    let line = before + argument + after;
    let i = before.len() as int;
    assert(line.subrange(i, i + argument.len()) =~= argument);
    if i > 0 {
        assert(line[i - 1] == before.last());
    }
    if after.len() > 0 {
        assert(line[i + argument.len()] == after[0]);
    }
    assert(argument_at(line, argument, i));
}

/// The argument that makes GHC interactive, as it is written.
pub proof fn interactive_flag_is_as_written(i: int)
    ensures
        interactive_flag().len() == "--interactive"@.len(),
        0 <= i < interactive_flag().len() ==> interactive_flag()[i] as char == "--interactive"@[i],
{
    reveal_strlit("--interactive");
}

/// An executable is GHC or Cabal by its file name, which a version may follow after a hyphen.
pub proof fn executables_are_known_by_name(path: Seq<char>, version: Seq<char>)
    ensures
        file_name_of(path) == Some("ghc"@) ==> ghc_path(path),
        file_name_of(path) == Some("cabal"@) ==> cabal_path(path),
        file_name_of(path) == Some(".cabal-wrapped"@) ==> cabal_path(path),
        file_name_of(path) == Some("ghc-"@ + version) ==> (ghc_path(path) <==> version.len() > 0),
        file_name_of(path) == Some("cabal-"@ + version) ==> (cabal_path(path) <==> version.len() > 0),
        file_name_of(path) is None ==> !ghc_path(path) && !cabal_path(path),
        !(ghc_path(path) && cabal_path(path)),
{
    reveal_strlit("ghc");
    reveal_strlit("ghc-");
    reveal_strlit("cabal");
    reveal_strlit("cabal-");
    reveal_strlit(".cabal-wrapped");
    let g = "ghc-"@ + version;
    let c = "cabal-"@ + version;
    assert(g.take(4) =~= "ghc-"@);
    assert(c.take(6) =~= "cabal-"@);
    assert(g[3] == '-');
    assert(c[5] == '-');
    assert(c[0] == 'c');
    match file_name_of(path) {
        Some(name) => {
            if ghc_path(path) {
                assert(name[0] == 'g') by {
                    if name != "ghc"@ {
                        assert(name.take(4)[0] == "ghc-"@[0]);
                    }
                }
            }
            if cabal_path(path) {
                assert(name[0] == 'c' || name[0] == '.') by {
                    if name != "cabal"@ && name != ".cabal-wrapped"@ {
                        assert(name.take(6)[0] == "cabal-"@[0]);
                    }
                }
            }
        },
        None => {},
    }
}

/// The memory in a status is told in KiB, and is counted in bytes as far as 64 bits hold them; without it none is counted.
pub proof fn resident_memory_is_counted_in_bytes(status: Seq<char>, kib: u64)
    ensures
        field_word(status, "VmRSS:"@) == Some(decimal(kib as nat)) && kib * 1024 <= u64::MAX ==> status_memory(status) == kib
            * 1024,
        field_word(status, "VmRSS:"@) == Some(decimal(kib as nat)) && kib * 1024 > u64::MAX ==> status_memory(status)
            == u64::MAX,
        field_word(status, "VmRSS:"@) is None ==> status_memory(status) == 0,
{
    decimal_round_trip(kib as nat);
    let text = decimal(kib as nat);
    assert(is_digit(text[0]));
}

/// A process is known by its parent and its group, which are read back from its status.
pub proof fn status_is_read_back(status: Seq<char>, parent: i32, group: i32)
    ensures
        field_word(status, "PPid:"@) == Some(signed_decimal(parent as int)) && field_word(status, "NSpgid:"@) == Some(
            signed_decimal(group as int),
        ) ==> status_fields(status) == Some((parent, group, status_memory(status))),
        field_word(status, "PPid:"@) is None || field_word(status, "NSpgid:"@) is None ==> status_fields(status) is None,
{
    signed_decimal_round_trip(parent as int);
    signed_decimal_round_trip(group as int);
}

/// The limit for the memory of a session.
pub proof fn memory_limit_is_in_gibibytes()
    ensures
        GHCI_MEMORY_LIMIT_BYTES == 28 * GIB,
{
}

/// The table holds exactly the processes that the entries show, and of two with the same ID the last.
pub proof fn entries_are_all_read(entries: Seq<ProcEntry>, entry: ProcEntry, pid: i32)
    ensures
        processes_of(seq![]).dom().is_empty(),
        process_of(entry) is Some ==> processes_of(entries.push(entry)) == processes_of(entries).insert(
            process_of(entry)->0.pid,
            process_of(entry)->0,
        ),
        process_of(entry) is None ==> processes_of(entries.push(entry)) == processes_of(entries),
        processes_of(entries).contains_key(pid) <==> exists|j: int|
            0 <= j < entries.len() && process_of(#[trigger] entries[j]) is Some && process_of(entries[j])->0.pid == pid,
    decreases entries.len(),
{
    assert(entries.push(entry).drop_last() =~= entries);
    if entries.len() > 0 {
        let rest = entries.drop_last();
        let last = entries.len() - 1;
        entries_are_all_read(rest, entry, pid);
        if processes_of(rest).contains_key(pid) {
            let j = choose|j: int|
                0 <= j < rest.len() && process_of(#[trigger] rest[j]) is Some && process_of(rest[j])->0.pid == pid;
            assert(entries[j] == rest[j]);
        }
        if exists|j: int|
            0 <= j < entries.len() && process_of(#[trigger] entries[j]) is Some && process_of(entries[j])->0.pid == pid {
            let j = choose|j: int|
                0 <= j < entries.len() && process_of(#[trigger] entries[j]) is Some && process_of(entries[j])->0.pid == pid;
            if j < last {
                assert(rest[j] == entries[j]);
            }
        }
        if process_of(entries[last]) is Some && process_of(entries[last])->0.pid == pid {
            assert(processes_of(entries).contains_key(pid));
        }
    }
}

} // verus!
