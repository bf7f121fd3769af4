use std::collections::BTreeMap;

use ghciwatch::ghci::memory::{
    format_bytes, is_cabal_executable, is_ghc_executable, is_interactive, parse_process_status,
    repl_resident_memory, run_memory_watchdog, select_repl_processes, MemoryUsage, ProcEntry, Process,
};

#[test]
fn formats_memory_sizes_with_binary_units() {
    assert_eq!(format_bytes(1023), "1023 bytes");
    assert_eq!(format_bytes(1024), "1.00 KiB");
    assert_eq!(format_bytes(1_914_204_160), "1.78 GiB");
    assert_eq!(format_bytes(22_704_238_592), "21.14 GiB");
    assert_eq!(format_bytes(24_618_442_752), "22.93 GiB");
    assert_eq!(format_bytes(30_064_771_072), "28.00 GiB");

    let usage = MemoryUsage {
        bytes: 22_809_096_192,
        command_pid: 1_572_392,
        cabal_parent: Some((1_572_421, 104_857_600)),
        interactive_ghc: Some((1_572_439, 22_704_238_592)),
    };
    assert_eq!(
        usage.details(),
        "Command PID: 1572392 (not counted)\nCabal parent PID: 1572421 (100.00 MiB)\nInteractive GHC PID: 1572439 (21.14 GiB)"
    );
}

fn process(pid: i32, parent_pid: i32, interactive: bool, mib: u64) -> Process {
    Process {
        pid,
        parent_pid,
        process_group_id: 10,
        resident_bytes: mib * 1024 * 1024,
        interactive,
        ghc_executable: interactive,
        cabal_executable: !interactive,
    }
}

#[test]
fn counts_only_interactive_ghc_and_its_immediate_parent() {
    let processes = BTreeMap::from([
        (10, process(10, 1, false, 2_000)),
        (11, process(11, 10, false, 20)),
        (12, process(12, 11, true, 12_000)),
        (13, process(13, 12, true, 11_000)),
        (14, process(14, 12, false, 9_000)),
        (20, process(20, 10, true, 4_000)),
    ]);
    let usage = select_repl_processes(10, 10, &processes);
    assert_eq!(usage.bytes, 12_020 * 1024 * 1024);
    assert_eq!(usage.cabal_parent, Some((11, 20 * 1024 * 1024)));
    assert_eq!(usage.interactive_ghc, Some((12, 12_000 * 1024 * 1024)));
}

#[test]
fn rejects_a_non_ghc_executable_at_the_expected_depth() {
    let mut candidate = process(12, 11, true, 12_000);
    candidate.ghc_executable = false;
    let processes = BTreeMap::from([
        (10, process(10, 1, false, 100)),
        (11, process(11, 10, false, 20)),
        (12, candidate),
    ]);
    let usage = select_repl_processes(10, 10, &processes);
    assert_eq!(usage.bytes, 0);
    assert_eq!(usage.interactive_ghc, None);
    assert_eq!(usage.cabal_parent, None);
}

#[test]
fn rejects_a_non_cabal_immediate_parent() {
    let mut parent = process(11, 10, false, 20);
    parent.cabal_executable = false;
    let processes = BTreeMap::from([
        (10, process(10, 1, false, 100)),
        (11, parent),
        (12, process(12, 11, true, 12_000)),
    ]);
    let usage = select_repl_processes(10, 10, &processes);
    assert_eq!(usage.bytes, 0);
    assert_eq!(usage.interactive_ghc, None);
    assert_eq!(usage.cabal_parent, None);
}

#[test]
fn finds_the_expected_ghc_in_another_process_group() {
    let mut processes = BTreeMap::from([
        (10, process(10, 1, false, 100)),
        (11, process(11, 10, false, 20)),
        (12, process(12, 11, true, 12_000)),
    ]);
    processes.get_mut(&12).unwrap().process_group_id = 12;
    let usage = select_repl_processes(10, 10, &processes);
    assert_eq!(usage.bytes, 12_020 * 1024 * 1024);
    assert_eq!(usage.cabal_parent, Some((11, 20 * 1024 * 1024)));
    assert_eq!(usage.interactive_ghc, Some((12, 12_000 * 1024 * 1024)));
}

#[test]
fn recognizes_versioned_ghc_executables() {
    assert!(is_ghc_executable("/nix/store/x/bin/ghc"));
    assert!(is_ghc_executable("/nix/store/x/bin/ghc-9.14.1"));
    assert!(!is_ghc_executable("/nix/store/x/bin/ghciwatch"));
}

#[test]
fn recognizes_cabal_executables() {
    assert!(is_cabal_executable("/nix/store/x/bin/cabal"));
    assert!(is_cabal_executable("/nix/store/x/bin/.cabal-wrapped"));
    assert!(is_cabal_executable("/nix/store/x/bin/cabal-3.16.1.0"));
    assert!(!is_cabal_executable("/nix/store/x/bin/ghc"));
}

#[test]
fn parses_process_group_in_the_procfs_mount_namespace() {
    let status = "Name:\tghci\nPPid:\t17\nNSpgid:\t71\t203\nVmRSS:\t20971521 kB\n";
    assert_eq!(parse_process_status(status), Some((17, 71, 20_971_521 * 1024)));
}

#[test]
fn sizes_are_rounded_as_floats_are() {
    let units = [
        ("TiB", 1u64 << 40),
        ("GiB", 1u64 << 30),
        ("MiB", 1u64 << 20),
        ("KiB", 1u64 << 10),
    ];
    let expected = |bytes: u64| {
        for (unit, divisor) in units {
            if bytes >= divisor {
                return format!("{:.2} {unit}", bytes as f64 / divisor as f64);
            }
        }
        format!("{bytes} bytes")
    };
    let mut bytes: u64 = 1;
    for step in 0..4000u64 {
        bytes = bytes
            .wrapping_mul(6364136223846793005)
            .wrapping_add(1442695040888963407);
        let small = bytes >> (step % 60);
        assert_eq!(format_bytes(small), expected(small));
    }
    for halfway in [1029, 1034, 1152, 1280, 1541, 5376, 131_072 * 3 + 1280] {
        assert_eq!(format_bytes(halfway), expected(halfway));
        assert_eq!(format_bytes(halfway << 20), expected(halfway << 20));
    }
}

#[test]
fn the_watchdog_restarts_only_above_the_limit() {
    let entry = |pid: i32, parent_pid: i32, kib: u64, executable: &str, cmdline: &str| ProcEntry {
        name: pid.to_string(),
        status: Some(format!("Name:\tx\nPPid:\t{parent_pid}\nNSpgid:\t10\nVmRSS:\t{kib} kB\n")),
        cmdline: Some(cmdline.as_bytes().to_vec()),
        executable: Some(executable.to_owned()),
    };
    let table = |kib: u64| {
        Ok::<_, ()>(vec![
            entry(10, 1, 1, "/bin/sh", "sh\0"),
            entry(11, 10, 1024, "/bin/cabal", "cabal\0repl\0"),
            entry(12, 11, kib, "/bin/ghc-9.12", "ghc\0--interactive\0"),
        ])
    };
    let limit_kib = 28 * 1024 * 1024;
    let usage = repl_resident_memory(10, 10, table(limit_kib - 1024)).unwrap();
    assert_eq!(usage.bytes, limit_kib * 1024);
    assert_eq!(run_memory_watchdog(Some(&usage)), None);
    let usage = repl_resident_memory(10, 10, table(limit_kib)).unwrap();
    let text = run_memory_watchdog(Some(&usage)).unwrap();
    assert!(text.starts_with("Component: GHCi and immediate Cabal parent\nCommand PID: 10 (not counted)\n"));
    assert!(text.contains("\nLimit: 28.00 GiB\n"));
    assert_eq!(run_memory_watchdog(None), None);
    assert!(repl_resident_memory(10, 10, Err::<Vec<ProcEntry>, _>("gone")).is_err());
    // A process of another group with the same process ID is not the command.
    assert_eq!(repl_resident_memory(10, 9, table(1)).unwrap().bytes, 0);
    assert!(!is_interactive(&b"ghc\0--interactive-print\0".to_vec()));
    assert!(is_interactive(&b"--interactive".to_vec()));
}
