use ghciwatch::ghci::compilation_log::CompilationLog;
use ghciwatch::ghci::module_set::LoadedModule;
use ghciwatch::ghci::parse::ghc_message::compilation_summary::CompilationResult;
use ghciwatch::ghci::parse::ghc_message::messages::line_has_error_diagnostic;
use ghciwatch::ghci::stderr::{
    line_without_marker, without_interrupt_notice, GhciStderr, StderrEvent, StderrReply,
};
use ghciwatch::ghci::stdin::{Expect, FindAt, GhciStdin, PROMPT};
use ghciwatch::ghci::stdout::{write_marker, GhciStdout, ReadUntilStatus, WriteBehavior};
use ghciwatch::path::{FilePath, NormalPath};

fn normal(relative: &str) -> NormalPath {
    NormalPath::new(
        FilePath::new(format!("/project/{relative}")),
        FilePath::new(relative.to_owned()),
    )
}

#[test]
fn recognizes_only_ghc_error_headers() {
    assert!(line_has_error_diagnostic(
        "src/Foo.hs:4:11: error: [GHC-12345]\n"
    ));
    assert!(line_has_error_diagnostic("<no location info>: error:\n"));
    assert!(!line_has_error_diagnostic("src/Foo.hs:4:11: warning:\n"));
    assert!(!line_has_error_diagnostic(
        "application said error: but this is not a diagnostic\n"
    ));
}

#[test]
fn recognizes_marker_spliced_into_diagnostic() {
    let marker = "__GHCIWATCH_STDERR_END_872490_463__";
    assert_eq!(
        line_without_marker(
            &format!("558 | value = Zspirv.Signed   Zspirv.W32{marker}^^^^^^^"),
            marker,
        ),
        Some("558 | value = Zspirv.Signed   Zspirv.W32^^^^^^^".to_owned())
    );
    assert_eq!(
        line_without_marker(&format!("{marker}diagnostic"), marker),
        Some("diagnostic".to_owned())
    );
    assert_eq!(
        line_without_marker(&format!("diagnostic{marker}"), marker),
        Some("diagnostic".to_owned())
    );
    assert_eq!(line_without_marker(marker, marker), Some(String::new()));
    assert_eq!(line_without_marker("diagnostic", marker), None);
}

#[test]
fn only_the_first_marker_is_taken_out() {
    assert_eq!(line_without_marker("axbxc", "x"), Some("abxc".to_owned()));
    assert_eq!(line_without_marker("abc", ""), Some("abc".to_owned()));
    assert_eq!(line_without_marker("", ""), Some(String::new()));
    assert_eq!(line_without_marker("ab", "abc"), None);
}

#[test]
fn hidden_output_is_replayed_in_full() {
    let mut stderr = GhciStderr::new();
    assert_eq!(stderr.ingest_line("shown").write, "shown\n");
    stderr.dispatch(StderrEvent::SetForwarding {
        enabled: false,
        replay_buffer: false,
    });
    assert_eq!(stderr.ingest_line("one").write, "");
    stderr.dispatch(StderrEvent::ClearBuffer);
    assert_eq!(stderr.ingest_line("two").write, "");
    assert_eq!(stderr.buffer, "two\n");
    match stderr.dispatch(StderrEvent::SetForwarding {
        enabled: true,
        replay_buffer: true,
    }) {
        StderrReply::Acknowledge { write } => assert_eq!(write, "one\ntwo\n"),
        other => panic!("{other:?}"),
    }
    assert_eq!(stderr.suppressed_buffer, "");
    // Asked again, there is nothing left to replay.
    match stderr.dispatch(StderrEvent::SetForwarding {
        enabled: true,
        replay_buffer: true,
    }) {
        StderrReply::Acknowledge { write } => assert_eq!(write, ""),
        other => panic!("{other:?}"),
    }
}

#[test]
fn the_next_error_is_told_of_once() {
    let mut stderr = GhciStderr::new();
    assert!(!stderr.ingest_line("src/A.hs:1:1: error:").error);
    stderr.dispatch(StderrEvent::InterruptOnError);
    assert!(!stderr.ingest_line("src/A.hs:1:1: warning:").error);
    assert!(stderr.ingest_line("src/A.hs:1:1: error:").error);
    assert!(!stderr.ingest_line("src/A.hs:1:1: error:").error);
    stderr.dispatch(StderrEvent::InterruptOnError);
    stderr.dispatch(StderrEvent::DisarmInterruptOnError);
    assert!(!stderr.ingest_line("src/A.hs:1:1: error:").error);
}

#[test]
fn the_marker_ends_the_buffer() {
    let mut stderr = GhciStderr::new();
    let marker = match stderr.dispatch(StderrEvent::GetBufferThrough {
        marker: "END".to_owned(),
    }) {
        StderrReply::ReadThrough(marker) => marker,
        other => panic!("{other:?}"),
    };
    assert!(!stderr.get_buffer_through(&marker, "first").1);
    let (ingested, ended) = stderr.get_buffer_through(&marker, "secEND ond");
    assert!(ended);
    assert_eq!(ingested.write, "sec ond\n");
    assert_eq!(stderr.buffer, "first\nsec ond\n");
    let (ingested, ended) = stderr.get_buffer_through(&marker, "END");
    assert!(ended);
    assert_eq!(ingested.write, "");
    assert!(matches!(
        stderr.dispatch(StderrEvent::DrainBuffer),
        StderrReply::Drain
    ));
}

#[test]
fn interrupt_notices_are_dropped() {
    assert_eq!(
        without_interrupt_notice("a\nInterrupted.\nb Interrupted.\nInterrupted."),
        "a\nb Interrupted.\n"
    );
    assert_eq!(without_interrupt_notice(""), "");
    assert_eq!(without_interrupt_notice("\n\n"), "\n\n");
}

#[test]
fn commands_are_lines() {
    let stdin = GhciStdin;
    let modules = vec![
        LoadedModule::new(normal("src/A.hs")),
        LoadedModule::with_name(normal("src/B.hs"), "B".to_owned()),
    ];
    let add = stdin.add_modules(&modules);
    assert_eq!(add.line, ":add src/A.hs B\n");
    assert_eq!(add.expect, Expect::PromptWithProgress(FindAt::LineStart, 90));
    assert!(add.clear_stderr);
    assert_eq!(stdin.remove_modules(&modules).line, ":unadd src/A.hs B\n");
    assert_eq!(stdin.interpret_module(&modules[1]).line, ":add *B\n");
    assert_eq!(stdin.add_module_to_scope("B").line, ":module + *B\n");
    assert_eq!(stdin.remove_module_from_scope("B").line, ":module - *B\n");
    assert_eq!(
        stdin.reload(true).expect,
        Expect::PromptWithProgress(FindAt::LineStart, 40)
    );
    assert_eq!(stdin.show_paths().line, ":show paths\n");
    assert_eq!(stdin.show_targets().line, ":show targets\n");
    assert_eq!(stdin.quit().line, ":quit\n");
    assert_eq!(stdin.set_prompt("x", FindAt::Anywhere).line, ":set prompt \"x\"\n");
    assert_eq!(stdin.write_set_prompt("x").expect, Expect::Nothing);
    let (first, second) = stdin.initialize();
    assert_eq!(first.line, format!(":set prompt \"{PROMPT}\"\n"));
    assert!(!first.clear_stderr);
    assert_eq!(second.line, format!(":set prompt-cont {PROMPT}\n"));
    let lines: Vec<String> = stdin
        .run_command(":m + A\nprint 1")
        .into_iter()
        .map(|exchange| exchange.line)
        .collect();
    assert_eq!(lines, [":m + A\n", "print 1\n"]);
}

#[test]
fn output_is_read_up_to_markers() {
    let mut stdout = GhciStdout {
        stderr_sync_nonce: u64::MAX,
    };
    assert_eq!(
        stdout.stderr_buffer_through_marker(7),
        "__GHCIWATCH_STDERR_END_7_18446744073709551615__"
    );
    assert_eq!(
        stdout.stderr_buffer_through_marker(7),
        "__GHCIWATCH_STDERR_END_7_0__"
    );
    assert_eq!(write_marker("END"), ":! printf '%s\\n' 'END' >&2\n");
    assert_eq!(
        stdout.initialize().markers,
        ["GHCi, version ", "GHCJSi, version ", "Clashi, version "]
    );
    assert_eq!(stdout.prompt(FindAt::Anywhere).markers, [PROMPT]);
    assert_eq!(stdout.show_targets().writing, WriteBehavior::Hide);
    assert_eq!(stdout.read_until_marker("M").markers, ["M"]);
    assert_eq!(stdout.quit().markers, ["Leaving GHCi."]);

    let mut log = CompilationLog::default();
    assert!(!stdout.prompt_with_progress_timeout(&ReadUntilStatus::Inactive, "x", &mut log));
    assert!(log.stderr.is_empty());
    assert!(stdout.prompt_with_progress_timeout(
        &ReadUntilStatus::Complete("Ok, one module loaded.\n".to_owned()),
        "src/A.hs:1:1: error: x\n",
        &mut log
    ));
    assert_eq!(log.result(), Some(CompilationResult::Success));
    assert_eq!(log.stderr, ["src/A.hs:1:1: error: x\n"]);
    assert!(log.stderr_failed);
}
