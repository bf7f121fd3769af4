use ghciwatch::ghci::parse::ghc_message::compilation_summary::{CompilationResult, ModulesLoaded};
use ghciwatch::ghci::parse::ghc_message::generic_diagnostic::parse_generic_diagnostic;
use ghciwatch::ghci::parse::ghc_message::json_diagnostic::parse_json_diagnostic_line;
use ghciwatch::ghci::parse::ghc_message::messages::{parse_ghc_messages, GhcMessage};
use ghciwatch::ghci::parse::ghc_message::{GhcDiagnostic, PositionRange, Severity};
use ghciwatch::path::FilePath;

fn path(text: &str) -> FilePath {
    FilePath::new(text.to_owned())
}

#[test]
fn test_parse_diagnostic_message() {
    let body = "[GHC-00158]\n    • Can't make a derived instance of ‘MyClass MyType’:\n        ‘MyClass’ is not a stock derivable class (Eq, Show, etc.)\n    • In the data declaration for ‘MyType’\n    Suggested fix: Perhaps you intended to use DeriveAnyClass\n  |\n6 |   deriving MyClass\n  |            ^^^^^^^\n";
    assert_eq!(
        parse_generic_diagnostic(&format!("NotStockDeriveable.hs:6:12: error: {body}")).unwrap(),
        GhcDiagnostic {
            severity: Severity::Error,
            path: Some(path("NotStockDeriveable.hs")),
            span: PositionRange::new(6, 12, 6, 12),
            message: body.to_owned(),
        }
    );

    assert_eq!(
        parse_generic_diagnostic(
            "src/MyLib.hs: error: [GHC-92213]\n    Module graph contains a cycle:\n      module `MyLib' (src/MyLib.hs) imports itself\n",
        )
        .unwrap(),
        GhcDiagnostic {
            severity: Severity::Error,
            path: Some(path("src/MyLib.hs")),
            span: PositionRange::default(),
            message: "[GHC-92213]\n    Module graph contains a cycle:\n      module `MyLib' (src/MyLib.hs) imports itself\n"
                .to_owned(),
        }
    );

    // Doesn't parse another error message.
    assert!(parse_generic_diagnostic(&format!(
        "NotStockDeriveable.hs:6:12: error: {body}\nError: Uh oh!\n"
    ))
    .is_none());
}

#[test]
fn test_diagnostic_display() {
    assert_eq!(
        GhcDiagnostic {
            severity: Severity::Error,
            path: Some(path("src/MyModule.hs")),
            span: PositionRange::new(4, 11, 4, 11),
            message: [
                "",
                "    • Couldn't match type ‘[Char]’ with ‘()’",
                "      Expected: ()",
                "        Actual: String",
                "    • In the expression: \"example\"",
                "      In an equation for ‘example’: example = \"example\"",
                "  |",
                "4 | example = \"example\"",
                "  |           ^^^^^^^^^",
                "",
            ]
            .join("\n")
        }
        .show(),
        [
            "src/MyModule.hs:4:11: error:",
            "    • Couldn't match type ‘[Char]’ with ‘()’",
            "      Expected: ()",
            "        Actual: String",
            "    • In the expression: \"example\"",
            "      In an equation for ‘example’: example = \"example\"",
            "  |",
            "4 | example = \"example\"",
            "  |           ^^^^^^^^^",
            "",
        ]
        .join("\n")
    );
}

#[test]
fn parses_error_with_span_and_hints() {
    let diagnostic = parse_json_diagnostic_line(
        r#" {"hints":["Use wantedValue"],"message":["Variable not in scope:","  wanted"],"code":88464,"severity":"Error","span":{"end":{"column":12,"line":4},"file":"src/Foo.hs","start":{"column":3,"line":4}},"ghcVersion":"9.12.2","version":"1.1"}"#,
    )
    .unwrap();

    assert_eq!(diagnostic.severity, Severity::Error);
    assert_eq!(
        diagnostic.path.as_ref().map(|path| path.as_str()),
        Some("src/Foo.hs")
    );
    assert_eq!(diagnostic.span, PositionRange::new(4, 3, 4, 12));
    assert_eq!(
        diagnostic.message,
        "Variable not in scope:\n  wanted\nSuggested fix:\n  Use wantedValue\n"
    );
}

#[test]
fn parses_warning_without_location() {
    let diagnostic = parse_json_diagnostic_line(
        r#"{"version":"1.1","ghcVersion":"9.12.2","span":null,"severity":"Warning","code":null,"message":["Warning text"],"hints":[]}"#,
    )
    .unwrap();

    assert_eq!(diagnostic.severity, Severity::Warning);
    assert_eq!(diagnostic.path, None);
    assert_eq!(diagnostic.span, PositionRange::default());
}

#[test]
fn rejects_unrelated_or_incomplete_json() {
    assert!(parse_json_diagnostic_line(r#"{"severity":"Error"}"#).is_none());
    assert!(parse_json_diagnostic_line("not json").is_none());
    assert!(parse_json_diagnostic_line("{malformed}").is_none());
}

#[test]
fn json_members_have_to_be_of_their_kind() {
    let line = |severity: &str, span: &str, code: &str, message: &str| {
        format!(
            r#"{{"version":"1.1","ghcVersion":"9.12.2","span":{span},"severity":{severity},"code":{code},"message":{message},"hints":[]}}"#
        )
    };
    assert!(parse_json_diagnostic_line(&line("\"Error\"", "null", "null", "[\"a\"]")).is_some());
    assert!(parse_json_diagnostic_line(&line("\"Fatal\"", "null", "null", "[\"a\"]")).is_none());
    assert!(parse_json_diagnostic_line(&line("\"Error\"", "3", "null", "[\"a\"]")).is_none());
    assert!(parse_json_diagnostic_line(&line("\"Error\"", "null", "\"x\"", "[\"a\"]")).is_none());
    assert!(parse_json_diagnostic_line(&line("\"Error\"", "null", "null", "\"a\"")).is_none());
    assert!(parse_json_diagnostic_line(&line("\"Error\"", "null", "12", "[\"a\\u0041\"]"))
        .unwrap()
        .message
        .starts_with("aA"));
}

#[test]
fn output_is_a_mixture_of_messages_and_other_lines() {
    let messages = parse_ghc_messages(
        "[1 of 2] Compiling A\nsrc/A.hs:(1,2)-(3,4): warning: [-Wall]\n    text\nnoise\nFailed, one module loaded.\n",
    );
    assert_eq!(messages.len(), 2);
    match &messages[0] {
        GhcMessage::Diagnostic(diagnostic) => {
            assert_eq!(diagnostic.severity, Severity::Warning);
            assert_eq!(diagnostic.span, PositionRange::new(1, 2, 3, 4));
            assert_eq!(diagnostic.message, "[-Wall]\n    text\n");
        }
        other => panic!("{other:?}"),
    }
    match &messages[1] {
        GhcMessage::Summary(summary) => {
            assert_eq!(summary.result, CompilationResult::Failure);
            assert_eq!(summary.modules_loaded, ModulesLoaded::Count(1));
        }
        other => panic!("{other:?}"),
    }
}

#[test]
fn positions_are_shown_as_ghc_writes_them() {
    assert_eq!(PositionRange::new(4, 11, 4, 11).show(), "4:11");
    assert_eq!(PositionRange::new(4, 11, 4, 19).show(), "4:11-19");
    assert_eq!(PositionRange::new(4, 11, 6, 2).show(), "(4,11)-(6,2)");
}

fn json_with(extra: &str, span: &str) -> String {
    format!(
        r#"{{"version":"1.1","ghcVersion":"9.12.2","span":{span},"severity":"Error","code":null,"message":["m"],"hints":[]{extra}}}"#
    )
}

#[test]
fn json_fields_are_not_repeated() {
    let read = |line: &str| parse_json_diagnostic_line(line);
    assert!(read(&json_with("", "null")).is_some());
    for field in [
        r#""version":"1.1""#,
        r#""ghcVersion":"9.12.2""#,
        r#""span":null"#,
        r#""severity":"Error""#,
        r#""code":null"#,
        r#""message":["m"]"#,
        r#""hints":[]"#,
        r#""hint\u0073":[]"#,
    ] {
        assert!(read(&json_with(&format!(",{field}"), "null")).is_none());
    }
    // What is not known may be repeated, whatever it holds.
    let unknown = r#", "x" : {"version":"1","version":"}"} , "x" : [":", "\"{", {}] "#;
    assert!(read(&json_with(unknown, "null")).is_some());
    let start = r#"{"line":1,"column":2}"#;
    let span = |start: &str, extra: &str| format!(r#"{{"file":"A.hs","start":{start},"end":{{"line":3,"column":4}}{extra}}}"#);
    let found = read(&json_with("", &span(start, r#","file2":1,"file2":2"#))).unwrap();
    assert_eq!(found.span, PositionRange::new(1, 2, 3, 4));
    assert!(read(&json_with("", &span(start, r#","file":"A.hs""#))).is_none());
    assert!(read(&json_with("", &span(r#"{"line":1,"column":2,"line":1}"#, ""))).is_none());
    assert!(read(&json_with("", r#"["A.hs",[1,2],{"line":3,"column":4}]"#)).is_some());
    let named = |severity: &str| json_with("", "null").replace(r#""Error""#, severity);
    assert!(read(&named(r#"{"Error":null}"#)).is_some());
    assert!(read(&named(r#"{"Error":null,"Error":null}"#)).is_none());
    assert!(read(&named("{}")).is_none());
}

#[test]
fn only_blanks_stand_before_json_among_other_output() {
    let line = json_with("", "null");
    let found = |text: &str| parse_ghc_messages(text).len();
    assert_eq!(found(&line), 1);
    assert_eq!(found(&format!(" \t{line}\n")), 1);
    assert_eq!(found(&format!("\r{line}\n")), 0);
    assert_eq!(found(&format!("\u{a0}{line}\n")), 0);
    assert_eq!(found(&format!("  \n{line}\n{line}")), 2);
    // A line by itself may start with any white space that JSON allows.
    assert!(parse_json_diagnostic_line(&format!("\r{line}")).is_some());
    assert!(parse_json_diagnostic_line(&format!("\u{a0}{line}")).is_none());
}
