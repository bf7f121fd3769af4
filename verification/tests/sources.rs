use ghciwatch::event_filter::FileEvent;
use ghciwatch::ghci::classify::{classify, classify_path, is_potentially_relevant, PathAction};
use ghciwatch::ghci::eval_commands::parse_eval_commands;
use ghciwatch::ghci::module_set::{LoadedModule, ModuleSet};
use ghciwatch::ghci::show::{
    format_bulleted_list, parse_show_paths, parse_show_targets, path_to_module, target_paths,
};
use ghciwatch::glob::{any_match, is_match, is_well_formed, GlobMatcher};
use ghciwatch::path::{FilePath, NormalPath};
use ghciwatch::sorted::SortedSet;

fn path(text: &str) -> FilePath {
    FilePath::new(text.to_owned())
}

fn normal(text: &str) -> NormalPath {
    NormalPath::from_directory(&path("/w"), &path(text))
}

fn forms(directory: &str, text: &str) -> (String, String) {
    let normal = NormalPath::from_directory(&path(directory), &path(text));
    (
        normal.absolute().as_str().to_owned(),
        normal.relative().as_str().to_owned(),
    )
}

fn pair(absolute: &str, relative: &str) -> (String, String) {
    (absolute.to_owned(), relative.to_owned())
}

#[test]
fn paths_have_one_normal_form() {
    assert_eq!(forms("/w", "src/A.hs"), pair("/w/src/A.hs", "src/A.hs"));
    assert_eq!(forms("/w/", "./src//A.hs"), pair("/w/src/A.hs", "src/A.hs"));
    assert_eq!(forms("/w", "/w/src/../B.hs"), pair("/w/B.hs", "B.hs"));
    assert_eq!(forms("/w", "../x"), pair("/x", "/x"));
    assert_eq!(forms("/w", "../../../x"), pair("/x", "/x"));
    assert_eq!(forms("/w", "/work"), pair("/work", "/work"));
    assert_eq!(forms("/w", "."), pair("/w", "/w"));
    assert_eq!(forms("", "a/b"), pair("a/b", "a/b"));
    let once = forms("/w", "a/./b/../c").0;
    assert_eq!(forms("/w", &once).0, once);
}

#[test]
fn a_star_stands_for_any_text() {
    assert!(is_match("*.hs", "A.hs"));
    assert!(is_match("*", ""));
    assert!(is_match("a*b*c", "axxbyyc"));
    assert!(!is_match("a*b*c", "axxbyy"));
    assert!(!is_match("", "a"));
    assert!(is_match("", ""));
    let patterns = vec!["*.yaml".to_owned(), "x".to_owned()];
    assert!(any_match(&patterns, "package.yaml"));
    assert!(!any_match(&patterns, "package.json"));
    assert!(!any_match(&Vec::new(), ""));
}

#[test]
fn a_backslash_quotes_a_character() {
    assert!(is_match("a\\*", "a*"));
    assert!(!is_match("a\\*", "ab"));
    assert!(is_match("\\\\", "\\"));
    assert!(!is_match("\\", "\\"));
    assert!(is_well_formed("a\\*"));
    assert!(!is_well_formed("a\\\\\\"));
    assert!(GlobMatcher::from_globs(&vec!["\\".to_owned()]).is_err());
    let matcher = GlobMatcher::from_globs(&vec!["*.txt".to_owned(), "src/x".to_owned()]).unwrap();
    assert!(matcher.matches(&normal("src/deep/a.txt")));
    assert!(matcher.matches(&normal("src/x")));
    assert!(!matcher.matches(&normal("deep/src/x")));
}

#[test]
fn shown_paths_are_read() {
    let text = "current working directory: \n  /w/pkg\nmodule import search paths:\n  src\n  test\n";
    assert_eq!(
        parse_show_paths(text),
        Some((
            "/w/pkg".to_owned(),
            vec!["src".to_owned(), "test".to_owned()]
        ))
    );
    assert_eq!(parse_show_paths("current working directory:\n"), None);
    assert_eq!(parse_show_paths(""), None);
}

#[test]
fn shown_targets_are_read() {
    assert_eq!(
        parse_show_targets("*src/A.hs\n\nB.C\n  D\n"),
        ["src/A.hs", "B.C", "D"]
    );
    assert!(parse_show_targets("\n").is_empty());
}

#[test]
fn targets_stand_in_the_search_paths() {
    let dirs = vec![path("/w/src"), path("/w/test")];
    let texts = |target: &str| -> Vec<String> {
        target_paths(&path(target), &dirs)
            .iter()
            .map(|path| path.as_str().to_owned())
            .collect()
    };
    assert_eq!(texts("src/A.hs"), ["src/A.hs"]);
    assert_eq!(
        texts("A.B"),
        [
            "/w/src/A/B.hs",
            "/w/src/A/B.lhs",
            "/w/test/A/B.hs",
            "/w/test/A/B.lhs"
        ]
    );
}

#[test]
fn modules_are_named_after_their_sources() {
    let dirs = vec![path("/w/test"), path("/w/src/")];
    let name = |text: &str| path_to_module(&dirs, &path(text));
    assert_eq!(name("/w/src/A/B.hs"), Some("A.B".to_owned()));
    assert_eq!(name("/w/test/C.lhs"), Some("C".to_owned()));
    assert_eq!(name("/w/app/Main.hs"), None);
    assert_eq!(name("/w/src/data.txt"), None);
    assert_eq!(name("/w/srcs/A.hs"), None);
    // The name leads back to the source.
    let found = target_paths(&path("A.B"), &dirs);
    assert!(found
        .iter()
        .all(|path| path_to_module(&dirs, path) == Some("A.B".to_owned())));
}

#[test]
fn commands_to_evaluate_are_read() {
    let source = "module A where\n-- $> 1 + 1\n-- not one\n{- $>\nlet x = 2\n  x\n<$ -}\n{- $>\nnever closed\n";
    assert_eq!(parse_eval_commands(source), ["1 + 1", "let x = 2\n  x"]);
    assert!(parse_eval_commands("").is_empty());
}

#[test]
fn paths_are_listed_with_bullets() {
    assert_eq!(
        format_bulleted_list(&vec![normal("a.hs"), normal("b/c.hs")]),
        "  • a.hs\n  • b/c.hs"
    );
    assert_eq!(format_bulleted_list(&Vec::new()), "");
}

#[test]
fn changed_paths_are_classified() {
    let mut targets = ModuleSet::new();
    targets.insert_module(LoadedModule::new(normal("Known.hs")));
    let of = |removed: bool, text: &str| classify_path(removed, &normal(text), false, false, &targets);
    assert_eq!(of(false, "Known.hs"), PathAction::Reload);
    assert_eq!(of(true, "Known.hs"), PathAction::Remove);
    assert_eq!(of(false, "New.hs"), PathAction::Add);
    assert_eq!(of(true, "New.hs"), PathAction::Nothing);
    assert_eq!(of(false, "x.cabal"), PathAction::Restart);
    assert_eq!(of(true, ".ghci"), PathAction::Restart);
    assert_eq!(of(false, "notes.txt"), PathAction::Nothing);
    assert_eq!(
        classify_path(false, &normal("notes.txt"), false, true, &targets),
        PathAction::Reload
    );
    assert_eq!(
        classify_path(false, &normal("Known.hs"), true, true, &targets),
        PathAction::Restart
    );
    assert!(is_potentially_relevant(&path("/w/A.hs"), false, false));
    assert!(is_potentially_relevant(&path("/w/x.cabal"), false, false));
    assert!(!is_potentially_relevant(&path("/w/notes.txt"), false, false));
    assert!(is_potentially_relevant(&path("/w/notes.txt"), true, false));
}

#[test]
fn each_changed_path_is_in_one_list() {
    let targets = ModuleSet::new();
    let mut events = SortedSet::new();
    events.insert(FileEvent::Modify(path("/w/A.hs")));
    events.insert(FileEvent::Modify(path("/w/b.txt")));
    events.insert(FileEvent::Modify(path("/w/x.cabal")));
    let paths: Vec<NormalPath> = (0..events.len())
        .map(|i| normal(events.at(i).as_path().as_str()))
        .collect();
    let actions = classify(
        &events,
        &paths,
        &vec![false, false, false],
        &vec![false, true, false],
        &targets,
    );
    let shown = |list: &Vec<NormalPath>| -> Vec<String> {
        list.iter()
            .map(|path| path.relative().as_str().to_owned())
            .collect()
    };
    assert_eq!(shown(&actions.needs_add), ["A.hs"]);
    assert_eq!(shown(&actions.needs_reload), ["b.txt"]);
    assert_eq!(shown(&actions.needs_restart), ["x.cabal"]);
    assert!(actions.needs_remove.is_empty());
}
