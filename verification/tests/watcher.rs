use ghciwatch::event_filter::{
    file_states, mutation_paths, FileEvent, FileState, NonUtf8Path, Notification, NotificationKind,
    Observation,
};
use ghciwatch::haskell_source_file::{extension, is_haskell_source_file};
use ghciwatch::path::{FilePath, NormalPath};
use ghciwatch::sorted::{SortedMap, SortedSet};
use ghciwatch::watcher::content::{scan, ContentChanges, ScanKind, ScanStep};
use ghciwatch::watcher::events::{
    baseline_events, compare_snapshots, keep_relevant, notify_error_is_fatal, process_debounced_events,
    retries_setup, retry_candidates, retry_events, retry_parents, scan_haskell_files, scan_source, send_event,
    validate_source_snapshot, NotifyError,
};
use ghciwatch::watcher::run::{
    run_watcher, watched_roots, CommandKind, WatchOutcome, WatcherAction, WatcherCommand, WatcherInput,
    WatcherPhase,
};

fn path(text: &str) -> FilePath {
    FilePath::new(text.to_owned())
}

fn paths(texts: &[&str]) -> SortedSet<FilePath> {
    let mut set = SortedSet::new();
    for text in texts {
        set.insert(path(text));
    }
    set
}

fn file(contents: &str) -> Observation {
    Observation::File {
        contents: contents.as_bytes().to_vec(),
        len: contents.len() as u64,
    }
}

fn snapshot(files: &[(&str, &str)]) -> SortedMap<FilePath, FileState> {
    let mut map = SortedMap::new();
    for (name, contents) in files {
        map.insert(path(name), FileState::capture(&file(contents)));
    }
    map
}

fn modified(text: &str) -> SortedSet<FileEvent> {
    let mut set = SortedSet::new();
    set.insert(FileEvent::Modify(path(text)));
    set
}

fn shown(events: &SortedSet<FileEvent>) -> Vec<String> {
    (0..events.len())
        .map(|i| match events.at(i) {
            FileEvent::Modify(path) => format!("modify {}", path.as_str()),
            FileEvent::Remove(path) => format!("remove {}", path.as_str()),
        })
        .collect()
}

#[test]
fn contents_not_timestamps_for_all_extensions() {
    let names = ["/d/Module.hs", "/d/package.cabal", "/d/README.md"];
    let all: Vec<(&str, &str)> = names.iter().map(|name| (*name, "first")).collect();
    let mut changes = ContentChanges::new(&vec![snapshot(&all)]);
    for name in names {
        // An observation holds no timestamp, so a touched file is the same observation.
        assert!(FileState::capture(&file("first")).same(&FileState::capture(&file("first"))));
        let mut observe = |contents: &str| {
            shown(&changes.observe(&modified(name), &vec![snapshot(&[(name, contents)])]))
        };
        assert!(observe("first").is_empty());
        assert!(observe("first").is_empty());
        assert!(observe("first").is_empty());

        // Same-length edit must still be detected.
        assert_eq!(observe("other"), shown(&modified(name)));
        assert!(observe("other").is_empty());
        // Returning to the original contents is another genuine change.
        assert_eq!(observe("first"), shown(&modified(name)));
    }
}

#[test]
fn directory_events_detect_added_and_removed_files_not_directory_metadata() {
    let mut changes = ContentChanges::new(&vec![snapshot(&[])]);
    let new = "/d/nested/New.hs";
    let mut observe = |event: &str, files: &[(&str, &str)]| {
        shown(&changes.observe(&modified(event), &vec![snapshot(files)]))
    };
    assert!(observe("/d", &[]).is_empty());
    let there = [(new, "module New where")];
    assert_eq!(observe("/d/nested", &there), shown(&modified(new)));
    assert!(observe("/d/nested", &there).is_empty());
    assert_eq!(observe("/d/nested", &[]), [format!("remove {new}")]);
    assert!(observe("/d/nested", &[]).is_empty());
    assert_eq!(observe("/d/nested", &there), shown(&modified(new)));
}

#[test]
fn a_directory_does_not_stand_for_its_siblings() {
    let mut changes = ContentChanges::new(&vec![snapshot(&[("/d/ab", "x"), ("/d/a/b", "y")])]);
    assert_eq!(
        shown(&changes.observe(&modified("/d/a"), &vec![snapshot(&[])])),
        ["remove /d/a/b"]
    );
}

#[test]
fn links_to_directories_are_not_followed() {
    assert_eq!(scan(ScanKind::Directory, true), ScanStep::Skip);
    assert_eq!(scan(ScanKind::Directory, false), ScanStep::Descend);
    assert_eq!(scan(ScanKind::File, true), ScanStep::Take);
    assert_eq!(scan(ScanKind::Missing, false), ScanStep::Skip);
    assert_eq!(scan(ScanKind::Other, false), ScanStep::Skip);
}

#[test]
fn each_path_of_a_batch_is_classified_once() {
    let notification = |kind, paths: &[&str]| Notification {
        kind,
        paths: paths.iter().map(|path| Some((*path).to_owned())).collect(),
    };
    let batch = vec![
        notification(NotificationKind::Remove, &["/d/B.hs"]),
        notification(NotificationKind::Access, &["/d/C.hs"]),
        notification(NotificationKind::Create, &["/d/B.hs", "/d/A.hs"]),
    ];
    let changed = mutation_paths(&batch).unwrap();
    assert_eq!(changed.len(), 2);
    let events = process_debounced_events(Ok((&changed, &vec![false, true]))).unwrap();
    assert_eq!(shown(&events), ["modify /d/B.hs", "remove /d/A.hs"]);
    let states = file_states(&events, &vec![file("x"), Observation::Missing]);
    assert_eq!(states.len(), 2);

    let unreadable = vec![Notification {
        kind: NotificationKind::Modify,
        paths: vec![None],
    }];
    assert!(matches!(mutation_paths(&unreadable), Err(NonUtf8Path)));
}

#[test]
fn errors_of_the_watch_are_fatal_unless_something_is_missing() {
    assert!(!notify_error_is_fatal(NotifyError::Io { not_found: true }));
    assert!(notify_error_is_fatal(NotifyError::Io { not_found: false }));
    assert!(!notify_error_is_fatal(NotifyError::PathNotFound));
    assert!(!notify_error_is_fatal(NotifyError::WatchNotFound));
    assert!(notify_error_is_fatal(NotifyError::Other));
    assert!(process_debounced_events(Err(&vec![NotifyError::PathNotFound]))
        .unwrap()
        .is_empty());
    assert!(process_debounced_events(Err(&vec![NotifyError::PathNotFound, NotifyError::Other])).is_err());
}

#[test]
fn only_haskell_sources_are_in_a_snapshot() {
    let sources = scan_haskell_files(&vec![
        (path("/d/A.hs"), file("a")),
        (path("/d/B.lhs"), file("b")),
        (path("/d/c.txt"), file("c")),
        (path("/d/A.hs"), file("newer")),
    ]);
    assert_eq!(sources.len(), 2);
    assert!(sources
        .get(&path("/d/A.hs"))
        .unwrap()
        .same(&FileState::capture(&file("newer"))));
    assert_eq!(extension(&path("/d/A.tar.gz")), Some("gz".to_owned()));
    assert_eq!(extension(&path("/d/.hs")), None);
    assert!(!is_haskell_source_file(&path("/d/.hs")));
    assert!(is_haskell_source_file(&path("/d/A.hsig/")));
}

#[test]
fn a_snapshot_is_valid_until_a_source_changes() {
    let expected = snapshot(&[("/d/A.hs", "a"), ("/d/B.hs", "b")]);
    let changes = compare_snapshots(&expected, &snapshot(&[("/d/A.hs", "a"), ("/d/B.hs", "b")]));
    assert!(changes.is_empty());
    assert!(validate_source_snapshot(&changes, &vec![], snapshot(&[]), snapshot(&[])).is_none());

    let current = snapshot(&[("/d/A.hs", "x"), ("/d/C.hs", "c")]);
    let changes = compare_snapshots(&expected, &current);
    assert_eq!(
        shown(&changes),
        ["modify /d/A.hs", "modify /d/C.hs", "remove /d/B.hs"]
    );
    assert!(
        validate_source_snapshot(&changes, &vec![false, false, false], snapshot(&[]), snapshot(&[]))
            .is_none()
    );
    let event =
        validate_source_snapshot(&changes, &vec![true, false, true], snapshot(&[]), current).unwrap();
    assert_eq!(
        event.affected_paths(),
        Some("  - /d/A.hs\n  - /d/B.hs".to_owned())
    );
    assert_eq!(event.haskell_files().len(), 2);
}

#[test]
fn irrelevant_changes_are_not_sent() {
    let events = modified("/d/A.hs");
    assert_eq!(keep_relevant(&events, &vec![true]).len(), 1);
    let none = keep_relevant(&events, &vec![false]);
    assert!(send_event(none, snapshot(&[]), snapshot(&[]), false).is_none());
}

#[test]
fn a_retry_waits_for_a_change_of_its_files() {
    let files = paths(&["/d/A.hs", "/d/B.hs", "/e/C.hs"]);
    assert_eq!(
        shown(&baseline_events(&files)),
        ["modify /d/A.hs", "modify /d/B.hs", "modify /e/C.hs"]
    );
    let parents = retry_parents(&files);
    assert_eq!(parents.len(), 2);
    assert_eq!(parents.at(0).as_str(), "/d");
    let mut events = modified("/d/A.hs");
    events.insert(FileEvent::Modify(path("/d/B.hs")));
    events.insert(FileEvent::Modify(path("/d/X.hs")));
    let baseline = snapshot(&[("/d/A.hs", "a"), ("/d/B.hs", "b")]);
    let states = snapshot(&[("/d/A.hs", "a"), ("/d/B.hs", "c"), ("/d/X.hs", "x")]);
    assert_eq!(
        shown(&retry_candidates(&events, &files)),
        ["modify /d/A.hs", "modify /d/B.hs"]
    );
    assert_eq!(
        shown(&retry_events(&events, &files, &states, &baseline)),
        ["modify /d/B.hs"]
    );
}

#[test]
fn the_watch_for_a_retry_is_stopped_in_the_end() {
    assert_eq!(
        watched_roots(&vec![
            WatchOutcome::Watched,
            WatchOutcome::NotFound,
            WatchOutcome::Failed,
            WatchOutcome::Watched
        ]),
        [0, 3]
    );
    assert_eq!(
        WatcherCommand::SetStartupRetryFiles { files: paths(&[]) }.kind(),
        CommandKind::SetNoFiles
    );
    let start = WatcherPhase::Waiting { retry: false };
    let (phase, action) =
        run_watcher(start, WatcherInput::Command(CommandKind::SetFiles)).unwrap();
    assert_eq!(action, WatcherAction::InstallRetry);
    let (phase, action) = run_watcher(phase, WatcherInput::Ready).unwrap();
    assert_eq!(
        action,
        WatcherAction::SettleRetry {
            stop: false,
            replace: true
        }
    );
    // The previous watch stays if another one cannot be installed.
    let (phase, _) = run_watcher(phase, WatcherInput::Command(CommandKind::SetFiles)).unwrap();
    let (phase, action) = run_watcher(phase, WatcherInput::Failed).unwrap();
    assert_eq!(action, WatcherAction::RefuseRetry);
    let (_, action) = run_watcher(phase, WatcherInput::Ended).unwrap();
    assert_eq!(action, WatcherAction::Finish { stop: true });
    let (_, action) = run_watcher(start, WatcherInput::Ended).unwrap();
    assert_eq!(action, WatcherAction::Finish { stop: false });
}

#[test]
fn paths_are_the_same_by_their_components() {
    assert!(path("/a//b/./c/") == path("/a/b/c"));
    assert!(path("/a/b") != path("a/b"));
    assert!(path("/a/b/c").starts_with(&path("/a/b/")));
    assert!(!path("/a/bc").starts_with(&path("/a/b")));
    assert_eq!(path("/a/..").file_name(), None);
    assert_eq!(path("/a/b/").file_name(), Some("b".to_owned()));
    assert_eq!(path("/a/b").parent().unwrap().as_str(), "/a");
    assert!(path("/").parent().is_none());
    assert_eq!(
        NormalPath::new(path("/a/b"), path("b")).relative().as_str(),
        "b"
    );
}

#[test]
fn changes_are_reported_by_the_paths_that_were_seen() {
    let expected = snapshot(&[("/d/A.hs", "a"), ("/d/./Old.hs", "o")]);
    let current = snapshot(&[("/d//A.hs", "x"), ("/d//New.hs", "n")]);
    assert_eq!(
        shown(&compare_snapshots(&expected, &current)),
        ["modify /d/A.hs", "modify /d//New.hs", "remove /d/./Old.hs"]
    );
    let mut changes = ContentChanges::new(&vec![expected]);
    assert_eq!(
        shown(&changes.observe(&modified("/d"), &vec![current])),
        ["modify /d/A.hs", "modify /d//New.hs", "remove /d/./Old.hs"]
    );
    let parents = retry_parents(&paths(&["/d//A.hs", "/d/./b/C.hs", "/d/b/D.hs", "/"]));
    let shown: Vec<&str> = (0..parents.len()).map(|i| parents.at(i).as_str()).collect();
    assert_eq!(shown, ["/d", "/d/./b"]);
}

#[test]
fn the_error_log_is_no_reason_to_try_the_setup_again() {
    let log = path("/d/src/compile.txt");
    assert!(!retries_setup(&modified("/d/src/compile.txt"), Some(&log)));
    assert!(!retries_setup(&modified("/d/src//compile.txt"), Some(&log)));
    assert!(!retries_setup(&SortedSet::new(), None));
    assert!(retries_setup(&modified("/d/src/compile.txt"), None));
    assert!(retries_setup(&modified("/d/src/ready.txt"), Some(&log)));
    let mut both = modified("/d/src/compile.txt");
    both.insert(FileEvent::Remove(path("/d/src/ready.txt")));
    assert!(retries_setup(&both, Some(&log)));
}

#[test]
fn sources_are_scanned_through_directories() {
    assert_eq!(scan_source(ScanKind::Missing, &path("/d/A.hs")), ScanStep::Skip);
    assert_eq!(scan_source(ScanKind::Directory, &path("/d/A.hs")), ScanStep::Descend);
    assert_eq!(scan_source(ScanKind::File, &path("/d/A.hs")), ScanStep::Take);
    assert_eq!(scan_source(ScanKind::File, &path("/d/a.txt")), ScanStep::Skip);
    assert_eq!(scan_source(ScanKind::Other, &path("/d/A.hs")), ScanStep::Take);
}
