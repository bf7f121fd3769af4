use ghciwatch::maybe_async_command::{
    reports_timing, status_message, ClonableCommand, CommandError, MaybeAsyncCommand, RunPlan,
};

#[test]
fn test_parse() {
    assert_eq!(
        "puppy --flavor 'sammy' --eyes \"brown\""
            .parse::<MaybeAsyncCommand>()
            .unwrap(),
        MaybeAsyncCommand {
            is_async: false,
            command: ClonableCommand::new("puppy")
                .arg("--flavor")
                .arg("sammy")
                .arg("--eyes")
                .arg("brown")
        }
    );

    assert_eq!(
        "async: puppy --flavor 'sammy' --eyes \"brown\""
            .parse::<MaybeAsyncCommand>()
            .unwrap(),
        MaybeAsyncCommand {
            is_async: true,
            command: ClonableCommand::new("puppy")
                .arg("--flavor")
                .arg("sammy")
                .arg("--eyes")
                .arg("brown")
        }
    );
}

#[test]
fn texts_that_are_no_commands_are_refused() {
    assert_eq!(
        MaybeAsyncCommand::parse("puppy 'sammy").unwrap_err(),
        CommandError::Quoting
    );
    assert_eq!(
        MaybeAsyncCommand::parse("async:  ").unwrap_err(),
        CommandError::Empty
    );
    assert_eq!(ClonableCommand::from_words(None).unwrap_err(), CommandError::Quoting);
}

#[test]
fn statuses_name_the_program() {
    assert_eq!(
        status_message("my program", None),
        "'my program' finished successfully"
    );
    assert_eq!(
        status_message("puppy", Some("exit status: 1")),
        "puppy failed: exit status: 1"
    );
    assert!(reports_timing(10, 10));
    assert!(!reports_timing(9, 10));
}

#[test]
fn background_commands_are_not_waited_for() {
    assert_eq!(
        MaybeAsyncCommand::parse("async: puppy").unwrap().run_plan(),
        RunPlan::Keep
    );
    assert_eq!(
        MaybeAsyncCommand::parse("puppy").unwrap().run_plan(),
        RunPlan::Await
    );
}

#[test]
fn commands_are_shown_as_they_would_be_typed() {
    assert_eq!(ClonableCommand::new("cabal").display(), "cabal");
    let command = ClonableCommand::new("my program").arg("repl").arg("").arg("a'b");
    let shown = command.display();
    assert_eq!(shown, "'my program' repl '' 'a'\\''b'");
    assert_eq!(ClonableCommand::parse(&shown).unwrap(), command);
}

#[test]
fn words_make_commands() {
    let words = |list: &[&str]| -> Option<Vec<String>> {
        Some(list.iter().map(|word| word.to_string()).collect())
    };
    let command = MaybeAsyncCommand::from_words(true, words(&["a", "b"])).unwrap();
    assert!(command.is_async);
    assert_eq!(command.command, ClonableCommand::new("a").arg("b"));
    assert_eq!(MaybeAsyncCommand::from_words(false, words(&[])), Err(CommandError::Empty));
    assert_eq!(MaybeAsyncCommand::from_words(false, None), Err(CommandError::Quoting));
    assert_eq!("async:".parse::<MaybeAsyncCommand>(), Err(CommandError::Empty));
    assert_eq!("async: 'a".parse::<MaybeAsyncCommand>(), Err(CommandError::Quoting));
}
