use ghciwatch::eval_socket::{
    eval_marker, eval_socket_command, failure_output, handle_connection, is_disconnected_client,
    is_reload_command, respond, spawn, timeout_error, ConnectionAction, ConnectionInput, ConnectionPhase,
    EvalAction, EvalInput, Evaluation, Framing, OpenAction, OpenInput, OpenPhase, Request, RequestError,
    SocketError, TimedAction, TimedInput, TimedPhase, MAX_COMMAND_BYTES,
};

fn read(bytes: &[u8]) -> (Framing, Request) {
    let mut request = Request { bytes: Vec::new() };
    let mut framing = Framing::More;
    for byte in bytes {
        assert_eq!(framing, Framing::More);
        framing = request.push(*byte);
    }
    (framing, request)
}

#[test]
fn commands_are_read_as_sent() {
    let (framing, request) = read("putStrLn \"é⋲\"⋳".as_bytes());
    assert_eq!(framing, Framing::Complete);
    assert_eq!(request.command(), Ok("putStrLn \"é⋲\"".to_owned()));
    assert_eq!(read("1 + 1".as_bytes()).0, Framing::More);
}

#[test]
fn requests_without_a_command_are_refused() {
    assert_eq!(
        read("⋳".as_bytes()).1.command(),
        Err(RequestError::Empty)
    );
    let mut bytes = vec![0xff];
    bytes.extend("⋳".bytes());
    assert_eq!(read(&bytes).1.command(), Err(RequestError::NotUtf8));
}

#[test]
fn long_commands_are_refused() {
    let mut longest = vec![b'x'; MAX_COMMAND_BYTES];
    longest.extend("⋳".bytes());
    assert_eq!(read(&longest).0, Framing::Complete);
    let mut request = Request {
        bytes: vec![b'x'; MAX_COMMAND_BYTES + 3],
    };
    assert_eq!(request.push(b'x'), Framing::TooLong);
}

#[test]
fn responses_are_never_empty() {
    assert_eq!(respond(""), "⋳".as_bytes());
    assert_eq!(respond("ok ⋳"), "ok ⋳".as_bytes());
    assert_eq!(
        failure_output("x"),
        "Error: ghciwatch executable eval failed: x"
    );
    assert_eq!(
        timeout_error("loop"),
        "Executable eval command timed out after 60 seconds: loop"
    );
    assert_eq!(eval_marker(17, 3), "__GHCIWATCH_EVAL_END_17_3__");
}

#[test]
fn reload_commands_are_recognized() {
    assert!(is_reload_command(" :r\n"));
    assert!(is_reload_command(":reload"));
    assert!(!is_reload_command(":reload x"));
}

#[test]
fn clients_may_leave() {
    for error in [
        SocketError::BrokenPipe,
        SocketError::ConnectionAborted,
        SocketError::ConnectionReset,
        SocketError::NotConnected,
    ] {
        assert!(is_disconnected_client(error));
    }
    assert!(!is_disconnected_client(SocketError::Other));
}

#[test]
fn the_session_is_free_before_the_response_is_written() {
    let mut phase = ConnectionPhase::Reading;
    let mut step = |input| {
        let (next, action) = handle_connection(phase, input).unwrap();
        phase = next;
        action
    };
    assert_eq!(
        step(ConnectionInput::Request { reload: false }),
        ConnectionAction::BeginOperation
    );
    assert_eq!(step(ConnectionInput::Ready), ConnectionAction::Evaluate);
    assert_eq!(step(ConnectionInput::Ready), ConnectionAction::Release);
    assert_eq!(step(ConnectionInput::Ready), ConnectionAction::Write);
    assert_eq!(
        step(ConnectionInput::Failed { disconnected: true }),
        ConnectionAction::Finish
    );
    assert!(handle_connection(ConnectionPhase::Over, ConnectionInput::Ready).is_none());
    assert_eq!(
        handle_connection(
            ConnectionPhase::Closing,
            ConnectionInput::Failed {
                disconnected: false
            }
        ),
        Some((ConnectionPhase::Over, ConnectionAction::Fail))
    );
}

#[test]
fn slow_evaluations_are_interrupted() {
    let (phase, action) = eval_socket_command(TimedPhase::Running, TimedInput::TimedOut).unwrap();
    assert_eq!(action, TimedAction::Warn);
    let (phase, action) = eval_socket_command(phase, TimedInput::TimedOut).unwrap();
    assert_eq!(action, TimedAction::Interrupt);
    assert_eq!(
        eval_socket_command(phase, TimedInput::Ready).unwrap().1,
        TimedAction::FailTimeout
    );
}

fn text(text: &str) -> EvalInput {
    EvalInput::Text(text.to_owned())
}

#[test]
fn lines_are_evaluated_one_after_the_other() {
    let mut run = Evaluation::new(":m + Data.List\nsort [2,1]\n \n").unwrap();
    assert_eq!(
        run.eval_socket_command_inner(EvalInput::Ready),
        Some(EvalAction::RunLine(0))
    );
    assert_eq!(run.line(0), ":m + Data.List");
    assert_eq!(
        run.eval_socket_command_inner(text("a")),
        Some(EvalAction::ReadStderr)
    );
    assert_eq!(
        run.eval_socket_command_inner(text("b")),
        Some(EvalAction::ClearStderr)
    );
    assert_eq!(
        run.eval_socket_command_inner(EvalInput::Ready),
        Some(EvalAction::RunLine(1))
    );
    assert_eq!(
        run.eval_socket_command_inner(text("[1,2]\n")),
        Some(EvalAction::ReadStderr)
    );
    assert_eq!(
        run.eval_socket_command_inner(text("")),
        Some(EvalAction::Finish)
    );
    assert_eq!(run.output(), "ab[1,2]\n");
}

#[test]
fn a_failed_import_ends_the_evaluation() {
    let mut run = Evaluation::new(":module + Nope\nx").unwrap();
    run.eval_socket_command_inner(EvalInput::Ready);
    run.eval_socket_command_inner(text(""));
    let stderr = "<no location info>: error:\n    Could not find module\n";
    assert_eq!(
        run.eval_socket_command_inner(text(stderr)),
        Some(EvalAction::Finish)
    );
    assert_eq!(run.output(), stderr);
    assert!(matches!(Evaluation::new(" \n"), Err(RequestError::Empty)));
}

#[test]
fn only_the_owner_of_the_lock_opens_the_socket() {
    assert_eq!(
        spawn(OpenPhase::Locking, OpenInput::Held),
        Some((OpenPhase::Over, OpenAction::Finish))
    );
    let (phase, action) = spawn(OpenPhase::Locking, OpenInput::Ready).unwrap();
    assert_eq!(action, OpenAction::RemoveStale);
    let (phase, action) = spawn(phase, OpenInput::NotFound).unwrap();
    assert_eq!(action, OpenAction::Bind);
    assert_eq!(spawn(phase, OpenInput::Ready).unwrap().1, OpenAction::Accept);
    assert_eq!(
        spawn(OpenPhase::Locking, OpenInput::Failed).unwrap().1,
        OpenAction::Fail
    );
}
