//! The socket through which commands are evaluated in the session.

use crate::ghci::compilation_log::{summary_in, CompilationLog, LogView};
use crate::ghci::parse::ghc_message::compilation_summary::CompilationResult;
use crate::ghci::parse::ghc_message::messages::{has_error, messages_of};
use crate::text::{
    decimal, first_word, first_word_of, format_u64, lines, same_text, split_lines, texts, trim, trim_end,
    trimmed, trimmed_end,
};
use vstd::prelude::*;
use vstd::utf8::{decode_utf8, encode_utf8, valid_utf8};

verus! {

/// The longest command, in bytes.
pub const MAX_COMMAND_BYTES: usize = 1_048_576;

/// How long an evaluation may take before a warning, and then until it is interrupted, in seconds.
pub const EVAL_WARNING_AFTER: u64 = 30;

pub const EVAL_TIMEOUT_AFTER_WARNING: u64 = 30;

/// The bytes that end a command, and stand for an empty response.
pub open spec fn terminator() -> Seq<u8> {
    seq![0xE2u8, 0x8Bu8, 0xB3u8]
}

/// Whether the bytes end a command.
pub open spec fn is_terminated(bytes: Seq<u8>) -> bool {
    bytes.len() >= 3 && bytes.skip(bytes.len() - 3) == terminator()
}

/// How far a request was read.
#[derive(Clone, Copy, Debug, PartialEq, Eq, Structural)]
pub enum Framing {
    /// More bytes have to be read.
    More,
    /// The request is complete.
    Complete,
    /// The command is too long.
    TooLong,
}

/// How far a request was read that holds these bytes.
pub open spec fn framing(bytes: Seq<u8>) -> Framing {
    if bytes.len() > MAX_COMMAND_BYTES + 3 {
        Framing::TooLong
    } else if is_terminated(bytes) {
        Framing::Complete
    } else {
        Framing::More
    }
}

/// Why a request is refused.
#[derive(Clone, Copy, Debug, PartialEq, Eq, Structural)]
pub enum RequestError {
    /// The command is not UTF-8.
    NotUtf8,
    /// There is no command.
    Empty,
}

/// Calls `std::str::from_utf8`, which gives the text that the bytes encode, or fails if they encode
/// none.
#[verifier::external_body]
fn text_of(bytes: &Vec<u8>) -> (r: Option<String>)
    ensures
        match r {
            Some(text) => valid_utf8(bytes@) && text@ == decode_utf8(bytes@),
            None => !valid_utf8(bytes@),
        },
{
    match std::str::from_utf8(bytes) {
        Ok(text) => Some(text.to_owned()),
        Err(_) => None,
    }
}

/// The command that the bytes of a request hold.
pub open spec fn request_command(bytes: Seq<u8>) -> Result<Seq<char>, RequestError> {
    if !valid_utf8(bytes) {
        Err(RequestError::NotUtf8)
    } else if decode_utf8(bytes).len() == 0 {
        Err(RequestError::Empty)
    } else {
        Ok(decode_utf8(bytes))
    }
}

/// A request that is being read.
#[derive(Debug)]
pub struct Request {
    pub bytes: Vec<u8>,
}

impl Request {
    /// Takes in a byte, and says how far the request was read.
    pub fn push(&mut self, byte: u8) -> (r: Framing)
        requires
            old(self).bytes@.len() <= MAX_COMMAND_BYTES + 3,
        ensures
            final(self).bytes@ == old(self).bytes@.push(byte),
            r == framing(final(self).bytes@),
    {
        self.bytes.push(byte);
        let n: usize = self.bytes.len();
        if n > MAX_COMMAND_BYTES + 3 {
            return Framing::TooLong;
        }
        if n >= 3 && self.bytes[n - 3] == 0xE2 && self.bytes[n - 2] == 0x8B && self.bytes[n - 1] == 0xB3 {
            proof {
                assert(self.bytes@.skip(n - 3) =~= terminator());
            }
            Framing::Complete
        } else {
            proof {
                if is_terminated(self.bytes@) {
                    let end = self.bytes@.skip(n - 3);
                    assert(end[0] == self.bytes@[n - 3] && end[1] == self.bytes@[n - 2] && end[2]
                        == self.bytes@[n - 1]);
                }
            }
            Framing::More
        }
    }

    /// The command of a request that is complete.
    pub fn command(self) -> (r: Result<String, RequestError>)
        requires
            is_terminated(self.bytes@),
        ensures
            (match r {
                Ok(command) => Ok(command@),
                Err(error) => Err(error),
            }) == request_command(self.bytes@.take(self.bytes@.len() - 3)),
    {
        let mut bytes = self.bytes;
        let n: usize = bytes.len();
        bytes.truncate(n - 3);
        proof {
            assert(bytes@ =~= self.bytes@.take(n - 3));
        }
        match text_of(&bytes) {
            Some(command) => if command.as_str().unicode_len() == 0 {
                Err(RequestError::Empty)
            } else {
                Ok(command)
            },
            None => Err(RequestError::NotUtf8),
        }
    }
}

/// A command of any allowed length, followed by the bytes that end it, is a complete request, and
/// that request gives the command back.
pub proof fn command_is_read_as_sent(command: Seq<char>)
    requires
        command.len() > 0,
        encode_utf8(command).len() <= MAX_COMMAND_BYTES,
    ensures
        ({
            let sent = encode_utf8(command) + terminator();
            &&& framing(sent) == Framing::Complete
            &&& request_command(sent.take(sent.len() - 3)) == Ok::<Seq<char>, RequestError>(command)
        }),
{
    broadcast use vstd::utf8::encode_utf8_valid_utf8, vstd::utf8::encode_utf8_decode_utf8;

    let sent = encode_utf8(command) + terminator();
    assert(sent.skip(sent.len() - 3) =~= terminator());
    assert(sent.take(sent.len() - 3) =~= encode_utf8(command));
}

/// Whether the command reloads the session.
pub fn is_reload_command(command: &str) -> (r: bool)
    ensures
        r == (trimmed(command@) == ":r"@ || trimmed(command@) == ":reload"@),
{
    let word = trim(command);
    same_text(word.as_str(), ":r") || same_text(word.as_str(), ":reload")
}

/// Why a response could not be written.
#[derive(Clone, Copy, Debug, PartialEq, Eq, Structural)]
pub enum SocketError {
    BrokenPipe,
    ConnectionAborted,
    ConnectionReset,
    NotConnected,
    Other,
}

/// Whether the error means that the client is gone. It may stop waiting at any time.
pub fn is_disconnected_client(error: SocketError) -> (r: bool)
    ensures
        r == (error != SocketError::Other),
{
    match error {
        SocketError::Other => false,
        _ => true,
    }
}

/// The bytes of a response. An empty one is told from none by the bytes that end a command.
pub open spec fn response_bytes(output: Seq<char>) -> Seq<u8> {
    if output.len() == 0 {
        terminator()
    } else {
        encode_utf8(output)
    }
}

/// The bytes of a response.
pub fn respond(output: &str) -> (r: Vec<u8>)
    ensures
        r@ == response_bytes(output@),
{
    let mut r: Vec<u8> = Vec::new();
    if output.unicode_len() == 0 {
        r.push(0xE2);
        r.push(0x8B);
        r.push(0xB3);
        proof {
            assert(r@ =~= terminator());
        }
        return r;
    }
    let bytes = output.as_bytes();
    let mut i: usize = 0;
    while i < bytes.len()
        invariant
            i <= bytes@.len(),
            r@ == bytes@.take(i as int),
        decreases bytes@.len() - i,
    {
        r.push(bytes[i]);
        proof {
            assert(bytes@.take(i + 1) =~= bytes@.take(i as int).push(bytes@[i as int]));
        }
        i = i + 1;
    }
    proof {
        assert(bytes@.take(bytes@.len() as int) =~= bytes@);
    }
    r
}

/// Every evaluation is answered with at least one byte, so that a client can tell an answer from a
/// connection that ended before it.
pub proof fn response_is_never_empty(output: Seq<char>)
    ensures
        response_bytes(output).len() > 0,
{
    if output.len() > 0 && encode_utf8(output).len() == 0 {
        vstd::utf8::encode_utf8_decode_utf8(output);
        assert(encode_utf8(output) =~= seq![]);
        assert(decode_utf8(seq![]).len() == 0);
    }
}

/// What is answered if an evaluation fails.
pub fn failure_output(error: &str) -> (r: String)
    ensures
        r@ == "Error: ghciwatch executable eval failed: "@ + error@,
{
    let mut r = "Error: ghciwatch executable eval failed: ".to_owned();
    r.append(error);
    r
}

/// What a connection waits for.
#[derive(Clone, Copy, Debug, PartialEq, Eq, Structural)]
pub enum ConnectionPhase {
    /// The request was to be read.
    Reading,
    /// The turn of the operation was to come.
    Queued { reload: bool },
    /// The command was to be evaluated.
    Evaluating,
    /// The session was to be left to others.
    Releasing,
    /// The response was to be written.
    Writing,
    /// The connection was to be closed.
    Closing,
    Over,
}

/// What is to be done next for a connection.
#[derive(Clone, Copy, Debug, PartialEq, Eq, Structural)]
pub enum ConnectionAction {
    /// Wait for the turn of the operation, and then for the session.
    BeginOperation,
    /// Reload the session.
    Reload,
    /// Evaluate the command.
    Evaluate,
    /// Leave the session, and the turn, to others.
    Release,
    /// Write the response.
    Write,
    /// Close the connection.
    Close,
    /// Return.
    Finish,
    /// Return the error that was just reported.
    Fail,
}

/// What happened to a connection.
#[derive(Clone, Copy, Debug, PartialEq, Eq, Structural)]
pub enum ConnectionInput {
    /// The request was read. `reload` tells whether its command reloads the session.
    Request { reload: bool },
    /// What was to be done is done. An evaluation that failed is done, too: its error is the response.
    Ready,
    /// What was to be done failed. `disconnected` tells whether that is because the client is gone.
    Failed { disconnected: bool },
}

/// What happens next to a connection. Nothing, if the input does not answer what was last to be done.
pub open spec fn connection_next(phase: ConnectionPhase, input: ConnectionInput) -> Option<
    (ConnectionPhase, ConnectionAction),
> {
    match (phase, input) {
        (ConnectionPhase::Reading, ConnectionInput::Request { reload }) => Some(
            (ConnectionPhase::Queued { reload }, ConnectionAction::BeginOperation),
        ),
        (ConnectionPhase::Reading, ConnectionInput::Failed { .. }) => Some(
            (ConnectionPhase::Over, ConnectionAction::Fail),
        ),
        (ConnectionPhase::Queued { reload }, ConnectionInput::Ready) => Some(
            (
                ConnectionPhase::Evaluating,
                if reload {
                    ConnectionAction::Reload
                } else {
                    ConnectionAction::Evaluate
                },
            ),
        ),
        (ConnectionPhase::Evaluating, ConnectionInput::Ready) => Some(
            (ConnectionPhase::Releasing, ConnectionAction::Release),
        ),
        (ConnectionPhase::Releasing, ConnectionInput::Ready) => Some(
            (ConnectionPhase::Writing, ConnectionAction::Write),
        ),
        (ConnectionPhase::Writing, ConnectionInput::Ready) => Some(
            (ConnectionPhase::Closing, ConnectionAction::Close),
        ),
        (ConnectionPhase::Closing, ConnectionInput::Ready) => Some(
            (ConnectionPhase::Over, ConnectionAction::Finish),
        ),
        (ConnectionPhase::Writing, ConnectionInput::Failed { disconnected }) => Some(
            (
                ConnectionPhase::Over,
                if disconnected {
                    ConnectionAction::Finish
                } else {
                    ConnectionAction::Fail
                },
            ),
        ),
        (ConnectionPhase::Closing, ConnectionInput::Failed { disconnected }) => Some(
            (
                ConnectionPhase::Over,
                if disconnected {
                    ConnectionAction::Finish
                } else {
                    ConnectionAction::Fail
                },
            ),
        ),
        _ => None,
    }
}

/// Takes what happened to a connection and says what is to be done next.
pub fn handle_connection(phase: ConnectionPhase, input: ConnectionInput) -> (r: Option<
    (ConnectionPhase, ConnectionAction),
>)
    ensures
        r == connection_next(phase, input),
{
    match (phase, input) {
        (ConnectionPhase::Reading, ConnectionInput::Request { reload }) => Some(
            (ConnectionPhase::Queued { reload }, ConnectionAction::BeginOperation),
        ),
        (ConnectionPhase::Reading, ConnectionInput::Failed { .. }) => Some(
            (ConnectionPhase::Over, ConnectionAction::Fail),
        ),
        (ConnectionPhase::Queued { reload }, ConnectionInput::Ready) => {
            let action = if reload {
                ConnectionAction::Reload
            } else {
                ConnectionAction::Evaluate
            };
            Some((ConnectionPhase::Evaluating, action))
        },
        (ConnectionPhase::Evaluating, ConnectionInput::Ready) => Some(
            (ConnectionPhase::Releasing, ConnectionAction::Release),
        ),
        (ConnectionPhase::Releasing, ConnectionInput::Ready) => Some(
            (ConnectionPhase::Writing, ConnectionAction::Write),
        ),
        (ConnectionPhase::Writing, ConnectionInput::Ready) => Some(
            (ConnectionPhase::Closing, ConnectionAction::Close),
        ),
        (ConnectionPhase::Closing, ConnectionInput::Ready) => Some(
            (ConnectionPhase::Over, ConnectionAction::Finish),
        ),
        (ConnectionPhase::Writing, ConnectionInput::Failed { disconnected }) => {
            let action = if disconnected {
                ConnectionAction::Finish
            } else {
                ConnectionAction::Fail
            };
            Some((ConnectionPhase::Over, action))
        },
        (ConnectionPhase::Closing, ConnectionInput::Failed { disconnected }) => {
            let action = if disconnected {
                ConnectionAction::Finish
            } else {
                ConnectionAction::Fail
            };
            Some((ConnectionPhase::Over, action))
        },
        _ => None,
    }
}

/// The session is used only in the turn of the operation, and left to others before the response is
/// written: a slow client delays nobody.
pub proof fn session_is_free_while_responding(phase: ConnectionPhase, input: ConnectionInput)
    requires
        connection_next(phase, input) is Some,
    ensures
        ({
            let (after, action) = connection_next(phase, input)->0;
            &&& action is Write ==> phase is Releasing && input is Ready
            &&& after is Releasing ==> action is Release && phase is Evaluating
            &&& action is Reload || action is Evaluate ==> phase is Queued && input is Ready
            &&& after is Queued ==> action is BeginOperation
        }),
{
}

/// What a timed evaluation waits for.
#[derive(Clone, Copy, Debug, PartialEq, Eq, Structural)]
pub enum TimedPhase {
    /// The evaluation, until the warning.
    Running,
    /// The evaluation, until it is interrupted.
    Warned,
    /// The session was to be interrupted.
    Interrupting,
    Over,
}

/// What is to be done next for a timed evaluation.
#[derive(Clone, Copy, Debug, PartialEq, Eq, Structural)]
pub enum TimedAction {
    /// Warn, and wait on.
    Warn,
    /// Drop the evaluation, and interrupt the session.
    Interrupt,
    /// Return what came of the evaluation.
    Finish,
    /// Return an error: the evaluation took too long.
    FailTimeout,
    /// Return the error that was just reported.
    Fail,
}

/// What happened to a timed evaluation.
#[derive(Clone, Copy, Debug, PartialEq, Eq, Structural)]
pub enum TimedInput {
    /// The evaluation ended, or the session was interrupted.
    Ready,
    /// The time is up.
    TimedOut,
    /// The interruption failed.
    Failed,
}

/// What happens next to a timed evaluation. Nothing, if the input does not answer what was last to be
/// done.
pub open spec fn timed_next(phase: TimedPhase, input: TimedInput) -> Option<(TimedPhase, TimedAction)> {
    match (phase, input) {
        (TimedPhase::Running, TimedInput::Ready) => Some((TimedPhase::Over, TimedAction::Finish)),
        (TimedPhase::Running, TimedInput::TimedOut) => Some((TimedPhase::Warned, TimedAction::Warn)),
        (TimedPhase::Warned, TimedInput::Ready) => Some((TimedPhase::Over, TimedAction::Finish)),
        (TimedPhase::Warned, TimedInput::TimedOut) => Some((TimedPhase::Interrupting, TimedAction::Interrupt)),
        (TimedPhase::Interrupting, TimedInput::Ready) => Some((TimedPhase::Over, TimedAction::FailTimeout)),
        (TimedPhase::Interrupting, TimedInput::Failed) => Some((TimedPhase::Over, TimedAction::Fail)),
        _ => None,
    }
}

/// Takes what happened to a timed evaluation and says what is to be done next.
pub fn eval_socket_command(phase: TimedPhase, input: TimedInput) -> (r: Option<(TimedPhase, TimedAction)>)
    ensures
        r == timed_next(phase, input),
{
    match (phase, input) {
        (TimedPhase::Running, TimedInput::Ready) => Some((TimedPhase::Over, TimedAction::Finish)),
        (TimedPhase::Running, TimedInput::TimedOut) => Some((TimedPhase::Warned, TimedAction::Warn)),
        (TimedPhase::Warned, TimedInput::Ready) => Some((TimedPhase::Over, TimedAction::Finish)),
        (TimedPhase::Warned, TimedInput::TimedOut) => Some((TimedPhase::Interrupting, TimedAction::Interrupt)),
        (TimedPhase::Interrupting, TimedInput::Ready) => Some((TimedPhase::Over, TimedAction::FailTimeout)),
        (TimedPhase::Interrupting, TimedInput::Failed) => Some((TimedPhase::Over, TimedAction::Fail)),
        _ => None,
    }
}

/// What is answered if an evaluation takes too long.
pub fn timeout_error(command: &str) -> (r: String)
    ensures
        r@ == "Executable eval command timed out after 60 seconds: "@ + command@,
{
    let mut r = "Executable eval command timed out after 60 seconds: ".to_owned();
    r.append(command);
    r
}

/// The line of standard error that shows that all of an evaluation was read.
pub fn eval_marker(process: u64, nonce: u64) -> (r: String)
    ensures
        r@ == "__GHCIWATCH_EVAL_END_"@ + decimal(process as nat) + "_"@ + decimal(nonce as nat) + "__"@,
{
    let mut r = "__GHCIWATCH_EVAL_END_".to_owned();
    r.append(format_u64(process).as_str());
    r.append("_");
    r.append(format_u64(nonce).as_str());
    r.append("__");
    r
}

/// Whether a line loads modules into scope.
pub open spec fn loads_module(line: Seq<char>) -> bool {
    first_word(line) == Some(":m"@) || first_word(line) == Some(":module"@)
}

fn is_module_line(line: &str) -> (r: bool)
    ensures
        r == loads_module(line@),
{
    match first_word_of(line) {
        Some(word) => same_text(word.as_str(), ":m") || same_text(word.as_str(), ":module"),
        None => false,
    }
}

/// Whether this standard error tells that modules could not be loaded.
pub open spec fn tells_of_failure(stderr: Seq<char>) -> bool {
    LogView::empty().with_stderr(stderr).filled().result() == Some(CompilationResult::Failure)
}

fn module_failed(stderr: &str) -> (r: bool)
    ensures
        r == tells_of_failure(stderr@),
{
    let mut log = CompilationLog::default();
    log.extend_stderr(stderr);
    log.fill_empty_summary();
    match log.result() {
        Some(CompilationResult::Failure) => true,
        _ => false,
    }
}

/// What the evaluation of a command waits for.
#[derive(Clone, Copy, Debug, PartialEq, Eq, Structural)]
pub enum EvalPhase {
    /// Standard error was to be dropped.
    Clearing,
    /// A line was to be written, and its output read up to the prompt.
    Running,
    /// Standard error was to be read after a line that loads modules.
    Checking,
    /// Standard error was to be read after the last line.
    Collecting,
    Over,
}

/// What is to be done next to evaluate a command.
#[derive(Clone, Copy, Debug, PartialEq, Eq, Structural)]
pub enum EvalAction {
    /// Drop what was read of standard error.
    ClearStderr,
    /// Write the line at this place, and read its output up to the prompt.
    RunLine(usize),
    /// Read standard error through a marker.
    ReadStderr,
    /// Return the output.
    Finish,
    /// Return the error that was just reported.
    Fail,
}

/// What came of it.
#[derive(Debug)]
pub enum EvalInput {
    /// What was to be done is done.
    Ready,
    /// This was read.
    Text(String),
    /// What was to be done failed.
    Failed,
}

/// The model of an [`EvalInput`].
pub enum EvalInputView {
    Ready,
    Text(Seq<char>),
    Failed,
}

impl View for EvalInput {
    type V = EvalInputView;

    open spec fn view(&self) -> EvalInputView {
        match self {
            EvalInput::Ready => EvalInputView::Ready,
            EvalInput::Text(text) => EvalInputView::Text(text@),
            EvalInput::Failed => EvalInputView::Failed,
        }
    }
}

/// A command that is being evaluated, one line after the other.
#[derive(Debug)]
pub struct Evaluation {
    lines: Vec<String>,
    at: usize,
    output: String,
    phase: EvalPhase,
}

/// The model of an [`Evaluation`].
pub struct EvaluationView {
    pub lines: Seq<Seq<char>>,
    /// How many lines were written.
    pub at: int,
    /// The output so far.
    pub output: Seq<char>,
    pub phase: EvalPhase,
}

impl View for Evaluation {
    type V = EvaluationView;

    closed spec fn view(&self) -> EvaluationView {
        EvaluationView { lines: texts(self.lines@), at: self.at as int, output: self.output@, phase: self.phase }
    }
}

impl EvaluationView {
    /// This in another phase.
    pub open spec fn to(self, phase: EvalPhase) -> EvaluationView {
        EvaluationView { phase, ..self }
    }

    /// This with more output.
    pub open spec fn adding(self, text: Seq<char>) -> EvaluationView {
        EvaluationView { output: self.output + text, ..self }
    }

    /// What follows when all before the next line is done: that line, or standard error if there is
    /// none.
    pub open spec fn onwards(self) -> (EvaluationView, EvalAction) {
        if self.at < self.lines.len() {
            (
                EvaluationView { at: self.at + 1, phase: EvalPhase::Running, ..self },
                EvalAction::RunLine(self.at as usize),
            )
        } else {
            (self.to(EvalPhase::Collecting), EvalAction::ReadStderr)
        }
    }

    /// What happens next. Nothing, if the input does not answer what was last to be done. If modules
    /// cannot be loaded, the lines after that could only fail for want of them, so they are left out.
    pub open spec fn next(self, input: EvalInputView) -> Option<(EvaluationView, EvalAction)> {
        match (self.phase, input) {
            (EvalPhase::Clearing, EvalInputView::Ready) => Some(self.onwards()),
            (EvalPhase::Running, EvalInputView::Text(text)) => Some(
                if loads_module(self.lines[self.at - 1]) {
                    (self.adding(text).to(EvalPhase::Checking), EvalAction::ReadStderr)
                } else {
                    self.adding(text).onwards()
                },
            ),
            (EvalPhase::Checking, EvalInputView::Text(text)) => Some(
                if tells_of_failure(text) {
                    (self.adding(text).to(EvalPhase::Over), EvalAction::Finish)
                } else {
                    (self.adding(text).to(EvalPhase::Clearing), EvalAction::ClearStderr)
                },
            ),
            (EvalPhase::Collecting, EvalInputView::Text(text)) => Some(
                (self.adding(text).to(EvalPhase::Over), EvalAction::Finish),
            ),
            (EvalPhase::Over, _) => None,
            (_, EvalInputView::Failed) => Some((self.to(EvalPhase::Over), EvalAction::Fail)),
            _ => None,
        }
    }

    /// What always holds: a line is run only if there is one, and none after the last.
    pub open spec fn inv(self) -> bool {
        0 <= self.at <= self.lines.len() && (self.phase is Running ==> self.at > 0)
    }
}

impl Evaluation {
    /// Begins to evaluate a command, without the white space at its end. It is an error if nothing is
    /// left then. The action to begin with is [`EvalAction::ClearStderr`]: a quick error must not be
    /// dropped.
    pub fn new(command: &str) -> (r: Result<Self, RequestError>)
        ensures
            match r {
                Ok(run) => trim_end(command@).len() > 0 && run@ == (EvaluationView {
                    lines: lines(trim_end(command@)),
                    at: 0,
                    output: seq![],
                    phase: EvalPhase::Clearing,
                }) && run@.inv(),
                Err(error) => error == RequestError::Empty && trim_end(command@).len() == 0,
            },
    {
        let text = trimmed_end(command);
        if text.as_str().unicode_len() == 0 {
            return Err(RequestError::Empty);
        }
        let lines = split_lines(text.as_str());
        let output = String::new();
        proof {
            assert(output@ =~= seq![]);
        }
        Ok(Evaluation { lines, at: 0, output, phase: EvalPhase::Clearing })
    }

    /// The line at this place.
    pub fn line(&self, i: usize) -> (r: &str)
        requires
            i < self@.lines.len(),
        ensures
            r@ == self@.lines[i as int],
    {
        self.lines[i].as_str()
    }

    /// The output.
    pub fn output(self) -> (r: String)
        ensures
            r@ == self@.output,
    {
        self.output
    }

    fn go_on(&mut self) -> (r: EvalAction)
        requires
            old(self)@.inv(),
        ensures
            (final(self)@, r) == old(self)@.onwards(),
            final(self)@.inv(),
    {
        let n: usize = self.lines.len();
        if self.at < n {
            let i = self.at;
            self.at = i + 1;
            self.phase = EvalPhase::Running;
            EvalAction::RunLine(i)
        } else {
            self.phase = EvalPhase::Collecting;
            EvalAction::ReadStderr
        }
    }

    /// Takes what came of what was last to be done to evaluate a command and says what is to be done
    /// next. Nothing changes, and nothing is to be done, if the input does not answer that.
    pub fn eval_socket_command_inner(&mut self, input: EvalInput) -> (r: Option<EvalAction>)
        requires
            old(self)@.inv(),
        ensures
            final(self)@.inv(),
            match r {
                Some(action) => old(self)@.next(input@) == Some((final(self)@, action)),
                None => old(self)@.next(input@) is None && final(self)@ == old(self)@,
            },
    {
        match (self.phase, input) {
            (EvalPhase::Clearing, EvalInput::Ready) => Some(self.go_on()),
            (EvalPhase::Running, EvalInput::Text(text)) => {
                let loads = is_module_line(self.lines[self.at - 1].as_str());
                self.output.append(text.as_str());
                if loads {
                    self.phase = EvalPhase::Checking;
                    Some(EvalAction::ReadStderr)
                } else {
                    Some(self.go_on())
                }
            },
            (EvalPhase::Checking, EvalInput::Text(text)) => {
                let failed = module_failed(text.as_str());
                self.output.append(text.as_str());
                if failed {
                    self.phase = EvalPhase::Over;
                    Some(EvalAction::Finish)
                } else {
                    self.phase = EvalPhase::Clearing;
                    Some(EvalAction::ClearStderr)
                }
            },
            (EvalPhase::Collecting, EvalInput::Text(text)) => {
                self.output.append(text.as_str());
                self.phase = EvalPhase::Over;
                Some(EvalAction::Finish)
            },
            (EvalPhase::Over, _) => None,
            (_, EvalInput::Failed) => {
                self.phase = EvalPhase::Over;
                Some(EvalAction::Fail)
            },
            _ => None,
        }
    }
}

/// Everything that is read goes to the output, in the order in which it was read, and nothing else
/// does.
pub proof fn output_holds_what_was_read(run: EvaluationView, input: EvalInputView)
    requires
        run.inv(),
        run.next(input) is Some,
    ensures
        (run.next(input)->0).0.output == (match input {
            EvalInputView::Text(text) => run.output + text,
            _ => run.output,
        }),
        (run.next(input)->0).0.lines == run.lines,
        (run.next(input)->0).0.inv(),
{
}

/// The lines of a command run one after the other, each once, and none runs after modules could not
/// be loaded.
pub proof fn lines_run_in_order(run: EvaluationView, input: EvalInputView)
    requires
        run.inv(),
        run.lines.len() <= usize::MAX,
        run.next(input) is Some,
    ensures
        ({
            let (after, action) = run.next(input)->0;
            &&& action is RunLine ==> action->RunLine_0 == run.at && after.at == run.at + 1
            &&& !(action is RunLine) ==> after.at == run.at
            &&& run.phase is Checking && input is Text && tells_of_failure(input->Text_0) ==> action is Finish
            &&& action is Finish && !(run.phase is Checking) ==> run.phase is Collecting
            &&& after.phase is Collecting ==> after.at == run.lines.len()
        }),
{
}

/// What opening the socket waits for.
#[derive(Clone, Copy, Debug, PartialEq, Eq, Structural)]
pub enum OpenPhase {
    /// The lock was to be taken.
    Locking,
    /// A socket that was left behind was to be removed.
    Removing,
    /// The socket was to be bound.
    Binding,
    Over,
}

/// What is to be done next to open the socket.
#[derive(Clone, Copy, Debug, PartialEq, Eq, Structural)]
pub enum OpenAction {
    /// Remove a socket that was left behind. It belongs to nobody who is alive: they would hold the
    /// lock.
    RemoveStale,
    /// Bind the socket.
    Bind,
    /// Accept connections, and return. The lock is held until the socket is removed.
    Accept,
    /// Return without a socket.
    Finish,
    /// Return the error that was just reported.
    Fail,
}

/// What happened while the socket was opened.
#[derive(Clone, Copy, Debug, PartialEq, Eq, Structural)]
pub enum OpenInput {
    /// What was to be done is done.
    Ready,
    /// Another session holds the lock.
    Held,
    /// There was nothing to remove.
    NotFound,
    /// What was to be done failed.
    Failed,
}

/// What happens next while the socket is opened. Nothing, if the input does not answer what was last
/// to be done. The socket is optional: a session does without it if another one holds the lock.
pub open spec fn open_next(phase: OpenPhase, input: OpenInput) -> Option<(OpenPhase, OpenAction)> {
    match (phase, input) {
        (OpenPhase::Locking, OpenInput::Ready) => Some((OpenPhase::Removing, OpenAction::RemoveStale)),
        (OpenPhase::Locking, OpenInput::Held) => Some((OpenPhase::Over, OpenAction::Finish)),
        (OpenPhase::Removing, OpenInput::Ready) => Some((OpenPhase::Binding, OpenAction::Bind)),
        (OpenPhase::Removing, OpenInput::NotFound) => Some((OpenPhase::Binding, OpenAction::Bind)),
        (OpenPhase::Binding, OpenInput::Ready) => Some((OpenPhase::Over, OpenAction::Accept)),
        (OpenPhase::Over, _) => None,
        (_, OpenInput::Failed) => Some((OpenPhase::Over, OpenAction::Fail)),
        _ => None,
    }
}

/// Takes what happened while the socket is opened and says what is to be done next.
pub fn spawn(phase: OpenPhase, input: OpenInput) -> (r: Option<(OpenPhase, OpenAction)>)
    ensures
        r == open_next(phase, input),
{
    match (phase, input) {
        (OpenPhase::Locking, OpenInput::Ready) => Some((OpenPhase::Removing, OpenAction::RemoveStale)),
        (OpenPhase::Locking, OpenInput::Held) => Some((OpenPhase::Over, OpenAction::Finish)),
        (OpenPhase::Removing, OpenInput::Ready) => Some((OpenPhase::Binding, OpenAction::Bind)),
        (OpenPhase::Removing, OpenInput::NotFound) => Some((OpenPhase::Binding, OpenAction::Bind)),
        (OpenPhase::Binding, OpenInput::Ready) => Some((OpenPhase::Over, OpenAction::Accept)),
        (OpenPhase::Over, _) => None,
        (_, OpenInput::Failed) => Some((OpenPhase::Over, OpenAction::Fail)),
        _ => None,
    }
}

/// Only who holds the lock removes a socket or binds one.
pub proof fn socket_belongs_to_the_lock(phase: OpenPhase, input: OpenInput)
    requires
        open_next(phase, input) is Some,
    ensures
        (open_next(phase, input)->0).1 is RemoveStale ==> phase is Locking && input is Ready,
        (open_next(phase, input)->0).1 is Bind ==> phase is Removing,
        (open_next(phase, input)->0).1 is Accept ==> phase is Binding && input is Ready,
{
}

/// Once its turn has come, a command that reloads the session does so through a reload, and every other
/// command is evaluated. What the request asked for is kept while it waits.
pub proof fn requests_are_carried_out_as_asked(reload: bool)
    ensures
        ({
            let queued = connection_next(ConnectionPhase::Reading, ConnectionInput::Request { reload });
            &&& queued matches Some((_, ConnectionAction::BeginOperation))
            &&& connection_next((queued->0).0, ConnectionInput::Ready) matches Some((_, action)) && (action
                is Reload <==> reload) && (action is Evaluate <==> !reload)
        }),
{
}

/// The actions of a connection for which everything succeeds, at most `steps` of them.
pub open spec fn connection_actions(phase: ConnectionPhase, steps: nat) -> Seq<ConnectionAction>
    decreases steps,
{
    if steps == 0 {
        seq![]
    } else {
        match connection_next(phase, ConnectionInput::Ready) {
            Some((after, action)) => seq![action] + connection_actions(after, (steps - 1) as nat),
            None => seq![],
        }
    }
}

/// A connection in its turn is served from the session, which it then leaves to others, and gets its
/// response before it is closed.
pub proof fn connections_are_served(reload: bool)
    ensures
        connection_actions(ConnectionPhase::Queued { reload }, 6) == seq![
            if reload {
                ConnectionAction::Reload
            } else {
                ConnectionAction::Evaluate
            },
            ConnectionAction::Release,
            ConnectionAction::Write,
            ConnectionAction::Close,
            ConnectionAction::Finish,
        ],
{
    reveal_with_fuel(connection_actions, 7);
    assert(connection_actions(ConnectionPhase::Over, 1) =~= seq![]);
}

/// A connection fails only if its request cannot be read or its response cannot be written. That the
/// client is gone is no failure: it may stop waiting at any time.
pub proof fn gone_clients_are_no_failure(phase: ConnectionPhase, disconnected: bool)
    ensures
        ({
            let next = connection_next(phase, ConnectionInput::Failed { disconnected });
            &&& next is Some <==> phase is Reading || phase is Writing || phase is Closing
            &&& next is Some ==> (next->0).0 is Over && ((next->0).1 is Finish || (next->0).1 is Fail)
            &&& next is Some && !(phase is Reading) ==> ((next->0).1 is Finish <==> disconnected)
            &&& phase is Reading ==> (next->0).1 is Fail
        }),
{
}

/// An evaluation is warned of when its time is first up and interrupted when it is up again, and only
/// then. One that ends before that is returned, and one that was interrupted is an error.
pub proof fn slow_evaluations_are_interrupted(phase: TimedPhase, input: TimedInput)
    ensures
        ({
            let next = timed_next(phase, input);
            &&& (next is Some && (next->0).1 is Warn) <==> phase is Running && input is TimedOut
            &&& (next is Some && (next->0).1 is Interrupt) <==> phase is Warned && input is TimedOut
            &&& (next is Some && (next->0).1 is Finish) <==> (phase is Running || phase is Warned) && input is Ready
            &&& (next is Some && (next->0).1 is FailTimeout) <==> phase is Interrupting && input is Ready
            &&& (next is Some && (next->0).1 is Fail) <==> phase is Interrupting && input is Failed
            &&& next is Some ==> ((next->0).0 is Warned <==> (next->0).1 is Warn) && ((next->0).0 is Interrupting
                <==> (next->0).1 is Interrupt) && !((next->0).0 is Running)
        }),
{
}

/// An evaluation begins with its first line, goes on with the next line after each, and reads standard
/// error after the last one and after every line that loads modules. What was read before such a line is
/// dropped before the next.
pub proof fn evaluation_goes_line_by_line(run: EvaluationView, text: Seq<char>)
    requires
        run.inv(),
        run.lines.len() <= usize::MAX,
    ensures
        run.phase is Clearing && run.at < run.lines.len() ==> (run.next(EvalInputView::Ready) matches Some(
            (after, action),
        ) && action == EvalAction::RunLine(run.at as usize) && after.phase is Running && after.at == run.at + 1),
        run.phase is Clearing && run.at == run.lines.len() ==> (run.next(EvalInputView::Ready) matches Some(
            (after, action),
        ) && action is ReadStderr && after.phase is Collecting),
        run.phase is Running && (first_word(run.lines[run.at - 1]) == Some(":m"@) || first_word(
            run.lines[run.at - 1],
        ) == Some(":module"@)) ==> (run.next(EvalInputView::Text(text)) matches Some((after, action)) && action
            is ReadStderr && after.phase is Checking),
        run.phase is Running && first_word(run.lines[run.at - 1]) != Some(":m"@) && first_word(
            run.lines[run.at - 1],
        ) != Some(":module"@) && run.at < run.lines.len() ==> (run.next(EvalInputView::Text(text)) matches Some(
            (after, action),
        ) && action == EvalAction::RunLine(run.at as usize) && after.phase is Running),
        run.phase is Running && first_word(run.lines[run.at - 1]) != Some(":m"@) && first_word(
            run.lines[run.at - 1],
        ) != Some(":module"@) && run.at == run.lines.len() ==> (run.next(EvalInputView::Text(text)) matches Some(
            (after, action),
        ) && action is ReadStderr && after.phase is Collecting),
        run.phase is Checking && !tells_of_failure(text) ==> (run.next(EvalInputView::Text(text)) matches Some(
            (after, action),
        ) && action is ClearStderr && after.phase is Clearing),
        run.phase is Collecting ==> (run.next(EvalInputView::Text(text)) matches Some((after, action)) && action
            is Finish && after.phase is Over),
        !(run.phase is Over) ==> (run.next(EvalInputView::Failed) matches Some((after, action)) && action is Fail
            && after.phase is Over),
{
}

/// Modules could not be loaded exactly if standard error holds an error, or tells of a failed compilation
/// last.
pub proof fn failures_show_on_standard_error(stderr: Seq<char>)
    ensures
        summary_in(None, messages_of(stderr)) is None ==> (tells_of_failure(stderr) <==> has_error(
            messages_of(stderr),
        )),
        summary_in(None, messages_of(stderr)) matches Some(summary) ==> (tells_of_failure(stderr)
            <==> summary.result == CompilationResult::Failure),
{
    assert(LogView::empty().with_stderr(stderr).diagnostics =~= seq![]);
}

/// A request is complete as soon as it ends with the terminator, whatever came before, and is refused as
/// soon as it is longer than the longest command with its terminator.
pub proof fn requests_end_with_the_terminator(command: Seq<u8>, bytes: Seq<u8>)
    ensures
        command.len() <= 1_048_576 ==> framing(command + seq![0xE2u8, 0x8Bu8, 0xB3u8]) == Framing::Complete,
        bytes.len() <= 1_048_579 ==> framing(bytes) != Framing::TooLong,
        bytes.len() > 1_048_579 ==> framing(bytes) == Framing::TooLong,
        framing(bytes) == Framing::Complete ==> bytes.len() >= 3 && bytes[bytes.len() - 3] == 0xE2u8 && bytes[bytes.len()
            - 2] == 0x8Bu8 && bytes[bytes.len() - 1] == 0xB3u8,
{
    let sent = command + seq![0xE2u8, 0x8Bu8, 0xB3u8];
    assert(sent.skip(sent.len() - 3) =~= terminator());
    if framing(bytes) == Framing::Complete {
        let end = bytes.skip(bytes.len() - 3);
        assert(end[0] == bytes[bytes.len() - 3] && end[1] == bytes[bytes.len() - 2] && end[2] == bytes[bytes.len()
            - 1]);
    }
}

/// The answer to an evaluation is its output, and where that is empty the terminator.
pub proof fn responses_hold_the_output(output: Seq<char>)
    ensures
        output.len() > 0 ==> valid_utf8(response_bytes(output)) && decode_utf8(response_bytes(output)) == output,
        output.len() == 0 ==> response_bytes(output) == seq![0xE2u8, 0x8Bu8, 0xB3u8],
{
    broadcast use vstd::utf8::encode_utf8_valid_utf8, vstd::utf8::encode_utf8_decode_utf8;

}

/// A request is refused for its bytes alone if they are no text, and otherwise only if there are none.
pub proof fn only_bad_requests_are_refused(bytes: Seq<u8>)
    ensures
        request_command(bytes) is Ok <==> valid_utf8(bytes) && decode_utf8(bytes).len() > 0,
        request_command(bytes) == Err::<Seq<char>, RequestError>(RequestError::NotUtf8) <==> !valid_utf8(bytes),
        request_command(bytes) is Ok ==> encode_utf8(request_command(bytes)->Ok_0) == bytes,
{
    if valid_utf8(bytes) {
        vstd::utf8::decode_utf8_encode_utf8(bytes);
    }
}

/// A session that gets the lock removes a socket that was left behind, whether or not there is one, then
/// binds its own and accepts connections. One that does not get it does without, and that is no error; any
/// other failure is one.
pub proof fn socket_is_optional(phase: OpenPhase, input: OpenInput)
    ensures
        open_next(OpenPhase::Locking, OpenInput::Held) == Some((OpenPhase::Over, OpenAction::Finish)),
        open_next(OpenPhase::Locking, OpenInput::Ready) matches Some((removing, OpenAction::RemoveStale)) && (
        open_next(removing, OpenInput::Ready) == open_next(removing, OpenInput::NotFound)) && (open_next(
            removing,
            OpenInput::Ready,
        ) matches Some((binding, OpenAction::Bind)) && open_next(binding, OpenInput::Ready) == Some(
            (OpenPhase::Over, OpenAction::Accept),
        )),
        !(phase is Over) ==> open_next(phase, OpenInput::Failed) == Some((OpenPhase::Over, OpenAction::Fail)),
        open_next(phase, input) matches Some((_, OpenAction::Finish)) ==> phase is Locking && input is Held,
        open_next(phase, input) matches Some((_, OpenAction::Fail)) ==> input is Failed,
{
}

/// A connection waits for the end of what it does, and is over exactly when it returns.
pub proof fn connection_waits_for_what_it_does(phase: ConnectionPhase, input: ConnectionInput)
    requires
        connection_next(phase, input) is Some,
    ensures
        (connection_next(phase, input)->0).0 is Over <==> (connection_next(phase, input)->0).1 is Finish || (connection_next(phase, input)->0).1 is Fail,
        (connection_next(phase, input)->0).0 is Queued <==> (connection_next(phase, input)->0).1 is BeginOperation,
        (connection_next(phase, input)->0).0 is Evaluating <==> (connection_next(phase, input)->0).1 is Reload || (connection_next(phase, input)->0).1 is Evaluate,
        (connection_next(phase, input)->0).0 is Releasing <==> (connection_next(phase, input)->0).1 is Release,
        (connection_next(phase, input)->0).0 is Writing <==> (connection_next(phase, input)->0).1 is Write,
        (connection_next(phase, input)->0).0 is Closing <==> (connection_next(phase, input)->0).1 is Close,
{
}

/// Timed work is warned of and interrupted once each, and is over exactly when it returns.
pub proof fn timed_work_ends_when_it_returns(phase: TimedPhase, input: TimedInput)
    requires
        timed_next(phase, input) is Some,
    ensures
        (timed_next(phase, input)->0).0 is Over <==> (timed_next(phase, input)->0).1 is Finish || (timed_next(phase, input)->0).1 is FailTimeout || (timed_next(phase, input)->0).1 is Fail,
        (timed_next(phase, input)->0).0 is Warned <==> (timed_next(phase, input)->0).1 is Warn,
        (timed_next(phase, input)->0).0 is Interrupting <==> (timed_next(phase, input)->0).1 is Interrupt,
{
}

/// Opening the socket waits for the end of what it does.
pub proof fn opening_waits_for_what_it_does(phase: OpenPhase, input: OpenInput)
    requires
        open_next(phase, input) is Some,
    ensures
        (open_next(phase, input)->0).0 is Removing <==> (open_next(phase, input)->0).1 is RemoveStale,
        (open_next(phase, input)->0).0 is Binding <==> (open_next(phase, input)->0).1 is Bind,
        (open_next(phase, input)->0).0 is Over <==> (open_next(phase, input)->0).1 is Accept || (open_next(phase, input)->0).1 is Finish || (open_next(phase, input)->0).1 is Fail,
{
}

/// The evaluation of an expression waits for the end of what it does, and is over exactly when it returns.
pub proof fn expression_waits_for_what_it_does(run: EvaluationView, input: EvalInputView)
    requires
        run.next(input) is Some,
    ensures
        (run.next(input)->0).0.phase is Over <==> (run.next(input)->0).1 is Finish || (run.next(input)->0).1 is Fail,
        (run.next(input)->0).0.phase is Running <==> (run.next(input)->0).1 is RunLine,
{
}

} // verus!
