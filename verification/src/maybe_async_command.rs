//! Shell commands that may run in the background.

use crate::text::{has_prefix, join, joined, strip_prefix, texts, trim, trimmed};
use vstd::prelude::*;

verus! {

/// A program and its arguments.
#[derive(Debug, Clone, PartialEq, Eq)]
pub struct ClonableCommand {
    /// The program.
    pub program: String,
    /// The arguments.
    pub args: Vec<String>,
}

/// The model of a [`ClonableCommand`].
pub struct CommandView {
    pub program: Seq<char>,
    pub args: Seq<Seq<char>>,
}

impl View for ClonableCommand {
    type V = CommandView;

    open spec fn view(&self) -> CommandView {
        CommandView { program: self.program@, args: texts(self.args@) }
    }
}

/// Why a text is no command.
#[derive(Clone, Copy, Debug, PartialEq, Eq, Structural)]
pub enum CommandError {
    /// A quote is not closed.
    Quoting,
    /// There is no program.
    Empty,
}

/// The words that `shell_words::split` makes of a text, or nothing if it fails.
pub uninterp spec fn shell_split(text: Seq<char>) -> Option<Seq<Seq<char>>>;

/// The text that `shell_words::quote` makes of a text.
pub uninterp spec fn shell_quote(text: Seq<char>) -> Seq<char>;

/// Calls `shell_words::split`, which splits a text into words as a Unix shell does and fails only
/// on an unmatched quote.
#[verifier::external_body]
fn split_shell_words(text: &str) -> (r: Option<Vec<String>>)
    ensures
        match r {
            Some(words) => shell_split(text@) == Some(texts(words@)),
            None => shell_split(text@) is None,
        },
{
    shell_words::split(text).ok()
}

/// Calls `shell_words::quote`, which writes a text so that a Unix shell reads it as one word.
#[verifier::external_body]
fn quote_shell_word(text: &str) -> (r: String)
    ensures
        r@ == shell_quote(text@),
{
    shell_words::quote(text).into_owned()
}

/// The words of a command, each written as a Unix shell reads it.
pub open spec fn quoted_words(command: CommandView) -> Seq<Seq<char>> {
    Seq::new(
        (command.args.len() + 1) as nat,
        |i: int|
            shell_quote(
                if i == 0 {
                    command.program
                } else {
                    command.args[i - 1]
                },
            ),
    )
}

impl ClonableCommand {
    /// The command as it is shown: as it would be typed into a Unix shell.
    pub fn display(&self) -> (r: String)
        ensures
            r@ == joined(quoted_words(self@), " "@),
    {
        let mut words: Vec<String> = vec![quote_shell_word(self.program.as_str())];
        let mut i: usize = 0;
        while i < self.args.len()
            invariant
                i <= self.args@.len(),
                words@.len() == i + 1,
                words@[0]@ == shell_quote(self.program@),
                forall|n: int| 1 <= n <= i ==> (#[trigger] words@[n])@ == shell_quote(self.args@[n - 1]@),
            decreases self.args@.len() - i,
        {
            words.push(quote_shell_word(self.args[i].as_str()));
            i = i + 1;
        }
        proof {
            assert(texts(words@) =~= quoted_words(self@));
        }
        join(&words, " ")
    }
}

/// The command that a list of words makes: the first is the program.
pub open spec fn command_of(words: Option<Seq<Seq<char>>>) -> Result<CommandView, CommandError> {
    match words {
        Some(words) => if words.len() == 0 {
            Err(CommandError::Empty)
        } else {
            Ok(CommandView { program: words[0], args: words.skip(1) })
        },
        None => Err(CommandError::Quoting),
    }
}

/// The view of a command or the reason why there is none.
pub open spec fn command_result(r: Result<ClonableCommand, CommandError>) -> Result<CommandView, CommandError> {
    match r {
        Ok(command) => Ok(command@),
        Err(error) => Err(error),
    }
}

impl ClonableCommand {
    /// A program without arguments.
    pub fn new(program: &str) -> (r: Self)
        ensures
            r@ == (CommandView { program: program@, args: seq![] }),
    {
        let args: Vec<String> = Vec::new();
        proof {
            assert(texts(args@) =~= seq![]);
        }
        ClonableCommand { program: program.to_owned(), args }
    }

    /// This command with one more argument.
    pub fn arg(self, arg: &str) -> (r: Self)
        ensures
            r@ == (CommandView { program: self@.program, args: self@.args.push(arg@) }),
    {
        let ClonableCommand { program, mut args } = self;
        args.push(arg.to_owned());
        proof {
            assert(texts(args@) =~= self@.args.push(arg@));
        }
        ClonableCommand { program, args }
    }

    /// The command that a list of words makes, if the text could be split into words at all.
    pub fn from_words(words: Option<Vec<String>>) -> (r: Result<ClonableCommand, CommandError>)
        ensures
            command_result(r) == command_of(match words {
                Some(words) => Some(texts(words@)),
                None => None,
            }),
    {
        match words {
            Some(words) => {
                let mut args = words;
                let ghost all = texts(args@);
                if args.len() == 0 {
                    return Err(CommandError::Empty);
                }
                let program = args.remove(0);
                proof {
                    assert(texts(args@) =~= all.skip(1));
                }
                Ok(ClonableCommand { program, args })
            },
            None => Err(CommandError::Quoting),
        }
    }

    /// Reads a command as a Unix shell would split it into words.
    pub fn parse(text: &str) -> (r: Result<ClonableCommand, CommandError>)
        ensures
            command_result(r) == command_of(shell_split(trimmed(text@))),
    {
        let trimmed_text = trim(text);
        ClonableCommand::from_words(split_shell_words(trimmed_text.as_str()))
    }
}

/// A shell command which may run in the background.
#[derive(Debug, Clone, PartialEq, Eq)]
pub struct MaybeAsyncCommand {
    /// Whether the command runs in the background.
    pub is_async: bool,
    /// The command.
    pub command: ClonableCommand,
}

/// Whether a text sends its command to the background.
pub open spec fn is_async_text(text: Seq<char>) -> bool {
    has_prefix(text, "async:"@)
}

/// The words of a text that may send its command to the background.
pub open spec fn words_of(text: Seq<char>) -> Option<Seq<Seq<char>>> {
    shell_split(
        trimmed(
            if is_async_text(text) {
                text.skip("async:"@.len() as int)
            } else {
                text
            },
        ),
    )
}

impl MaybeAsyncCommand {
    /// The command that a list of words makes, if the text could be split into words at all.
    pub fn from_words(is_async: bool, words: Option<Vec<String>>) -> (r: Result<MaybeAsyncCommand, CommandError>)
        ensures
            ({
                let command = command_of(
                    match words {
                        Some(words) => Some(texts(words@)),
                        None => None,
                    },
                );
                match r {
                    Ok(c) => c.is_async == is_async && command == Ok::<CommandView, CommandError>(c.command@),
                    Err(e) => command == Err::<CommandView, CommandError>(e),
                }
            }),
    {
        match ClonableCommand::from_words(words) {
            Ok(command) => Ok(MaybeAsyncCommand { is_async, command }),
            Err(error) => Err(error),
        }
    }

    /// Reads a command, which `async:` before it sends to the background.
    pub fn parse(text: &str) -> (r: Result<MaybeAsyncCommand, CommandError>)
        ensures
            match r {
                Ok(c) => c.is_async == is_async_text(text@) && command_of(words_of(text@)) == Ok::<
                    CommandView,
                    CommandError,
                >(c.command@),
                Err(e) => command_of(words_of(text@)) == Err::<CommandView, CommandError>(e),
            },
    {
        match strip_prefix(text, "async:") {
            Some(rest) => MaybeAsyncCommand::from_words(
                true,
                split_shell_words(trim(rest.as_str()).as_str()),
            ),
            None => MaybeAsyncCommand::from_words(false, split_shell_words(trim(text).as_str())),
        }
    }
}

impl std::str::FromStr for MaybeAsyncCommand {
    type Err = CommandError;

    /// Reads a command, which `async:` before it sends to the background.
    fn from_str(text: &str) -> (r: Result<Self, Self::Err>)
        ensures
            match r {
                Ok(c) => c.is_async == is_async_text(text@) && command_of(words_of(text@)) == Ok::<
                    CommandView,
                    CommandError,
                >(c.command@),
                Err(e) => command_of(words_of(text@)) == Err::<CommandView, CommandError>(e),
            },
    {
        MaybeAsyncCommand::parse(text)
    }
}

/// What is said of a finished command: how it ended, after its quoted program.
pub open spec fn status_text(quoted_program: Seq<char>, failure: Option<Seq<char>>) -> Seq<char> {
    match failure {
        None => quoted_program + " finished successfully"@,
        Some(status) => quoted_program + " failed: "@ + status,
    }
}

/// Writes what is said of a finished command, given its quoted program.
pub fn status_message_quoted(quoted_program: String, failure: Option<&str>) -> (r: String)
    ensures
        r@ == status_text(
            quoted_program@,
            match failure {
                Some(status) => Some(status@),
                None => None,
            },
        ),
{
    let mut message = quoted_program;
    match failure {
        None => {
            message.append(" finished successfully");
        },
        Some(status) => {
            message.append(" failed: ");
            message.append(status);
        },
    }
    message
}

/// Writes what is said of a finished command. `failure` describes the status of one that failed.
pub fn status_message(program: &str, failure: Option<&str>) -> (r: String)
    ensures
        r@ == status_text(
            shell_quote(program@),
            match failure {
                Some(status) => Some(status@),
                None => None,
            },
        ),
{
    status_message_quoted(quote_shell_word(program), failure)
}

/// Whether the completion of a hook is reported: it took at least the threshold, both in the same
/// unit of time.
pub fn reports_timing(elapsed: u64, threshold: u64) -> (r: bool)
    ensures
        r == (elapsed >= threshold),
{
    elapsed >= threshold
}

/// What becomes of a command that was started.
#[derive(Clone, Copy, Debug, PartialEq, Eq, Structural)]
pub enum RunPlan {
    /// It is awaited, and a failure to execute it is an error.
    Await,
    /// It keeps running and its handle is kept.
    Keep,
}

impl MaybeAsyncCommand {
    /// What becomes of this command once it is started.
    pub fn run_plan(&self) -> (r: RunPlan)
        ensures
            r == (if self.is_async {
                RunPlan::Keep
            } else {
                RunPlan::Await
            }),
    {
        if self.is_async {
            RunPlan::Keep
        } else {
            RunPlan::Await
        }
    }
}

/// The prefix makes a command run in the background, and is no part of it; the same text without it is the same command
/// in the foreground.
pub proof fn prefix_is_no_part_of_the_command(text: Seq<char>)
    ensures
        is_async_text("async:"@ + text),
        words_of("async:"@ + text) == shell_split(trimmed(text)),
        !is_async_text(text) ==> words_of(text) == shell_split(trimmed(text)),
{
    let all = "async:"@ + text;
    assert(all.take("async:"@.len() as int) =~= "async:"@);
    assert(all.skip("async:"@.len() as int) =~= text);
}

/// The first word is the program, and the others are its arguments, in order. Without words there is no command.
pub proof fn first_word_is_the_program(program: Seq<char>, args: Seq<Seq<char>>)
    ensures
        command_of(Some(seq![program] + args)) == Ok::<CommandView, CommandError>(CommandView { program, args }),
        command_of(Some(seq![])) == Err::<CommandView, CommandError>(CommandError::Empty),
        command_of(None) == Err::<CommandView, CommandError>(CommandError::Quoting),
{
    let all = seq![program] + args;
    assert(all[0] == program);
    assert(all.skip(1) =~= args);
}

/// A command is shown as its quoted words: the program and then the arguments, in order.
pub proof fn commands_are_shown_quoted(command: CommandView, i: int)
    ensures
        quoted_words(command).len() == command.args.len() + 1,
        quoted_words(command)[0] == shell_quote(command.program),
        0 <= i < command.args.len() ==> quoted_words(command)[i + 1] == shell_quote(command.args[i]),
{
}

/// What is told of a command begins with its program, and tells success exactly if it succeeded.
pub proof fn outcomes_are_told(program: Seq<char>, status: Seq<char>)
    ensures
        has_prefix(status_text(program, None), program),
        has_prefix(status_text(program, Some(status)), program),
        status_text(program, None) != status_text(program, Some(status)),
        status_text(program, Some(status)).skip(status_text(program, Some(status)).len() - status.len()) == status,
{
    reveal_strlit(" finished successfully");
    reveal_strlit(" failed: ");
    let ok = status_text(program, None);
    let bad = status_text(program, Some(status));
    assert(ok.take(program.len() as int) =~= program);
    assert(bad.take(program.len() as int) =~= program);
    assert(ok[program.len() as int + 2] == 'i');
    assert(bad[program.len() as int + 2] == 'a');
    assert(bad.skip(bad.len() - status.len()) =~= status);
}

} // verus!
