//! What is written to a session.

use crate::ghci::module_set::{LoadedModule, ModuleView};
use crate::ghci::session::{COMPILATION_INACTIVITY_TIMEOUT, RECOVERY_COMPILATION_INACTIVITY_TIMEOUT};
use crate::sorted::views;
use crate::text::{join, joined, lines, split_lines, texts};
use vstd::prelude::*;

verus! {

/// The prompt of a session.
pub const PROMPT: &'static str = "###~GHCIWATCH-PROMPT~###";

/// Where in a line something is looked for.
#[derive(Clone, Copy, Debug, PartialEq, Eq, Structural)]
pub enum FindAt {
    LineStart,
    Anywhere,
}

/// What is waited for after a line was written.
#[derive(Clone, Copy, Debug, PartialEq, Eq, Structural)]
pub enum Expect {
    /// Nothing.
    Nothing,
    /// The prompt.
    Prompt(FindAt),
    /// The prompt, or that compilation makes no progress for this many seconds.
    PromptWithProgress(FindAt, u64),
    /// The search paths, and the prompt.
    Paths,
    /// The targets, and the prompt.
    Targets,
    /// That the session says that it ends.
    Leaving,
}

/// A line to write and what to wait for.
#[derive(Debug)]
pub struct Exchange {
    /// Whether the diagnostics of the operation before are dropped first. This has to be done before
    /// the line is written, or a quick answer could be dropped with them.
    pub clear_stderr: bool,
    /// The line.
    pub line: String,
    /// What is waited for.
    pub expect: Expect,
}

/// The model of an [`Exchange`].
pub struct ExchangeView {
    pub clear_stderr: bool,
    pub line: Seq<char>,
    pub expect: Expect,
}

impl View for Exchange {
    type V = ExchangeView;

    open spec fn view(&self) -> ExchangeView {
        ExchangeView { clear_stderr: self.clear_stderr, line: self.line@, expect: self.expect }
    }
}

/// A line whose answer is a prompt at the start of a line.
pub open spec fn command_exchange(line: Seq<char>) -> ExchangeView {
    ExchangeView { clear_stderr: true, line, expect: Expect::Prompt(FindAt::LineStart) }
}

/// A line that compiles.
pub open spec fn compiling_exchange(line: Seq<char>, timeout: u64) -> ExchangeView {
    ExchangeView { clear_stderr: true, line, expect: Expect::PromptWithProgress(FindAt::LineStart, timeout) }
}

/// A line that sets the prompt.
pub open spec fn prompt_line(prompt: Seq<char>) -> Seq<char> {
    ":set prompt \""@ + prompt + "\"\n"@
}

/// The modules as a session is told of them.
pub open spec fn module_texts(modules: Seq<ModuleView>) -> Seq<Seq<char>> {
    Seq::new(modules.len(), |i: int| modules[i].text())
}

fn show_modules(modules: &Vec<LoadedModule>) -> (r: String)
    ensures
        r@ == joined(module_texts(views(modules@)), " "@),
{
    let mut shown: Vec<String> = Vec::new();
    let mut i: usize = 0;
    while i < modules.len()
        invariant
            i <= modules@.len(),
            shown@.len() == i,
            forall|n: int| 0 <= n < i ==> (#[trigger] shown@[n])@ == modules@[n]@.text(),
        decreases modules@.len() - i,
    {
        shown.push(modules[i].show());
        i = i + 1;
    }
    proof {
        assert(texts(shown@) =~= module_texts(views(modules@)));
    }
    join(&shown, " ")
}

fn line_of(before: &str, text: &str, after: &str) -> (r: String)
    ensures
        r@ == before@ + text@ + after@,
{
    let mut r = before.to_owned();
    r.append(text);
    r.append(after);
    r
}

/// Writes to a session.
#[derive(Clone, Copy, Debug)]
pub struct GhciStdin;

impl GhciStdin {
    /// Runs a command of any number of lines, one after the other.
    pub fn run_command(&self, command: &str) -> (r: Vec<Exchange>)
        ensures
            r@.len() == lines(command@).len(),
            forall|i: int|
                0 <= i < r@.len() ==> (#[trigger] r@[i])@ == command_exchange(lines(command@)[i] + "\n"@),
    {
        let all = split_lines(command);
        proof {
            assert(texts(all@).len() == all@.len());
        }
        let mut r: Vec<Exchange> = Vec::new();
        let mut i: usize = 0;
        while i < all.len()
            invariant
                i <= all@.len(),
                r@.len() == i,
                texts(all@) == lines(command@),
                forall|n: int|
                    0 <= n < i ==> (#[trigger] r@[n])@ == command_exchange(lines(command@)[n] + "\n"@),
            decreases all@.len() - i,
        {
            let mut line = all[i].clone();
            line.append("\n");
            proof {
                assert(texts(all@)[i as int] == all@[i as int]@);
            }
            r.push(
                Exchange { clear_stderr: true, line, expect: Expect::Prompt(FindAt::LineStart) },
            );
            i = i + 1;
        }
        r
    }

    /// Changes the prompt without waiting for it.
    pub fn write_set_prompt(&self, prompt: &str) -> (r: Exchange)
        ensures
            r@ == (ExchangeView { clear_stderr: false, line: prompt_line(prompt@), expect: Expect::Nothing }),
    {
        Exchange {
            clear_stderr: false,
            line: line_of(":set prompt \"", prompt, "\"\n"),
            expect: Expect::Nothing,
        }
    }

    /// Changes the prompt and waits for it.
    pub fn set_prompt(&self, prompt: &str, find: FindAt) -> (r: Exchange)
        ensures
            r@ == (ExchangeView { clear_stderr: true, line: prompt_line(prompt@), expect: Expect::Prompt(find) }),
    {
        Exchange {
            clear_stderr: true,
            line: line_of(":set prompt \"", prompt, "\"\n"),
            expect: Expect::Prompt(find),
        }
    }

    /// Sets the prompts of a session that was just started. What it compiled while it started is kept
    /// until the first prompt is there.
    pub fn initialize(&self) -> (r: (Exchange, Exchange))
        ensures
            r.0@ == (ExchangeView {
                clear_stderr: false,
                line: prompt_line(PROMPT@),
                expect: Expect::Prompt(FindAt::Anywhere),
            }),
            r.1@ == command_exchange(":set prompt-cont "@ + PROMPT@ + "\n"@),
    {
        (
            Exchange {
                clear_stderr: false,
                line: line_of(":set prompt \"", PROMPT, "\"\n"),
                expect: Expect::Prompt(FindAt::Anywhere),
            },
            Exchange {
                clear_stderr: true,
                line: line_of(":set prompt-cont ", PROMPT, "\n"),
                expect: Expect::Prompt(FindAt::LineStart),
            },
        )
    }

    /// Reloads. After an interruption less time is given.
    pub fn reload(&self, recovering: bool) -> (r: Exchange)
        ensures
            r@ == compiling_exchange(
                ":reload\n"@,
                if recovering {
                    RECOVERY_COMPILATION_INACTIVITY_TIMEOUT
                } else {
                    COMPILATION_INACTIVITY_TIMEOUT
                },
            ),
    {
        let timeout: u64 = if recovering {
            RECOVERY_COMPILATION_INACTIVITY_TIMEOUT
        } else {
            COMPILATION_INACTIVITY_TIMEOUT
        };
        Exchange {
            clear_stderr: true,
            line: ":reload\n".to_owned(),
            expect: Expect::PromptWithProgress(FindAt::LineStart, timeout),
        }
    }

    /// Adds modules to the targets. (Loading them would drop all other targets.)
    pub fn add_modules(&self, modules: &Vec<LoadedModule>) -> (r: Exchange)
        ensures
            r@ == compiling_exchange(
                ":add "@ + joined(module_texts(views(modules@)), " "@) + "\n"@,
                COMPILATION_INACTIVITY_TIMEOUT,
            ),
    {
        Exchange {
            clear_stderr: true,
            line: line_of(":add ", show_modules(modules).as_str(), "\n"),
            expect: Expect::PromptWithProgress(FindAt::LineStart, COMPILATION_INACTIVITY_TIMEOUT),
        }
    }

    /// Removes modules from the targets, all at once: the session reloads after each such line.
    pub fn remove_modules(&self, modules: &Vec<LoadedModule>) -> (r: Exchange)
        ensures
            r@ == compiling_exchange(
                ":unadd "@ + joined(module_texts(views(modules@)), " "@) + "\n"@,
                COMPILATION_INACTIVITY_TIMEOUT,
            ),
    {
        Exchange {
            clear_stderr: true,
            line: line_of(":unadd ", show_modules(modules).as_str(), "\n"),
            expect: Expect::PromptWithProgress(FindAt::LineStart, COMPILATION_INACTIVITY_TIMEOUT),
        }
    }

    /// Adds a module to the targets so that it is interpreted.
    pub fn interpret_module(&self, module: &LoadedModule) -> (r: Exchange)
        ensures
            r@ == command_exchange(":add *"@ + module@.text() + "\n"@),
    {
        Exchange {
            clear_stderr: true,
            line: line_of(":add *", module.show().as_str(), "\n"),
            expect: Expect::Prompt(FindAt::LineStart),
        }
    }

    /// Brings the top level of a module into scope.
    pub fn add_module_to_scope(&self, module_name: &str) -> (r: Exchange)
        ensures
            r@ == command_exchange(":module + *"@ + module_name@ + "\n"@),
    {
        Exchange {
            clear_stderr: true,
            line: line_of(":module + *", module_name, "\n"),
            expect: Expect::Prompt(FindAt::LineStart),
        }
    }

    /// Takes the top level of a module out of scope.
    pub fn remove_module_from_scope(&self, module_name: &str) -> (r: Exchange)
        ensures
            r@ == command_exchange(":module - *"@ + module_name@ + "\n"@),
    {
        Exchange {
            clear_stderr: true,
            line: line_of(":module - *", module_name, "\n"),
            expect: Expect::Prompt(FindAt::LineStart),
        }
    }

    /// Lists the search paths.
    pub fn show_paths(&self) -> (r: Exchange)
        ensures
            r@ == (ExchangeView { clear_stderr: false, line: ":show paths\n"@, expect: Expect::Paths }),
    {
        Exchange { clear_stderr: false, line: ":show paths\n".to_owned(), expect: Expect::Paths }
    }

    /// Lists the targets.
    pub fn show_targets(&self) -> (r: Exchange)
        ensures
            r@ == (ExchangeView { clear_stderr: false, line: ":show targets\n"@, expect: Expect::Targets }),
    {
        Exchange { clear_stderr: false, line: ":show targets\n".to_owned(), expect: Expect::Targets }
    }

    /// Ends the session.
    pub fn quit(&self) -> (r: Exchange)
        ensures
            r@ == (ExchangeView { clear_stderr: false, line: ":quit\n"@, expect: Expect::Leaving }),
    {
        Exchange { clear_stderr: false, line: ":quit\n".to_owned(), expect: Expect::Leaving }
    }
}

/// Every command clears standard error first and ends with the prompt at the start of a line; one that compiles may
/// take as long as it makes progress.
pub proof fn commands_wait_for_the_prompt(line: Seq<char>, timeout: u64)
    ensures
        command_exchange(line).clear_stderr,
        command_exchange(line).line == line,
        command_exchange(line).expect == Expect::Prompt(FindAt::LineStart),
        compiling_exchange(line, timeout).clear_stderr,
        compiling_exchange(line, timeout).line == line,
        compiling_exchange(line, timeout).expect == Expect::PromptWithProgress(FindAt::LineStart, timeout),
        RECOVERY_COMPILATION_INACTIVITY_TIMEOUT < COMPILATION_INACTIVITY_TIMEOUT,
{
}

/// A prompt is set between quotes, on one line.
pub proof fn prompts_are_set_between_quotes(prompt: Seq<char>)
    ensures
        ({
            let line = prompt_line(prompt);
            let n = ":set prompt \""@.len() as int;
            &&& line.subrange(n, n + prompt.len()) == prompt
            &&& line[n - 1] == '"' && line[n + prompt.len()] == '"'
            &&& line.last() == '\n'
        }),
{
    reveal_strlit(":set prompt \"");
    reveal_strlit("\"\n");
    let line = prompt_line(prompt);
    let n = ":set prompt \""@.len() as int;
    assert(line.subrange(n, n + prompt.len()) =~= prompt);
}

/// Each module is told to the session by its name, and by its path if it has none.
pub proof fn modules_are_told_by_name_or_path(modules: Seq<ModuleView>, i: int)
    requires
        0 <= i < modules.len(),
    ensures
        module_texts(modules).len() == modules.len(),
        modules[i].name is Some ==> module_texts(modules)[i] == modules[i].name->0,
        modules[i].name is None ==> module_texts(modules)[i] == modules[i].path.relative,
{
}

} // verus!
