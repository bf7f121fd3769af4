//! The error log: what editors read to show the result of a compilation.

use crate::ghci::compilation_log::{diagnostic_views, CompilationLog, LogView};
use crate::ghci::parse::ghc_message::compilation_summary::{
    CompilationResult, CompilationSummary, ModulesLoaded,
};
use crate::ghci::parse::ghc_message::DiagnosticView;
use crate::path::NormalPath;
use crate::text::{decimal, decimal_round_trip, format_u64, natural, texts};
use vstd::prelude::*;

verus! {

/// Writes the error log.
#[derive(Debug)]
pub struct ErrorLog {
    path: Option<NormalPath>,
}

/// The number of loaded modules as it is shown.
pub open spec fn modules_text(modules: ModulesLoaded) -> Seq<char> {
    match modules {
        ModulesLoaded::Count(n) => decimal(n as nat),
        ModulesLoaded::UnloadedAll => "unloaded all"@,
    }
}

/// The headline of a compilation without errors.
pub open spec fn headline(summary: CompilationSummary) -> Seq<char> {
    "All good ("@ + modules_text(summary.modules_loaded) + (if summary.modules_loaded
        == ModulesLoaded::Count(1) {
        " module)\n"@
    } else {
        " modules)\n"@
    })
}

/// The texts one after the other.
pub open spec fn concatenated(parts: Seq<Seq<char>>) -> Seq<char>
    decreases parts.len(),
{
    if parts.len() == 0 {
        seq![]
    } else {
        concatenated(parts.drop_last()) + parts.last()
    }
}

/// The diagnostics as they are shown, one after the other.
pub open spec fn diagnostics_text(diagnostics: Seq<DiagnosticView>) -> Seq<char>
    decreases diagnostics.len(),
{
    if diagnostics.len() == 0 {
        seq![]
    } else {
        diagnostics_text(diagnostics.drop_last()) + diagnostics.last().text()
    }
}

/// What the error log holds: the headline if the compilation succeeded, the diagnostics of standard
/// output, and standard error as it was.
pub open spec fn log_text(log: LogView) -> Seq<char> {
    (match log.summary {
        Some(summary) => if summary.result == CompilationResult::Success {
            headline(summary)
        } else {
            seq![]
        },
        None => seq![],
    }) + diagnostics_text(log.diagnostics) + concatenated(log.stderr)
}

fn write_headline(summary: CompilationSummary) -> (r: String)
    ensures
        r@ == headline(summary),
{
    let mut r = String::new();
    r.append("All good (");
    proof {
        assert(r@ =~= "All good ("@);
    }
    match summary.modules_loaded {
        ModulesLoaded::Count(n) => {
            r.append(format_u64(n as u64).as_str());
            if n == 1 {
                r.append(" module)\n");
            } else {
                r.append(" modules)\n");
            }
        },
        ModulesLoaded::UnloadedAll => {
            r.append("unloaded all");
            r.append(" modules)\n");
        },
    }
    r
}

impl ErrorLog {
    /// The path that the log is written to.
    pub closed spec fn target(&self) -> Option<NormalPath> {
        self.path
    }

    /// A writer for the given path, or one that writes nothing.
    pub fn new(path: Option<NormalPath>) -> (r: Self)
        ensures
            r.target() == path,
    {
        ErrorLog { path }
    }

    /// The path that the log is written to.
    pub fn path(&self) -> (r: Option<&NormalPath>)
        ensures
            match r {
                Some(path) => self.target() == Some(*path),
                None => self.target() is None,
            },
    {
        match &self.path {
            Some(path) => Some(path),
            None => None,
        }
    }

    /// What is to be written for a compilation; nothing without a path.
    pub fn write(&self, log: &CompilationLog) -> (r: Option<String>)
        ensures
            match r {
                Some(text) => self.target() is Some && text@ == log_text(log@),
                None => self.target() is None,
            },
    {
        if self.path.is_none() {
            return None;
        }
        let mut text = match log.summary {
            Some(summary) => if summary.result == CompilationResult::Success {
                write_headline(summary)
            } else {
                String::new()
            },
            None => String::new(),
        };
        let ghost head = text@;
        let ghost diagnostics = diagnostic_views(log.diagnostics@);
        let mut i: usize = 0;
        proof {
            assert(head =~= head + diagnostics_text(diagnostics.take(0)));
        }
        while i < log.diagnostics.len()
            invariant
                i <= log.diagnostics@.len(),
                diagnostics == diagnostic_views(log.diagnostics@),
                text@ == head + diagnostics_text(diagnostics.take(i as int)),
            decreases log.diagnostics@.len() - i,
        {
            text.append(log.diagnostics[i].show().as_str());
            proof {
                assert(diagnostics.take(i + 1).drop_last() =~= diagnostics.take(i as int));
                assert(head + diagnostics_text(diagnostics.take(i as int)) + diagnostics[i as int].text()
                    =~= head + (diagnostics_text(diagnostics.take(i as int)) + diagnostics[i as int].text()));
            }
            i = i + 1;
        }
        let ghost body = text@;
        let ghost stderr = texts(log.stderr@);
        let mut j: usize = 0;
        proof {
            assert(diagnostics.take(diagnostics.len() as int) =~= diagnostics);
            assert(body =~= body + concatenated(stderr.take(0)));
        }
        while j < log.stderr.len()
            invariant
                j <= log.stderr@.len(),
                stderr == texts(log.stderr@),
                text@ == body + concatenated(stderr.take(j as int)),
            decreases log.stderr@.len() - j,
        {
            text.append(log.stderr[j].as_str());
            proof {
                assert(stderr.take(j + 1).drop_last() =~= stderr.take(j as int));
                assert(body + concatenated(stderr.take(j as int)) + stderr[j as int] =~= body + (
                concatenated(stderr.take(j as int)) + stderr[j as int]));
            }
            j = j + 1;
        }
        proof {
            assert(stderr.take(stderr.len() as int) =~= stderr);
        }
        Some(text)
    }
}

/// The log of a failed compilation has no headline, and that of a successful one starts with it.
pub proof fn headline_tells_of_success(log: LogView)
    ensures
        ({
            let rest = diagnostics_text(log.diagnostics) + concatenated(log.stderr);
            if log.result() == Some(CompilationResult::Success) {
                log_text(log) == headline(log.summary->0) + rest
            } else {
                log_text(log) == rest
            }
        }),
{
    let rest = diagnostics_text(log.diagnostics) + concatenated(log.stderr);
    if log.result() == Some(CompilationResult::Success) {
        assert(log_text(log) =~= headline(log.summary->0) + rest);
    } else {
        assert(log_text(log) =~= rest);
    }
}

/// What a session prints on standard error reaches the error log unchanged.
pub proof fn stderr_is_verbatim(log: LogView, output: Seq<char>)
    requires
        output.len() > 0,
        log.diagnostics.len() == 0,
        log.stderr.len() == 0,
        log.with_stderr(output).result() != Some(CompilationResult::Success),
    ensures
        log_text(log.with_stderr(output)) == output,
        log_text(log.with_stderr(output).failed()) == output,
{
    let after = log.with_stderr(output);
    assert(after.stderr =~= seq![output]);
    assert(concatenated(after.stderr.drop_last()) =~= seq![]);
    assert(after.stderr.last() == output);
    assert(concatenated(after.stderr) =~= output);
    assert(diagnostics_text(after.diagnostics) =~= seq![]);
    assert(log_text(after) =~= output);
    assert(log_text(after.failed()) =~= output);
}

/// The headline tells the number of modules, of which it says one in the singular and no other number.
pub proof fn headlines_count_the_modules(n: usize, result: CompilationResult)
    ensures
        ({
            let text = headline(CompilationSummary { result, modules_loaded: ModulesLoaded::Count(n) });
            let digits = decimal(n as nat);
            &&& n == 1 ==> text == "All good ("@ + digits + " module)\n"@
            &&& n != 1 ==> text == "All good ("@ + digits + " modules)\n"@
            &&& natural(text.subrange(10, 10 + digits.len() as int)) == Some(n as int)
        }),
        headline(CompilationSummary { result, modules_loaded: ModulesLoaded::UnloadedAll })
            == "All good (unloaded all modules)\n"@,
{
    reveal_strlit("All good (");
    reveal_strlit("unloaded all");
    reveal_strlit(" modules)\n");
    reveal_strlit("All good (unloaded all modules)\n");
    let text = headline(CompilationSummary { result, modules_loaded: ModulesLoaded::Count(n) });
    let digits = decimal(n as nat);
    decimal_round_trip(n as nat);
    assert(text.subrange(10, 10 + digits.len() as int) =~= digits);
    assert("All good ("@ + "unloaded all"@ + " modules)\n"@ =~= "All good (unloaded all modules)\n"@);
}

/// Diagnostics and pieces of standard error are written one after the other, all of them and in order.
pub proof fn everything_is_written_in_order(
    diagnostics: Seq<DiagnosticView>,
    d: DiagnosticView,
    pieces: Seq<Seq<char>>,
    piece: Seq<char>,
)
    ensures
        diagnostics_text(seq![]).len() == 0,
        diagnostics_text(diagnostics.push(d)) == diagnostics_text(diagnostics) + d.text(),
        concatenated(seq![]).len() == 0,
        concatenated(pieces.push(piece)) == concatenated(pieces) + piece,
{
    assert(diagnostics.push(d).drop_last() =~= diagnostics);
    assert(pieces.push(piece).drop_last() =~= pieces);
}

} // verus!
