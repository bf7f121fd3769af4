//! What is known of a compilation.

use crate::ghci::parse::ghc_message::compilation_summary::{
    CompilationResult, CompilationSummary, ModulesLoaded,
};
use crate::ghci::parse::ghc_message::messages::{
    any_error, has_error, message_at, message_views, messages_from, messages_of, parse_ghc_messages,
    parse_segments, segment_views, segments_from, segments_of, segments_text, GhcMessage, MessageView,
    SegmentView,
};
use crate::ghci::parse::ghc_message::{DiagnosticView, GhcDiagnostic, PositionRange, Severity};
use crate::text::{ends_with_newline, same_text, texts};
use vstd::prelude::*;

verus! {

/// The messages of a compilation. Diagnostics that were printed on standard output are kept as
/// such, and what was printed on standard error is kept as it was.
#[derive(Debug)]
pub struct CompilationLog {
    /// How the compilation ended, as far as that is known.
    pub summary: Option<CompilationSummary>,
    /// The diagnostics from standard output, and those that the manager of the session adds.
    pub diagnostics: Vec<GhcDiagnostic>,
    /// What each operation printed on standard error.
    pub stderr: Vec<String>,
    /// Whether an error was printed on standard error.
    pub stderr_failed: bool,
}

/// The model of a [`CompilationLog`].
pub struct LogView {
    pub summary: Option<CompilationSummary>,
    pub diagnostics: Seq<DiagnosticView>,
    pub stderr: Seq<Seq<char>>,
    pub stderr_failed: bool,
}

/// The views of a sequence of diagnostics.
pub open spec fn diagnostic_views(diagnostics: Seq<GhcDiagnostic>) -> Seq<DiagnosticView> {
    Seq::new(diagnostics.len(), |i: int| diagnostics[i]@)
}

impl View for CompilationLog {
    type V = LogView;

    open spec fn view(&self) -> LogView {
        LogView {
            summary: self.summary,
            diagnostics: diagnostic_views(self.diagnostics@),
            stderr: texts(self.stderr@),
            stderr_failed: self.stderr_failed,
        }
    }
}

/// The diagnostics among the messages.
pub open spec fn diagnostics_in(messages: Seq<MessageView>) -> Seq<DiagnosticView>
    decreases messages.len(),
{
    if messages.len() == 0 {
        seq![]
    } else {
        match messages.last() {
            MessageView::Diagnostic(diagnostic) => diagnostics_in(messages.drop_last()).push(diagnostic),
            MessageView::Summary(_) => diagnostics_in(messages.drop_last()),
        }
    }
}

/// The last summary among the messages, or else `before`.
pub open spec fn summary_in(before: Option<CompilationSummary>, messages: Seq<MessageView>) -> Option<
    CompilationSummary,
>
    decreases messages.len(),
{
    if messages.len() == 0 {
        before
    } else {
        match messages.last() {
            MessageView::Summary(summary) => Some(summary),
            MessageView::Diagnostic(_) => summary_in(before, messages.drop_last()),
        }
    }
}

/// The elements of `s` that differ from all before them.
pub open spec fn distinct<T>(s: Seq<T>) -> Seq<T>
    decreases s.len(),
{
    if s.len() == 0 {
        s
    } else {
        let before = distinct(s.drop_last());
        if before.contains(s.last()) {
            before
        } else {
            before.push(s.last())
        }
    }
}

/// The diagnostics among the parts of a piece of output.
pub open spec fn diagnostics_among(segments: Seq<SegmentView>) -> Seq<DiagnosticView>
    decreases segments.len(),
{
    if segments.len() == 0 {
        seq![]
    } else {
        match segments.last().message {
            Some(MessageView::Diagnostic(diagnostic)) => diagnostics_among(segments.drop_last()).push(
                diagnostic,
            ),
            _ => diagnostics_among(segments.drop_last()),
        }
    }
}

/// The parts of a piece of output without the diagnostics that were seen before or that an earlier
/// part holds.
pub open spec fn fresh(segments: Seq<SegmentView>, seen: Seq<DiagnosticView>) -> Seq<SegmentView>
    decreases segments.len(),
{
    if segments.len() == 0 {
        seq![]
    } else {
        let before = fresh(segments.drop_last(), seen);
        match segments.last().message {
            Some(MessageView::Diagnostic(diagnostic)) => if seen.contains(diagnostic) || diagnostics_among(
                before,
            ).contains(diagnostic) {
                before
            } else {
                before.push(segments.last())
            },
            _ => before.push(segments.last()),
        }
    }
}

/// The diagnostics that are published, in order: those of standard output, and those of the pieces of
/// standard error, each once.
pub open spec fn published(diagnostics: Seq<DiagnosticView>, pieces: Seq<Seq<char>>) -> Seq<DiagnosticView>
    decreases pieces.len(),
{
    if pieces.len() == 0 {
        distinct(diagnostics)
    } else {
        let seen = published(diagnostics, pieces.drop_last());
        seen + diagnostics_among(fresh(segments_of(pieces.last()), seen))
    }
}

/// The pieces of standard error without the diagnostics that are published before them. A piece of
/// which nothing is left is dropped.
pub open spec fn without_repeated(diagnostics: Seq<DiagnosticView>, pieces: Seq<Seq<char>>) -> Seq<Seq<char>>
    decreases pieces.len(),
{
    if pieces.len() == 0 {
        seq![]
    } else {
        let before = without_repeated(diagnostics, pieces.drop_last());
        let text = segments_text(
            fresh(segments_of(pieces.last()), published(diagnostics, pieces.drop_last())),
        );
        if text.len() == 0 {
            before
        } else {
            before.push(text)
        }
    }
}

/// A diagnostic without a place. Its message ends with a newline.
pub open spec fn plain_error(message: Seq<char>) -> DiagnosticView {
    DiagnosticView {
        severity: Severity::Error,
        path: None,
        span: PositionRange::zero(),
        message: if message.len() > 0 && message.last() == '\n' {
            message
        } else {
            message.push('\n')
        },
    }
}

impl LogView {
    /// A log of nothing.
    pub open spec fn empty() -> LogView {
        LogView { summary: None, diagnostics: seq![], stderr: seq![], stderr_failed: false }
    }

    /// This log with the messages of standard output.
    pub open spec fn with_stdout(self, output: Seq<char>) -> LogView {
        LogView {
            summary: summary_in(self.summary, messages_of(output)),
            diagnostics: self.diagnostics + diagnostics_in(messages_of(output)),
            ..self
        }
    }

    /// This log with what was printed on standard error.
    pub open spec fn with_stderr(self, output: Seq<char>) -> LogView {
        LogView {
            summary: summary_in(self.summary, messages_of(output)),
            stderr: if output.len() > 0 {
                self.stderr.push(output)
            } else {
                self.stderr
            },
            stderr_failed: self.stderr_failed || has_error(messages_of(output)),
            ..self
        }
    }

    /// Whether an error was seen.
    pub open spec fn has_error(self) -> bool {
        self.stderr_failed || exists|i: int|
            0 <= i < self.diagnostics.len() && (#[trigger] self.diagnostics[i]).severity == Severity::Error
    }

    /// How the compilation ended.
    pub open spec fn result(self) -> Option<CompilationResult> {
        match self.summary {
            Some(summary) => Some(summary.result),
            None => None,
        }
    }

    /// This log with a summary, if it had none: one of no modules, which tells of the errors.
    pub open spec fn filled(self) -> LogView {
        match self.summary {
            Some(_) => self,
            None => LogView {
                summary: Some(
                    CompilationSummary {
                        result: if self.has_error() {
                            CompilationResult::Failure
                        } else {
                            CompilationResult::Success
                        },
                        modules_loaded: ModulesLoaded::Count(0),
                    },
                ),
                ..self
            },
        }
    }

    /// This log as that of a compilation that failed.
    pub open spec fn failed(self) -> LogView {
        LogView {
            summary: Some(
                CompilationSummary {
                    result: CompilationResult::Failure,
                    modules_loaded: match self.summary {
                        Some(summary) => summary.modules_loaded,
                        None => ModulesLoaded::Count(0),
                    },
                },
            ),
            ..self
        }
    }

    /// This log as that of a compilation that failed with this message.
    pub open spec fn failed_with(self, message: Seq<char>) -> LogView {
        LogView { diagnostics: self.diagnostics.push(plain_error(message)), ..self.failed() }
    }

    /// This log followed by another. The summary of the other counts, if it has one.
    pub open spec fn joined(self, other: LogView) -> LogView {
        LogView {
            summary: match other.summary {
                Some(summary) => Some(summary),
                None => self.summary,
            },
            diagnostics: self.diagnostics + other.diagnostics,
            stderr: self.stderr + other.stderr,
            stderr_failed: self.stderr_failed || other.stderr_failed,
        }
    }

    /// This log with each diagnostic and each piece of standard error once.
    pub open spec fn deduplicated(self) -> LogView {
        LogView {
            diagnostics: distinct(self.diagnostics),
            stderr: without_repeated(self.diagnostics, distinct(self.stderr)),
            ..self
        }
    }
}

impl Default for CompilationLog {
    fn default() -> (r: Self)
        ensures
            r@ == LogView::empty(),
    {
        let r = CompilationLog {
            summary: None,
            diagnostics: Vec::new(),
            stderr: Vec::new(),
            stderr_failed: false,
        };
        proof {
            assert(r@.diagnostics =~= seq![]);
            assert(r@.stderr =~= seq![]);
        }
        r
    }
}

fn same_diagnostic(a: &GhcDiagnostic, b: &GhcDiagnostic) -> (r: bool)
    ensures
        r == (a@ == b@),
{
    let paths = match (&a.path, &b.path) {
        (Some(x), Some(y)) => same_text(x.as_str(), y.as_str()),
        (None, None) => true,
        _ => false,
    };
    a.severity == b.severity && paths && a.span == b.span && same_text(
        a.message.as_str(),
        b.message.as_str(),
    )
}

fn contains_diagnostic(all: &Vec<GhcDiagnostic>, one: &GhcDiagnostic) -> (r: bool)
    ensures
        r == diagnostic_views(all@).contains(one@),
{
    let ghost views = diagnostic_views(all@);
    let mut i: usize = 0;
    while i < all.len()
        invariant
            i <= all@.len(),
            views == diagnostic_views(all@),
            forall|n: int| 0 <= n < i ==> views[n] != one@,
        decreases all@.len() - i,
    {
        if same_diagnostic(&all[i], one) {
            proof {
                assert(views[i as int] == one@);
            }
            return true;
        }
        i = i + 1;
    }
    false
}

fn duplicate_diagnostics(all: &Vec<GhcDiagnostic>) -> (r: Vec<GhcDiagnostic>)
    ensures
        diagnostic_views(r@) == diagnostic_views(all@),
{
    let mut r: Vec<GhcDiagnostic> = Vec::new();
    let mut i: usize = 0;
    while i < all.len()
        invariant
            i <= all@.len(),
            r@.len() == i,
            forall|n: int| 0 <= n < i ==> (#[trigger] r@[n])@ == all@[n]@,
        decreases all@.len() - i,
    {
        r.push(all[i].clone());
        i = i + 1;
    }
    proof {
        assert(diagnostic_views(r@) =~= diagnostic_views(all@));
    }
    r
}

fn contains_text(all: &Vec<String>, one: &str) -> (r: bool)
    ensures
        r == texts(all@).contains(one@),
{
    let ghost views = texts(all@);
    let mut i: usize = 0;
    while i < all.len()
        invariant
            i <= all@.len(),
            views == texts(all@),
            forall|n: int| 0 <= n < i ==> views[n] != one@,
        decreases all@.len() - i,
    {
        if same_text(all[i].as_str(), one) {
            proof {
                assert(views[i as int] == one@);
            }
            return true;
        }
        i = i + 1;
    }
    false
}

/// Writes the parts of a piece of output that were not published before, and adds their diagnostics to
/// those that were.
fn sift_piece(piece: &str, seen: &mut Vec<GhcDiagnostic>) -> (r: String)
    ensures
        r@ == segments_text(fresh(segments_of(piece@), diagnostic_views(old(seen)@))),
        diagnostic_views(final(seen)@) == diagnostic_views(old(seen)@) + diagnostics_among(
            fresh(segments_of(piece@), diagnostic_views(old(seen)@)),
        ),
{
    let segments = parse_segments(piece);
    let ghost all = segment_views(segments@);
    let ghost start = diagnostic_views(seen@);
    let mut r = String::new();
    let mut i: usize = 0;
    proof {
        assert(all.take(0).len() == 0);
        assert(r@ =~= segments_text(fresh(all.take(0), start)));
        assert(diagnostic_views(seen@) =~= start + diagnostics_among(fresh(all.take(0), start)));
    }
    while i < segments.len()
        invariant
            i <= segments@.len(),
            all == segment_views(segments@),
            start == diagnostic_views(old(seen)@),
            r@ == segments_text(fresh(all.take(i as int), start)),
            diagnostic_views(seen@) == start + diagnostics_among(fresh(all.take(i as int), start)),
        decreases segments@.len() - i,
    {
        let ghost before = fresh(all.take(i as int), start);
        let ghost known = diagnostic_views(seen@);
        let ghost one = segments@[i as int]@;
        proof {
            assert(all.take(i + 1).drop_last() =~= all.take(i as int));
            assert(all.take(i + 1).last() == one);
            assert(before.push(one).drop_last() =~= before);
            assert forall|d: DiagnosticView| known.contains(d) <==> start.contains(d) || diagnostics_among(
                before,
            ).contains(d) by {
                lemma_contains_either(start, diagnostics_among(before), d);
            }
        }
        match &segments[i].message {
            Some(GhcMessage::Diagnostic(diagnostic)) => {
                if !contains_diagnostic(seen, diagnostic) {
                    r.append(segments[i].text.as_str());
                    seen.push(diagnostic.clone());
                    proof {
                        assert(diagnostic_views(seen@) =~= known.push(diagnostic@));
                        assert(known.push(diagnostic@) =~= start + diagnostics_among(before).push(
                            diagnostic@,
                        ));
                    }
                }
            },
            _ => {
                r.append(segments[i].text.as_str());
            },
        }
        i = i + 1;
    }
    proof {
        assert(all.take(all.len() as int) =~= all);
    }
    r
}

impl CompilationLog {
    /// Takes the summary and, if `keep` holds, the diagnostics of the messages.
    fn take_messages(&mut self, messages: Vec<GhcMessage>, keep: bool)
        ensures
            final(self)@ == (LogView {
                summary: summary_in(old(self)@.summary, message_views(messages@)),
                diagnostics: if keep {
                    old(self)@.diagnostics + diagnostics_in(message_views(messages@))
                } else {
                    old(self)@.diagnostics
                },
                ..old(self)@
            }),
    {
        let ghost before = self@;
        let ghost all = message_views(messages@);
        let mut i: usize = 0;
        proof {
            assert(all.take(0).len() == 0);
            assert(before.diagnostics + diagnostics_in(all.take(0)) =~= before.diagnostics);
        }
        while i < messages.len()
            invariant
                i <= messages@.len(),
                all == message_views(messages@),
                self@ == (LogView {
                    summary: summary_in(before.summary, all.take(i as int)),
                    diagnostics: if keep {
                        before.diagnostics + diagnostics_in(all.take(i as int))
                    } else {
                        before.diagnostics
                    },
                    ..before
                }),
            decreases messages@.len() - i,
        {
            proof {
                assert(all.take(i + 1).drop_last() =~= all.take(i as int));
                assert(all.take(i + 1).last() == messages@[i as int]@);
            }
            let ghost current = self@;
            match &messages[i] {
                GhcMessage::Diagnostic(diagnostic) => {
                    if keep {
                        let copy = diagnostic.clone();
                        self.diagnostics.push(copy);
                        proof {
                            assert(self@.diagnostics =~= current.diagnostics.push(diagnostic@));
                            assert(self@.diagnostics =~= before.diagnostics + diagnostics_in(all.take(i + 1)));
                        }
                    }
                },
                GhcMessage::Summary(summary) => {
                    self.summary = Some(*summary);
                },
            }
            i = i + 1;
        }
        proof {
            assert(all.take(all.len() as int) =~= all);
        }
    }

    /// Takes the messages of what was printed on standard output.
    pub fn extend_stdout(&mut self, output: &str)
        ensures
            final(self)@ == old(self)@.with_stdout(output@),
    {
        self.take_messages(parse_ghc_messages(output), true);
    }

    /// Takes what was printed on standard error.
    pub fn extend_stderr(&mut self, output: &str)
        ensures
            final(self)@ == old(self)@.with_stderr(output@),
    {
        let messages = parse_ghc_messages(output);
        let failed = any_error(&messages);
        self.take_messages(messages, false);
        let ghost current = self@;
        if failed {
            self.stderr_failed = true;
        }
        if !output.is_empty() {
            self.stderr.push(output.to_owned());
            proof {
                assert(self@.stderr =~= current.stderr.push(output@));
            }
        }
    }

    /// How the compilation ended.
    pub fn result(&self) -> (r: Option<CompilationResult>)
        ensures
            r == self@.result(),
    {
        match self.summary {
            Some(summary) => Some(summary.result),
            None => None,
        }
    }

    fn any_error(&self) -> (r: bool)
        ensures
            r == self@.has_error(),
    {
        if self.stderr_failed {
            return true;
        }
        let ghost views = self@.diagnostics;
        let mut i: usize = 0;
        while i < self.diagnostics.len()
            invariant
                i <= self.diagnostics@.len(),
                views == self@.diagnostics,
                forall|n: int| 0 <= n < i ==> (#[trigger] views[n]).severity != Severity::Error,
            decreases self.diagnostics@.len() - i,
        {
            if self.diagnostics[i].severity == Severity::Error {
                proof {
                    assert(views[i as int].severity == Severity::Error);
                }
                return true;
            }
            i = i + 1;
        }
        false
    }

    /// Fills in a summary if there is none.
    pub fn fill_empty_summary(&mut self)
        ensures
            final(self)@ == old(self)@.filled(),
    {
        if self.summary.is_none() {
            let result = if self.any_error() {
                CompilationResult::Failure
            } else {
                CompilationResult::Success
            };
            self.summary = Some(CompilationSummary { result, modules_loaded: ModulesLoaded::Count(0) });
        }
    }

    /// Records that the compilation failed.
    pub fn mark_failed(&mut self)
        ensures
            final(self)@ == old(self)@.failed(),
    {
        let modules_loaded = match self.summary {
            Some(summary) => summary.modules_loaded,
            None => ModulesLoaded::Count(0),
        };
        self.summary = Some(CompilationSummary { result: CompilationResult::Failure, modules_loaded });
    }

    /// Records that the compilation failed with this message.
    pub fn mark_failed_with_diagnostic(&mut self, message: &str)
        ensures
            final(self)@ == old(self)@.failed_with(message@),
    {
        let ghost before = self@;
        self.mark_failed();
        let mut text = message.to_owned();
        if !ends_with_newline(message) {
            text.push('\n');
        }
        self.diagnostics.push(
            GhcDiagnostic {
                severity: Severity::Error,
                path: None,
                span: PositionRange::default(),
                message: text,
            },
        );
        proof {
            assert(self@.diagnostics =~= before.diagnostics.push(plain_error(message@)));
        }
    }

    /// Adds the messages of another log to this one.
    pub fn append(&mut self, other: CompilationLog)
        ensures
            final(self)@ == old(self)@.joined(other@),
    {
        let ghost before = self@;
        let CompilationLog { summary, mut diagnostics, mut stderr, stderr_failed } = other;
        match summary {
            Some(summary) => {
                self.summary = Some(summary);
            },
            None => {},
        }
        self.diagnostics.append(&mut diagnostics);
        self.stderr.append(&mut stderr);
        self.stderr_failed = self.stderr_failed || stderr_failed;
        proof {
            assert(self@.diagnostics =~= before.diagnostics + other@.diagnostics);
            assert(self@.stderr =~= before.stderr + other@.stderr);
        }
    }

    /// Drops repeated diagnostics, also those within the pieces of standard error, and repeated pieces.
    /// Synchronizing targets and then reloading may compile the same failure twice.
    pub fn deduplicate_diagnostics(&mut self)
        ensures
            final(self)@ == old(self)@.deduplicated(),
    {
        let ghost before = self@;
        let mut diagnostics: Vec<GhcDiagnostic> = Vec::new();
        let mut i: usize = 0;
        proof {
            assert(diagnostic_views(diagnostics@) =~= distinct(before.diagnostics.take(0)));
        }
        while i < self.diagnostics.len()
            invariant
                i <= self.diagnostics@.len(),
                self@ == before,
                diagnostic_views(diagnostics@) == distinct(before.diagnostics.take(i as int)),
            decreases self.diagnostics@.len() - i,
        {
            let ghost kept = diagnostics@;
            proof {
                assert(before.diagnostics.take(i + 1).drop_last() =~= before.diagnostics.take(i as int));
                assert(before.diagnostics.take(i + 1).last() == self.diagnostics@[i as int]@);
            }
            if !contains_diagnostic(&diagnostics, &self.diagnostics[i]) {
                diagnostics.push(self.diagnostics[i].clone());
                proof {
                    assert(diagnostic_views(diagnostics@) =~= diagnostic_views(kept).push(
                        self.diagnostics@[i as int]@,
                    ));
                }
            }
            i = i + 1;
        }
        let mut stderr: Vec<String> = Vec::new();
        let mut j: usize = 0;
        proof {
            assert(before.diagnostics.take(before.diagnostics.len() as int) =~= before.diagnostics);
            assert(texts(stderr@) =~= distinct(before.stderr.take(0)));
        }
        while j < self.stderr.len()
            invariant
                j <= self.stderr@.len(),
                self@ == before,
                texts(stderr@) == distinct(before.stderr.take(j as int)),
            decreases self.stderr@.len() - j,
        {
            let ghost kept = stderr@;
            proof {
                assert(before.stderr.take(j + 1).drop_last() =~= before.stderr.take(j as int));
                assert(before.stderr.take(j + 1).last() == self.stderr@[j as int]@);
            }
            if !contains_text(&stderr, self.stderr[j].as_str()) {
                stderr.push(self.stderr[j].clone());
                proof {
                    assert(texts(stderr@) =~= texts(kept).push(self.stderr@[j as int]@));
                }
            }
            j = j + 1;
        }
        proof {
            assert(before.stderr.take(before.stderr.len() as int) =~= before.stderr);
        }
        let ghost pieces = texts(stderr@);
        let mut seen = duplicate_diagnostics(&diagnostics);
        let mut kept: Vec<String> = Vec::new();
        let mut k: usize = 0;
        proof {
            assert(texts(kept@) =~= without_repeated(before.diagnostics, pieces.take(0)));
            assert(diagnostic_views(seen@) =~= published(before.diagnostics, pieces.take(0)));
        }
        while k < stderr.len()
            invariant
                k <= stderr@.len(),
                pieces == texts(stderr@),
                texts(kept@) == without_repeated(before.diagnostics, pieces.take(k as int)),
                diagnostic_views(seen@) == published(before.diagnostics, pieces.take(k as int)),
            decreases stderr@.len() - k,
        {
            let ghost so_far = texts(kept@);
            proof {
                assert(pieces.take(k + 1).drop_last() =~= pieces.take(k as int));
                assert(pieces.take(k + 1).last() == stderr@[k as int]@);
            }
            let text = sift_piece(stderr[k].as_str(), &mut seen);
            let ghost view = text@;
            if !text.as_str().is_empty() {
                kept.push(text);
                proof {
                    assert(texts(kept@) =~= so_far.push(view));
                }
            }
            k = k + 1;
        }
        proof {
            assert(pieces.take(pieces.len() as int) =~= pieces);
        }
        self.diagnostics = diagnostics;
        self.stderr = kept;
    }
}

/// Dropping repetitions keeps each element exactly once.
pub proof fn distinct_keeps_each_once<T>(s: Seq<T>)
    ensures
        distinct(s).no_duplicates(),
        forall|x: T| #[trigger] distinct(s).contains(x) <==> s.contains(x),
    decreases s.len(),
{
    if s.len() > 0 {
        let t = s.drop_last();
        distinct_keeps_each_once(t);
        let d = distinct(t);
        assert forall|x: T| #[trigger] distinct(s).contains(x) <==> s.contains(x) by {
            if s.contains(x) {
                let i = choose|i: int| 0 <= i < s.len() && s[i] == x;
                if i < t.len() {
                    assert(t[i] == x);
                    assert(d.contains(x));
                }
                if !d.contains(s.last()) {
                    if d.contains(x) {
                        let j = choose|j: int| 0 <= j < d.len() && d[j] == x;
                        assert(d.push(s.last())[j] == x);
                    } else {
                        assert(d.push(s.last())[d.len() as int] == x);
                    }
                }
            }
            if distinct(s).contains(x) {
                let j = choose|j: int| 0 <= j < distinct(s).len() && distinct(s)[j] == x;
                if j < d.len() {
                    assert(d[j] == x);
                    assert(d.contains(x));
                    let i = choose|i: int| 0 <= i < t.len() && t[i] == x;
                    assert(s[i] == x);
                } else {
                    assert(s[s.len() - 1] == x);
                }
            }
        }
    }
}

proof fn lemma_contains_either<T>(a: Seq<T>, b: Seq<T>, x: T)
    ensures
        (a + b).contains(x) <==> a.contains(x) || b.contains(x),
{
    if a.contains(x) {
        let i = choose|i: int| 0 <= i < a.len() && a[i] == x;
        assert((a + b)[i] == x);
    }
    if b.contains(x) {
        let i = choose|i: int| 0 <= i < b.len() && b[i] == x;
        assert((a + b)[a.len() + i] == x);
    }
    if (a + b).contains(x) {
        let i = choose|i: int| 0 <= i < (a + b).len() && (a + b)[i] == x;
        if i < a.len() {
            assert(a[i] == x);
        } else {
            assert(b[i - a.len()] == x);
        }
    }
}

proof fn lemma_fresh(segments: Seq<SegmentView>, seen: Seq<DiagnosticView>)
    ensures
        diagnostics_among(fresh(segments, seen)).no_duplicates(),
        forall|d: DiagnosticView| #[trigger]
            diagnostics_among(fresh(segments, seen)).contains(d) <==> diagnostics_among(segments).contains(d)
                && !seen.contains(d),
    decreases segments.len(),
{
    if segments.len() > 0 {
        let rest = segments.drop_last();
        lemma_fresh(rest, seen);
        let before = fresh(rest, seen);
        let kept = diagnostics_among(before);
        let all = diagnostics_among(rest);
        assert(before.push(segments.last()).drop_last() =~= before);
        match segments.last().message {
            Some(MessageView::Diagnostic(one)) => {
                assert forall|d: DiagnosticView| #[trigger]
                    diagnostics_among(fresh(segments, seen)).contains(d) <==> diagnostics_among(
                    segments,
                ).contains(d) && !seen.contains(d) by {
                    lemma_contains_either(kept, seq![one], d);
                    lemma_contains_either(all, seq![one], d);
                    assert(kept + seq![one] =~= kept.push(one));
                    assert(all + seq![one] =~= all.push(one));
                    assert(seq![one][0] == one);
                    assert(seq![one].contains(d) <==> d == one);
                    assert(kept.contains(d) <==> all.contains(d) && !seen.contains(d));
                    assert(kept.contains(one) <==> all.contains(one) && !seen.contains(one));
                }
            },
            _ => {},
        }
    }
}

proof fn lemma_diagnostics_in_first(message: MessageView, rest: Seq<MessageView>)
    ensures
        diagnostics_in(seq![message] + rest) == diagnostics_in(seq![message]) + diagnostics_in(rest),
    decreases rest.len(),
{
    let all = seq![message] + rest;
    if rest.len() == 0 {
        assert(all =~= seq![message]);
        assert(diagnostics_in(seq![message]) + diagnostics_in(rest) =~= diagnostics_in(seq![message]));
    } else {
        lemma_diagnostics_in_first(message, rest.drop_last());
        assert(all.drop_last() =~= seq![message] + rest.drop_last());
        assert(all.last() == rest.last());
        assert(diagnostics_in(all) =~= diagnostics_in(seq![message]) + diagnostics_in(rest));
    }
}

proof fn lemma_diagnostics_among_first(segment: SegmentView, rest: Seq<SegmentView>)
    ensures
        diagnostics_among(seq![segment] + rest) == diagnostics_among(seq![segment]) + diagnostics_among(rest),
    decreases rest.len(),
{
    let all = seq![segment] + rest;
    if rest.len() == 0 {
        assert(all =~= seq![segment]);
        assert(diagnostics_among(seq![segment]) + diagnostics_among(rest) =~= diagnostics_among(
            seq![segment],
        ));
    } else {
        lemma_diagnostics_among_first(segment, rest.drop_last());
        assert(all.drop_last() =~= seq![segment] + rest.drop_last());
        assert(all.last() == rest.last());
        assert(diagnostics_among(all) =~= diagnostics_among(seq![segment]) + diagnostics_among(rest));
    }
}

/// Dividing output into its parts finds the diagnostics that reading it finds.
pub proof fn segments_hold_the_diagnostics(s: Seq<char>, at: int)
    ensures
        diagnostics_among(segments_from(s, at)) == diagnostics_in(messages_from(s, at)),
    decreases s.len() - at,
{
    if 0 <= at < s.len() && at < message_at(s, at).1 <= s.len() {
        let (message, end) = message_at(s, at);
        segments_hold_the_diagnostics(s, end);
        let segment = SegmentView { message, text: s.subrange(at, end) };
        lemma_diagnostics_among_first(segment, segments_from(s, end));
        assert(seq![segment].drop_last() =~= Seq::<SegmentView>::empty());
        assert(diagnostics_among(Seq::<SegmentView>::empty()) =~= seq![]);
        assert(diagnostics_in(Seq::<MessageView>::empty()) =~= seq![]);
        match message {
            Some(message) => {
                lemma_diagnostics_in_first(message, messages_from(s, end));
                assert(seq![message].drop_last() =~= Seq::<MessageView>::empty());
                assert(diagnostics_in(seq![message]) =~= diagnostics_among(seq![segment]));
            },
            None => {
                assert(diagnostics_among(seq![segment]) + diagnostics_among(segments_from(s, end))
                    =~= diagnostics_among(segments_from(s, end)));
            },
        }
    }
}

/// The diagnostics in the pieces of standard error.
pub open spec fn printed(pieces: Seq<Seq<char>>) -> Seq<DiagnosticView>
    decreases pieces.len(),
{
    if pieces.len() == 0 {
        seq![]
    } else {
        printed(pieces.drop_last()) + diagnostics_among(segments_of(pieces.last()))
    }
}

/// Every diagnostic of standard output and of standard error is published, and none is published
/// twice.
pub proof fn each_diagnostic_is_published_once(diagnostics: Seq<DiagnosticView>, pieces: Seq<Seq<char>>)
    ensures
        published(diagnostics, pieces).no_duplicates(),
        forall|d: DiagnosticView| #[trigger]
            published(diagnostics, pieces).contains(d) <==> diagnostics.contains(d) || printed(pieces).contains(
                d,
            ),
    decreases pieces.len(),
{
    if pieces.len() == 0 {
        distinct_keeps_each_once(diagnostics);
    } else {
        let rest = pieces.drop_last();
        each_diagnostic_is_published_once(diagnostics, rest);
        let seen = published(diagnostics, rest);
        let segments = segments_of(pieces.last());
        let new = diagnostics_among(fresh(segments, seen));
        lemma_fresh(segments, seen);
        assert forall|d: DiagnosticView| #[trigger]
            published(diagnostics, pieces).contains(d) <==> diagnostics.contains(d) || printed(
            pieces,
        ).contains(d) by {
            lemma_contains_either(seen, new, d);
            lemma_contains_either(printed(rest), diagnostics_among(segments), d);
        }
        assert(published(diagnostics, pieces) == seen + new);
        assert forall|i: int, j: int| 0 <= i < j < (seen + new).len() implies (seen + new)[i] != (seen
            + new)[j] by {
            if i < seen.len() && j >= seen.len() {
                assert(seen.contains(seen[i]));
                assert(new.contains(new[j - seen.len()]));
            }
        }
    }
}

/// The last summary that is printed counts; where none is, the one before stays.
pub proof fn last_summary_counts(before: Option<CompilationSummary>, messages: Seq<MessageView>, i: int)
    ensures
        0 <= i < messages.len() && messages[i] is Summary && (forall|j: int|
            i < j < messages.len() ==> #[trigger] messages[j] is Diagnostic) ==> summary_in(before, messages) == Some(
            messages[i]->Summary_0,
        ),
        (forall|j: int| 0 <= j < messages.len() ==> #[trigger] messages[j] is Diagnostic) ==> summary_in(
            before,
            messages,
        ) == before,
    decreases messages.len(),
{
    if messages.len() > 0 {
        let rest = messages.drop_last();
        let last = messages.len() - 1;
        last_summary_counts(before, rest, i);
        if forall|j: int| 0 <= j < messages.len() ==> #[trigger] messages[j] is Diagnostic {
            assert(messages[last] is Diagnostic);
            assert forall|j: int| 0 <= j < rest.len() implies #[trigger] rest[j] is Diagnostic by {
                assert(rest[j] == messages[j]);
            }
        }
        if 0 <= i < messages.len() && messages[i] is Summary && (forall|j: int|
            i < j < messages.len() ==> #[trigger] messages[j] is Diagnostic) {
            if i < last {
                assert(messages[last] is Diagnostic);
                assert(rest[i] == messages[i]);
                assert forall|j: int| i < j < rest.len() implies #[trigger] rest[j] is Diagnostic by {
                    assert(rest[j] == messages[j]);
                }
            }
        }
    }
}

/// The diagnostics among messages are all of them, in order: those of the first messages and then those of the rest,
/// and of one message itself, if it is a diagnostic.
pub proof fn diagnostics_are_taken_in_order(a: Seq<MessageView>, b: Seq<MessageView>, d: DiagnosticView, s: CompilationSummary)
    ensures
        diagnostics_in(a + b) == diagnostics_in(a) + diagnostics_in(b),
        diagnostics_in(seq![MessageView::Diagnostic(d)]) == seq![d],
        diagnostics_in(seq![MessageView::Summary(s)]).len() == 0,
        diagnostics_in(seq![]).len() == 0,
    decreases b.len(),
{
    reveal_with_fuel(diagnostics_in, 2);
    assert(diagnostics_in(seq![MessageView::Diagnostic(d)]) =~= seq![d]);
    if b.len() == 0 {
        assert(a + b =~= a);
        assert(diagnostics_in(a) + diagnostics_in(b) =~= diagnostics_in(a));
    } else {
        diagnostics_are_taken_in_order(a, b.drop_last(), d, s);
        assert((a + b).drop_last() =~= a + b.drop_last());
        assert((a + b).last() == b.last());
        assert(diagnostics_in(a + b) =~= diagnostics_in(a) + diagnostics_in(b));
    }
}

/// Standard output adds its diagnostics and its summary, and leaves standard error alone. Standard error is kept as it
/// was printed, piece by piece, and an error in it is remembered; it adds no diagnostics.
pub proof fn output_goes_into_the_log(log: LogView, output: Seq<char>)
    ensures
        log.with_stdout(output).diagnostics == log.diagnostics + diagnostics_in(messages_of(output)),
        log.with_stdout(output).stderr == log.stderr,
        log.with_stdout(output).stderr_failed == log.stderr_failed,
        log.with_stderr(output).diagnostics == log.diagnostics,
        output.len() > 0 ==> log.with_stderr(output).stderr == log.stderr.push(output),
        output.len() == 0 ==> log.with_stderr(output).stderr == log.stderr,
        log.with_stderr(output).stderr_failed <==> log.stderr_failed || has_error(messages_of(output)),
        (forall|i: int| 0 <= i < messages_of(output).len() ==> #[trigger] messages_of(output)[i] is Diagnostic)
            ==> log.with_stdout(output).summary == log.summary && log.with_stderr(output).summary == log.summary,
        log.with_stdout(output).summary == log.with_stderr(output).summary,
{
    last_summary_counts(log.summary, messages_of(output), 0);
}

/// A log without a summary tells of a failure exactly if an error was seen, on either stream; one with a summary keeps
/// it.
pub proof fn missing_summaries_tell_of_the_errors(log: LogView)
    ensures
        log.summary is Some ==> log.filled() == log,
        log.summary is None ==> (log.filled().result() == Some(CompilationResult::Failure) <==> log.stderr_failed || exists|
            i: int,
        |
            0 <= i < log.diagnostics.len() && (#[trigger] log.diagnostics[i]).severity is Error),
        log.summary is None ==> (log.filled().result() == Some(CompilationResult::Success) <==> !log.has_error()),
        log.summary is None ==> log.filled().summary->0.modules_loaded == ModulesLoaded::Count(0),
        log.filled().diagnostics == log.diagnostics,
        log.filled().stderr == log.stderr,
        log.filled().stderr_failed == log.stderr_failed,
{
}

/// A log that is marked as failed tells of a failure and keeps everything else; with a message, the last diagnostic is
/// an error with that message and without a place.
pub proof fn failures_are_kept(log: LogView, message: Seq<char>)
    ensures
        log.failed().result() == Some(CompilationResult::Failure),
        log.failed().diagnostics == log.diagnostics,
        log.failed().stderr == log.stderr,
        log.failed().stderr_failed == log.stderr_failed,
        log.summary is Some ==> log.failed().summary->0.modules_loaded == log.summary->0.modules_loaded,
        log.failed_with(message).result() == Some(CompilationResult::Failure),
        log.failed_with(message).has_error(),
        log.failed_with(message).diagnostics.drop_last() == log.diagnostics,
        log.failed_with(message).stderr == log.stderr,
        ({
            let last = log.failed_with(message).diagnostics.last();
            &&& last.severity is Error
            &&& last.path is None
            &&& last.span == PositionRange::zero()
            &&& last.message.len() > 0 && last.message.last() == '\n'
            &&& last.message == message || last.message.drop_last() == message
        }),
{
    let after = log.failed_with(message);
    assert(after.diagnostics[after.diagnostics.len() - 1].severity == Severity::Error);
    assert(after.diagnostics.drop_last() =~= log.diagnostics);
    assert(message.push('\n').drop_last() =~= message);
}

/// Of two logs the result of the second counts, if it has one; nothing of either is lost.
pub proof fn joined_logs_keep_everything(a: LogView, b: LogView)
    ensures
        b.result() is Some ==> a.joined(b).result() == b.result(),
        b.result() is None ==> a.joined(b).result() == a.result(),
        a.joined(b).diagnostics == a.diagnostics + b.diagnostics,
        a.joined(b).stderr == a.stderr + b.stderr,
        a.joined(b).has_error() <==> a.has_error() || b.has_error(),
        a.joined(LogView::empty()) == a,
        LogView::empty().joined(a) == a,
{
    let all = a.joined(b);
    if a.has_error() && !a.stderr_failed {
        let i = choose|i: int| 0 <= i < a.diagnostics.len() && (#[trigger] a.diagnostics[i]).severity == Severity::Error;
        assert(all.diagnostics[i] == a.diagnostics[i]);
    }
    if b.has_error() && !b.stderr_failed {
        let i = choose|i: int| 0 <= i < b.diagnostics.len() && (#[trigger] b.diagnostics[i]).severity == Severity::Error;
        assert(all.diagnostics[a.diagnostics.len() + i] == b.diagnostics[i]);
    }
    if all.has_error() && !all.stderr_failed {
        let i = choose|i: int|
            0 <= i < all.diagnostics.len() && (#[trigger] all.diagnostics[i]).severity == Severity::Error;
        if i < a.diagnostics.len() {
            assert(a.diagnostics[i] == all.diagnostics[i]);
        } else {
            assert(b.diagnostics[i - a.diagnostics.len()] == all.diagnostics[i]);
        }
    }
    assert(a.joined(LogView::empty()).diagnostics =~= a.diagnostics);
    assert(a.joined(LogView::empty()).stderr =~= a.stderr);
    assert(LogView::empty().joined(a).diagnostics =~= a.diagnostics);
    assert(LogView::empty().joined(a).stderr =~= a.stderr);
}

/// Dropping repetitions keeps the summary, and every diagnostic of standard output exactly once.
pub proof fn repetitions_are_dropped(log: LogView)
    ensures
        log.deduplicated().summary == log.summary,
        log.deduplicated().stderr_failed == log.stderr_failed,
        log.deduplicated().diagnostics.no_duplicates(),
        forall|d: DiagnosticView| #[trigger]
            log.deduplicated().diagnostics.contains(d) <==> log.diagnostics.contains(d),
        log.deduplicated().has_error() <==> log.has_error(),
{
    distinct_keeps_each_once(log.diagnostics);
    let after = log.deduplicated();
    if log.has_error() && !log.stderr_failed {
        let i = choose|i: int|
            0 <= i < log.diagnostics.len() && (#[trigger] log.diagnostics[i]).severity == Severity::Error;
        assert(log.diagnostics.contains(log.diagnostics[i]));
        assert(after.diagnostics.contains(log.diagnostics[i]));
        let j = choose|j: int| 0 <= j < after.diagnostics.len() && after.diagnostics[j] == log.diagnostics[i];
        assert(after.diagnostics[j].severity == Severity::Error);
    }
    if after.has_error() && !log.stderr_failed {
        let i = choose|i: int|
            0 <= i < after.diagnostics.len() && (#[trigger] after.diagnostics[i]).severity == Severity::Error;
        assert(after.diagnostics.contains(after.diagnostics[i]));
        let j = choose|j: int| 0 <= j < log.diagnostics.len() && log.diagnostics[j] == after.diagnostics[i];
        assert(log.diagnostics[j].severity == Severity::Error);
    }
}

/// Of a piece of standard error every line stays that is no diagnostic, and every diagnostic that was not seen before.
pub proof fn other_lines_stay(segments: Seq<SegmentView>, seen: Seq<DiagnosticView>, v: SegmentView)
    ensures
        !(v.message is Some && v.message->0 is Diagnostic) ==> (fresh(segments, seen).contains(v) <==> segments.contains(v)),
        fresh(segments, seen).contains(v) ==> segments.contains(v),
        v.message is Some && v.message->0 is Diagnostic && seen.contains(v.message->0->Diagnostic_0) ==> !fresh(
            segments,
            seen,
        ).contains(v),
    decreases segments.len(),
{
    if segments.len() > 0 {
        let rest = segments.drop_last();
        let last = segments.last();
        let before = fresh(rest, seen);
        other_lines_stay(rest, seen, v);
        lemma_contains_either(before, seq![last], v);
        lemma_contains_either(rest, seq![last], v);
        assert(before + seq![last] =~= before.push(last));
        assert(rest + seq![last] =~= segments);
        assert(seq![last][0] == last);
        assert(seq![last].contains(v) <==> v == last);
    }
}

/// Pieces are looked at in turn: what is new in one comes behind what was new in those before it, and a piece in which
/// nothing is new is dropped.
pub proof fn pieces_are_looked_at_in_turn(diagnostics: Seq<DiagnosticView>, pieces: Seq<Seq<char>>, piece: Seq<char>)
    ensures
        ({
            let left = segments_text(fresh(segments_of(piece), published(diagnostics, pieces)));
            let before = without_repeated(diagnostics, pieces);
            let after = without_repeated(diagnostics, pieces.push(piece));
            &&& without_repeated(diagnostics, seq![]).len() == 0
            &&& left.len() == 0 ==> after == before
            &&& left.len() > 0 ==> after == before.push(left)
        }),
{
    assert(pieces.push(piece).drop_last() =~= pieces);
}

} // verus!
