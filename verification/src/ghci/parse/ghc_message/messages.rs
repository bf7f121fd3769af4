//! All messages in a piece of output, which may hold other lines too.

use crate::ghci::parse::ghc_message::compilation_summary::{
    compilation_summary, summary_at, CompilationSummary,
};
use crate::ghci::parse::ghc_message::generic_diagnostic::{
    diagnostics_are_read_back, diagnostics_without_a_place_are_read_back, end_of_line, generic_at, generic_diagnostic,
    goes_on, line_end, no_location_at, no_location_diagnostic, numbered, printed,
};
use crate::ghci::parse::ghc_message::json_diagnostic::{deserialize_json_diagnostic, json_line};
use crate::ghci::parse::ghc_message::{DiagnosticView, GhcDiagnostic, PositionRange, Severity};
use crate::ghci::parse::scan::{
    char_at, in_class, is_char_at, run_end, run_from, word_at, words_stand_character_by_character,
    words_stand_one_after_the_other, CharClass,
};
use crate::text::{from_chars, has_prefix, to_chars};
use vstd::prelude::*;

verus! {

/// A message of the compiler.
#[derive(Debug, PartialEq, Eq)]
pub enum GhcMessage {
    /// A warning or an error.
    Diagnostic(GhcDiagnostic),
    /// The end of a compilation.
    Summary(CompilationSummary),
}

/// The model of a [`GhcMessage`].
pub enum MessageView {
    Diagnostic(DiagnosticView),
    Summary(CompilationSummary),
}

impl View for GhcMessage {
    type V = MessageView;

    open spec fn view(&self) -> MessageView {
        match self {
            GhcMessage::Diagnostic(diagnostic) => MessageView::Diagnostic(diagnostic@),
            GhcMessage::Summary(summary) => MessageView::Summary(*summary),
        }
    }
}

/// The views of a sequence of messages.
pub open spec fn message_views(messages: Seq<GhcMessage>) -> Seq<MessageView> {
    Seq::new(messages.len(), |i: int| messages[i]@)
}

/// The diagnostic of the line at `at` if it is a JSON object. Spaces and tabs may stand before it.
pub open spec fn json_at(s: Seq<char>, at: int) -> Option<(DiagnosticView, int)> {
    let start = run_end(s, at, CharClass::Blank);
    let end = line_end(s, start);
    if char_at(s, start, '{') {
        match json_line(s.subrange(start, end)) {
            Some(diagnostic) => Some((diagnostic, end)),
            None => None,
        }
    } else {
        None
    }
}

/// The message that starts at `at`, if there is one, and where the next line to look at starts.
pub open spec fn message_at(s: Seq<char>, at: int) -> (Option<MessageView>, int) {
    match json_at(s, at) {
        Some((diagnostic, end)) => (Some(MessageView::Diagnostic(diagnostic)), end),
        None => match summary_at(s, at) {
            Some((summary, end)) => (Some(MessageView::Summary(summary)), end),
            None => match no_location_at(s, at) {
                Some((diagnostic, end)) => (Some(MessageView::Diagnostic(diagnostic)), end),
                None => match generic_at(s, at) {
                    Some((diagnostic, end)) => (Some(MessageView::Diagnostic(diagnostic)), end),
                    None => (None, line_end(s, at)),
                },
            },
        },
    }
}

/// The messages from `at` on.
pub open spec fn messages_from(s: Seq<char>, at: int) -> Seq<MessageView>
    decreases s.len() - at,
{
    if 0 <= at < s.len() && at < message_at(s, at).1 <= s.len() {
        let (message, end) = message_at(s, at);
        match message {
            Some(message) => seq![message] + messages_from(s, end),
            None => messages_from(s, end),
        }
    } else {
        seq![]
    }
}

/// The messages in a piece of output.
pub open spec fn messages_of(s: Seq<char>) -> Seq<MessageView> {
    messages_from(s, 0)
}

fn read_json(v: &Vec<char>, at: usize) -> (r: Option<(GhcDiagnostic, usize)>)
    requires
        at < v@.len(),
    ensures
        match r {
            Some((diagnostic, end)) => json_at(v@, at as int) == Some((diagnostic@, end as int)) && at
                < end <= v@.len(),
            None => json_at(v@, at as int) is None,
        },
{
    let start = run_from(v, at, CharClass::Blank);
    if !is_char_at(v, start, '{') {
        return None;
    }
    let end = end_of_line(v, start);
    let line = from_chars(v, start, end);
    match deserialize_json_diagnostic(line.as_str()) {
        Some(diagnostic) => Some((diagnostic, end)),
        None => None,
    }
}

fn read_message(v: &Vec<char>, at: usize) -> (r: (Option<GhcMessage>, usize))
    requires
        at < v@.len(),
    ensures
        at < r.1 <= v@.len(),
        message_at(v@, at as int).1 == r.1,
        match r.0 {
            Some(message) => message_at(v@, at as int).0 == Some(message@),
            None => message_at(v@, at as int).0 is None,
        },
{
    match read_json(v, at) {
        Some((diagnostic, end)) => {
            return (Some(GhcMessage::Diagnostic(diagnostic)), end);
        },
        None => {},
    }
    match compilation_summary(v, at) {
        Some((summary, end)) => {
            return (Some(GhcMessage::Summary(summary)), end);
        },
        None => {},
    }
    match no_location_diagnostic(v, at) {
        Some((diagnostic, end)) => {
            return (Some(GhcMessage::Diagnostic(diagnostic)), end);
        },
        None => {},
    }
    match generic_diagnostic(v, at) {
        Some((diagnostic, end)) => {
            return (Some(GhcMessage::Diagnostic(diagnostic)), end);
        },
        None => {},
    }
    (None, end_of_line(v, at))
}

/// Reads all messages in a piece of output. Lines that belong to no message are skipped.
pub fn parse_ghc_messages(output: &str) -> (r: Vec<GhcMessage>)
    ensures
        message_views(r@) == messages_of(output@),
{
    let v = to_chars(output);
    let mut messages: Vec<GhcMessage> = Vec::new();
    let mut at: usize = 0;
    proof {
        assert(message_views(messages@) + messages_from(v@, 0) =~= messages_from(v@, 0));
    }
    while at < v.len()
        invariant
            at <= v@.len(),
            message_views(messages@) + messages_from(v@, at as int) == messages_from(v@, 0),
        decreases v@.len() - at,
    {
        let (message, end) = read_message(&v, at);
        let ghost before = messages@;
        match message {
            Some(message) => {
                let ghost m = message@;
                messages.push(message);
                proof {
                    assert(message_views(messages@) =~= message_views(before) + seq![m]);
                    assert(message_views(before) + (seq![m] + messages_from(v@, end as int))
                        =~= message_views(messages@) + messages_from(v@, end as int));
                }
            },
            None => {},
        }
        at = end;
    }
    proof {
        assert(message_views(messages@) + messages_from(v@, at as int) =~= message_views(messages@));
    }
    messages
}

/// A part of a piece of output: a message or a line that belongs to none, and its text.
#[derive(Debug)]
pub struct Segment {
    pub message: Option<GhcMessage>,
    pub text: String,
}

/// The model of a [`Segment`].
pub struct SegmentView {
    pub message: Option<MessageView>,
    pub text: Seq<char>,
}

impl View for Segment {
    type V = SegmentView;

    open spec fn view(&self) -> SegmentView {
        SegmentView {
            message: match self.message {
                Some(message) => Some(message@),
                None => None,
            },
            text: self.text@,
        }
    }
}

/// The views of a sequence of parts.
pub open spec fn segment_views(segments: Seq<Segment>) -> Seq<SegmentView> {
    Seq::new(segments.len(), |i: int| segments[i]@)
}

/// The parts of the output from `at` on.
pub open spec fn segments_from(s: Seq<char>, at: int) -> Seq<SegmentView>
    decreases s.len() - at,
{
    if 0 <= at < s.len() && at < message_at(s, at).1 <= s.len() {
        let (message, end) = message_at(s, at);
        seq![SegmentView { message, text: s.subrange(at, end) }] + segments_from(s, end)
    } else {
        seq![]
    }
}

/// The parts of a piece of output.
pub open spec fn segments_of(s: Seq<char>) -> Seq<SegmentView> {
    segments_from(s, 0)
}

/// The texts of the parts, one after the other.
pub open spec fn segments_text(segments: Seq<SegmentView>) -> Seq<char>
    decreases segments.len(),
{
    if segments.len() == 0 {
        seq![]
    } else {
        segments_text(segments.drop_last()) + segments.last().text
    }
}

/// Divides a piece of output into its parts. They make it up.
pub fn parse_segments(output: &str) -> (r: Vec<Segment>)
    ensures
        segment_views(r@) == segments_of(output@),
        segments_text(segment_views(r@)) == output@,
{
    let v = to_chars(output);
    let mut segments: Vec<Segment> = Vec::new();
    let mut at: usize = 0;
    proof {
        assert(segment_views(segments@) + segments_from(v@, 0) =~= segments_from(v@, 0));
        assert(segments_text(segment_views(segments@)) =~= v@.take(0));
    }
    while at < v.len()
        invariant
            at <= v@.len(),
            segment_views(segments@) + segments_from(v@, at as int) == segments_from(v@, 0),
            segments_text(segment_views(segments@)) == v@.take(at as int),
        decreases v@.len() - at,
    {
        let (message, end) = read_message(&v, at);
        let ghost before = segment_views(segments@);
        let segment = Segment { message, text: from_chars(&v, at, end) };
        let ghost one = segment@;
        segments.push(segment);
        proof {
            assert(one == SegmentView {
                message: message_at(v@, at as int).0,
                text: v@.subrange(at as int, end as int),
            });
            assert(segment_views(segments@) =~= before.push(one));
            assert(before + (seq![one] + segments_from(v@, end as int)) =~= segment_views(segments@)
                + segments_from(v@, end as int));
            assert(before.push(one).drop_last() =~= before);
            assert(v@.take(at as int) + v@.subrange(at as int, end as int) =~= v@.take(end as int));
        }
        at = end;
    }
    proof {
        assert(segment_views(segments@) + segments_from(v@, at as int) =~= segment_views(segments@));
        assert(v@.take(v@.len() as int) =~= v@);
    }
    segments
}

/// Whether one of the messages is an error.
pub open spec fn has_error(messages: Seq<MessageView>) -> bool {
    exists|i: int| 0 <= i < messages.len() && is_error(#[trigger] messages[i])
}

/// Whether a message is an error.
pub open spec fn is_error(message: MessageView) -> bool {
    message is Diagnostic && message->Diagnostic_0.severity == Severity::Error
}

/// Whether one of the messages is an error.
pub fn any_error(messages: &Vec<GhcMessage>) -> (r: bool)
    ensures
        r == has_error(message_views(messages@)),
{
    let ghost all = message_views(messages@);
    let mut i: usize = 0;
    while i < messages.len()
        invariant
            i <= messages@.len(),
            all == message_views(messages@),
            forall|n: int| 0 <= n < i ==> !is_error(#[trigger] all[n]),
        decreases messages@.len() - i,
    {
        match &messages[i] {
            GhcMessage::Diagnostic(diagnostic) => if diagnostic.severity == Severity::Error {
                proof {
                    assert(is_error(all[i as int]));
                }
                return true;
            },
            GhcMessage::Summary(_) => {},
        }
        i = i + 1;
    }
    false
}

/// Whether the output holds an error.
pub fn line_has_error_diagnostic(output: &str) -> (r: bool)
    ensures
        r == has_error(messages_of(output@)),
{
    any_error(&parse_ghc_messages(output))
}

/// Whether a diagnostic is one that the compiler prints: its path stands apart from everything else that the
/// output may hold, or it has no place.
pub open spec fn distinct(d: DiagnosticView) -> bool {
    match d.path {
        Some(path) => {
            &&& path.len() > 0
            &&& forall|k: int| 0 <= k < path.len() ==> #[trigger] path[k] != ':' && path[k] != '\n'
            &&& path[0] != '{' && !goes_on(path)
            &&& !has_prefix(path, "Ok, "@) && !has_prefix(path, "Failed, "@)
            &&& path != "<no location info>"@
        },
        None => d.span == PositionRange::zero(),
    }
}

proof fn lemma_prefix_of_path(s: Seq<char>, at: int, path: Seq<char>, word: Seq<char>)
    requires
        word_at(s, at, path + seq![':']),
        word_at(s, at, word),
        forall|k: int| 0 <= k < word.len() ==> #[trigger] word[k] != ':',
    ensures
        has_prefix(path, word),
{
    let all = path + seq![':'];
    words_stand_character_by_character(s, at, all);
    words_stand_character_by_character(s, at, word);
    if word.len() > path.len() {
        assert(all[path.len() as int] == ':');
        assert(s[at + path.len()] == ':');
        assert(word[path.len() as int] == ':');
    }
    assert(path.take(word.len() as int) =~= word) by {
        assert forall|k: int| 0 <= k < word.len() implies path[k] == #[trigger] word[k] by {
            assert(all[k] == path[k]);
            assert(s[at + k] == all[k]);
        }
    }
}

proof fn lemma_placed_text(d: DiagnosticView)
    requires
        d.path is Some,
    ensures
        exists|rest: Seq<char>| d.text() == #[trigger] ((d.path->0 + seq![':']) + rest),
{
    reveal_strlit(":");
    let head = d.path->0 + seq![':'];
    assert(":"@ =~= seq![':']);
    let rest = d.text().skip(head.len() as int);
    assert(d.text() =~= head + rest);
}

/// The text of such a diagnostic is no line that goes on with the message before it, and neither a JSON object nor a
/// summary.
proof fn lemma_distinct(s: Seq<char>, at: int, d: DiagnosticView)
    requires
        distinct(d),
        word_at(s, at, d.text()),
    ensures
        !goes_on(s.skip(at)),
        json_at(s, at) is None,
        summary_at(s, at) is None,
        d.path is Some ==> no_location_at(s, at) is None,
{
    reveal_strlit("Ok, ");
    reveal_strlit("Failed, ");
    reveal_strlit("<no location info>:");
    reveal_strlit("<no location info>");
    let line = s.skip(at);
    words_stand_character_by_character(s, at, d.text());
    match d.path {
        Some(path) => {
            lemma_placed_text(d);
            let rest = choose|rest: Seq<char>| d.text() == #[trigger] ((path + seq![':']) + rest);
            words_stand_one_after_the_other(s, at, path + seq![':'], rest);
            let all = path + seq![':'];
            words_stand_character_by_character(s, at, all);
            assert(all[0] == path[0]);
            assert(s[at + 0] == all[0]);
            assert(all[path.len() as int] == ':');
            assert(s[at + path.len()] == ':');
            if goes_on(line) {
                if line[0] == ' ' || line[0] == '\t' {
                    assert(goes_on(path));
                } else {
                    let (i, j) = choose|i: int, j: int| 0 < i < j < line.len() && #[trigger] numbered(line, i, j);
                    assert(j < path.len()) by {
                        if j >= path.len() {
                            assert(line[path.len() as int] == ':');
                        }
                    }
                    assert forall|k: int| 0 <= k <= j implies path[k] == #[trigger] line[k] by {
                        assert(all[k] == path[k]);
                        assert(s[at + k] == all[k]);
                    }
                    assert(path[j] == line[j]);
                    assert forall|k: int| 0 <= k < i implies '0' <= #[trigger] path[k] <= '9' by {
                        assert(path[k] == line[k]);
                    }
                    assert forall|k: int| i <= k < j implies #[trigger] path[k] == ' ' || path[k] == '\t' by {
                        assert(path[k] == line[k]);
                    }
                    assert(numbered(path, i, j));
                }
            }
            if path[0] == ' ' || path[0] == '\t' {
                assert(goes_on(path));
            }
            if word_at(s, at, "Ok, "@) {
                lemma_prefix_of_path(s, at, path, "Ok, "@);
            }
            if word_at(s, at, "Failed, "@) {
                lemma_prefix_of_path(s, at, path, "Failed, "@);
            }
            let none = "<no location info>"@;
            if word_at(s, at, "<no location info>:"@) {
                assert("<no location info>:"@ =~= none + seq![':']);
                words_stand_one_after_the_other(s, at, none, seq![':']);
                lemma_prefix_of_path(s, at, path, none);
                words_stand_character_by_character(s, at + none.len(), seq![':']);
                assert(s[at + none.len() + 0] == seq![':'][0]);
                if path.len() > none.len() {
                    assert(all[none.len() as int] == path[none.len() as int]);
                    assert(s[at + none.len()] == all[none.len() as int]);
                }
                assert(path =~= none);
            }
        },
        None => {
            let none = "<no location info>:"@;
            let rest = d.text().skip(none.len() as int);
            assert(d.text() =~= none + rest);
            words_stand_one_after_the_other(s, at, none, rest);
            words_stand_character_by_character(s, at, none);
            assert(s[at + 0] == none[0]);
            words_stand_character_by_character(s, at, "Ok, "@);
            words_stand_character_by_character(s, at, "Failed, "@);
            if word_at(s, at, "Ok, "@) {
                assert(s[at + 0] == "Ok, "@[0]);
            }
            if word_at(s, at, "Failed, "@) {
                assert(s[at + 0] == "Failed, "@[0]);
            }
            if goes_on(line) {
                assert(line[0] == '<');
                let (i, j) = choose|i: int, j: int| 0 < i < j < line.len() && #[trigger] numbered(line, i, j);
                assert('0' <= line[0] <= '9');
            }
        },
    }
    assert(!in_class(s[at], CharClass::Blank));
    assert(run_end(s, at, CharClass::Blank) == at);
}

/// A printed diagnostic is found where it stands, whatever stands before it, and up to a line that does not go on
/// with it.
pub proof fn printed_diagnostics_are_found(
    s: Seq<char>,
    at: int,
    d: DiagnosticView,
    first: Seq<char>,
    lines: Seq<Seq<char>>,
)
    requires
        distinct(d),
        printed(d.message, first, lines),
        word_at(s, at, d.text()),
        ({
            let end = at + d.text().len();
            end < s.len() ==> !goes_on(s.skip(end))
        }),
    ensures
        message_at(s, at) == (Some(MessageView::Diagnostic(d)), at + d.text().len()),
{
    lemma_distinct(s, at, d);
    if d.path is Some {
        diagnostics_are_read_back(s, at, d, first, lines);
    } else {
        diagnostics_without_a_place_are_read_back(s, at, d, first, lines);
    }
}

/// The texts of these diagnostics, one after the other.
pub open spec fn diagnostics_text(ds: Seq<DiagnosticView>) -> Seq<char>
    decreases ds.len(),
{
    if ds.len() == 0 {
        seq![]
    } else {
        ds[0].text() + diagnostics_text(ds.skip(1))
    }
}

/// Whether a diagnostic is as the compiler prints it.
pub open spec fn is_printed(d: DiagnosticView) -> bool {
    distinct(d) && exists|first: Seq<char>, lines: Seq<Seq<char>>| #[trigger] printed(d.message, first, lines)
}

/// All diagnostics that are printed one after the other are found, in order and with nothing else: none is lost, and
/// none runs into the next.
pub proof fn all_diagnostics_are_found(s: Seq<char>, at: int, ds: Seq<DiagnosticView>)
    requires
        0 <= at <= s.len(),
        s.skip(at) == diagnostics_text(ds),
        forall|i: int| 0 <= i < ds.len() ==> is_printed(#[trigger] ds[i]),
    ensures
        messages_from(s, at) == Seq::new(ds.len(), |i: int| MessageView::Diagnostic(ds[i])),
    decreases ds.len(),
{
    if ds.len() == 0 {
        assert(messages_from(s, at) =~= seq![]);
    } else {
        let d = ds[0];
        let rest = ds.skip(1);
        assert(is_printed(ds[0]));
        let (first, lines) = choose|first: Seq<char>, lines: Seq<Seq<char>>| #[trigger]
            printed(d.message, first, lines);
        let end = at + d.text().len();
        assert(word_at(s, at, diagnostics_text(ds))) by {
            assert(s.skip(at).take(diagnostics_text(ds).len() as int) =~= diagnostics_text(ds));
        }
        words_stand_one_after_the_other(s, at, d.text(), diagnostics_text(rest));
        assert(s.skip(end) =~= diagnostics_text(rest)) by {
            assert forall|k: int| 0 <= k < s.skip(end).len() implies s.skip(end)[k] == diagnostics_text(rest)[k] by {
                assert(s.skip(at)[d.text().len() + k] == diagnostics_text(ds)[d.text().len() + k]);
            }
        }
        if end < s.len() {
            assert(rest.len() > 0);
            assert(rest[0] == ds[1]);
            assert(is_printed(ds[1]));
            words_stand_one_after_the_other(s, end, rest[0].text(), diagnostics_text(rest.skip(1)));
            assert(s.skip(end).take(diagnostics_text(rest).len() as int) =~= diagnostics_text(rest));
            lemma_distinct(s, end, rest[0]);
        }
        printed_diagnostics_are_found(s, at, d, first, lines);
        assert forall|i: int| 0 <= i < rest.len() implies is_printed(#[trigger] rest[i]) by {
            assert(rest[i] == ds[i + 1]);
        }
        all_diagnostics_are_found(s, end, rest);
        assert(d.text().len() > 0) by {
            reveal_strlit(":");
        }
        assert(messages_from(s, at) =~= Seq::new(ds.len(), |i: int| MessageView::Diagnostic(ds[i])));
    }
}

/// The messages of a piece of output are those of its parts, in order: each part either is a message or a line that
/// belongs to none.
pub proof fn messages_are_those_of_the_parts(s: Seq<char>, at: int, i: int)
    requires
        0 <= at <= s.len(),
        0 <= i < segments_from(s, at).len(),
        segments_from(s, at)[i].message is Some,
    ensures
        messages_from(s, at).contains(segments_from(s, at)[i].message->0),
    decreases s.len() - at,
{
    if 0 <= at < s.len() && at < message_at(s, at).1 <= s.len() {
        let (message, end) = message_at(s, at);
        let later = segments_from(s, end);
        let all = messages_from(s, at);
        if i == 0 {
            assert(all[0] == message->0);
        } else {
            messages_are_those_of_the_parts(s, end, i - 1);
            assert(segments_from(s, at)[i] == later[i - 1]);
            let before = messages_from(s, end);
            let k = choose|k: int| 0 <= k < before.len() && before[k] == later[i - 1].message->0;
            if message is Some {
                assert(all[k + 1] == before[k]);
            } else {
                assert(all[k] == before[k]);
            }
        }
    }
}

/// Output holds an error exactly if one of its messages is a diagnostic of that severity; a failed summary alone is
/// none.
pub proof fn errors_are_diagnostics(messages: Seq<MessageView>)
    ensures
        has_error(messages) <==> exists|d: DiagnosticView|
            d.severity is Error && #[trigger] messages.contains(MessageView::Diagnostic(d)),
{
    if has_error(messages) {
        let i = choose|i: int| 0 <= i < messages.len() && is_error(#[trigger] messages[i]);
        assert(messages.contains(MessageView::Diagnostic(messages[i]->Diagnostic_0)));
    }
    if exists|d: DiagnosticView| d.severity is Error && #[trigger] messages.contains(MessageView::Diagnostic(d)) {
        let d = choose|d: DiagnosticView| d.severity is Error && #[trigger] messages.contains(MessageView::Diagnostic(d));
        let i = choose|i: int| 0 <= i < messages.len() && messages[i] == MessageView::Diagnostic(d);
        assert(is_error(messages[i]));
    }
}

} // verus!
