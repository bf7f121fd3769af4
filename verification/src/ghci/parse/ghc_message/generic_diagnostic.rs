//! Diagnostics as the compiler prints them: a place, a severity and a message, such as
//!
//! ```plain
//! src/MyModule.hs:4:11: error: [GHC-83865]
//!     • Couldn't match type ‘[Char]’ with ‘()’
//!   |
//! 4 | example = "example"
//!   |           ^^^^^^^^^
//! ```

use crate::ghci::parse::ghc_message::position::{parse_position_range, position_range_at, positions_are_read_back};
use crate::ghci::parse::ghc_message::{DiagnosticView, GhcDiagnostic, PositionRange, Severity};
use crate::ghci::parse::scan::{
    char_at, in_class, is_char_at, is_word_at, lemma_run_end, run_end, run_from, runs_end_with_their_class, word_at,
    words_stand_character_by_character, words_stand_one_after_the_other, CharClass,
};
use crate::path::FilePath;
use crate::text::{decimal, decimal_round_trip, from_chars, is_digit, to_chars};
use vstd::prelude::*;

verus! {

/// The end of the line that `at` is in, after its newline.
pub open spec fn line_end(s: Seq<char>, at: int) -> int {
    let end = run_end(s, at, CharClass::InLine);
    if end < s.len() {
        end + 1
    } else {
        end
    }
}

/// Whether the line at `at` goes on with a message: it is indented, or shows a line of source after
/// its number and a bar.
pub open spec fn continues_message(s: Seq<char>, at: int) -> bool {
    run_end(s, at, CharClass::Blank) > at || {
        let digits = run_end(s, at, CharClass::Digit);
        let blanks = run_end(s, digits, CharClass::Blank);
        digits > at && blanks > digits && char_at(s, blanks, '|')
    }
}

/// The end of the lines from `at` on that go on with a message.
pub open spec fn lines_end(s: Seq<char>, at: int) -> int
    decreases s.len() - at,
    via lines_end_decreases
{
    if 0 <= at < s.len() && continues_message(s, at) {
        lines_end(s, line_end(s, at))
    } else {
        at
    }
}

#[via_fn]
proof fn lines_end_decreases(s: Seq<char>, at: int) {
    if 0 <= at < s.len() {
        lemma_run_end(s, at, CharClass::InLine);
        lemma_run_end(s, at, CharClass::Blank);
        lemma_run_end(s, at, CharClass::Digit);
        if run_end(s, at, CharClass::InLine) == at {
            assert(s[at] == '\n');
            assert(run_end(s, at, CharClass::Blank) == at);
            assert(run_end(s, at, CharClass::Digit) == at);
        }
    }
}

/// The end of a message that starts at `at`: the rest of the line and the lines that go on with it.
pub open spec fn body_end(s: Seq<char>, at: int) -> int {
    lines_end(s, line_end(s, at))
}

/// A severity and the colon after it.
pub open spec fn severity_at(s: Seq<char>, at: int) -> Option<(Severity, int)> {
    if word_at(s, at, "warning:"@) {
        Some((Severity::Warning, at + "warning:"@.len()))
    } else if word_at(s, at, "error:"@) {
        Some((Severity::Error, at + "error:"@.len()))
    } else {
        None
    }
}

/// What follows the place of a diagnostic: a severity and a message.
pub open spec fn severity_and_body_at(s: Seq<char>, at: int) -> Option<(Severity, Seq<char>, int)> {
    let blanks = run_end(s, at, CharClass::Blank);
    if blanks == at {
        None
    } else {
        match severity_at(s, blanks) {
            Some((severity, end)) => {
                let start = run_end(s, end, CharClass::Blank);
                let end = body_end(s, start);
                Some((severity, s.subrange(start, end), end))
            },
            None => None,
        }
    }
}

/// The diagnostic that starts at `at`, and where it ends. Its place is a path, a colon and perhaps a
/// range of positions.
pub open spec fn generic_at(s: Seq<char>, at: int) -> Option<(DiagnosticView, int)> {
    let colon = run_end(s, at, CharClass::PathChar);
    if colon == at || !char_at(s, colon, ':') {
        None
    } else {
        let path = s.subrange(at, colon);
        let (span, after) = match position_range_at(s, colon + 1) {
            Some((span, end)) => (span, end),
            None => (PositionRange::zero(), colon + 1),
        };
        match severity_and_body_at(s, after) {
            Some((severity, message, end)) => Some(
                (DiagnosticView { severity, path: Some(path), span, message }, end),
            ),
            None => None,
        }
    }
}

/// The diagnostic without a known place that starts at `at`, and where it ends.
pub open spec fn no_location_at(s: Seq<char>, at: int) -> Option<(DiagnosticView, int)> {
    if word_at(s, at, "<no location info>:"@) {
        match severity_and_body_at(s, at + "<no location info>:"@.len()) {
            Some((severity, message, end)) => Some(
                (
                    DiagnosticView { severity, path: None, span: PositionRange::zero(), message },
                    end,
                ),
            ),
            None => None,
        }
    } else {
        None
    }
}

/// Finds the end of the line that `at` is in.
pub fn end_of_line(v: &Vec<char>, at: usize) -> (r: usize)
    requires
        at <= v@.len(),
    ensures
        r == line_end(v@, at as int),
        at <= r <= v@.len(),
        at < v@.len() ==> at < r,
{
    let end = run_from(v, at, CharClass::InLine);
    if end < v.len() {
        end + 1
    } else {
        end
    }
}

fn is_continuation(v: &Vec<char>, at: usize) -> (r: bool)
    requires
        at <= v@.len(),
    ensures
        r == continues_message(v@, at as int),
{
    if run_from(v, at, CharClass::Blank) > at {
        return true;
    }
    let digits = run_from(v, at, CharClass::Digit);
    let blanks = run_from(v, digits, CharClass::Blank);
    digits > at && blanks > digits && is_char_at(v, blanks, '|')
}

fn end_of_body(v: &Vec<char>, at: usize) -> (r: usize)
    requires
        at <= v@.len(),
    ensures
        r == body_end(v@, at as int),
        at <= r <= v@.len(),
        at < v@.len() ==> at < r,
{
    let mut end = end_of_line(v, at);
    while end < v.len() && is_continuation(v, end)
        invariant
            at <= end <= v@.len(),
            at < v@.len() ==> at < end,
            body_end(v@, at as int) == lines_end(v@, end as int),
        decreases v@.len() - end,
    {
        end = end_of_line(v, end);
    }
    end
}

fn read_severity(v: &Vec<char>, at: usize) -> (r: Option<(Severity, usize)>)
    requires
        at <= v@.len(),
    ensures
        match r {
            Some((severity, end)) => severity_at(v@, at as int) == Some((severity, end as int)) && at
                < end <= v@.len(),
            None => severity_at(v@, at as int) is None,
        },
{
    proof {
        reveal_strlit("warning:");
        reveal_strlit("error:");
    }
    if is_word_at(v, at, "warning:") {
        Some((Severity::Warning, at + 8))
    } else if is_word_at(v, at, "error:") {
        Some((Severity::Error, at + 6))
    } else {
        None
    }
}

fn read_severity_and_body(v: &Vec<char>, at: usize) -> (r: Option<(Severity, String, usize)>)
    requires
        at <= v@.len(),
    ensures
        match r {
            Some((severity, message, end)) => severity_and_body_at(v@, at as int) == Some(
                (severity, message@, end as int),
            ) && at < end <= v@.len(),
            None => severity_and_body_at(v@, at as int) is None,
        },
{
    let blanks = run_from(v, at, CharClass::Blank);
    if blanks == at {
        return None;
    }
    match read_severity(v, blanks) {
        Some((severity, end)) => {
            let start = run_from(v, end, CharClass::Blank);
            let end = end_of_body(v, start);
            Some((severity, from_chars(v, start, end), end))
        },
        None => None,
    }
}

/// Reads the diagnostic that starts at `at`.
pub fn generic_diagnostic(v: &Vec<char>, at: usize) -> (r: Option<(GhcDiagnostic, usize)>)
    requires
        at <= v@.len(),
    ensures
        match r {
            Some((diagnostic, end)) => generic_at(v@, at as int) == Some((diagnostic@, end as int)) && at
                < end <= v@.len(),
            None => generic_at(v@, at as int) is None,
        },
{
    let colon = run_from(v, at, CharClass::PathChar);
    if colon == at || !is_char_at(v, colon, ':') {
        return None;
    }
    let path = FilePath::new(from_chars(v, at, colon));
    let (span, after) = match parse_position_range(v, colon + 1) {
        Some((span, end)) => (span, end),
        None => (PositionRange::default(), colon + 1),
    };
    match read_severity_and_body(v, after) {
        Some((severity, message, end)) => Some(
            (GhcDiagnostic { severity, path: Some(path), span, message }, end),
        ),
        None => None,
    }
}

/// Reads the diagnostic without a known place that starts at `at`.
pub fn no_location_diagnostic(v: &Vec<char>, at: usize) -> (r: Option<(GhcDiagnostic, usize)>)
    requires
        at <= v@.len(),
    ensures
        match r {
            Some((diagnostic, end)) => no_location_at(v@, at as int) == Some((diagnostic@, end as int))
                && at < end <= v@.len(),
            None => no_location_at(v@, at as int) is None,
        },
{
    proof {
        reveal_strlit("<no location info>:");
    }
    if !is_word_at(v, at, "<no location info>:") {
        return None;
    }
    match read_severity_and_body(v, at + 19) {
        Some((severity, message, end)) => Some(
            (
                GhcDiagnostic { severity, path: None, span: PositionRange::default(), message },
                end,
            ),
        ),
        None => None,
    }
}

/// Reads a text that is one diagnostic and nothing else.
pub fn parse_generic_diagnostic(input: &str) -> (r: Option<GhcDiagnostic>)
    ensures
        match r {
            Some(diagnostic) => generic_at(input@, 0) == Some((diagnostic@, input@.len() as int)),
            None => !(generic_at(input@, 0) is Some && (generic_at(input@, 0)->0).1 == input@.len()),
        },
{
    let v = to_chars(input);
    match generic_diagnostic(&v, 0) {
        Some((diagnostic, end)) => if end == v.len() {
            Some(diagnostic)
        } else {
            None
        },
        None => None,
    }
}

/// Whether a line goes on with the message before it: it starts with a space or a tab, or with digits, then
/// spaces or tabs, then a bar.
pub open spec fn goes_on(line: Seq<char>) -> bool {
    ||| line.len() > 0 && (line[0] == ' ' || line[0] == '\t')
    ||| exists|i: int, j: int|
        0 < i < j < line.len() && #[trigger] numbered(line, i, j)
}

/// Whether a line starts with `i` digits, then spaces or tabs up to a bar at `j`.
pub open spec fn numbered(line: Seq<char>, i: int, j: int) -> bool {
    &&& forall|k: int| 0 <= k < i ==> '0' <= #[trigger] line[k] <= '9'
    &&& forall|k: int| i <= k < j ==> #[trigger] line[k] == ' ' || line[k] == '\t'
    &&& line[j] == '|'
}

/// The line at a place belongs to the message before it exactly if it is indented or numbered, however many
/// digits the number has.
pub proof fn messages_go_on_over_these_lines(s: Seq<char>, at: int)
    requires
        0 <= at <= s.len(),
    ensures
        continues_message(s, at) <==> goes_on(s.skip(at)),
{
    let line = s.skip(at);
    lemma_run_end(s, at, CharClass::Blank);
    lemma_run_end(s, at, CharClass::Digit);
    let digits = run_end(s, at, CharClass::Digit);
    lemma_run_end(s, digits, CharClass::Blank);
    let blanks = run_end(s, digits, CharClass::Blank);
    if continues_message(s, at) {
        if run_end(s, at, CharClass::Blank) > at {
            assert(in_class(s[at], CharClass::Blank));
        } else {
            assert forall|k: int| 0 <= k < digits - at implies '0' <= #[trigger] line[k] <= '9' by {
                assert(in_class(s[at + k], CharClass::Digit));
            }
            assert forall|k: int| digits - at <= k < blanks - at implies #[trigger] line[k] == ' ' || line[k]
                == '\t' by {
                assert(in_class(s[at + k], CharClass::Blank));
            }
            assert(numbered(line, digits - at, blanks - at));
        }
    }
    if goes_on(line) {
        if line[0] == ' ' || line[0] == '\t' {
            assert(in_class(s[at], CharClass::Blank));
        } else {
            let (i, j) = choose|i: int, j: int| 0 < i < j < line.len() && #[trigger] numbered(line, i, j);
            lemma_numbered(s, at, i, j);
        }
    }
}

proof fn lemma_numbered(s: Seq<char>, at: int, i: int, j: int)
    requires
        0 <= at,
        0 < i < j < s.len() - at,
        numbered(s.skip(at), i, j),
    ensures
        continues_message(s, at),
{
    let line = s.skip(at);
    assert forall|k: int| at <= k < at + i implies in_class(#[trigger] s[k], CharClass::Digit) by {
        assert(s[k] == line[k - at]);
    }
    assert forall|k: int| at + i <= k < at + j implies in_class(#[trigger] s[k], CharClass::Blank) by {
        assert(s[k] == line[k - at]);
    }
    assert(in_class(s[at + i], CharClass::Blank));
    assert(s[at + j] == line[j]);
    runs_end_with_their_class(s, at, CharClass::Digit, at + i);
    runs_end_with_their_class(s, at + i, CharClass::Blank, at + j);
}

/// A line of source is shown after its number, whichever it is, blanks and a bar. It belongs to the message before
/// it.
pub proof fn excerpts_belong_to_their_message(n: nat, blanks: Seq<char>, rest: Seq<char>)
    requires
        blanks.len() > 0,
        forall|k: int| 0 <= k < blanks.len() ==> #[trigger] blanks[k] == ' ' || blanks[k] == '\t',
    ensures
        goes_on(decimal(n) + blanks + seq!['|'] + rest),
        continues_message(decimal(n) + blanks + seq!['|'] + rest, 0),
{
    let line = decimal(n) + blanks + seq!['|'] + rest;
    let i = decimal(n).len() as int;
    let j = i + blanks.len();
    decimal_round_trip(n);
    assert forall|k: int| 0 <= k < i implies '0' <= #[trigger] line[k] <= '9' by {
        assert(line[k] == decimal(n)[k]);
        assert(is_digit(decimal(n)[k]));
    }
    assert forall|k: int| i <= k < j implies #[trigger] line[k] == ' ' || line[k] == '\t' by {
        assert(line[k] == blanks[k - i]);
    }
    assert(numbered(line, i, j));
    assert(line.skip(0) =~= line);
    messages_go_on_over_these_lines(line, 0);
}

/// These lines, each with its newline.
pub open spec fn lines_text(lines: Seq<Seq<char>>) -> Seq<char>
    decreases lines.len(),
{
    if lines.len() == 0 {
        seq![]
    } else {
        lines[0] + seq!['\n'] + lines_text(lines.skip(1))
    }
}

/// Whether a text is one line without its newline.
pub open spec fn one_line(line: Seq<char>) -> bool {
    forall|k: int| 0 <= k < line.len() ==> #[trigger] line[k] != '\n'
}

/// The end of a line is after its newline.
pub proof fn lines_end_with_their_newline(s: Seq<char>, at: int, line: Seq<char>)
    requires
        one_line(line),
        word_at(s, at, line + seq!['\n']),
    ensures
        line_end(s, at) == at + line.len() + 1,
{
    words_stand_character_by_character(s, at, line + seq!['\n']);
    let end = at + line.len();
    assert((line + seq!['\n'])[line.len() as int] == '\n');
    assert(s[end] == '\n');
    assert forall|k: int| at <= k < end implies in_class(#[trigger] s[k], CharClass::InLine) by {
        assert((line + seq!['\n'])[k - at] == line[k - at]);
        assert(s[at + (k - at)] == (line + seq!['\n'])[k - at]);
    }
    runs_end_with_their_class(s, at, CharClass::InLine, end);
}

proof fn lemma_goes_on(s: Seq<char>, at: int, line: Seq<char>)
    requires
        word_at(s, at, line),
        goes_on(line),
    ensures
        continues_message(s, at),
{
    words_stand_character_by_character(s, at, line);
    let rest = s.skip(at);
    assert forall|k: int| 0 <= k < line.len() implies rest[k] == #[trigger] line[k] by {
        assert(s[at + k] == line[k]);
    }
    if line[0] == ' ' || line[0] == '\t' {
        assert(rest[0] == line[0]);
    } else {
        let (i, j) = choose|i: int, j: int| 0 < i < j < line.len() && #[trigger] numbered(line, i, j);
        assert forall|k: int| 0 <= k < i implies '0' <= #[trigger] rest[k] <= '9' by {
            assert(rest[k] == line[k]);
        }
        assert forall|k: int| i <= k < j implies #[trigger] rest[k] == ' ' || rest[k] == '\t' by {
            assert(rest[k] == line[k]);
        }
        assert(rest[j] == line[j]);
        assert(numbered(rest, i, j));
    }
    messages_go_on_over_these_lines(s, at);
}

/// A message takes all the indented and numbered lines that follow it, up to a line that is neither or to the end
/// of the text.
pub proof fn messages_take_their_lines(s: Seq<char>, at: int, lines: Seq<Seq<char>>)
    requires
        forall|i: int| 0 <= i < lines.len() ==> one_line(#[trigger] lines[i]) && goes_on(lines[i]),
        word_at(s, at, lines_text(lines)),
        ({
            let end = at + lines_text(lines).len();
            end < s.len() ==> !goes_on(s.skip(end))
        }),
    ensures
        lines_end(s, at) == at + lines_text(lines).len(),
    decreases lines.len(),
{
    words_stand_character_by_character(s, at, lines_text(lines));
    if lines.len() == 0 {
        messages_go_on_over_these_lines(s, at);
    } else {
        let first = lines[0] + seq!['\n'];
        let rest = lines.skip(1);
        assert(goes_on(lines[0]) && one_line(lines[0]));
        words_stand_one_after_the_other(s, at, first, lines_text(rest));
        words_stand_one_after_the_other(s, at, lines[0], seq!['\n']);
        lemma_goes_on(s, at, lines[0]);
        lines_end_with_their_newline(s, at, lines[0]);
        assert forall|i: int| 0 <= i < rest.len() implies one_line(#[trigger] rest[i]) && goes_on(rest[i]) by {
            assert(rest[i] == lines[i + 1]);
        }
        messages_take_their_lines(s, at + first.len(), rest);
    }
}

/// Whether a message is what the compiler prints: a first line that may be empty and does not start with a
/// blank, and lines that go on with it.
pub open spec fn printed(message: Seq<char>, first: Seq<char>, lines: Seq<Seq<char>>) -> bool {
    &&& message == first + seq!['\n'] + lines_text(lines)
    &&& one_line(first)
    &&& first.len() > 0 ==> first[0] != ' ' && first[0] != '\t'
    &&& forall|i: int| 0 <= i < lines.len() ==> one_line(#[trigger] lines[i]) && goes_on(lines[i])
}

/// The severity and the message as they are shown after the place.
pub open spec fn shown_after_place(d: DiagnosticView) -> Seq<char> {
    " "@ + d.severity.word() + ":"@ + (if d.message[0] == '\n' {
        d.message
    } else {
        " "@ + d.message
    })
}

proof fn lemma_severity(s: Seq<char>, at: int, severity: Severity)
    requires
        word_at(s, at, severity.word() + ":"@),
    ensures
        severity_at(s, at) == Some((severity, at + severity.word().len() + 1)),
        severity.word().len() > 0,
        severity.word()[0] == 'w' || severity.word()[0] == 'e',
{
    reveal_strlit("warning:");
    reveal_strlit("error:");
    reveal_strlit("warning");
    reveal_strlit("error");
    reveal_strlit(":");
    assert("warning"@ + ":"@ =~= "warning:"@);
    assert("error"@ + ":"@ =~= "error:"@);
    words_stand_character_by_character(s, at, "warning:"@);
    words_stand_character_by_character(s, at, "error:"@);
    if severity == Severity::Error {
        assert(s[at + 0] == "error:"@[0]);
        if word_at(s, at, "warning:"@) {
            assert(s[at + 0] == "warning:"@[0]);
        }
    }
}

/// The severity of a diagnostic and the whole of its message are read back from what is shown after its place.
pub proof fn messages_are_read_back(
    s: Seq<char>,
    at: int,
    d: DiagnosticView,
    first: Seq<char>,
    lines: Seq<Seq<char>>,
)
    requires
        printed(d.message, first, lines),
        word_at(s, at, shown_after_place(d)),
        ({
            let end = at + shown_after_place(d).len();
            end < s.len() ==> !goes_on(s.skip(end))
        }),
    ensures
        severity_and_body_at(s, at) == Some((d.severity, d.message, at + shown_after_place(d).len())),
{
    reveal_strlit(" ");
    reveal_strlit(":");
    let word = d.severity.word() + ":"@;
    let gap: Seq<char> = if d.message[0] == '\n' {
        seq![]
    } else {
        " "@
    };
    let start = at + 1 + word.len() + gap.len();
    assert(shown_after_place(d) =~= " "@ + (word + (gap + d.message)));
    words_stand_one_after_the_other(s, at, " "@, word + (gap + d.message));
    words_stand_one_after_the_other(s, at + 1, word, gap + d.message);
    words_stand_one_after_the_other(s, at + 1 + word.len(), gap, d.message);
    words_stand_character_by_character(s, at, " "@);
    words_stand_character_by_character(s, at + 1, word);
    words_stand_character_by_character(s, at + 1 + word.len(), gap);
    words_stand_character_by_character(s, start, d.message);
    lemma_severity(s, at + 1, d.severity);
    assert(s[at + 0] == " "@[0]);
    assert(s[at + 1 + 0] == word[0]);
    runs_end_with_their_class(s, at, CharClass::Blank, at + 1);
    assert(d.message[0] == (if first.len() > 0 {
        first[0]
    } else {
        '\n'
    }));
    assert(s[start + 0] == d.message[0]);
    assert forall|k: int| at + 1 + word.len() <= k < start implies in_class(#[trigger] s[k], CharClass::Blank) by {
        assert(s[at + 1 + word.len() + 0] == gap[0]);
    }
    runs_end_with_their_class(s, at + 1 + word.len(), CharClass::Blank, start);
    words_stand_one_after_the_other(s, start, first + seq!['\n'], lines_text(lines));
    lines_end_with_their_newline(s, start, first);
    messages_take_their_lines(s, start + first.len() + 1, lines);
    let end = start + d.message.len();
    assert(s.subrange(start, end) =~= d.message) by {
        assert forall|k: int| 0 <= k < d.message.len() implies s.subrange(start, end)[k] == d.message[k] by {
            assert(s[start + k] == d.message[k]);
        }
    }
}

proof fn lemma_path(s: Seq<char>, at: int, path: Seq<char>)
    requires
        path.len() > 0,
        forall|k: int| 0 <= k < path.len() ==> #[trigger] path[k] != ':' && path[k] != '\n',
        word_at(s, at, path + ":"@),
    ensures
        run_end(s, at, CharClass::PathChar) == at + path.len(),
        char_at(s, at + path.len(), ':'),
        s.subrange(at, at + path.len()) == path,
{
    reveal_strlit(":");
    let colon = at + path.len();
    words_stand_one_after_the_other(s, at, path, ":"@);
    words_stand_character_by_character(s, at, path);
    words_stand_character_by_character(s, colon, ":"@);
    assert(s[colon + 0] == ":"@[0]);
    assert forall|k: int| at <= k < colon implies in_class(#[trigger] s[k], CharClass::PathChar) by {
        assert(s[at + (k - at)] == path[k - at]);
    }
    runs_end_with_their_class(s, at, CharClass::PathChar, colon);
    assert(s.subrange(at, colon) =~= path) by {
        assert forall|k: int| 0 <= k < path.len() implies s.subrange(at, colon)[k] == path[k] by {
            assert(s[at + k] == path[k]);
        }
    }
}

/// The positions of a diagnostic as they are shown after its path.
pub open spec fn shown_positions(d: DiagnosticView) -> Seq<char> {
    if d.span == PositionRange::zero() {
        seq![]
    } else {
        d.span.text() + ":"@
    }
}

proof fn lemma_text(d: DiagnosticView)
    requires
        d.path is Some,
        d.message.len() > 0,
    ensures
        d.text() == (d.path->0 + ":"@) + (shown_positions(d) + shown_after_place(d)),
{
    assert(d.text() =~= (d.path->0 + ":"@) + (shown_positions(d) + shown_after_place(d)));
}

proof fn lemma_positions(s: Seq<char>, at: int, d: DiagnosticView)
    requires
        word_at(s, at, shown_positions(d)),
        word_at(s, at + shown_positions(d).len(), shown_after_place(d)),
    ensures
        d.span == PositionRange::zero() ==> position_range_at(s, at) is None,
        d.span != PositionRange::zero() ==> position_range_at(s, at) == Some(
            (d.span, at + shown_positions(d).len()),
        ),
{
    reveal_strlit(" ");
    reveal_strlit(":");
    if d.span == PositionRange::zero() {
        let shown = shown_after_place(d);
        words_stand_character_by_character(s, at, shown);
        assert(shown[0] == ' ');
        assert(s[at + 0] == shown[0]);
        assert(!in_class(s[at], CharClass::Digit));
        assert(run_end(s, at, CharClass::Digit) == at);
    } else {
        positions_are_read_back(s, at, d.span);
    }
}

/// A diagnostic with a place is read back from its text, whatever stands before it, whatever the number of the
/// source line that it shows, and up to a line that does not go on with it: its path, its positions, its severity
/// and all of its message.
pub proof fn diagnostics_are_read_back(
    s: Seq<char>,
    at: int,
    d: DiagnosticView,
    first: Seq<char>,
    lines: Seq<Seq<char>>,
)
    requires
        d.path is Some,
        d.path->0.len() > 0,
        forall|k: int| 0 <= k < d.path->0.len() ==> #[trigger] d.path->0[k] != ':' && d.path->0[k] != '\n',
        printed(d.message, first, lines),
        word_at(s, at, d.text()),
        ({
            let end = at + d.text().len();
            end < s.len() ==> !goes_on(s.skip(end))
        }),
    ensures
        generic_at(s, at) == Some((d, at + d.text().len())),
{
    let path = d.path->0;
    let place = shown_positions(d);
    let shown = shown_after_place(d);
    let after = at + path.len() + 1;
    assert((path + ":"@).len() == path.len() + 1) by {
        reveal_strlit(":");
    }
    lemma_text(d);
    words_stand_one_after_the_other(s, at, path + ":"@, place + shown);
    words_stand_one_after_the_other(s, after, place, shown);
    lemma_path(s, at, path);
    lemma_positions(s, after, d);
    messages_are_read_back(s, after + place.len(), d, first, lines);
}

/// A diagnostic without a place is read back from its text in the same way.
pub proof fn diagnostics_without_a_place_are_read_back(
    s: Seq<char>,
    at: int,
    d: DiagnosticView,
    first: Seq<char>,
    lines: Seq<Seq<char>>,
)
    requires
        d.path is None,
        d.span == PositionRange::zero(),
        printed(d.message, first, lines),
        word_at(s, at, d.text()),
        ({
            let end = at + d.text().len();
            end < s.len() ==> !goes_on(s.skip(end))
        }),
    ensures
        no_location_at(s, at) == Some((d, at + d.text().len())),
{
    let shown = shown_after_place(d);
    assert(d.text() =~= "<no location info>:"@ + shown);
    words_stand_one_after_the_other(s, at, "<no location info>:"@, shown);
    messages_are_read_back(s, at + "<no location info>:"@.len(), d, first, lines);
}

} // verus!
