//! The standard error of a session.

use crate::ghci::parse::ghc_message::messages::{has_error, line_has_error_diagnostic, messages_of};
use crate::text::{
    find_char, find_from, from_chars, lemma_find_char, lemma_find_char_unique, matches_at, same_text, to_chars,
};
use vstd::prelude::*;

verus! {

/// The first place at or after `at` where `word` stands in `s`, or -1.
pub open spec fn place_of_word(s: Seq<char>, word: Seq<char>, at: int) -> int
    decreases s.len() - at + 1,
{
    if at < 0 || at + word.len() > s.len() {
        -1
    } else if s.subrange(at, at + word.len()) == word {
        at
    } else {
        place_of_word(s, word, at + 1)
    }
}

/// A line without the first marker in it, if there is one.
pub open spec fn unmarked(line: Seq<char>, marker: Seq<char>) -> Option<Seq<char>> {
    let at = place_of_word(line, marker, 0);
    if at < 0 {
        None
    } else {
        Some(line.take(at) + line.skip(at + marker.len()))
    }
}

/// A line without the first marker in it, if there is one. A diagnostic that is printed at the same
/// time may stand around the marker.
pub fn line_without_marker(line: &str, marker: &str) -> (r: Option<String>)
    ensures
        match r {
            Some(rest) => unmarked(line@, marker@) == Some(rest@),
            None => unmarked(line@, marker@) is None,
        },
{
    let v = to_chars(line);
    let w = to_chars(marker);
    let n: usize = v.len();
    let mut at: usize = 0;
    while at <= n && w.len() <= n - at
        invariant
            n == v@.len(),
            v@ == line@,
            w@ == marker@,
            at <= n + 1,
            n == v.len(),
            place_of_word(line@, marker@, 0) == place_of_word(line@, marker@, at as int),
        decreases n + 1 - at,
    {
        proof {
            assert(line@.skip(at as int).take(marker@.len() as int) =~= line@.subrange(
                at as int,
                at + marker@.len(),
            ));
        }
        if matches_at(&v, at, &w) {
            let mut rest = from_chars(&v, 0, at);
            rest.append(from_chars(&v, at + w.len(), n).as_str());
            proof {
                assert(line@.take(at as int) =~= line@.subrange(0, at as int));
                assert(line@.skip(at + marker@.len()) =~= line@.subrange(at + marker@.len(), n as int));
            }
            return Some(rest);
        }
        if at == n {
            proof {
                assert(place_of_word(line@, marker@, n + 1) == -1);
            }
            return None;
        }
        at = at + 1;
    }
    None
}

/// What is asked of the task that reads standard error.
#[derive(Debug)]
pub enum StderrEvent {
    /// Drop what was read.
    ClearBuffer,
    /// Show what is read or hide it. `replay_buffer` tells whether what was hidden is shown now.
    SetForwarding { enabled: bool, replay_buffer: bool },
    /// Tell of the next error diagnostic.
    InterruptOnError,
    /// Do not tell of error diagnostics.
    DisarmInterruptOnError,
    /// Read through this marker and return what was read.
    GetBufferThrough { marker: String },
    /// Read to the end and return what was read.
    DrainBuffer,
}

/// What is to be done for a request.
#[derive(Debug)]
pub enum StderrReply {
    /// Write this, and say that the request is done.
    Acknowledge { write: String },
    /// Nothing.
    Nothing,
    /// Say that the marker is waited for, and read lines until it comes.
    ReadThrough(String),
    /// Read lines to the end.
    Drain,
}

/// The standard error of a session, as far as it was read.
#[derive(Debug)]
pub struct GhciStderr {
    /// What was read since it was last dropped.
    pub buffer: String,
    /// Whether what is read is shown.
    pub forwarding: bool,
    /// What was read while it was not shown.
    pub suppressed_buffer: String,
    /// Whether the next error diagnostic is told of.
    pub interrupt_on_error: bool,
}

/// The model of a [`GhciStderr`].
pub struct StderrView {
    pub buffer: Seq<char>,
    pub forwarding: bool,
    pub suppressed: Seq<char>,
    pub armed: bool,
}

impl View for GhciStderr {
    type V = StderrView;

    open spec fn view(&self) -> StderrView {
        StderrView {
            buffer: self.buffer@,
            forwarding: self.forwarding,
            suppressed: self.suppressed_buffer@,
            armed: self.interrupt_on_error,
        }
    }
}

impl StderrView {
    /// This after another line was read.
    pub open spec fn with_line(self, line: Seq<char>) -> StderrView {
        let full = line.push('\n');
        StderrView {
            buffer: self.buffer + full,
            suppressed: if self.forwarding {
                self.suppressed
            } else {
                self.suppressed + full
            },
            armed: self.armed && !has_error(messages_of(full)),
            ..self
        }
    }

    /// This after it was asked to show or hide what is read.
    pub open spec fn with_forwarding(self, enabled: bool) -> StderrView {
        StderrView {
            forwarding: enabled,
            suppressed: if enabled != self.forwarding {
                seq![]
            } else {
                self.suppressed
            },
            ..self
        }
    }

    /// What is written when it is asked to show or hide what is read.
    pub open spec fn replayed(self, enabled: bool, replay: bool) -> Seq<char> {
        if enabled && !self.forwarding && replay {
            self.suppressed
        } else {
            seq![]
        }
    }
}

/// What is to be done for a line: what is to be written, and whether to tell of an error.
#[derive(Debug)]
pub struct Ingested {
    pub write: String,
    pub error: bool,
}

fn no_text() -> (r: String)
    ensures
        r@ == Seq::<char>::empty(),
{
    let r = String::new();
    proof {
        assert(r@ =~= Seq::<char>::empty());
    }
    r
}

impl GhciStderr {
    /// Nothing was read yet, and what is read is shown.
    pub fn new() -> (r: Self)
        ensures
            r@ == (StderrView { buffer: seq![], forwarding: true, suppressed: seq![], armed: false }),
    {
        GhciStderr {
            buffer: no_text(),
            forwarding: true,
            suppressed_buffer: no_text(),
            interrupt_on_error: false,
        }
    }

    /// Takes in a line, without its end, and says what is to be done for it.
    pub fn ingest_line(&mut self, line: &str) -> (r: Ingested)
        ensures
            final(self)@ == old(self)@.with_line(line@),
            r.error == (old(self)@.armed && has_error(messages_of(line@.push('\n')))),
            r.write@ == (if old(self)@.forwarding {
                line@.push('\n')
            } else {
                seq![]
            }),
    {
        let mut full = line.to_owned();
        full.push('\n');
        let mut error = false;
        if line_has_error_diagnostic(full.as_str()) {
            error = self.interrupt_on_error;
            self.interrupt_on_error = false;
        }
        self.buffer.append(full.as_str());
        if self.forwarding {
            Ingested { write: full, error }
        } else {
            self.suppressed_buffer.append(full.as_str());
            Ingested { write: no_text(), error }
        }
    }

    /// Takes a request and says what is to be done for it.
    pub fn dispatch(&mut self, event: StderrEvent) -> (r: StderrReply)
        ensures
            match event {
                StderrEvent::ClearBuffer => final(self)@ == (StderrView { buffer: seq![], ..old(self)@ })
                    && r is Acknowledge && r->write@ == Seq::<char>::empty(),
                StderrEvent::SetForwarding { enabled, replay_buffer } => final(self)@
                    == old(self)@.with_forwarding(enabled) && r is Acknowledge && r->write@
                    == old(self)@.replayed(enabled, replay_buffer),
                StderrEvent::InterruptOnError => final(self)@ == (StderrView { armed: true, ..old(self)@ })
                    && r is Nothing,
                StderrEvent::DisarmInterruptOnError => final(self)@ == (StderrView {
                    armed: false,
                    ..old(self)@
                }) && r is Nothing,
                StderrEvent::GetBufferThrough { marker } => final(self)@ == old(self)@ && r
                    == StderrReply::ReadThrough(marker),
                StderrEvent::DrainBuffer => final(self)@ == old(self)@ && r is Drain,
            },
    {
        match event {
            StderrEvent::ClearBuffer => {
                self.buffer = no_text();
                StderrReply::Acknowledge { write: no_text() }
            },
            StderrEvent::SetForwarding { enabled, replay_buffer } => {
                let mut write = no_text();
                if enabled != self.forwarding {
                    std::mem::swap(&mut write, &mut self.suppressed_buffer);
                    if !enabled || !replay_buffer {
                        write = no_text();
                    }
                }
                self.forwarding = enabled;
                StderrReply::Acknowledge { write }
            },
            StderrEvent::InterruptOnError => {
                self.interrupt_on_error = true;
                StderrReply::Nothing
            },
            StderrEvent::DisarmInterruptOnError => {
                self.interrupt_on_error = false;
                StderrReply::Nothing
            },
            StderrEvent::GetBufferThrough { marker } => StderrReply::ReadThrough(marker),
            StderrEvent::DrainBuffer => StderrReply::Drain,
        }
    }

    /// Takes in a line while a marker is waited for, and says what is to be done for it and whether
    /// the marker came. What stands around the marker is taken in as a line.
    pub fn get_buffer_through(&mut self, marker: &str, line: &str) -> (r: (Ingested, bool))
        ensures
            match unmarked(line@, marker@) {
                Some(rest) => {
                    &&& r.1
                    &&& if rest.len() > 0 {
                        final(self)@ == old(self)@.with_line(rest) && r.0.error == (old(self)@.armed
                            && has_error(messages_of(rest.push('\n')))) && r.0.write@ == (if old(
                            self,
                        )@.forwarding {
                            rest.push('\n')
                        } else {
                            seq![]
                        })
                    } else {
                        final(self)@ == old(self)@ && !r.0.error && r.0.write@ == Seq::<char>::empty()
                    }
                },
                None => !r.1 && final(self)@ == old(self)@.with_line(line@) && r.0.error == (old(self)@.armed
                    && has_error(messages_of(line@.push('\n')))) && r.0.write@ == (if old(self)@.forwarding {
                    line@.push('\n')
                } else {
                    seq![]
                }),
            },
    {
        match line_without_marker(line, marker) {
            Some(rest) => {
                if rest.as_str().unicode_len() > 0 {
                    (self.ingest_line(rest.as_str()), true)
                } else {
                    (Ingested { write: no_text(), error: false }, true)
                }
            },
            None => (self.ingest_line(line), false),
        }
    }
}

/// The lines, each with its end, one after the other.
pub open spec fn lines_text(lines: Seq<Seq<char>>) -> Seq<char>
    decreases lines.len(),
{
    if lines.len() == 0 {
        seq![]
    } else {
        lines_text(lines.drop_last()) + lines.last().push('\n')
    }
}

/// This after these lines were read.
pub open spec fn with_lines(state: StderrView, lines: Seq<Seq<char>>) -> StderrView
    decreases lines.len(),
{
    if lines.len() == 0 {
        state
    } else {
        with_lines(state, lines.drop_last()).with_line(lines.last())
    }
}

/// Everything that is read is kept, and what is read while it is hidden is kept apart.
pub proof fn lines_are_kept(state: StderrView, lines: Seq<Seq<char>>)
    ensures
        with_lines(state, lines).buffer == state.buffer + lines_text(lines),
        with_lines(state, lines).forwarding == state.forwarding,
        with_lines(state, lines).suppressed == (if state.forwarding {
            state.suppressed
        } else {
            state.suppressed + lines_text(lines)
        }),
    decreases lines.len(),
{
    if lines.len() == 0 {
        assert(state.buffer + lines_text(lines) =~= state.buffer);
        assert(state.suppressed + lines_text(lines) =~= state.suppressed);
    } else {
        lines_are_kept(state, lines.drop_last());
        let before = lines_text(lines.drop_last());
        let last = lines.last().push('\n');
        assert((state.buffer + before) + last =~= state.buffer + (before + last));
        assert((state.suppressed + before) + last =~= state.suppressed + (before + last));
    }
}

/// What is read between hiding and showing is written in full, and in order, if it is replayed, and
/// not at all if it is not. Either way it can be parsed.
pub proof fn hidden_lines_are_replayed(state: StderrView, lines: Seq<Seq<char>>, replay: bool)
    requires
        state.forwarding,
    ensures
        ({
            let hidden = with_lines(state.with_forwarding(false), lines);
            &&& hidden.replayed(true, replay) == (if replay {
                lines_text(lines)
            } else {
                seq![]
            })
            &&& hidden.with_forwarding(true).suppressed.len() == 0
            &&& hidden.with_forwarding(true).buffer == state.buffer + lines_text(lines)
        }),
{
    lines_are_kept(state.with_forwarding(false), lines);
    assert(Seq::<char>::empty() + lines_text(lines) =~= lines_text(lines));
}

proof fn lemma_place(s: Seq<char>, word: Seq<char>, at: int)
    requires
        0 <= at,
    ensures
        ({
            let p = place_of_word(s, word, at);
            p >= 0 ==> at <= p && p + word.len() <= s.len() && s.subrange(p, p + word.len()) == word
        }),
    decreases s.len() - at + 1,
{
    if at + word.len() <= s.len() && s.subrange(at, at + word.len()) != word {
        lemma_place(s, word, at + 1);
    }
}

/// Nothing but the marker is lost: put back at its place, it gives the line again.
pub proof fn marker_can_be_put_back(line: Seq<char>, marker: Seq<char>)
    requires
        unmarked(line, marker) is Some,
    ensures
        ({
            let rest = unmarked(line, marker)->0;
            exists|at: int|
                0 <= at <= rest.len() && #[trigger] rest.take(at) + marker + rest.skip(at) == line
        }),
{
    let at = place_of_word(line, marker, 0);
    let rest = unmarked(line, marker)->0;
    lemma_place(line, marker, 0);
    assert(rest.take(at) =~= line.take(at));
    assert(rest.skip(at) =~= line.skip(at + marker.len()));
    assert(rest.take(at) + marker + rest.skip(at) =~= line) by {
        assert forall|i: int| 0 <= i < line.len() implies (rest.take(at) + marker + rest.skip(at))[i] == line[i] by {
            if at <= i < at + marker.len() {
                assert(line.subrange(at, at + marker.len())[i - at] == line[i]);
            }
        }
    }
}

/// The text without the lines that hold just this word.
pub open spec fn without_lines(s: Seq<char>, word: Seq<char>) -> Seq<char>
    decreases s.len(),
{
    if s.len() == 0 {
        s
    } else {
        let n = find_char(s, '\n');
        let end = if n < s.len() {
            n + 1
        } else {
            s.len() as int
        };
        if end <= 0 || end > s.len() {
            s
        } else {
            (if s.take(n) == word {
                seq![]
            } else {
                s.take(end)
            }) + without_lines(s.skip(end), word)
        }
    }
}

/// The text without the lines that hold just `Interrupted.`, which a session prints when it is
/// interrupted. They are no diagnostics.
pub fn without_interrupt_notice(text: &str) -> (r: String)
    ensures
        r@ == without_lines(text@, "Interrupted."@),
{
    let v = to_chars(text);
    let n: usize = v.len();
    let ghost word = "Interrupted."@;
    let mut r = no_text();
    let mut at: usize = 0;
    proof {
        assert(text@.skip(0) =~= text@);
        assert(r@ + without_lines(text@, word) =~= without_lines(text@, word));
    }
    while at < n
        invariant
            n == v.len(),
            v@ == text@,
            at <= n,
            word == "Interrupted."@,
            r@ + without_lines(text@.skip(at as int), word) == without_lines(text@, word),
        decreases n - at,
    {
        let ghost rest = text@.skip(at as int);
        let ghost before = r@;
        let k = find_from(&v, at, '\n');
        let end: usize = if k < n {
            k + 1
        } else {
            n
        };
        let line = from_chars(&v, at, k);
        proof {
            assert(line@ =~= rest.take(k - at));
            assert(rest.take(end - at) =~= v@.subrange(at as int, end as int));
            assert(rest.skip(end - at) =~= text@.skip(end as int));
        }
        if !same_text(line.as_str(), "Interrupted.") {
            r.append(from_chars(&v, at, end).as_str());
            proof {
                assert(r@ + without_lines(text@.skip(end as int), word) =~= before + (rest.take(end - at)
                    + without_lines(text@.skip(end as int), word)));
            }
        } else {
            proof {
                assert(seq![] + without_lines(text@.skip(end as int), word) =~= without_lines(
                    text@.skip(end as int),
                    word,
                ));
            }
        }
        at = end;
    }
    proof {
        assert(text@.skip(n as int) =~= seq![]);
        assert(r@ + seq![] =~= r@);
    }
    r
}

proof fn lemma_first_place(s: Seq<char>, word: Seq<char>, from: int, at: int)
    requires
        0 <= from <= at,
        at + word.len() <= s.len(),
        s.subrange(at, at + word.len()) == word,
    ensures
        from <= place_of_word(s, word, from) <= at,
    decreases at - from,
{
    if from < at && s.subrange(from, from + word.len()) != word {
        lemma_first_place(s, word, from + 1, at);
    }
}

/// A marker is found wherever it stands in the line, and the first one is taken out; a line without it is left alone.
pub proof fn markers_are_found_anywhere(line: Seq<char>, marker: Seq<char>, before: Seq<char>, after: Seq<char>)
    ensures
        unmarked(before + marker + after, marker) is Some,
        unmarked(line, marker) is Some <==> exists|at: int|
            0 <= at && at + marker.len() <= line.len() && #[trigger] line.subrange(at, at + marker.len()) == marker,
        marker.len() > 0 && (forall|at: int|
            0 <= at < before.len() ==> #[trigger] (before + marker + after).subrange(at, at + marker.len()) != marker)
            ==> unmarked(before + marker + after, marker) == Some(before + after),
{
    let all = before + marker + after;
    let n = before.len() as int;
    assert(all.subrange(n, n + marker.len()) =~= marker);
    lemma_first_place(all, marker, 0, n);
    lemma_place(all, marker, 0);
    lemma_place(line, marker, 0);
    if exists|at: int|
        0 <= at && at + marker.len() <= line.len() && #[trigger] line.subrange(at, at + marker.len()) == marker {
        let at = choose|at: int|
            0 <= at && at + marker.len() <= line.len() && #[trigger] line.subrange(at, at + marker.len()) == marker;
        lemma_first_place(line, marker, 0, at);
    }
    if forall|at: int|
        0 <= at < before.len() ==> #[trigger] all.subrange(at, at + marker.len()) != marker {
        let p = place_of_word(all, marker, 0);
        assert(p == n) by {
            if p < n {
                assert(all.subrange(p, p + marker.len()) == marker);
            }
        }
        assert(all.take(n) =~= before);
        assert(all.skip(n + marker.len()) =~= after);
    }
}

/// The next error is told of once: exactly if that was asked for and none came since. Lines without an error leave it
/// asked for.
pub proof fn errors_are_told_of_once(state: StderrView, line: Seq<char>)
    ensures
        state.with_line(line).armed <==> state.armed && !has_error(messages_of(line.push('\n'))),
        state.with_line(line).buffer == state.buffer + line.push('\n'),
        state.with_line(line).forwarding == state.forwarding,
        state.forwarding ==> state.with_line(line).suppressed == state.suppressed,
        !state.forwarding ==> state.with_line(line).suppressed == state.suppressed + line.push('\n'),
{
}

/// Showing and hiding touches neither what was read nor whether an error is told of. What was hidden is written exactly
/// if it was hidden, is to be shown now and is to be replayed.
pub proof fn forwarding_keeps_what_was_read(state: StderrView, enabled: bool, replay: bool)
    ensures
        state.with_forwarding(enabled).buffer == state.buffer,
        state.with_forwarding(enabled).armed == state.armed,
        state.with_forwarding(enabled).forwarding == enabled,
        enabled && replay && !state.forwarding ==> state.replayed(enabled, replay) == state.suppressed,
        !enabled || !replay || state.forwarding ==> state.replayed(enabled, replay).len() == 0,
        enabled == state.forwarding ==> state.with_forwarding(enabled).suppressed == state.suppressed,
        enabled != state.forwarding ==> state.with_forwarding(enabled).suppressed.len() == 0,
{
}

/// Exactly the lines that hold just the word are dropped; every other line stays as it is and in its place.
pub proof fn only_such_lines_are_dropped(line: Seq<char>, rest: Seq<char>, word: Seq<char>)
    requires
        forall|k: int| 0 <= k < line.len() ==> #[trigger] line[k] != '\n',
    ensures
        line == word ==> without_lines(line + seq!['\n'] + rest, word) == without_lines(rest, word),
        line != word ==> without_lines(line + seq!['\n'] + rest, word) == line + seq!['\n'] + without_lines(rest, word),
        line == word && line.len() > 0 ==> without_lines(line, word).len() == 0,
        line != word ==> without_lines(line, word) == line,
        without_lines(seq![], word).len() == 0,
{
    let all = line + seq!['\n'] + rest;
    let n = line.len() as int;
    assert(all[n] == '\n');
    assert forall|k: int| 0 <= k < n implies #[trigger] all[k] != '\n' by {
        assert(all[k] == line[k]);
    }
    lemma_find_char_unique(all, '\n', n);
    assert(all.take(n) =~= line);
    assert(all.take(n + 1) =~= line + seq!['\n']);
    assert(all.skip(n + 1) =~= rest);
    assert(seq![] + without_lines(rest, word) =~= without_lines(rest, word));
    lemma_find_char(line, '\n');
    assert(find_char(line, '\n') == n);
    assert(line.take(n) =~= line);
    let end = line.skip(n);
    assert(end.len() == 0);
    assert(without_lines(end, word) =~= Seq::<char>::empty());
    assert(line + Seq::<char>::empty() =~= line);
    assert(Seq::<char>::empty() + Seq::<char>::empty() =~= Seq::<char>::empty());
}

} // verus!
