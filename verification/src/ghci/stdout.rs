//! What is read from a session.

use crate::ghci::compilation_log::CompilationLog;
use crate::ghci::stdin::{FindAt, PROMPT};
use crate::text::{decimal, decimal_round_trip, format_u64};
use vstd::prelude::*;

verus! {

/// What is shown of the output that is read.
#[derive(Clone, Copy, Debug, PartialEq, Eq, Structural)]
pub enum WriteBehavior {
    /// All of it.
    Write,
    /// All but the line with the marker.
    NoFinalLine,
    /// Nothing.
    Hide,
}

/// Up to where output is read.
#[derive(Debug)]
pub struct ReadRequest {
    /// The markers, of which any ends the output.
    pub markers: Vec<String>,
    /// Where in a line a marker is looked for.
    pub find: FindAt,
    /// What is shown of the output.
    pub writing: WriteBehavior,
}

fn until(marker: &str, find: FindAt, writing: WriteBehavior) -> (r: ReadRequest)
    ensures
        r.markers@.len() == 1,
        r.markers@[0]@ == marker@,
        r.find == find,
        r.writing == writing,
{
    let mut markers: Vec<String> = Vec::new();
    markers.push(marker.to_owned());
    ReadRequest { markers, find, writing }
}

/// What was read before a marker, or that compilation made no progress.
#[derive(Debug)]
pub enum ReadUntilStatus {
    Complete(String),
    Inactive,
}

/// The line of standard error that shows that all before it was read.
pub open spec fn stderr_marker(process: u64, nonce: u64) -> Seq<char> {
    "__GHCIWATCH_STDERR_END_"@ + decimal(process as nat) + "_"@ + decimal(nonce as nat) + "__"@
}

/// The command that makes a session print a line on standard error.
pub open spec fn marker_line(marker: Seq<char>) -> Seq<char> {
    ":! printf '%s\\n' '"@ + marker + "' >&2\n"@
}

/// The command that makes a session print a line on standard error.
pub fn write_marker(marker: &str) -> (r: String)
    ensures
        r@ == marker_line(marker@),
{
    let mut r = ":! printf '%s\\n' '".to_owned();
    r.append(marker);
    r.append("' >&2\n");
    r
}

/// Reads from a session.
#[derive(Debug)]
pub struct GhciStdout {
    /// Makes the lines that synchronize with standard error differ from each other.
    pub stderr_sync_nonce: u64,
}

impl GhciStdout {
    /// Waits until the session says that it is there. It may compile before that.
    pub fn initialize(&self) -> (r: ReadRequest)
        ensures
            r.markers@.len() == 3,
            r.markers@[0]@ == "GHCi, version "@,
            r.markers@[1]@ == "GHCJSi, version "@,
            r.markers@[2]@ == "Clashi, version "@,
            r.find == FindAt::LineStart,
            r.writing == WriteBehavior::Write,
    {
        let mut markers: Vec<String> = Vec::new();
        markers.push("GHCi, version ".to_owned());
        markers.push("GHCJSi, version ".to_owned());
        markers.push("Clashi, version ".to_owned());
        ReadRequest { markers, find: FindAt::LineStart, writing: WriteBehavior::Write }
    }

    /// Waits for the prompt.
    pub fn prompt(&self, find: FindAt) -> (r: ReadRequest)
        ensures
            r.markers@.len() == 1,
            r.markers@[0]@ == PROMPT@,
            r.find == find,
            r.writing == WriteBehavior::NoFinalLine,
    {
        until(PROMPT, find, WriteBehavior::NoFinalLine)
    }

    /// Looks for prompts that are there already.
    pub fn buffer_and_drain_prompts(&self) -> (r: ReadRequest)
        ensures
            r.markers@.len() == 1,
            r.markers@[0]@ == PROMPT@,
            r.find == FindAt::Anywhere,
            r.writing == WriteBehavior::NoFinalLine,
    {
        until(PROMPT, FindAt::Anywhere, WriteBehavior::NoFinalLine)
    }

    /// Reads until a prompt that was set to synchronize.
    pub fn read_until_marker(&self, marker: &str) -> (r: ReadRequest)
        ensures
            r.markers@.len() == 1,
            r.markers@[0]@ == marker@,
            r.find == FindAt::Anywhere,
            r.writing == WriteBehavior::NoFinalLine,
    {
        until(marker, FindAt::Anywhere, WriteBehavior::NoFinalLine)
    }

    /// Reads the search paths, which are not shown.
    pub fn show_paths(&self) -> (r: ReadRequest)
        ensures
            r.markers@.len() == 1,
            r.markers@[0]@ == PROMPT@,
            r.find == FindAt::LineStart,
            r.writing == WriteBehavior::Hide,
    {
        until(PROMPT, FindAt::LineStart, WriteBehavior::Hide)
    }

    /// Reads the targets, which are not shown.
    pub fn show_targets(&self) -> (r: ReadRequest)
        ensures
            r.markers@.len() == 1,
            r.markers@[0]@ == PROMPT@,
            r.find == FindAt::LineStart,
            r.writing == WriteBehavior::Hide,
    {
        until(PROMPT, FindAt::LineStart, WriteBehavior::Hide)
    }

    /// Waits until the session says that it ends.
    pub fn quit(&self) -> (r: ReadRequest)
        ensures
            r.markers@.len() == 1,
            r.markers@[0]@ == "Leaving GHCi."@,
            r.find == FindAt::Anywhere,
            r.writing == WriteBehavior::Write,
    {
        until("Leaving GHCi.", FindAt::Anywhere, WriteBehavior::Write)
    }

    /// Makes a new line to synchronize with standard error. A prompt does not show that all
    /// diagnostics were read: they come through another pipe.
    pub fn stderr_buffer_through_marker(&mut self, process: u64) -> (r: String)
        ensures
            r@ == stderr_marker(process, old(self).stderr_sync_nonce),
            final(self).stderr_sync_nonce == (if old(self).stderr_sync_nonce == u64::MAX {
                0
            } else {
                old(self).stderr_sync_nonce + 1
            }),
    {
        let mut r = "__GHCIWATCH_STDERR_END_".to_owned();
        r.append(format_u64(process).as_str());
        r.append("_");
        r.append(format_u64(self.stderr_sync_nonce).as_str());
        r.append("__");
        self.stderr_sync_nonce = self.stderr_sync_nonce.wrapping_add(1);
        r
    }

    /// Adds what an operation printed to the log.
    pub fn parse_into_log(&self, data: &str, stderr: &str, log: &mut CompilationLog)
        ensures
            final(log)@ == old(log)@.with_stdout(data@).with_stderr(stderr@),
    {
        log.extend_stdout(data);
        log.extend_stderr(stderr);
    }

    /// Adds what an operation that compiles printed to the log, and says whether it completed. What
    /// it printed on standard error is asked for only if it did.
    pub fn prompt_with_progress_timeout(
        &self,
        status: &ReadUntilStatus,
        stderr: &str,
        log: &mut CompilationLog,
    ) -> (r: bool)
        ensures
            match status {
                ReadUntilStatus::Complete(data) => r && final(log)@ == old(log)@.with_stdout(data@).with_stderr(
                    stderr@,
                ),
                ReadUntilStatus::Inactive => !r && final(log)@ == old(log)@,
            },
    {
        match status {
            ReadUntilStatus::Complete(data) => {
                self.parse_into_log(data.as_str(), stderr, log);
                true
            },
            ReadUntilStatus::Inactive => false,
        }
    }
}

/// The lines that synchronize with standard error differ for different processes and numbers.
pub proof fn stderr_markers_differ(process: u64, nonce: u64, other: u64)
    requires
        stderr_marker(process, nonce) == stderr_marker(process, other),
    ensures
        nonce == other,
{
    let p = "__GHCIWATCH_STDERR_END_"@ + decimal(process as nat) + "_"@;
    let q = "__"@;
    let x = decimal(nonce as nat);
    let y = decimal(other as nat);
    assert(stderr_marker(process, nonce) =~= p + x + q);
    assert(stderr_marker(process, other) =~= p + y + q);
    assert((p + x + q).len() == p.len() + x.len() + q.len());
    assert((p + y + q).len() == p.len() + y.len() + q.len());
    assert(x =~= (p + x + q).subrange(p.len() as int, (p.len() + x.len()) as int));
    assert(y =~= (p + y + q).subrange(p.len() as int, (p.len() + y.len()) as int));
    decimal_round_trip(nonce as nat);
    decimal_round_trip(other as nat);
}

/// The command that prints a marker holds it, between quotes.
pub proof fn markers_are_printed(marker: Seq<char>)
    ensures
        ({
            let line = marker_line(marker);
            let n = ":! printf '%s\\n' '"@.len() as int;
            &&& line.subrange(n, n + marker.len()) == marker
            &&& line[n - 1] == '\'' && line[n + marker.len()] == '\''
            &&& line.last() == '\n'
        }),
{
    reveal_strlit(":! printf '%s\\n' '");
    reveal_strlit("' >&2\n");
    let line = marker_line(marker);
    let n = ":! printf '%s\\n' '"@.len() as int;
    assert(line.subrange(n, n + marker.len()) =~= marker);
}

} // verus!
