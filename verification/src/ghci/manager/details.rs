//! What is told of a session that exited.

use crate::ghci::manager::restart::{text_view, Recovery};
use crate::text::{format_i32, has_prefix, same_text, signed, signed_decimal, signed_decimal_round_trip};
use vstd::prelude::*;

verus! {

/// The block that makes an error stand out, with a line break before and after it.
pub open spec fn error_block_text(timestamp: Seq<char>, summary: Seq<char>, details: Seq<char>) -> Seq<char> {
    "\n==GHCIWATCH ERROR==\nTimestamp (Unix): "@ + timestamp + "\nSummary: "@ + summary + "\n"@ + details
        + "\n==END GHCIWATCH ERROR==\n"@
}

/// Writes the block that makes an error stand out.
pub fn error_block(timestamp: &str, summary: &str, details: &str) -> (r: String)
    ensures
        r@ == error_block_text(timestamp@, summary@, details@),
{
    let mut r = "\n==GHCIWATCH ERROR==\nTimestamp (Unix): ".to_owned();
    r.append(timestamp);
    r.append("\nSummary: ");
    r.append(summary);
    r.append("\n");
    r.append(details);
    r.append("\n==END GHCIWATCH ERROR==\n");
    r
}

/// How a process ended.
#[derive(Debug)]
pub struct ExitInfo {
    /// The status as it is shown.
    pub text: String,
    /// The exit code, if there is one.
    pub code: Option<i32>,
    /// The signal that ended the process, if one did.
    pub signal: Option<i32>,
    /// Whether the memory of the process was dumped.
    pub core_dumped: bool,
}

/// Whether a signal with this number can have this name, or can have none. Ten signals have the same
/// number on all Unix systems, and no signal has a number below one. The numbers of other signals
/// differ from system to system, so nothing is said of their names.
pub open spec fn can_be_named(number: i32, name: Option<Seq<char>>) -> bool {
    &&& number == 1 ==> name == Some("SIGHUP"@)
    &&& number == 2 ==> name == Some("SIGINT"@)
    &&& number == 3 ==> name == Some("SIGQUIT"@)
    &&& number == 4 ==> name == Some("SIGILL"@)
    &&& number == 6 ==> name == Some("SIGABRT"@)
    &&& number == 8 ==> name == Some("SIGFPE"@)
    &&& number == 9 ==> name == Some("SIGKILL"@)
    &&& number == 11 ==> name == Some("SIGSEGV"@)
    &&& number == 14 ==> name == Some("SIGALRM"@)
    &&& number == 15 ==> name == Some("SIGTERM"@)
    &&& number < 1 ==> name is None
}

/// Asks `nix::sys::signal::Signal` for the name of the signal with this number. It is the name that the
/// number has on this system, as far as [`can_be_named`] tells of it.
#[verifier::external_body]
fn signal_name(number: i32) -> (r: Option<String>)
    ensures
        can_be_named(number, text_view(r)),
{
    nix::sys::signal::Signal::try_from(number).ok().map(|signal| signal.as_str().to_owned())
}

/// The number of a signal and its name, if it has one.
pub open spec fn signal_text(signal: Option<i32>, name: Option<Seq<char>>) -> Seq<char> {
    match signal {
        Some(number) => match name {
            Some(name) => signed_decimal(number as int) + " ("@ + name + ")"@,
            None => signed_decimal(number as int),
        },
        None => "none"@,
    }
}

/// What a signal hints at.
pub open spec fn signal_hint(name: Option<Seq<char>>) -> Seq<char> {
    match name {
        Some(name) => if name == "SIGKILL"@ {
            "\nDiagnostic hint: SIGKILL can indicate the Linux OOM killer or an external kill; check `journalctl -k`/`dmesg` around this timestamp"@
        } else if name == "SIGABRT"@ || name == "SIGBUS"@ || name == "SIGILL"@ || name == "SIGSEGV"@ {
            "\nDiagnostic hint: this signal usually indicates a native-code crash; inspect the core dump if one was produced"@
        } else {
            seq![]
        },
        None => seq![],
    }
}

/// An exit code as it is shown.
pub open spec fn code_text(code: Option<i32>) -> Seq<char> {
    match code {
        Some(code) => "Some("@ + signed_decimal(code as int) + ")"@,
        None => "None"@,
    }
}

/// What is told of the end of a process, given the name of the signal that ended it.
pub open spec fn exit_text(status: ExitInfo, name: Option<Seq<char>>) -> Seq<char> {
    "Command exit status: "@ + status.text@ + "\nExit code: "@ + code_text(status.code)
        + "\nTerminating signal: "@ + signal_text(status.signal, name) + "\nCore dumped: "@ + (
    if status.core_dumped {
        "true"@
    } else {
        "false"@
    }) + signal_hint(name)
        + "\nStatus note: this status belongs to the configured --command process; a wrapper such as cabal may translate a child GHC crash signal into its own exit code"@
}

fn write_signal(signal: Option<i32>, name: Option<&str>) -> (r: String)
    ensures
        r@ == signal_text(
            signal,
            match name {
                Some(name) => Some(name@),
                None => None,
            },
        ),
{
    match signal {
        Some(number) => {
            let mut r = format_i32(number);
            match name {
                Some(name) => {
                    r.append(" (");
                    r.append(name);
                    r.append(")");
                },
                None => {},
            }
            r
        },
        None => "none".to_owned(),
    }
}

fn write_hint(name: Option<&str>) -> (r: &'static str)
    ensures
        r@ == signal_hint(
            match name {
                Some(name) => Some(name@),
                None => None,
            },
        ),
{
    proof {
        reveal_strlit("");
        assert(""@ =~= seq![]);
    }
    match name {
        Some(name) => if same_text(name, "SIGKILL") {
            "\nDiagnostic hint: SIGKILL can indicate the Linux OOM killer or an external kill; check `journalctl -k`/`dmesg` around this timestamp"
        } else if same_text(name, "SIGABRT") || same_text(name, "SIGBUS") || same_text(name, "SIGILL")
            || same_text(name, "SIGSEGV") {
            "\nDiagnostic hint: this signal usually indicates a native-code crash; inspect the core dump if one was produced"
        } else {
            ""
        },
        None => "",
    }
}

/// Tells how a process ended, given the name of the signal that ended it.
pub fn exit_status_text(status: &ExitInfo, name: Option<&str>) -> (r: String)
    ensures
        r@ == exit_text(
            *status,
            match name {
                Some(name) => Some(name@),
                None => None,
            },
        ),
{
    let mut r = "Command exit status: ".to_owned();
    r.append(status.text.as_str());
    r.append("\nExit code: ");
    let code = match status.code {
        Some(code) => {
            let mut text = "Some(".to_owned();
            text.append(format_i32(code).as_str());
            text.append(")");
            text
        },
        None => "None".to_owned(),
    };
    r.append(code.as_str());
    r.append("\nTerminating signal: ");
    r.append(write_signal(status.signal, name).as_str());
    r.append("\nCore dumped: ");
    if status.core_dumped {
        r.append("true");
    } else {
        r.append("false");
    }
    r.append(write_hint(name));
    r.append(
        "\nStatus note: this status belongs to the configured --command process; a wrapper such as cabal may translate a child GHC crash signal into its own exit code",
    );
    r
}

/// Tells how a process ended. Whatever the name of the signal is on this system, the text is the one
/// for that name.
pub fn exit_status_diagnostic(status: &ExitInfo) -> (r: String)
    ensures
        exists|name: Option<Seq<char>>|
            (match status.signal {
                Some(number) => can_be_named(number, name),
                None => name is None,
            }) && r@ == #[trigger] exit_text(*status, name),
{
    match status.signal {
        Some(number) => {
            let name = signal_name(number);
            match &name {
                Some(name) => exit_status_text(status, Some(name.as_str())),
                None => exit_status_text(status, None),
            }
        },
        None => exit_status_text(status, None),
    }
}

/// The affected paths as they follow the other details.
pub open spec fn affected_text(affected: Option<Seq<char>>) -> Seq<char> {
    match affected {
        Some(paths) => "\nAffected paths:\n"@ + paths,
        None => seq![],
    }
}

/// What is told of a session that exited.
pub open spec fn crash_text(
    phase: Seq<char>,
    exit: Seq<char>,
    context: Seq<char>,
    affected: Option<Seq<char>>,
    recovery: Seq<char>,
) -> Seq<char> {
    "Detected phase: "@ + phase + "\n"@ + exit + "\n"@ + context + affected_text(affected) + "\nRecovery: "@
        + recovery
}

fn write_crash(phase: &str, exit: &str, context: &str, affected: &Option<String>, recovery: &str) -> (r: String)
    ensures
        r@ == crash_text(phase@, exit@, context@, text_view(*affected), recovery@),
{
    let mut r = "Detected phase: ".to_owned();
    r.append(phase);
    r.append("\n");
    r.append(exit);
    r.append("\n");
    r.append(context);
    let ghost before = r@;
    match affected {
        Some(paths) => {
            r.append("\nAffected paths:\n");
            r.append(paths.as_str());
            proof {
                assert(r@ =~= before + affected_text(text_view(*affected)));
            }
        },
        None => {
            proof {
                assert(r@ =~= before + affected_text(text_view(*affected)));
            }
        },
    }
    r.append("\nRecovery: ");
    r.append(recovery);
    r
}

/// What is told of the first replacement.
pub open spec fn first_recovery(restart_unchanged: bool) -> Seq<char> {
    if restart_unchanged {
        "persistently retrying with a fresh GHCi session after 10s, using the newest queued watched state"@
    } else {
        "retrying with a fresh GHCi session after 10s; if the unchanged replacement also crashes, waiting for any configured watched path to change"@
    }
}

/// What is told of a replacement after one that failed.
pub open spec fn next_recovery(recovery: Recovery) -> Seq<char> {
    match recovery {
        Recovery::Persistent => "persistent recovery enabled; retrying after 10s with the newest queued watched state"@,
        Recovery::Queued => "a newer watched state is already queued; retrying after 10s"@,
        Recovery::CrashLoop => "crash loop detected; waiting for any configured watched path to change, then retrying after the 10s crash delay"@,
    }
}

/// Tells that a session exited in some phase of its life, and that it will be replaced.
pub fn first_crash_details(
    phase: &str,
    exit: &str,
    context: &str,
    affected: &Option<String>,
    restart_unchanged: bool,
) -> (r: String)
    ensures
        r@ == crash_text(
            phase@,
            exit@,
            context@,
            text_view(*affected),
            first_recovery(restart_unchanged),
        ),
{
    let recovery = if restart_unchanged {
        "persistently retrying with a fresh GHCi session after 10s, using the newest queued watched state"
    } else {
        "retrying with a fresh GHCi session after 10s; if the unchanged replacement also crashes, waiting for any configured watched path to change"
    };
    write_crash(phase, exit, context, affected, recovery)
}

/// Tells that a replacement exited, too, and how it is dealt with.
pub fn next_crash_details(exit: &str, context: &str, affected: &Option<String>, recovery: Recovery) -> (r: String)
    ensures
        r@ == crash_text(
            "while starting a replacement GHCi session"@,
            exit@,
            context@,
            text_view(*affected),
            next_recovery(recovery),
        ),
{
    let text = match recovery {
        Recovery::Persistent => "persistent recovery enabled; retrying after 10s with the newest queued watched state",
        Recovery::Queued => "a newer watched state is already queued; retrying after 10s",
        Recovery::CrashLoop => "crash loop detected; waiting for any configured watched path to change, then retrying after the 10s crash delay",
    };
    write_crash("while starting a replacement GHCi session", exit, context, affected, text)
}

/// A hint is given exactly for the signals of a kill and of a crash, and the two hints differ.
pub proof fn hints_are_given_for_kills_and_crashes(name: Seq<char>)
    ensures
        signal_hint(None).len() == 0,
        signal_hint(Some(name)).len() > 0 <==> name == "SIGKILL"@ || name == "SIGABRT"@ || name == "SIGBUS"@ || name
            == "SIGILL"@ || name == "SIGSEGV"@,
        name != "SIGKILL"@ ==> signal_hint(Some(name)) != signal_hint(Some("SIGKILL"@)),
{
    reveal_strlit(
        "\nDiagnostic hint: SIGKILL can indicate the Linux OOM killer or an external kill; check `journalctl -k`/`dmesg` around this timestamp",
    );
    reveal_strlit(
        "\nDiagnostic hint: this signal usually indicates a native-code crash; inspect the core dump if one was produced",
    );
    if name != "SIGKILL"@ && signal_hint(Some(name)).len() > 0 {
        assert(signal_hint(Some(name))[18] != signal_hint(Some("SIGKILL"@))[18]);
    }
}

/// The number of the signal can be read from what is told of it, and so can the exit code.
pub proof fn numbers_are_told(number: i32, code: i32)
    ensures
        signed(signal_text(Some(number), None)) == Some(number as int),
        signed(code_text(Some(code)).subrange(5, code_text(Some(code)).len() - 1)) == Some(code as int),
{
    reveal_strlit("Some(");
    reveal_strlit(")");
    signed_decimal_round_trip(number as int);
    signed_decimal_round_trip(code as int);
    assert(code_text(Some(code)).subrange(5, code_text(Some(code)).len() - 1) =~= signed_decimal(code as int));
}

/// What is told of a session holds the affected paths exactly as they are listed, between the context and the recovery.
pub proof fn affected_paths_are_told(
    phase: Seq<char>,
    exit: Seq<char>,
    context: Seq<char>,
    paths: Seq<char>,
    recovery: Seq<char>,
)
    ensures
        ({
            let without = crash_text(phase, exit, context, None, recovery);
            let with_paths = crash_text(phase, exit, context, Some(paths), recovery);
            let at = without.len() - "\nRecovery: "@.len() - recovery.len();
            with_paths == without.take(at) + "\nAffected paths:\n"@ + paths + without.skip(at)
        }),
{
    let head = "Detected phase: "@ + phase + "\n"@ + exit + "\n"@ + context;
    let tail = "\nRecovery: "@ + recovery;
    let without = crash_text(phase, exit, context, None, recovery);
    assert(without =~= head + tail);
    assert(without.take(head.len() as int) =~= head);
    assert(without.skip(head.len() as int) =~= tail);
    assert(crash_text(phase, exit, context, Some(paths), recovery) =~= head + "\nAffected paths:\n"@ + paths + tail);
}

/// What is told of a replacement begins by whether it goes on persistently, and the three cases of a later one are told
/// apart.
pub proof fn recoveries_are_told_apart(a: Recovery, b: Recovery)
    ensures
        has_prefix(first_recovery(true), "persistently retrying"@),
        has_prefix(first_recovery(false), "retrying"@),
        has_prefix(next_recovery(Recovery::Persistent), "persistent recovery"@),
        has_prefix(next_recovery(Recovery::Queued), "a newer watched state"@),
        has_prefix(next_recovery(Recovery::CrashLoop), "crash loop"@),
        next_recovery(a) == next_recovery(b) <==> a == b,
{
    reveal_strlit(
        "persistently retrying with a fresh GHCi session after 10s, using the newest queued watched state",
    );
    reveal_strlit(
        "retrying with a fresh GHCi session after 10s; if the unchanged replacement also crashes, waiting for any configured watched path to change",
    );
    reveal_strlit("persistent recovery enabled; retrying after 10s with the newest queued watched state");
    reveal_strlit("a newer watched state is already queued; retrying after 10s");
    reveal_strlit(
        "crash loop detected; waiting for any configured watched path to change, then retrying after the 10s crash delay",
    );
    reveal_strlit("persistently retrying");
    reveal_strlit("retrying");
    reveal_strlit("persistent recovery");
    reveal_strlit("a newer watched state");
    reveal_strlit("crash loop");
    let persistent = next_recovery(Recovery::Persistent);
    let queued = next_recovery(Recovery::Queued);
    let looping = next_recovery(Recovery::CrashLoop);
    assert(first_recovery(true).take("persistently retrying"@.len() as int) =~= "persistently retrying"@);
    assert(first_recovery(false).take("retrying"@.len() as int) =~= "retrying"@);
    assert(persistent.take("persistent recovery"@.len() as int) =~= "persistent recovery"@);
    assert(queued.take("a newer watched state"@.len() as int) =~= "a newer watched state"@);
    assert(looping.take("crash loop"@.len() as int) =~= "crash loop"@);
    assert(persistent[0] == 'p' && queued[0] == 'a' && looping[0] == 'c');
}

/// Each of the numbers that mean the same signal on all systems has one name, no two of them have the same, and what is
/// no number of a signal has none.
pub proof fn known_signals_have_their_names(a: i32, b: i32, x: Option<Seq<char>>, y: Option<Seq<char>>)
    requires
        can_be_named(a, x),
        can_be_named(b, y),
    ensures
        ({
            let known = |n: i32|
                n == 1 || n == 2 || n == 3 || n == 4 || n == 6 || n == 8 || n == 9 || n == 11 || n == 14 || n == 15;
            &&& known(a) ==> x is Some && has_prefix(x->0, "SIG"@)
            &&& known(a) && known(b) ==> (x == y <==> a == b)
            &&& a < 1 ==> x is None
        }),
{
    reveal_strlit("SIG");
    reveal_strlit("SIGHUP");
    reveal_strlit("SIGINT");
    reveal_strlit("SIGQUIT");
    reveal_strlit("SIGILL");
    reveal_strlit("SIGABRT");
    reveal_strlit("SIGFPE");
    reveal_strlit("SIGKILL");
    reveal_strlit("SIGSEGV");
    reveal_strlit("SIGALRM");
    reveal_strlit("SIGTERM");
    assert("SIGHUP"@[3] == 'H' && "SIGINT"@[4] == 'N' && "SIGQUIT"@[3] == 'Q' && "SIGILL"@[4] == 'L');
    assert("SIGHUP"@[4] == 'U' && "SIGQUIT"@[4] == 'U' && "SIGABRT"@[4] == 'B' && "SIGFPE"@[4] == 'P');
    assert("SIGKILL"@[4] == 'I' && "SIGSEGV"@[4] == 'E' && "SIGALRM"@[4] == 'L' && "SIGTERM"@[4] == 'E');
    assert("SIGILL"@[3] == 'I' && "SIGALRM"@[3] == 'A' && "SIGSEGV"@[3] == 'S' && "SIGTERM"@[3] == 'T');
    if x is Some {
        assert(x->0.len() >= 3 ==> (x->0).take(3) =~= seq![(x->0)[0], (x->0)[1], (x->0)[2]]);
    }
    assert("SIG"@ =~= seq!['S', 'I', 'G']);
}

} // verus!
