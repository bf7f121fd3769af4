//! Errors as the decisions of the manager see them: by what caused them.

use vstd::prelude::*;

verus! {

/// What an error, or an error that led to it, was.
#[derive(Clone, Copy, Debug, PartialEq, Eq, Structural)]
pub enum Cause {
    /// An interruption failed and the session was force-killed.
    RecoveryFailed,
    /// A pipe of the session was closed: the process has exited.
    BrokenPipe,
    /// Anything else.
    Other,
}

/// An error with everything that led to it, the error itself first.
#[derive(Debug)]
pub struct Report {
    pub causes: Vec<Cause>,
}

impl View for Report {
    type V = Seq<Cause>;

    open spec fn view(&self) -> Seq<Cause> {
        self.causes@
    }
}

fn has_cause(report: &Report, cause: Cause) -> (r: bool)
    ensures
        r == report@.contains(cause),
{
    let mut i: usize = 0;
    while i < report.causes.len()
        invariant
            i <= report.causes@.len(),
            forall|n: int| 0 <= n < i ==> report@[n] != cause,
        decreases report.causes@.len() - i,
    {
        if report.causes[i] == cause {
            proof {
                assert(report@[i as int] == cause);
            }
            return true;
        }
        i = i + 1;
    }
    false
}

/// Whether the error tells of a failed interruption, after which the session was force-killed.
pub fn is_recovery_failure(report: &Report) -> (r: bool)
    ensures
        r == report@.contains(Cause::RecoveryFailed),
{
    has_cause(report, Cause::RecoveryFailed)
}

/// Whether the error, or anything that led to it, is a broken pipe. Reading from or writing to a
/// session fails so when its process has exited.
pub fn is_broken_pipe(report: &Report) -> (r: bool)
    ensures
        r == report@.contains(Cause::BrokenPipe),
{
    has_cause(report, Cause::BrokenPipe)
}

impl Report {
    /// An error with one cause.
    pub fn new(cause: Cause) -> (r: Self)
        ensures
            r@ == seq![cause],
    {
        let mut causes: Vec<Cause> = Vec::new();
        causes.push(cause);
        proof {
            assert(causes@ =~= seq![cause]);
        }
        Report { causes }
    }

    /// This error as what led to another one.
    pub fn wrap(self, cause: Cause) -> (r: Self)
        ensures
            r@ == seq![cause] + self@,
    {
        let Report { mut causes } = self;
        causes.insert(0, cause);
        proof {
            assert(causes@ =~= seq![cause] + self@);
        }
        Report { causes }
    }
}

} // verus!
