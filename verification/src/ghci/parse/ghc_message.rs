//! Messages of the compiler.

pub mod compilation_summary;
pub mod generic_diagnostic;
pub mod json_diagnostic;
pub mod position;
pub mod messages;

use crate::path::FilePath;
use crate::text::{decimal, format_u64, has_prefix};
use vstd::prelude::*;

verus! {

/// How severe a diagnostic is.
#[derive(Clone, Copy, Debug, PartialEq, Eq, Structural)]
pub enum Severity {
    Warning,
    Error,
}

/// A range of source positions. A diagnostic without a position has the range of zeros.
#[derive(Clone, Copy, Debug, PartialEq, Eq, Structural)]
pub struct PositionRange {
    pub start_line: usize,
    pub start_column: usize,
    pub end_line: usize,
    pub end_column: usize,
}

impl Default for PositionRange {
    fn default() -> (r: Self)
        ensures
            r == PositionRange::zero(),
    {
        PositionRange::new(0, 0, 0, 0)
    }
}

impl PositionRange {
    /// The range of a diagnostic without a position.
    pub open spec fn zero() -> PositionRange {
        PositionRange { start_line: 0, start_column: 0, end_line: 0, end_column: 0 }
    }

    /// A range from a start line and column to an end line and column.
    pub fn new(start_line: usize, start_column: usize, end_line: usize, end_column: usize) -> (r: Self)
        ensures
            r == (PositionRange { start_line, start_column, end_line, end_column }),
    {
        PositionRange { start_line, start_column, end_line, end_column }
    }

    /// The range as diagnostics show it: a position, a range of columns, or a range of positions.
    pub open spec fn text(self) -> Seq<char> {
        let (l, c) = (decimal(self.start_line as nat), decimal(self.start_column as nat));
        let (l2, c2) = (decimal(self.end_line as nat), decimal(self.end_column as nat));
        if self.start_line != self.end_line {
            "("@ + l + ","@ + c + ")-("@ + l2 + ","@ + c2 + ")"@
        } else if self.start_column != self.end_column {
            l + ":"@ + c + "-"@ + c2
        } else {
            l + ":"@ + c
        }
    }

    /// Writes the range as diagnostics show it.
    pub fn show(&self) -> (r: String)
        ensures
            r@ == self.text(),
    {
        let l = format_u64(self.start_line as u64);
        let c = format_u64(self.start_column as u64);
        let l2 = format_u64(self.end_line as u64);
        let c2 = format_u64(self.end_column as u64);
        if self.start_line != self.end_line {
            let mut r = String::new();
            r.append("(");
            proof {
                assert(r@ =~= "("@);
            }
            r.append(l.as_str());
            r.append(",");
            r.append(c.as_str());
            r.append(")-(");
            r.append(l2.as_str());
            r.append(",");
            r.append(c2.as_str());
            r.append(")");
            r
        } else {
            let mut r = l;
            r.append(":");
            r.append(c.as_str());
            if self.start_column != self.end_column {
                r.append("-");
                r.append(c2.as_str());
            }
            r
        }
    }
}

/// A warning or an error.
#[derive(Debug, PartialEq, Eq)]
pub struct GhcDiagnostic {
    pub severity: Severity,
    /// The source file, if it is known.
    pub path: Option<FilePath>,
    pub span: PositionRange,
    /// The message, which ends with a newline.
    pub message: String,
}

/// The model of a [`GhcDiagnostic`].
pub struct DiagnosticView {
    pub severity: Severity,
    pub path: Option<Seq<char>>,
    pub span: PositionRange,
    pub message: Seq<char>,
}

/// The text of a path that may be missing.
pub open spec fn path_view(path: Option<FilePath>) -> Option<Seq<char>> {
    match path {
        Some(path) => Some(path@),
        None => None,
    }
}

impl View for GhcDiagnostic {
    type V = DiagnosticView;

    open spec fn view(&self) -> DiagnosticView {
        DiagnosticView {
            severity: self.severity,
            path: path_view(self.path),
            span: self.span,
            message: self.message@,
        }
    }
}

impl Clone for GhcDiagnostic {
    fn clone(&self) -> (r: Self)
        ensures
            r@ == self@,
    {
        GhcDiagnostic {
            severity: self.severity,
            path: match &self.path {
                Some(path) => Some(path.clone()),
                None => None,
            },
            span: self.span,
            message: self.message.clone(),
        }
    }
}

impl Severity {
    /// The word for the severity.
    pub open spec fn word(self) -> Seq<char> {
        match self {
            Severity::Warning => "warning"@,
            Severity::Error => "error"@,
        }
    }
}

impl DiagnosticView {
    /// The place of a diagnostic as it is shown.
    pub open spec fn place(self) -> Seq<char> {
        match self.path {
            Some(path) => if self.span == PositionRange::zero() {
                path + ":"@
            } else {
                path + ":"@ + self.span.text() + ":"@
            },
            None => "<no location info>:"@,
        }
    }

    /// The diagnostic as it is shown: its place, its severity and its message.
    pub open spec fn text(self) -> Seq<char> {
        let head = self.place() + " "@ + self.severity.word() + ":"@;
        if self.message.len() > 0 && self.message[0] == '\n' {
            head + self.message
        } else {
            head + " "@ + self.message
        }
    }
}

impl GhcDiagnostic {
    /// Writes the diagnostic as it is shown.
    pub fn show(&self) -> (r: String)
        ensures
            r@ == self@.text(),
    {
        let mut r = String::new();
        match &self.path {
            Some(path) => {
                r.append(path.as_str());
                proof {
                    assert(r@ =~= path@);
                }
                r.append(":");
                let zero = PositionRange::default();
                if self.span != zero {
                    r.append(self.span.show().as_str());
                    r.append(":");
                }
            },
            None => {
                r.append("<no location info>:");
                proof {
                    assert(r@ =~= "<no location info>:"@);
                }
            },
        }
        proof {
            assert(r@ == self@.place());
        }
        r.append(" ");
        match self.severity {
            Severity::Warning => r.append("warning"),
            Severity::Error => r.append("error"),
        }
        r.append(":");
        if !crate::text::starts_with_newline(self.message.as_str()) {
            r.append(" ");
        }
        r.append(self.message.as_str());
        r
    }
}

/// A range is shown as a position exactly if it starts where it ends, with both columns exactly if it lies in one line,
/// and with both positions otherwise.
pub proof fn ranges_are_shown_shortly(l: usize, c: usize, l2: usize, c2: usize)
    ensures
        ({
            let (line, column) = (decimal(l as nat), decimal(c as nat));
            let (line2, column2) = (decimal(l2 as nat), decimal(c2 as nat));
            let text = PositionRange { start_line: l, start_column: c, end_line: l2, end_column: c2 }.text();
            &&& l == l2 && c == c2 ==> text == line + ":"@ + column
            &&& l == l2 && c != c2 ==> text == line + ":"@ + column + "-"@ + column2
            &&& l != l2 ==> text == "("@ + line + ","@ + column + ")-("@ + line2 + ","@ + column2 + ")"@
        }),
{
}

/// A diagnostic is shown with its path, with its range unless it has none, and with its severity before the message.
pub proof fn diagnostics_are_shown_with_their_place(d: DiagnosticView, path: Seq<char>)
    ensures
        d.path is None ==> d.place() == "<no location info>:"@,
        d.path == Some(path) && d.span == PositionRange::zero() ==> d.place() == path + ":"@,
        d.path == Some(path) && d.span != PositionRange::zero() ==> d.place() == path + ":"@ + d.span.text() + ":"@,
        PositionRange::zero() == (PositionRange { start_line: 0, start_column: 0, end_line: 0, end_column: 0 }),
        d.severity is Warning ==> has_prefix(d.text(), d.place() + " "@ + "warning"@ + ":"@),
        d.severity is Error ==> has_prefix(d.text(), d.place() + " "@ + "error"@ + ":"@),
        d.text().skip(d.text().len() - d.message.len()) == d.message,
{
    let head = d.place() + " "@ + d.severity.word() + ":"@;
    assert(d.text().take(head.len() as int) =~= head);
    assert(d.text().skip(d.text().len() - d.message.len()) =~= d.message);
}

} // verus!
