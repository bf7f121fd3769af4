//! Diagnostics as the compiler prints them with `-fdiagnostics-as-json`: one JSON object to a line.
//!
//! The core fields of the schema are required, so that other JSON with a `severity` is not mistaken
//! for a diagnostic, and none of them may be repeated. Fields that are not known are accepted.

use crate::ghci::parse::ghc_message::{DiagnosticView, GhcDiagnostic, PositionRange, Severity};
use crate::path::FilePath;
use crate::text::{
    ends_with_newline, join, joined, same_text, texts, to_chars, trim, trim_start, trimmed,
};
use vstd::prelude::*;

verus! {

/// Whether a text is a JSON object.
pub uninterp spec fn json_object(text: Seq<char>) -> bool;

/// The JSON texts of the items of the JSON array that a text is.
pub uninterp spec fn json_array(text: Seq<char>) -> Option<Seq<Seq<char>>>;

/// The value of the JSON string that a text is.
pub uninterp spec fn json_string(text: Seq<char>) -> Option<Seq<char>>;

/// The values of the JSON array of strings that a text is.
pub uninterp spec fn json_strings(text: Seq<char>) -> Option<Seq<Seq<char>>>;

/// The value of the JSON null or integer that a text is.
pub uninterp spec fn json_integer(text: Seq<char>) -> Option<Option<i64>>;

/// The value of the JSON non-negative integer that a text is.
pub uninterp spec fn json_size(text: Seq<char>) -> Option<u64>;

/// The names and values of a list of fields.
pub open spec fn field_views(fields: Seq<(String, String)>) -> Seq<(Seq<char>, Seq<char>)> {
    Seq::new(fields.len(), |i: int| (fields[i].0@, fields[i].1@))
}

/// Calls `serde_json::from_str` for a map from names to raw values, which succeeds on the text of a
/// JSON object. Whether it does is all that is kept: a map holds one value of a name that is repeated.
#[verifier::external_body]
fn is_object(text: &str) -> (r: bool)
    ensures
        r == json_object(text@),
{
    serde_json::from_str::<std::collections::BTreeMap<String, Box<serde_json::value::RawValue>>>(text)
        .is_ok()
}

/// Calls `serde_json::from_str` for a list of raw values. It succeeds on the text of a JSON array.
#[verifier::external_body]
fn read_array(text: &str) -> (r: Option<Vec<String>>)
    ensures
        match r {
            Some(items) => json_array(text@) == Some(texts(items@)),
            None => json_array(text@) is None,
        },
{
    let items: Vec<Box<serde_json::value::RawValue>> = serde_json::from_str(text).ok()?;
    Some(items.into_iter().map(|item| item.get().to_owned()).collect())
}

/// Calls `serde_json::from_str` for a string.
#[verifier::external_body]
fn read_string(text: &str) -> (r: Option<String>)
    ensures
        match r {
            Some(value) => json_string(text@) == Some(value@),
            None => json_string(text@) is None,
        },
{
    serde_json::from_str(text).ok()
}

/// Calls `serde_json::from_str` for a list of strings.
#[verifier::external_body]
fn read_strings(text: &str) -> (r: Option<Vec<String>>)
    ensures
        match r {
            Some(values) => json_strings(text@) == Some(texts(values@)),
            None => json_strings(text@) is None,
        },
{
    serde_json::from_str(text).ok()
}

/// Calls `serde_json::from_str` for an integer of 64 bits or null.
#[verifier::external_body]
fn read_integer(text: &str) -> (r: Option<Option<i64>>)
    ensures
        r == json_integer(text@),
{
    serde_json::from_str(text).ok()
}

/// Calls `serde_json::from_str` for a non-negative integer of 64 bits.
#[verifier::external_body]
fn read_size(text: &str) -> (r: Option<u64>)
    ensures
        r == json_size(text@),
{
    serde_json::from_str(text).ok()
}

/// The place of a diagnostic.
#[derive(Debug)]
pub struct JsonSpan {
    pub file: String,
    pub range: PositionRange,
}

/// What is used of a JSON diagnostic.
#[derive(Debug)]
pub struct JsonDiagnostic {
    pub severity: Severity,
    pub span: Option<JsonSpan>,
    pub message: Vec<String>,
    pub hints: Vec<String>,
}

/// The model of a [`JsonDiagnostic`].
pub struct JsonView {
    pub severity: Severity,
    pub span: Option<(Seq<char>, PositionRange)>,
    pub message: Seq<Seq<char>>,
    pub hints: Seq<Seq<char>>,
}

impl View for JsonDiagnostic {
    type V = JsonView;

    open spec fn view(&self) -> JsonView {
        JsonView {
            severity: self.severity,
            span: match self.span {
                Some(span) => Some((span.file@, span.range)),
                None => None,
            },
            message: texts(self.message@),
            hints: texts(self.hints@),
        }
    }
}

/// `s` with two spaces after each newline.
pub open spec fn indented(s: Seq<char>) -> Seq<char>
    decreases s.len(),
{
    if s.len() == 0 {
        s
    } else if s.last() == '\n' {
        indented(s.drop_last()) + seq!['\n', ' ', ' ']
    } else {
        indented(s.drop_last()).push(s.last())
    }
}

/// `message` with a suggestion on lines of its own.
pub open spec fn with_hint(message: Seq<char>, hint: Seq<char>) -> Seq<char> {
    let start = if message.len() > 0 && message.last() != '\n' {
        message.push('\n')
    } else {
        message
    };
    start + "Suggested fix:\n  "@ + indented(hint)
}

/// `message` with the suggestions, in order.
pub open spec fn with_hints(message: Seq<char>, hints: Seq<Seq<char>>) -> Seq<char>
    decreases hints.len(),
{
    if hints.len() == 0 {
        message
    } else {
        with_hint(with_hints(message, hints.drop_last()), hints.last())
    }
}

impl JsonView {
    /// The message with its suggestions, which ends with a newline.
    pub open spec fn full_message(self) -> Seq<char> {
        let message = with_hints(joined(self.message, "\n"@), self.hints);
        if message.len() > 0 && message.last() == '\n' {
            message
        } else {
            message.push('\n')
        }
    }

    /// The diagnostic.
    pub open spec fn diagnostic(self) -> DiagnosticView {
        DiagnosticView {
            severity: self.severity,
            path: match self.span {
                Some((file, _)) => Some(file),
                None => None,
            },
            span: match self.span {
                Some((_, range)) => range,
                None => PositionRange::zero(),
            },
            message: self.full_message(),
        }
    }
}

/// Writes `s` with two spaces after each newline to the end of `out`.
fn append_indented(out: &mut String, s: &str)
    ensures
        final(out)@ == old(out)@ + indented(s@),
{
    let v = to_chars(s);
    let ghost before = out@;
    let mut i: usize = 0;
    proof {
        assert(v@.take(0) =~= seq![]);
        assert(out@ =~= before + indented(v@.take(0)));
    }
    while i < v.len()
        invariant
            i <= v@.len(),
            out@ == before + indented(v@.take(i as int)),
        decreases v@.len() - i,
    {
        let c = v[i];
        proof {
            assert(v@.take(i + 1).drop_last() =~= v@.take(i as int));
        }
        out.push(c);
        if c == '\n' {
            out.push(' ');
            out.push(' ');
            proof {
                assert(out@ =~= before + (indented(v@.take(i as int)) + seq!['\n', ' ', ' ']));
            }
        } else {
            proof {
                assert(out@ =~= before + indented(v@.take(i as int)).push(c));
            }
        }
        i = i + 1;
    }
    proof {
        assert(v@.take(v@.len() as int) =~= v@);
    }
}

impl JsonDiagnostic {
    /// The diagnostic that the JSON object tells of.
    pub fn diagnostic(self) -> (r: GhcDiagnostic)
        ensures
            r@ == self@.diagnostic(),
    {
        let JsonDiagnostic { severity, span, message: parts, hints } = self;
        let mut message = join(&parts, "\n");
        let mut i: usize = 0;
        let ghost start = message@;
        let ghost all = texts(hints@);
        proof {
            assert(all.take(0).len() == 0);
        }
        while i < hints.len()
            invariant
                i <= hints@.len(),
                all == texts(hints@),
                message@ == with_hints(start, all.take(i as int)),
            decreases hints@.len() - i,
        {
            proof {
                assert(all.take(i + 1).drop_last() =~= all.take(i as int));
                assert(all.take(i + 1).last() == hints@[i as int]@);
            }
            if !message.as_str().is_empty() && !ends_with_newline(message.as_str()) {
                message.push('\n');
            }
            message.append("Suggested fix:\n  ");
            append_indented(&mut message, hints[i].as_str());
            i = i + 1;
        }
        proof {
            assert(all.take(all.len() as int) =~= all);
        }
        if !ends_with_newline(message.as_str()) {
            message.push('\n');
        }
        match span {
            Some(span) => GhcDiagnostic {
                severity,
                path: Some(FilePath::new(span.file)),
                span: span.range,
                message,
            },
            None => GhcDiagnostic { severity, path: None, span: PositionRange::default(), message },
        }
    }
}

/// Where a scan of a JSON text stands: how many brackets are open, and whether it is inside a string
/// and behind a backslash there.
#[derive(Clone, Copy, Debug, PartialEq, Eq, Structural)]
pub struct JsonScan {
    pub depth: usize,
    pub quoted: bool,
    pub escaped: bool,
}

/// Where the scan stands after the character `c`.
pub open spec fn scan_next(scan: JsonScan, c: char) -> JsonScan {
    if scan.quoted {
        JsonScan {
            quoted: scan.escaped || c != '"',
            escaped: !scan.escaped && c == '\\',
            ..scan
        }
    } else if c == '"' {
        JsonScan { quoted: true, ..scan }
    } else if c == '{' || c == '[' {
        JsonScan { depth: (scan.depth + 1) as usize, ..scan }
    } else if (c == '}' || c == ']') && scan.depth > 0 {
        JsonScan { depth: (scan.depth - 1) as usize, ..scan }
    } else {
        scan
    }
}

/// Where the scan stands after the text.
pub open spec fn scan_of(text: Seq<char>) -> JsonScan
    decreases text.len(),
{
    if text.len() == 0 {
        JsonScan { depth: 0, quoted: false, escaped: false }
    } else {
        scan_next(scan_of(text.drop_last()), text.last())
    }
}

/// What the character `c` of an object becomes when the object is written as an array: the outermost
/// braces become brackets, and the colons between them become commas.
pub open spec fn as_item(scan: JsonScan, c: char) -> char {
    if scan.quoted {
        c
    } else if c == '{' && scan.depth == 0 {
        '['
    } else if c == '}' && scan.depth == 1 {
        ']'
    } else if c == ':' && scan.depth == 1 {
        ','
    } else {
        c
    }
}

/// An object, written as an array of its names and values in turn.
pub open spec fn listed(text: Seq<char>) -> Seq<char> {
    Seq::new(text.len(), |i: int| as_item(scan_of(text.take(i)), text[i]))
}

/// The name of the field at place `i` among names and values in turn.
pub open spec fn name_at(items: Seq<Seq<char>>, i: int) -> Option<Seq<char>> {
    json_string(items[2 * i])
}

/// The fields that names and values in turn make up.
pub open spec fn paired(items: Seq<Seq<char>>) -> Option<Seq<(Seq<char>, Seq<char>)>> {
    if items.len() % 2 == 0 && forall|i: int| 0 <= i < items.len() / 2 ==> #[trigger] name_at(items, i) is Some {
        Some(Seq::new(items.len() / 2, |i: int| (name_at(items, i)->0, items[2 * i + 1])))
    } else {
        None
    }
}

/// The fields of the JSON object that a text is, each with the JSON text of its value, in their order
/// and as often as they are there; nothing if the text is no JSON object.
pub open spec fn fields_of(text: Seq<char>) -> Option<Seq<(Seq<char>, Seq<char>)>> {
    if json_object(text) {
        match json_array(listed(text)) {
            Some(items) => paired(items),
            None => None,
        }
    } else {
        None
    }
}

/// Whether a field is called `name`.
pub open spec fn mentions(fields: Seq<(Seq<char>, Seq<char>)>, name: Seq<char>) -> bool {
    exists|i: int| 0 <= i < fields.len() && (#[trigger] fields[i]).0 == name
}

/// The text of the value of the field called `name`, if just one field is.
pub open spec fn value_of(fields: Seq<(Seq<char>, Seq<char>)>, name: Seq<char>) -> Option<Seq<char>>
    decreases fields.len(),
{
    if fields.len() == 0 {
        None
    } else if fields[0].0 == name {
        if mentions(fields.skip(1), name) {
            None
        } else {
            Some(fields[0].1)
        }
    } else {
        value_of(fields.skip(1), name)
    }
}

proof fn lemma_repeated(
    fields: Seq<(Seq<char>, Seq<char>)>,
    name: Seq<char>,
    i: int,
    j: int,
)
    requires
        0 <= i < j < fields.len(),
        fields[i].0 == name,
        fields[j].0 == name,
    ensures
        value_of(fields, name) is None,
    decreases fields.len(),
{
    let rest = fields.skip(1);
    if fields[0].0 == name {
        assert(rest[j - 1] == fields[j]);
    } else {
        assert(rest[i - 1] == fields[i]);
        assert(rest[j - 1] == fields[j]);
        lemma_repeated(rest, name, i - 1, j - 1);
    }
}

/// The values of the fields called `names`, of an object or, in their order, of an array.
pub open spec fn members(text: Seq<char>, names: Seq<Seq<char>>) -> Option<Seq<Seq<char>>> {
    match fields_of(text) {
        Some(fields) => if forall|i: int|
            0 <= i < names.len() ==> value_of(fields, #[trigger] names[i]) is Some {
            Some(Seq::new(names.len(), |i: int| value_of(fields, names[i])->0))
        } else {
            None
        },
        None => match json_array(text) {
            Some(items) => if items.len() == names.len() {
                Some(items)
            } else {
                None
            },
            None => None,
        },
    }
}

/// A JSON number that fits a `usize`.
pub open spec fn size_of_text(text: Seq<char>) -> Option<usize> {
    match json_size(text) {
        Some(n) => if n <= usize::MAX {
            Some(n as usize)
        } else {
            None
        },
        None => None,
    }
}

/// A line and a column.
pub open spec fn location_of(text: Seq<char>) -> Option<(usize, usize)> {
    match members(text, seq!["line"@, "column"@]) {
        Some(values) => match (size_of_text(values[0]), size_of_text(values[1])) {
            (Some(line), Some(column)) => Some((line, column)),
            _ => None,
        },
        None => None,
    }
}

/// A file, the start of a range and its end.
pub open spec fn span_of(text: Seq<char>) -> Option<(Seq<char>, PositionRange)> {
    match members(text, seq!["file"@, "start"@, "end"@]) {
        Some(values) => match (json_string(values[0]), location_of(values[1]), location_of(values[2])) {
            (Some(file), Some((start_line, start_column)), Some((end_line, end_column))) => Some(
                (file, PositionRange { start_line, start_column, end_line, end_column }),
            ),
            _ => None,
        },
        None => None,
    }
}

/// Whether a JSON text is null.
pub open spec fn is_null(text: Seq<char>) -> bool {
    trimmed(text) == "null"@
}

/// The severity with this name.
pub open spec fn severity_named(name: Seq<char>) -> Option<Severity> {
    if name == "Warning"@ {
        Some(Severity::Warning)
    } else if name == "Error"@ {
        Some(Severity::Error)
    } else {
        None
    }
}

/// A severity: its name, or an object with just a null under its name.
pub open spec fn severity_of(text: Seq<char>) -> Option<Severity> {
    match json_string(text) {
        Some(name) => severity_named(name),
        None => match fields_of(text) {
            Some(fields) => if fields.len() == 1 && is_null(fields[0].1) {
                severity_named(fields[0].0)
            } else {
                None
            },
            None => None,
        },
    }
}

/// The diagnostic that an object with these fields tells of.
pub open spec fn diagnostic_of(fields: Seq<(Seq<char>, Seq<char>)>) -> Option<JsonView> {
    match (
        value_of(fields, "version"@),
        value_of(fields, "ghcVersion"@),
        value_of(fields, "span"@),
        value_of(fields, "severity"@),
        value_of(fields, "code"@),
        value_of(fields, "message"@),
        value_of(fields, "hints"@),
    ) {
        (
            Some(version),
            Some(ghc_version),
            Some(span),
            Some(severity),
            Some(code),
            Some(message),
            Some(hints),
        ) => {
            let place = if is_null(span) {
                Some(None)
            } else {
                match span_of(span) {
                    Some(span) => Some(Some(span)),
                    None => None,
                }
            };
            match (severity_of(severity), place, json_strings(message), json_strings(hints)) {
                (Some(severity), Some(span), Some(message), Some(hints)) => if json_string(version) is Some
                    && json_string(ghc_version) is Some && json_integer(code) is Some {
                    Some(JsonView { severity, span, message, hints })
                } else {
                    None
                },
                _ => None,
            }
        },
        _ => None,
    }
}

/// Whether a field with this name belongs to the schema.
pub open spec fn is_required(name: Seq<char>) -> bool {
    name == "version"@ || name == "ghcVersion"@ || name == "span"@ || name == "severity"@ || name
        == "code"@ || name == "message"@ || name == "hints"@
}

proof fn lemma_missing(fields: Seq<(Seq<char>, Seq<char>)>, name: Seq<char>)
    requires
        !mentions(fields, name),
    ensures
        value_of(fields, name) is None,
    decreases fields.len(),
{
    if fields.len() > 0 {
        let rest = fields.skip(1);
        assert(fields[0].0 != name);
        assert forall|i: int| 0 <= i < rest.len() implies (#[trigger] rest[i]).0 != name by {
            assert(rest[i] == fields[i + 1]);
        }
        lemma_missing(rest, name);
    }
}

/// An object that lacks a field of the schema is no diagnostic, whatever else it holds.
pub proof fn incomplete_objects_are_refused(fields: Seq<(Seq<char>, Seq<char>)>, name: Seq<char>)
    requires
        is_required(name),
        !mentions(fields, name),
    ensures
        diagnostic_of(fields) is None,
{
    lemma_missing(fields, name);
}

/// An object that repeats a field of the schema is no diagnostic, whatever the values are.
pub proof fn repeated_fields_are_refused(
    fields: Seq<(Seq<char>, Seq<char>)>,
    name: Seq<char>,
    i: int,
    j: int,
)
    requires
        is_required(name),
        0 <= i < j < fields.len(),
        fields[i].0 == name,
        fields[j].0 == name,
    ensures
        diagnostic_of(fields) is None,
{
    lemma_repeated(fields, name, i, j);
}

proof fn lemma_other_field(fields: Seq<(Seq<char>, Seq<char>)>, at: int, name: Seq<char>)
    requires
        0 <= at < fields.len(),
        fields[at].0 != name,
    ensures
        value_of(fields.remove(at), name) == value_of(fields, name),
        mentions(fields.remove(at), name) == mentions(fields, name),
    decreases fields.len(),
{
    let less = fields.remove(at);
    assert(mentions(less, name) == mentions(fields, name)) by {
        if mentions(fields, name) {
            let i = choose|i: int| 0 <= i < fields.len() && (#[trigger] fields[i]).0 == name;
            if i < at {
                assert(less[i] == fields[i]);
            } else {
                assert(less[i - 1] == fields[i]);
            }
        }
        if mentions(less, name) {
            let i = choose|i: int| 0 <= i < less.len() && (#[trigger] less[i]).0 == name;
            if i < at {
                assert(fields[i] == less[i]);
            } else {
                assert(fields[i + 1] == less[i]);
            }
        }
    }
    if at == 0 {
        assert(less =~= fields.skip(1));
    } else {
        let rest = fields.skip(1);
        assert(rest[at - 1] == fields[at]);
        lemma_other_field(rest, at - 1, name);
        assert(less.skip(1) =~= rest.remove(at - 1));
        assert(less[0] == fields[0]);
    }
}

/// Fields that do not belong to the schema change nothing, wherever they stand and however often.
pub proof fn other_fields_are_accepted(fields: Seq<(Seq<char>, Seq<char>)>, at: int)
    requires
        0 <= at < fields.len(),
        !is_required(fields[at].0),
    ensures
        diagnostic_of(fields.remove(at)) == diagnostic_of(fields),
{
    lemma_other_field(fields, at, "version"@);
    lemma_other_field(fields, at, "ghcVersion"@);
    lemma_other_field(fields, at, "span"@);
    lemma_other_field(fields, at, "severity"@);
    lemma_other_field(fields, at, "code"@);
    lemma_other_field(fields, at, "message"@);
    lemma_other_field(fields, at, "hints"@);
}

/// The diagnostic of a line that is a JSON object.
pub open spec fn json_line(line: Seq<char>) -> Option<DiagnosticView> {
    match fields_of(line) {
        Some(fields) => match diagnostic_of(fields) {
            Some(json) => Some(json.diagnostic()),
            None => None,
        },
        None => None,
    }
}

/// Writes an object as an array of its names and values in turn.
fn list_members(text: &str) -> (r: String)
    ensures
        r@ == listed(text@),
{
    let v = to_chars(text);
    let mut r = String::new();
    let mut scan = JsonScan { depth: 0, quoted: false, escaped: false };
    let mut i: usize = 0;
    proof {
        assert(v@.take(0).len() == 0);
        assert(r@ =~= listed(v@).take(0));
    }
    while i < v.len()
        invariant
            i <= v@.len(),
            scan.depth <= i,
            scan == scan_of(v@.take(i as int)),
            r@ == listed(v@).take(i as int),
        decreases v@.len() - i,
    {
        let c = v[i];
        let ghost before = r@;
        proof {
            assert(v@.take(i + 1).drop_last() =~= v@.take(i as int));
            assert(v@.take(i + 1).last() == c);
        }
        if scan.quoted {
            r.push(c);
            let escaped = scan.escaped;
            scan.quoted = escaped || c != '"';
            scan.escaped = !escaped && c == '\\';
        } else if c == '"' {
            r.push(c);
            scan.quoted = true;
        } else if c == '{' || c == '[' {
            r.push(if scan.depth == 0 { '[' } else { c });
            scan.depth = scan.depth + 1;
        } else if (c == '}' || c == ']') && scan.depth > 0 {
            r.push(if scan.depth == 1 { ']' } else { c });
            scan.depth = scan.depth - 1;
        } else {
            r.push(if c == ':' && scan.depth == 1 { ',' } else { c });
        }
        proof {
            assert(r@ =~= before.push(listed(v@)[i as int]));
            assert(listed(v@).take(i + 1) =~= listed(v@).take(i as int).push(listed(v@)[i as int]));
        }
        i = i + 1;
    }
    proof {
        assert(listed(v@).take(v@.len() as int) =~= listed(v@));
    }
    r
}

/// Puts names and values in turn together.
fn pair_up(items: Vec<String>) -> (r: Option<Vec<(String, String)>>)
    ensures
        match r {
            Some(fields) => paired(texts(items@)) == Some(field_views(fields@)),
            None => paired(texts(items@)) is None,
        },
{
    let ghost all = texts(items@);
    if items.len() % 2 != 0 {
        return None;
    }
    let mut fields: Vec<(String, String)> = Vec::new();
    let mut i: usize = 0;
    while i < items.len() / 2
        invariant
            items@.len() % 2 == 0,
            i <= items@.len() / 2,
            all == texts(items@),
            fields@.len() == i,
            forall|n: int|
                0 <= n < i ==> #[trigger] name_at(all, n) == Some(fields@[n].0@) && fields@[n].1@ == all[2 * n
                    + 1],
        decreases items@.len() / 2 - i,
    {
        proof {
            assert(all[2 * i as int] == items@[2 * i as int]@);
            assert(all[2 * i as int + 1] == items@[2 * i as int + 1]@);
        }
        match read_string(items[2 * i].as_str()) {
            Some(name) => {
                fields.push((name, items[2 * i + 1].clone()));
            },
            None => {
                proof {
                    assert(name_at(all, i as int) is None);
                }
                return None;
            },
        }
        i = i + 1;
    }
    proof {
        assert(field_views(fields@) =~= paired(all)->0);
    }
    Some(fields)
}

/// Reads the fields of an object.
fn read_fields(text: &str) -> (r: Option<Vec<(String, String)>>)
    ensures
        match r {
            Some(fields) => fields_of(text@) == Some(field_views(fields@)),
            None => fields_of(text@) is None,
        },
{
    if is_object(text) {
        match read_array(list_members(text).as_str()) {
            Some(items) => pair_up(items),
            None => None,
        }
    } else {
        None
    }
}

fn is_mentioned(fields: &Vec<(String, String)>, from: usize, name: &str) -> (r: bool)
    requires
        from <= fields@.len(),
    ensures
        r == mentions(field_views(fields@).skip(from as int), name@),
{
    let ghost rest = field_views(fields@).skip(from as int);
    let mut i: usize = from;
    while i < fields.len()
        invariant
            from <= i <= fields@.len(),
            rest == field_views(fields@).skip(from as int),
            forall|n: int| 0 <= n < i - from ==> (#[trigger] rest[n]).0 != name@,
        decreases fields@.len() - i,
    {
        proof {
            assert(rest[i - from] == (fields@[i as int].0@, fields@[i as int].1@));
        }
        if same_text(fields[i].0.as_str(), name) {
            return true;
        }
        i = i + 1;
    }
    false
}

fn find_value(fields: &Vec<(String, String)>, name: &str) -> (r: Option<String>)
    ensures
        match r {
            Some(value) => value_of(field_views(fields@), name@) == Some(value@),
            None => value_of(field_views(fields@), name@) is None,
        },
{
    let ghost all = field_views(fields@);
    let mut i: usize = 0;
    proof {
        assert(all.skip(0) =~= all);
    }
    while i < fields.len()
        invariant
            i <= fields@.len(),
            all == field_views(fields@),
            value_of(all, name@) == value_of(all.skip(i as int), name@),
        decreases fields@.len() - i,
    {
        proof {
            assert(all.skip(i as int)[0] == (fields@[i as int].0@, fields@[i as int].1@));
            assert(all.skip(i as int).skip(1) =~= all.skip(i + 1));
        }
        if same_text(fields[i].0.as_str(), name) {
            return if is_mentioned(fields, i + 1, name) {
                None
            } else {
                Some(fields[i].1.clone())
            };
        }
        i = i + 1;
    }
    None
}

fn find_members(text: &str, names: &Vec<String>) -> (r: Option<Vec<String>>)
    ensures
        match r {
            Some(values) => members(text@, texts(names@)) == Some(texts(values@)) && values@.len()
                == names@.len(),
            None => members(text@, texts(names@)) is None,
        },
{
    match read_fields(text) {
        Some(fields) => {
            let ghost all = field_views(fields@);
            let mut values: Vec<String> = Vec::new();
            let mut i: usize = 0;
            while i < names.len()
                invariant
                    i <= names@.len(),
                    values@.len() == i,
                    all == field_views(fields@),
                    fields_of(text@) == Some(all),
                    forall|n: int|
                        0 <= n < i ==> value_of(all, #[trigger] names@[n]@) == Some(values@[n]@),
                decreases names@.len() - i,
            {
                match find_value(&fields, names[i].as_str()) {
                    Some(value) => {
                        values.push(value);
                    },
                    None => {
                        proof {
                            assert(value_of(all, texts(names@)[i as int]) is None);
                        }
                        return None;
                    },
                }
                i = i + 1;
            }
            proof {
                let wanted = texts(names@);
                assert forall|n: int| 0 <= n < wanted.len() implies value_of(all, #[trigger] wanted[n]) is Some by {
                    assert(value_of(all, names@[n]@) == Some(values@[n]@));
                }
                assert(texts(values@) =~= Seq::new(wanted.len(), |n: int| value_of(all, wanted[n])->0)) by {
                    assert forall|n: int| 0 <= n < wanted.len() implies texts(values@)[n] == value_of(
                        all,
                        wanted[n],
                    )->0 by {
                        assert(value_of(all, names@[n]@) == Some(values@[n]@));
                    }
                }
            }
            Some(values)
        },
        None => match read_array(text) {
            Some(items) => {
                proof {
                    assert(texts(items@).len() == items@.len());
                }
                if items.len() == names.len() {
                    Some(items)
                } else {
                    None
                }
            },
            None => None,
        },
    }
}

fn decode_size(text: &str) -> (r: Option<usize>)
    ensures
        r == size_of_text(text@),
{
    match read_size(text) {
        Some(n) => if n <= usize::MAX as u64 {
            Some(n as usize)
        } else {
            None
        },
        None => None,
    }
}

fn decode_location(text: &str) -> (r: Option<(usize, usize)>)
    ensures
        r == location_of(text@),
{
    let names: Vec<String> = vec!["line".to_owned(), "column".to_owned()];
    proof {
        assert(texts(names@) =~= seq!["line"@, "column"@]);
    }
    match find_members(text, &names) {
        Some(values) => {
            proof {
                assert(texts(values@)[0] == values@[0]@);
                assert(texts(values@)[1] == values@[1]@);
            }
            match (decode_size(values[0].as_str()), decode_size(values[1].as_str())) {
                (Some(line), Some(column)) => Some((line, column)),
                _ => None,
            }
        },
        None => None,
    }
}

fn decode_span(text: &str) -> (r: Option<JsonSpan>)
    ensures
        match r {
            Some(span) => span_of(text@) == Some((span.file@, span.range)),
            None => span_of(text@) is None,
        },
{
    let names: Vec<String> = vec!["file".to_owned(), "start".to_owned(), "end".to_owned()];
    proof {
        assert(texts(names@) =~= seq!["file"@, "start"@, "end"@]);
    }
    match find_members(text, &names) {
        Some(values) => {
            proof {
                assert(texts(values@)[0] == values@[0]@);
                assert(texts(values@)[1] == values@[1]@);
                assert(texts(values@)[2] == values@[2]@);
            }
            let file = match read_string(values[0].as_str()) {
                Some(file) => file,
                None => {
                    return None;
                },
            };
            let (start_line, start_column) = match decode_location(values[1].as_str()) {
                Some(start) => start,
                None => {
                    return None;
                },
            };
            let (end_line, end_column) = match decode_location(values[2].as_str()) {
                Some(end) => end,
                None => {
                    return None;
                },
            };
            Some(
                JsonSpan {
                    file,
                    range: PositionRange::new(start_line, start_column, end_line, end_column),
                },
            )
        },
        None => None,
    }
}

fn decode_severity_name(name: &str) -> (r: Option<Severity>)
    ensures
        r == severity_named(name@),
{
    if same_text(name, "Warning") {
        Some(Severity::Warning)
    } else if same_text(name, "Error") {
        Some(Severity::Error)
    } else {
        None
    }
}

fn decode_null(text: &str) -> (r: bool)
    ensures
        r == is_null(text@),
{
    same_text(trim(text).as_str(), "null")
}

fn decode_severity(text: &str) -> (r: Option<Severity>)
    ensures
        r == severity_of(text@),
{
    match read_string(text) {
        Some(name) => decode_severity_name(name.as_str()),
        None => match read_fields(text) {
            Some(fields) => {
                proof {
                    assert(field_views(fields@).len() == fields@.len());
                }
                if fields.len() == 1 && decode_null(fields[0].1.as_str()) {
                    decode_severity_name(fields[0].0.as_str())
                } else {
                    None
                }
            },
            None => None,
        },
    }
}

/// Decodes the fields of a JSON object that is a diagnostic. Each field that is used has to be there
/// just once.
pub fn decode_diagnostic(fields: &Vec<(String, String)>) -> (r: Option<JsonDiagnostic>)
    ensures
        match r {
            Some(json) => diagnostic_of(field_views(fields@)) == Some(json@),
            None => diagnostic_of(field_views(fields@)) is None,
        },
{
    let (version, ghc_version) = match (find_value(fields, "version"), find_value(fields, "ghcVersion")) {
        (Some(version), Some(ghc_version)) => (version, ghc_version),
        _ => {
            return None;
        },
    };
    let (span, severity, code) = match (
        find_value(fields, "span"),
        find_value(fields, "severity"),
        find_value(fields, "code"),
    ) {
        (Some(span), Some(severity), Some(code)) => (span, severity, code),
        _ => {
            return None;
        },
    };
    let (message, hints) = match (find_value(fields, "message"), find_value(fields, "hints")) {
        (Some(message), Some(hints)) => (message, hints),
        _ => {
            return None;
        },
    };
    if read_string(version.as_str()).is_none() || read_string(ghc_version.as_str()).is_none() || read_integer(
        code.as_str(),
    ).is_none() {
        return None;
    }
    let severity = match decode_severity(severity.as_str()) {
        Some(severity) => severity,
        None => {
            return None;
        },
    };
    let place: Option<JsonSpan> = if decode_null(span.as_str()) {
        None
    } else {
        match decode_span(span.as_str()) {
            Some(span) => Some(span),
            None => {
                return None;
            },
        }
    };
    match (read_strings(message.as_str()), read_strings(hints.as_str())) {
        (Some(message), Some(hints)) => Some(JsonDiagnostic { severity, span: place, message, hints }),
        _ => None,
    }
}

/// Reads a JSON object that is a diagnostic.
pub fn deserialize_json_diagnostic(line: &str) -> (r: Option<GhcDiagnostic>)
    ensures
        match r {
            Some(diagnostic) => json_line(line@) == Some(diagnostic@),
            None => json_line(line@) is None,
        },
{
    match read_fields(line) {
        Some(fields) => match decode_diagnostic(&fields) {
            Some(json) => Some(json.diagnostic()),
            None => None,
        },
        None => None,
    }
}

/// Reads one line that the compiler printed as JSON. A line that does not start with a brace is none.
pub fn parse_json_diagnostic_line(line: &str) -> (r: Option<GhcDiagnostic>)
    ensures
        match r {
            Some(diagnostic) => trim_start(line@).len() > 0 && trim_start(line@)[0] == '{' && json_line(
                line@,
            ) == Some(diagnostic@),
            None => trim_start(line@).len() == 0 || trim_start(line@)[0] != '{' || json_line(line@) is None,
        },
{
    if crate::text::first_after_white(line) == Some('{') {
        deserialize_json_diagnostic(line)
    } else {
        None
    }
}

/// Each newline is followed by two spaces, and nothing else changes.
pub proof fn lines_are_indented(a: Seq<char>, b: Seq<char>)
    ensures
        (forall|i: int| 0 <= i < a.len() ==> #[trigger] a[i] != '\n') ==> indented(a) == a,
        indented(a + seq!['\n'] + b) == indented(a) + seq!['\n', ' ', ' '] + indented(b),
    decreases a.len() + b.len(),
{
    lemma_no_indent(a);
    let all = a + seq!['\n'] + b;
    if b.len() == 0 {
        assert(all.last() == '\n');
        assert(all.drop_last() =~= a);
        assert(indented(a) + seq!['\n', ' ', ' '] + indented(b) =~= indented(a) + seq!['\n', ' ', ' ']);
    } else {
        lines_are_indented(a, b.drop_last());
        assert(all.last() == b.last());
        assert(all.drop_last() =~= a + seq!['\n'] + b.drop_last());
        let head = indented(a) + seq!['\n', ' ', ' '];
        if b.last() == '\n' {
            assert(head + indented(b.drop_last()) + seq!['\n', ' ', ' '] =~= head + (indented(b.drop_last()) + seq![
                '\n',
                ' ',
                ' ',
            ]));
        } else {
            assert((head + indented(b.drop_last())).push(b.last()) =~= head + indented(b.drop_last()).push(b.last()));
        }
    }
}

proof fn lemma_no_indent(a: Seq<char>)
    ensures
        (forall|i: int| 0 <= i < a.len() ==> #[trigger] a[i] != '\n') ==> indented(a) == a,
    decreases a.len(),
{
    if a.len() > 0 && (forall|i: int| 0 <= i < a.len() ==> #[trigger] a[i] != '\n') {
        let rest = a.drop_last();
        assert forall|i: int| 0 <= i < rest.len() implies #[trigger] rest[i] != '\n' by {
            assert(rest[i] == a[i]);
        }
        lemma_no_indent(rest);
        assert(a[a.len() - 1] != '\n');
        assert(rest.push(a.last()) =~= a);
    }
}

/// A suggestion follows the message on a line of its own, and the suggestions keep their order.
pub proof fn suggestions_follow_the_message(message: Seq<char>, hints: Seq<Seq<char>>, hint: Seq<char>)
    ensures
        with_hints(message, seq![]) == message,
        with_hints(message, hints.push(hint)) == with_hint(with_hints(message, hints), hint),
        message.len() > 0 && message.last() != '\n' ==> with_hint(message, hint) == message + "\nSuggested fix:\n  "@
            + indented(hint),
        message.len() == 0 || message.last() == '\n' ==> with_hint(message, hint) == message + "Suggested fix:\n  "@
            + indented(hint),
{
    reveal_strlit("\nSuggested fix:\n  ");
    reveal_strlit("Suggested fix:\n  ");
    assert(hints.push(hint).drop_last() =~= hints);
    assert("\nSuggested fix:\n  "@ =~= seq!['\n'] + "Suggested fix:\n  "@);
    assert(message.push('\n') + "Suggested fix:\n  "@ =~= message + "\nSuggested fix:\n  "@);
}

/// A diagnostic has the severity, the place and the message of its object. Its message ends with a newline, which is all
/// that is added to it.
pub proof fn diagnostics_are_those_of_their_objects(json: JsonView)
    ensures
        ({
            let d = json.diagnostic();
            let message = with_hints(joined(json.message, "\n"@), json.hints);
            &&& d.severity == json.severity
            &&& json.span is Some ==> d.path == Some((json.span->0).0) && d.span == (json.span->0).1
            &&& json.span is None ==> d.path is None && d.span == PositionRange::zero()
            &&& d.message.len() > 0 && d.message.last() == '\n'
            &&& d.message == message || d.message.drop_last() == message
        }),
{
    let message = with_hints(joined(json.message, "\n"@), json.hints);
    assert(message.push('\n').drop_last() =~= message);
}

/// The value of a field is that of the only one with its name.
pub proof fn values_are_found_by_name(fields: Seq<(Seq<char>, Seq<char>)>, name: Seq<char>, i: int)
    requires
        0 <= i < fields.len(),
        fields[i].0 == name,
        forall|j: int| 0 <= j < fields.len() && j != i ==> (#[trigger] fields[j]).0 != name,
    ensures
        value_of(fields, name) == Some(fields[i].1),
    decreases i,
{
    let rest = fields.skip(1);
    if i == 0 {
        assert(!mentions(rest, name)) by {
            if mentions(rest, name) {
                let j = choose|j: int| 0 <= j < rest.len() && (#[trigger] rest[j]).0 == name;
                assert(fields[j + 1] == rest[j]);
            }
        }
    } else {
        assert(fields[0].0 != name);
        assert(rest[i - 1] == fields[i]);
        assert forall|j: int| 0 <= j < rest.len() && j != i - 1 implies (#[trigger] rest[j]).0 != name by {
            assert(rest[j] == fields[j + 1]);
        }
        values_are_found_by_name(rest, name, i - 1);
    }
}

/// An object is accepted exactly if all fields have a value of their kind, and its diagnostic has the severity, the place,
/// the message and the hints that they tell.
pub proof fn complete_objects_are_accepted(fields: Seq<(Seq<char>, Seq<char>)>)
    ensures
        diagnostic_of(fields) is Some ==> {
            let json = diagnostic_of(fields)->0;
            &&& severity_of(value_of(fields, "severity"@)->0) == Some(json.severity)
            &&& json_strings(value_of(fields, "message"@)->0) == Some(json.message)
            &&& json_strings(value_of(fields, "hints"@)->0) == Some(json.hints)
            &&& json.span is None <==> is_null(value_of(fields, "span"@)->0)
            &&& json.span is Some ==> span_of(value_of(fields, "span"@)->0) == json.span
        },
        diagnostic_of(fields) is Some <==> {
            &&& value_of(fields, "version"@) matches Some(v) && json_string(v) is Some
            &&& value_of(fields, "ghcVersion"@) matches Some(v) && json_string(v) is Some
            &&& value_of(fields, "span"@) matches Some(v) && (is_null(v) || span_of(v) is Some)
            &&& value_of(fields, "severity"@) matches Some(v) && severity_of(v) is Some
            &&& value_of(fields, "code"@) matches Some(v) && json_integer(v) is Some
            &&& value_of(fields, "message"@) matches Some(v) && json_strings(v) is Some
            &&& value_of(fields, "hints"@) matches Some(v) && json_strings(v) is Some
        },
{
}

/// The severities are told by their names.
pub proof fn severities_are_told_by_name(name: Seq<char>)
    ensures
        severity_named(name) == Some(Severity::Warning) <==> name == "Warning"@,
        severity_named(name) == Some(Severity::Error) <==> name == "Error"@,
{
    reveal_strlit("Warning");
    reveal_strlit("Error");
    assert("Warning"@[0] != "Error"@[0]);
}

/// Only the outermost braces and the colons between them change when an object is written as an array, and nothing inside
/// a string does.
pub proof fn only_the_outermost_structure_changes(scan: JsonScan, c: char)
    ensures
        scan.quoted ==> as_item(scan, c) == c,
        scan.depth > 1 ==> as_item(scan, c) == c,
        c != '{' && c != '}' && c != ':' ==> as_item(scan, c) == c,
        !scan.quoted && scan.depth == 0 ==> as_item(scan, '{') == '[',
        !scan.quoted && scan.depth == 1 ==> as_item(scan, '}') == ']' && as_item(scan, ':') == ',' && as_item(scan, '{') == '{',
{
}

/// A string ends at the first quote that no backslash is before, and brackets count only outside strings.
pub proof fn strings_are_scanned_as_a_whole(scan: JsonScan, c: char)
    ensures
        scan.quoted ==> scan_next(scan, c).depth == scan.depth,
        scan.quoted ==> (scan_next(scan, c).quoted <==> scan.escaped || c != '"'),
        scan.quoted ==> (scan_next(scan, c).escaped <==> c == '\\' && !scan.escaped),
        !scan.quoted ==> (scan_next(scan, c).quoted <==> c == '"'),
        !scan.quoted && (c == '{' || c == '[') && scan.depth < usize::MAX ==> scan_next(scan, c).depth == scan.depth + 1,
        !scan.quoted && (c == '}' || c == ']') && scan.depth > 0 ==> scan_next(scan, c).depth == scan.depth - 1,
        !scan.quoted && c != '{' && c != '[' && c != '}' && c != ']' ==> scan_next(scan, c).depth == scan.depth,
{
}

/// Only a JSON object has fields: an array of their names and values is not one.
pub proof fn only_objects_have_fields(text: Seq<char>)
    ensures
        fields_of(text) is Some ==> json_object(text),
        json_object(text) && json_array(listed(text)) is None ==> fields_of(text) is None,
{
}

/// A place is read from an object by the names of its fields, and from an array by their order.
pub proof fn places_are_read_by_name_or_order(
    text: Seq<char>,
    fields: Seq<(Seq<char>, Seq<char>)>,
    line: Seq<char>,
    column: Seq<char>,
)
    ensures
        fields_of(text) is None && json_array(text) == Some(seq![line, column]) ==> location_of(text) == both_sizes(
            line,
            column,
        ),
        fields_of(text) == Some(fields) && value_of(fields, "line"@) == Some(line) && value_of(fields, "column"@) == Some(
            column,
        ) ==> location_of(text) == both_sizes(line, column),
        fields_of(text) == Some(fields) && (value_of(fields, "line"@) is None || value_of(fields, "column"@) is None)
            ==> location_of(text) is None,
{
    let names = seq!["line"@, "column"@];
    assert(names[0] == "line"@ && names[1] == "column"@);
    if fields_of(text) == Some(fields) && value_of(fields, "line"@) == Some(line) && value_of(fields, "column"@) == Some(
        column,
    ) {
        assert forall|i: int| 0 <= i < names.len() implies value_of(fields, #[trigger] names[i]) is Some by {
            assert(i == 0 || i == 1);
        }
        assert(members(text, names)->0 =~= seq![line, column]);
    }
    if fields_of(text) == Some(fields) && (value_of(fields, "line"@) is None || value_of(fields, "column"@) is None) {
        assert(!(value_of(fields, names[0]) is Some) || !(value_of(fields, names[1]) is Some));
    }
}

/// Two numbers that both fit.
pub open spec fn both_sizes(line: Seq<char>, column: Seq<char>) -> Option<(usize, usize)> {
    match (json_size(line), json_size(column)) {
        (Some(l), Some(c)) => if l <= usize::MAX && c <= usize::MAX {
            Some((l as usize, c as usize))
        } else {
            None
        },
        _ => None,
    }
}

/// A range is that of its start and its end, in the file that is named.
pub proof fn ranges_are_read_by_name_or_order(
    text: Seq<char>,
    fields: Seq<(Seq<char>, Seq<char>)>,
    file: Seq<char>,
    start: Seq<char>,
    end: Seq<char>,
)
    requires
        fields_of(text) is None && json_array(text) == Some(seq![file, start, end]) || fields_of(text) == Some(fields)
            && value_of(fields, "file"@) == Some(file) && value_of(fields, "start"@) == Some(start) && value_of(
            fields,
            "end"@,
        ) == Some(end),
    ensures
        span_of(text) is Some <==> json_string(file) is Some && location_of(start) is Some && location_of(end) is Some,
        span_of(text) is Some ==> {
            let (path, range) = span_of(text)->0;
            &&& json_string(file) == Some(path)
            &&& location_of(start) == Some((range.start_line, range.start_column))
            &&& location_of(end) == Some((range.end_line, range.end_column))
        },
{
    let names = seq!["file"@, "start"@, "end"@];
    assert(names[0] == "file"@ && names[1] == "start"@ && names[2] == "end"@);
    if fields_of(text) is Some {
        assert forall|i: int| 0 <= i < names.len() implies value_of(fields, #[trigger] names[i]) is Some by {
            assert(i == 0 || i == 1 || i == 2);
        }
        assert(members(text, names)->0 =~= seq![file, start, end]);
    }
}

} // verus!
