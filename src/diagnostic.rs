use vstd::prelude::*;
use crate::text::{decimal, push_decimal};

verus! {

/// A place in a source file.
#[derive(Clone, Copy, Debug, PartialEq, Eq, Structural)]
pub struct Position {
    pub line: usize,
    pub character: usize,
}

/// An inclusive span of source text.
#[derive(Clone, Copy, Debug, PartialEq, Eq, Structural)]
pub struct Range {
    pub start: Position,
    pub end: Position,
}

/// How serious a diagnostic is.
#[derive(Clone, Copy, Debug, PartialEq, Eq, Structural)]
pub enum Severity {
    Error,
    Warning,
}

/// A problem found in the source, with where it was found.
#[derive(Debug)]
pub struct Diagnostic {
    pub file_name: String,
    pub range: Range,
    pub message: String,
    pub context: String,
    pub severity: Severity,
}

pub open spec fn severity_word(s: Severity) -> Seq<char> {
    match s {
        Severity::Error => "error"@,
        Severity::Warning => "warning"@,
    }
}

/// A diagnostic on one line: `<file>:<line>:<column>: <severity>: <message>`.
pub open spec fn diagnostic_text(d: Diagnostic) -> Seq<char> {
    d.file_name@ + ":"@ + decimal(d.range.start.line as nat) + ":"@ + decimal(
        d.range.start.character as nat,
    ) + ": "@ + severity_word(d.severity) + ": "@ + d.message@
}

/// The diagnostics of a list, each on its own line.
pub open spec fn diagnostics_text(ds: Seq<Diagnostic>) -> Seq<char>
    decreases ds.len(),
{
    if ds.len() == 0 {
        seq![]
    } else {
        diagnostics_text(ds.drop_last()) + diagnostic_text(ds.last()) + "\n"@
    }
}

/// Equality of diagnostics by content.
pub open spec fn same_diagnostic(a: Diagnostic, b: Diagnostic) -> bool {
    &&& a.file_name@ == b.file_name@
    &&& a.range == b.range
    &&& a.message@ == b.message@
    &&& a.context@ == b.context@
    &&& a.severity == b.severity
}

impl Diagnostic {
    /// An error with the given message at the given place.
    pub fn error(file_name: &str, range: Range, context: &str, message: String) -> (r: Diagnostic)
        ensures
            r.file_name@ == file_name@,
            r.range == range,
            r.context@ == context@,
            r.message == message,
            r.severity == Severity::Error,
    {
        Diagnostic {
            file_name: String::from_str(file_name),
            range,
            message,
            context: String::from_str(context),
            severity: Severity::Error,
        }
    }

    /// A copy with the same content.
    pub fn duplicate(&self) -> (r: Diagnostic)
        ensures
            same_diagnostic(*self, r),
    {
        Diagnostic {
            file_name: self.file_name.clone(),
            range: self.range,
            message: self.message.clone(),
            context: self.context.clone(),
            severity: self.severity,
        }
    }

    /// The same diagnostic with the given severity.
    pub fn with_severity(self, severity: Severity) -> (r: Diagnostic)
        ensures
            r.file_name == self.file_name,
            r.range == self.range,
            r.message == self.message,
            r.context == self.context,
            r.severity == severity,
    {
        Diagnostic { severity, ..self }
    }

    /// The diagnostic on one line, as a compiler prints it.
    pub fn to_text(&self) -> (r: String)
        ensures
            r@ == diagnostic_text(*self),
    {
        let mut r = self.file_name.clone();
        r.append(":");
        push_decimal(&mut r, self.range.start.line);
        r.append(":");
        push_decimal(&mut r, self.range.start.character);
        r.append(": ");
        match self.severity {
            Severity::Error => r.append("error"),
            Severity::Warning => r.append("warning"),
        }
        r.append(": ");
        r.append(self.message.as_str());
        r
    }
}

/// The text of a list of diagnostics, each on its own line.
pub fn diagnostics_to_text(ds: &Vec<Diagnostic>) -> (r: String)
    ensures
        r@ == diagnostics_text(ds@),
{
    let mut r = String::new();
    let mut i: usize = 0;
    while i < ds.len()
        invariant
            i <= ds@.len(),
            r@ == diagnostics_text(ds@.subrange(0, i as int)),
        decreases ds@.len() - i,
    {
        let line = ds[i].to_text();
        r.append(line.as_str());
        r.append("\n");
        proof {
            let next = ds@.subrange(0, i + 1);
            assert(next.drop_last() =~= ds@.subrange(0, i as int));
        }
        i = i + 1;
    }
    assert(ds@.subrange(0, ds@.len() as int) =~= ds@);
    r
}

} // verus!
