//! What the checks of a configuration report.
use crate::text;
use vstd::prelude::*;

verus! {

/// A finding of a check.
#[derive(Debug, Clone, PartialEq, Eq)]
pub enum Diagnostic {
    Error(String),
    Warning(String),
}

/// A finding as mathematical values.
pub enum DiagnosticView {
    Error(Seq<char>),
    Warning(Seq<char>),
}

impl View for Diagnostic {
    type V = DiagnosticView;

    open spec fn view(&self) -> DiagnosticView {
        match self {
            Diagnostic::Error(m) => DiagnosticView::Error(m@),
            Diagnostic::Warning(m) => DiagnosticView::Warning(m@),
        }
    }
}

impl DiagnosticView {
    /// What the finding says.
    pub open spec fn message(self) -> Seq<char> {
        match self {
            DiagnosticView::Error(m) => m,
            DiagnosticView::Warning(m) => m,
        }
    }
}

impl Diagnostic {
    /// Whether the finding is an error.
    pub fn is_error(&self) -> (r: bool)
        ensures
            r == (self@ is Error),
    {
        match self {
            Diagnostic::Error(_) => true,
            Diagnostic::Warning(_) => false,
        }
    }

    /// What the finding says.
    pub fn message(&self) -> (r: &str)
        ensures
            r@ == self@.message(),
    {
        match self {
            Diagnostic::Error(m) => m.as_str(),
            Diagnostic::Warning(m) => m.as_str(),
        }
    }

    /// The finding as it is shown.
    pub fn display(&self) -> (r: String)
        ensures
            r@ == match self@ {
                DiagnosticView::Error(m) => "error: "@ + m,
                DiagnosticView::Warning(m) => "warning: "@ + m,
            },
    {
        match self {
            Diagnostic::Error(m) => text::join2("error: ", m.as_str()),
            Diagnostic::Warning(m) => text::join2("warning: ", m.as_str()),
        }
    }
}

/// The findings, in order.
pub open spec fn diags(s: Seq<Diagnostic>) -> Seq<DiagnosticView> {
    Seq::new(s.len(), |i: int| s[i]@)
}

/// One error.
pub open spec fn error(m: Seq<char>) -> Seq<DiagnosticView> {
    seq![DiagnosticView::Error(m)]
}

/// One warning.
pub open spec fn warning(m: Seq<char>) -> Seq<DiagnosticView> {
    seq![DiagnosticView::Warning(m)]
}

/// No finding.
pub open spec fn nothing() -> Seq<DiagnosticView> {
    Seq::empty()
}

/// No finding.
pub fn none() -> (r: Vec<Diagnostic>)
    ensures
        diags(r@) == nothing(),
{
    let v: Vec<Diagnostic> = Vec::new();
    assert(diags(v@) =~= nothing());
    v
}

/// One error.
pub fn one_error(m: String) -> (r: Vec<Diagnostic>)
    ensures
        diags(r@) == error(m@),
{
    let mut v: Vec<Diagnostic> = Vec::new();
    v.push(Diagnostic::Error(m));
    assert(diags(v@) =~= error(m@));
    v
}

/// One warning.
pub fn one_warning(m: String) -> (r: Vec<Diagnostic>)
    ensures
        diags(r@) == warning(m@),
{
    let mut v: Vec<Diagnostic> = Vec::new();
    v.push(Diagnostic::Warning(m));
    assert(diags(v@) =~= warning(m@));
    v
}

/// Appends findings.
pub fn extend(out: &mut Vec<Diagnostic>, more: Vec<Diagnostic>)
    ensures
        diags(final(out)@) == diags(old(out)@) + diags(more@),
{
    let ghost a = out@;
    let ghost b = more@;
    let mut m = more;
    out.append(&mut m);
    assert(diags(a + b) =~= diags(a) + diags(b));
}

} // verus!
