//! Source positions, spans and the diagnostics that the front end reports.
use vstd::prelude::*;

verus! {

/// A place in the source: 1-based line and column, 0-based byte offset.
#[derive(Debug, Clone, Copy, PartialEq, Eq, Structural)]
pub struct Position {
    pub line: usize,
    pub column: usize,
    pub offset: usize,
}

/// The stretch of source between two positions.
#[derive(Debug, Clone, Copy, PartialEq, Eq, Structural)]
pub struct Span {
    pub start: Position,
    pub end: Position,
}

/// A message tied to a span of the source.
#[derive(Debug, Clone, PartialEq)]
pub struct Diagnostic {
    pub message: String,
    pub span: Span,
}

/// What a diagnostic says, as plain values.
pub struct SpecDiagnostic {
    pub message: Seq<char>,
    pub span: Span,
}

impl View for Diagnostic {
    type V = SpecDiagnostic;

    open spec fn view(&self) -> SpecDiagnostic {
        SpecDiagnostic { message: self.message@, span: self.span }
    }
}

pub open spec fn diag(message: Seq<char>, span: Span) -> SpecDiagnostic {
    SpecDiagnostic { message, span }
}

pub open spec fn diags_view(ds: Seq<Diagnostic>) -> Seq<SpecDiagnostic> {
    ds.map_values(|d: Diagnostic| d@)
}

impl Diagnostic {
    pub fn new(message: String, span: Span) -> (d: Self)
        ensures
            d@ == diag(message@, span),
    {
        Diagnostic { message, span }
    }

    /// A diagnostic whose message is the given text.
    pub fn from_str(message: &str, span: Span) -> (d: Self)
        ensures
            d@ == diag(message@, span),
    {
        Diagnostic { message: String::from_str(message), span }
    }
}

/// The messages of `ds`, separated by "; ".
pub open spec fn joined_messages(ds: Seq<SpecDiagnostic>) -> Seq<char>
    decreases ds.len(),
{
    if ds.len() == 0 {
        Seq::empty()
    } else if ds.len() == 1 {
        ds[0].message
    } else {
        joined_messages(ds.drop_last()) + "; "@ + ds.last().message
    }
}

/// One line of text that reports all of `diagnostics`.
pub fn join_messages(diagnostics: &Vec<Diagnostic>) -> (m: String)
    ensures
        m@ == joined_messages(diags_view(diagnostics@)),
{
    let mut m = String::new();
    let mut i: usize = 0;
    while i < diagnostics.len()
        invariant
            i <= diagnostics.len(),
            m@ == joined_messages(diags_view(diagnostics@).take(i as int)),
        decreases diagnostics.len() - i,
    {
        let ghost ds = diags_view(diagnostics@);
        proof {
            assert(ds.take(i + 1).drop_last() =~= ds.take(i as int));
            assert(ds.take(i + 1).last() == diagnostics@[i as int]@);
        }
        if i > 0 {
            m.append("; ");
        } else {
            assert(ds.take(0) =~= Seq::<SpecDiagnostic>::empty());
        }
        m.append(diagnostics[i].message.as_str());
        i = i + 1;
    }
    assert(diags_view(diagnostics@).take(diagnostics.len() as int) =~= diags_view(diagnostics@));
    m
}

} // verus!
