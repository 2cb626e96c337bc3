use vstd::prelude::*;
use crate::span::Span;

verus! {

/// How grave a finding is.
#[derive(Debug, Clone, Copy, PartialEq, Eq, Structural)]
pub enum Severity {
    Error,
    Warning,
    Note,
}

/// One finding: what it is, where it is, and a hint.
#[derive(Debug, Clone)]
pub struct Diagnostic {
    pub severity: Severity,
    pub message: String,
    /// The bytes that the finding is about; none for a finding about no place.
    pub span: Option<Span>,
    pub note: Option<String>,
}

} // verus!
