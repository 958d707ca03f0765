//! What the scanner hands to whoever prints its complaints.

use vstd::prelude::*;

verus! {

/// One complaint about the source text: where, and what.
#[derive(Clone, Debug, PartialEq, Eq)]
pub struct Diagnostic {
    /// The 1-based line that the complaint is about.
    pub line: usize,
    /// A hint at the place within the line; may be empty.
    pub place: String,
    /// The description of the fault.
    pub message: String,
}

/// A complaint as contracts speak of it.
pub struct DiagnosticModel {
    pub line: nat,
    pub place: Seq<char>,
    pub message: Seq<char>,
}

impl View for Diagnostic {
    type V = DiagnosticModel;

    open spec fn view(&self) -> DiagnosticModel {
        DiagnosticModel { line: self.line as nat, place: self.place@, message: self.message@ }
    }
}

/// The models of a sequence of complaints, in the same order.
pub open spec fn diagnostic_models(reports: Seq<Diagnostic>) -> Seq<DiagnosticModel> {
    reports.map_values(|d: Diagnostic| d@)
}

/// The description given for a character that begins no lexeme.
pub open spec fn unexpected_character() -> Seq<char> {
    "Unexpected character."@
}

impl DiagnosticModel {
    /// The complaint about a character on `line` that begins no lexeme.
    pub open spec fn unexpected(line: nat) -> DiagnosticModel {
        DiagnosticModel { line, place: Seq::empty(), message: unexpected_character() }
    }
}

} // verus!
