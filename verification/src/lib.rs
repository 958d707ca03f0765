//! The lexical front end of a small interpreted language: source text in, a
//! flat sequence of classified tokens out.
//!
//! - [`token`] and [`diagnostic`] hold the records that a scan produces.
//! - [`grammar`] says, over sequences of characters, which tokens and which
//!   complaints a text has.
//! - [`scanner`] holds the scanner, whose contract is that grammar.
//! - [`text`] relates the byte offsets of the cursor to characters.
//! - [`laws`] proves what holds of every scan.

use vstd::prelude::*;

pub mod diagnostic;
pub mod grammar;
pub mod laws;
pub mod scanner;
pub mod text;
pub mod token;

use crate::diagnostic::Diagnostic;

verus! {

/// Builds the complaint `message` about `line`, with no hint at the place.
pub fn error(line: usize, message: &str) -> (report: Diagnostic)
    ensures
        report.line == line,
        report.place@ == Seq::<char>::empty(),
        report.message@ == message@,
{
    Diagnostic { line, place: String::new(), message: message.to_owned() }
}

} // verus!
