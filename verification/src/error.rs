//! The errors of the G-code reader.
use vstd::prelude::*;

verus! {

/// What can go wrong while reading G-code.
#[derive(Debug)]
pub enum Error {
    UnknownInstructionType(String),
    GCodeStateParseError(String),
    GCodeParseError(String, usize),
}

/// An [`Error`] with its messages as character sequences.
pub enum ErrorView {
    UnknownInstructionType(Seq<char>),
    GCodeStateParseError(Seq<char>),
    GCodeParseError(Seq<char>, usize),
}

impl View for Error {
    type V = ErrorView;

    open spec fn view(&self) -> ErrorView {
        match self {
            Error::UnknownInstructionType(m) => ErrorView::UnknownInstructionType(m@),
            Error::GCodeStateParseError(m) => ErrorView::GCodeStateParseError(m@),
            Error::GCodeParseError(m, line) => ErrorView::GCodeParseError(m@, *line),
        }
    }
}

} // verus!
