//! Why an extraction failed.

use vstd::prelude::*;

verus! {

/// The kind of failure that aborted an extraction.
#[derive(Clone, Copy, Debug, PartialEq, Eq, Structural)]
pub enum ErrorKind {
    /// A show-text operator without a text position before it, or a line-to
    /// without a move-to before it.
    ParseSequence,
    /// A page has a different number of "Block" and "15:15" landmarks.
    RegionCountMismatch,
    /// No horizontal rule lies below a "15:15" landmark.
    RegionBoundMissing,
    /// A table region holds no "Block" text.
    RegionHeaderMissing,
    /// A column header has no horizontal rule crossing it.
    ColumnEmpty,
    /// The separator filter left other than seven lines in a column.
    CellLineCountWrong,
    /// A drawn segment is neither horizontal nor vertical.
    DiagonalLine,
    /// No text holds "Datum: ".
    DateNotFound,
    /// The date text holds no space.
    DateMalformed,
    /// The top object of a column's cells is a line, not the header text.
    CellHeaderMissing,
    /// The date token is not a valid "DD.MM.YYYY" date.
    DateParse,
    /// The document or an operand of it could not be read.
    PdfRead,
}

impl ErrorKind {
    /// A short human-readable description.
    pub fn message(&self) -> &'static str {
        match self {
            ErrorKind::ParseSequence => "operator sequence violated: Td expected before Tj, m before l",
            ErrorKind::RegionCountMismatch => "bottom and top limits don't match up",
            ErrorKind::RegionBoundMissing => "table bound could not be found",
            ErrorKind::RegionHeaderMissing => "string 'Block' not found in table",
            ErrorKind::ColumnEmpty => "no lines in column",
            ErrorKind::CellLineCountWrong => "not exactly 7 lines",
            ErrorKind::DiagonalLine => "line is neither horizontal nor vertical",
            ErrorKind::DateNotFound => "couldn't find the date string in PDF",
            ErrorKind::DateMalformed => "date string malformed",
            ErrorKind::CellHeaderMissing => "expected header text",
            ErrorKind::DateParse => "date could not be parsed",
            ErrorKind::PdfRead => "PDF could not be read",
        }
    }
}

} // verus!
