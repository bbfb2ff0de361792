//! The failures that the library reports.

use vstd::prelude::*;

verus! {

/// Why an operation of the library failed.
#[derive(Clone, Copy, Debug, PartialEq, Eq, Structural)]
pub enum UtahError {
    /// The windows collected do not fill a matrix of the expected shape.
    ShapeMismatch,
    /// Two rows, or two columns, would carry the same label.
    LabelConflict,
    /// A reduction had no element to work on.
    EmptyReduction,
    /// A total does not fit in a cell.
    Overflow,
    /// The text is not well-formed comma-separated values.
    InvalidCsv,
    /// A field of the text is not a decimal integer that fits in a cell.
    InvalidNumber,
}

} // verus!
