//! The axis of a traversal and the imputation strategies.

use vstd::prelude::*;

verus! {

/// The direction in which a dataframe is cut into windows.
#[derive(Clone, Copy, Debug, PartialEq, Eq, Structural)]
pub enum UtahAxis {
    /// One window for each row.
    Row,
    /// One window for each column.
    Column,
}

/// How a missing cell is filled in.
#[derive(Clone, Copy, Debug, PartialEq, Eq, Structural)]
pub enum ImputeStrategy {
    /// The mean of the cells of the same window that are not missing.
    Mean,
}

/// The value that stands for a missing cell.
pub const EMPTY: i64 = i64::MIN;

} // verus!
