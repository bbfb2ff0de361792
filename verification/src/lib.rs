//! An in-memory dataframe: a dense matrix of `i64` cells with unique row and
//! column labels, traversed as a stream of labelled windows and transformed by
//! lazy, composable combinators.
//!
//! A [`DataFrame`] hands out its rows or its columns as windows: a label and
//! a view into the frame's matrix. Combinators wrap a traversal and stay
//! lazy; `as_df`, `as_matrix` and `as_array` drain one and build a frame, a
//! bare matrix or a flat vector. A missing cell is written as [`EMPTY`].

pub mod combinators;
pub mod dataframe;
pub mod laws;
pub mod materialize;
pub mod matrix;
pub mod model;
pub mod operations;
pub mod reduce;
pub mod util;

pub use crate::dataframe::{DataFrame, DataFrameIterator, DataFrameMutIterator};
pub use crate::matrix::{Matrix, SliceView};
pub use crate::util::error::UtahError;
pub use crate::util::readcsv::ReadCSV;
pub use crate::util::traits::{Window, WindowStream};
pub use crate::util::types::{ImputeStrategy, UtahAxis, EMPTY};
