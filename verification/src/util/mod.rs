//! Types shared by the whole crate.

pub mod error;
pub mod labels;
pub mod readcsv;
pub mod traits;
pub mod types;
