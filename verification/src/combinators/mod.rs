//! The combinators: lazy operators over a sequence of windows.

pub mod aggregate;
pub mod interact;
pub mod process;
pub mod transform;
