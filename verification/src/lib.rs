//! Two-dimensional contiguous storage with a statically selected
//! row-major or column-major layout.

pub mod field;
pub mod layout;
pub mod orientation;
pub mod reffield;
