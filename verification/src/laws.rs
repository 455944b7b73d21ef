//! What the functions of the library are for, stated of their results.
//!
//! These laws speak of calls: of what a function returned, of how two results
//! relate, and of what was read or handed in. They do not lean on the
//! definitions that the functions are specified by.

pub mod coding;
pub mod conversion;
pub mod light;
pub mod number;
pub mod pixel;
pub mod rays;
pub mod texture;
