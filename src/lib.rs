//! Fixed-width unsigned integers of 256, 512 and 768 bits, with exact
//! arithmetic, leading-zero counting and the reciprocal seed used by fast
//! division routines.
mod backend;
pub mod clz;
pub mod laws;
pub mod ops;
pub mod reciprocal;
pub mod words;
