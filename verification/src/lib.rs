//! Line-oriented text tools: comparing two files line by line and
//! filtering a file down to its unique lines.
//!
//! The library works on in-memory sequences of lines; reading files and
//! printing results is left to the surrounding binary.

pub mod compare;
pub mod lines;
pub mod render;
pub mod uniques;
