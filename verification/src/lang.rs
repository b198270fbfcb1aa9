//! The target languages that the library knows.

pub mod rust;
