//! Utilities shared by the rest of the library.

pub mod gpu_test;
pub mod time;
pub mod text;
