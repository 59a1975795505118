//! Searching byte slices for a byte, a machine word at a time.

pub mod num;
pub mod word;
pub mod search;
pub mod memchr_new;
pub mod finder;
pub mod laws;
