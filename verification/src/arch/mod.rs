//! Architecture support.

pub mod x86_64;
