//! The profiles of the languages whose rules are part of the library.

pub mod english;
pub mod french;
