//! The letter variant of the numeric core: an ordinal cipher and the word solver.

pub mod ciphers;
pub mod numeric_core;
