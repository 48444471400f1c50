//! Solvers for puzzles from the game Blue Prince.
//!
//! The numeric core is a search: three operators, each used once, are put
//! between four operands in every order, and the smallest result wins. The
//! operands are the digit groups of a number ([`numeric_core`]) or the places
//! of four letters in the alphabet ([`core_cipher`]). [`operators`] holds the
//! operators and the evaluation, [`digits`] and [`partition`] the digit
//! groups, [`selection`] the choice of the smallest result.
//!
//! Beside it stand the reading of Roman numerals ([`numeric_core_roman`])
//! and a box of nine coloured tiles ([`mora_jai_box`]).

pub mod core_cipher;
pub mod digits;
pub mod mora_jai_box;
pub mod numeric_core;
pub mod numeric_core_roman;
pub mod operators;
pub mod partition;
pub mod selection;
