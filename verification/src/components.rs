//! The parts of the screen, as far as they decide anything.

pub mod equation;
pub mod menu;
pub mod mult_table;
