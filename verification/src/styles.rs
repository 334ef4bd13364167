//! How scores and answers are coloured.

pub mod cell;
pub mod text_input;
