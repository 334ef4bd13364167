//! A multiplication-table trainer: per-cell accuracy records, the users that
//! own them, worst-first selection of the cells to ask, and the state machine
//! that runs a round of questions.

pub mod app;
pub mod components;
pub mod data;
pub mod helpers;
pub mod selection;
pub mod styles;
