//! The records the trainer keeps.

pub mod consts;
pub mod score;
pub mod user;
pub mod user_list;
