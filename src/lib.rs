//! A to-do list kept as plain text, one item per line.

pub mod item;
pub mod format;
pub mod list;
pub mod lemmas;
