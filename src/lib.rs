//! A hosts-file manager: a line model that keeps the text each line was read from,
//! a file model with lookup and in-place mutations, and the decisions behind
//! the `show`, `check`, `add`, `remove`, `disable` and `enable` commands.
pub mod commands;
pub mod hostsfile;
pub mod laws;
pub mod line;
pub mod text;
