//! Backend logic of a configuration manager for a personal dotfiles
//! repository: a textual store of shell array declarations, a classifier for
//! lines of process output, and the decisions of a script run.

pub mod text;
pub mod rows;
pub mod pattern;
pub mod store;
pub mod classify;
pub mod runner;
pub mod session;
pub mod laws;
