//! Input: which keys the compositor takes for itself, and what they do.

pub mod actions;
pub mod keys;
pub mod laws;
pub mod locked;
pub mod pointer;
pub mod presses;
pub mod route;
