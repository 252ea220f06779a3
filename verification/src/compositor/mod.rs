//! The state of the compositor and what changes it.

pub mod floating;
pub mod handlers;
pub mod laws;
pub mod orders;
pub mod outcomes;
pub mod screen;
pub mod state;
pub mod window;
pub mod windows;
pub mod workspaces;
