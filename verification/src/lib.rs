//! The decision-making core of lingxi, a tiling Wayland compositor.
//!
//! Everything here works on plain values: windows and surfaces are integer
//! handles, tiles are integer rectangles, and the few quantities that are
//! doubles at run time are carried by their bit patterns (see [`scalar`]).
//! What has to be done in the outside world comes back to the caller as a
//! list of effects.

pub mod animation;
pub mod auth;
pub mod backend;
pub mod bindings;
pub mod calls;
pub mod compositor;
pub mod config;
pub mod defaults;
pub mod input;
pub mod layout;
pub mod lists;
pub mod numerics;
pub mod renderer;
pub mod scalar;
pub mod text;
