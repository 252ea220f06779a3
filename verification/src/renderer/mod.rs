//! What is drawn.

pub mod cursor;
pub mod laws;
pub mod placement;
pub mod scene;

use crate::scalar::{Color, Single};
use vstd::prelude::*;

verus! {

/// The effects with which a window is drawn.
pub struct RenderEffects {
    /// The radius of the corners, in pixels.
    pub corner_radius: Single,
    pub blur_strength: Single,
    pub shadow: Option<ShadowParams>,
    pub opacity: Single,
}

/// The shadow of a window.
#[derive(Clone, Copy, Debug, PartialEq, Eq, Structural)]
pub struct ShadowParams {
    pub offset_x: Single,
    pub offset_y: Single,
    pub blur_radius: Single,
    pub color: Color,
}

impl Default for RenderEffects {
    /// Corners with a radius of ten pixels, no blur, no shadow, and opaque.
    fn default() -> (r: Self)
        ensures
            r.corner_radius == (Single { bits: 0x4120_0000 }),
            r.blur_strength == (Single { bits: 0 }),
            r.shadow is None,
            r.opacity == (Single { bits: 0x3f80_0000 }),
    {
        RenderEffects {
            corner_radius: Single { bits: 0x4120_0000 },
            blur_strength: Single { bits: 0 },
            shadow: None,
            opacity: Single { bits: 0x3f80_0000 },
        }
    }
}

} // verus!
