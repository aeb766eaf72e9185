//! Rendering of SVGs with a 2D camera.
use vstd::prelude::*;

verus! {

/// Plugin that renders SVGs in 2D.
pub struct RenderPlugin;

} // verus!
