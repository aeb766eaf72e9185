//! Rendering of SVGs with a 3D camera.
use vstd::prelude::*;

verus! {

/// Plugin that renders SVGs in 3D.
pub struct RenderPlugin;

} // verus!
