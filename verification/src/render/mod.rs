//! Rendering of SVGs in 2D and 3D.
use vstd::prelude::*;

pub mod svg2d;
pub mod svg3d;

verus! {

/// The plugin that adds the 2D and 3D SVG renderers.
pub struct SvgPlugin;

} // verus!
