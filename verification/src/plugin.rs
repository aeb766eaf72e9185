//! The plugin that keeps the meshes of SVG entities in step with their SVG
//! assets, and its system sets.
use vstd::prelude::*;

verus! {

/// System sets of the SVG plugins.
#[derive(Debug, Hash, PartialEq, Eq, Clone, Copy, Structural)]
pub enum SvgSet {
    /// The set in which SVG entities get their meshes.
    SVG,
}

/// A plugin that makes sure the SVGs get rendered.
pub struct SvgRenderPlugin;

} // verus!
