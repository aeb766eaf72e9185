//! Verified core of an SVG loading and tessellation library: the walk over
//! a parsed SVG tree, the conversion of path segments into tessellator
//! events, the merging of vertex buffers, and the `style` attribute parser.
use vstd::prelude::*;

pub mod loader;
pub mod mesh_linker;
pub mod number;
pub mod origin;
pub mod path_events;
pub mod plugin;
pub mod prelude;
pub mod render;
pub mod style;
pub mod svg_tree;
pub mod text;
pub mod vertex_buffer;

verus! {

/// A conversion into `T`, for pairs of types of which neither belongs to
/// this crate's users.
pub trait Convert<T>: Sized {
    /// Converts the value to `T`.
    fn convert(self) -> T;
}

} // verus!
