//! The origin of an SVG's coordinate system.
use vstd::prelude::*;

verus! {

/// Origin of the coordinate system, and as such the origin for the position
/// of the SVG entity.
#[derive(Clone, Copy, Debug, PartialEq, Eq, Structural)]
pub enum Origin {
    /// Top left of the image or viewbox, this is the default for a SVG.
    TopLeft,
    /// Center of the image or viewbox.
    Center,
}

impl Default for Origin {
    fn default() -> (o: Origin)
        ensures
            o == Origin::TopLeft,
    {
        Origin::TopLeft
    }
}

} // verus!
