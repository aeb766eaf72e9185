//! The items a user of the library imports.
use vstd::prelude::*;

pub use crate::origin::Origin;
pub use crate::style::{Fill, Stroke, Style};

verus! {

/// A plugin that provides the resources and systems to draw SVGs.
pub struct SvgPlugin;

} // verus!
