//! The layout engine contract: an engine computes concrete geometry for
//! every node of a scene tree at a viewport size.

use vstd::prelude::*;

use crate::rect::{Rect, Size};
use crate::scene::{NodeId, Scene};

verus! {

/// A layout engine computes concrete geometry for every node in a scene tree
/// given a viewport size.
///
/// The result maps each laid-out node (including the root) to the [`Rect`] it
/// occupies in viewport (scene) coordinates. Nodes without geometry — e.g.
/// `display: none` leaves — are absent from the result.
pub trait LayoutEngine {
    /// Compute the layout of `root` for a `viewport` sized in cells.
    fn compute(&mut self, root: &Scene, viewport: Size) -> Vec<(NodeId, Rect)>;
}

} // verus!
