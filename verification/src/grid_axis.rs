//! The cell types of the axis-annotated grid surface: an earlier data
//! model kept for hosts that still route through it.

use vstd::prelude::*;

verus! {

/// A cell's location on the axis grid.
#[derive(Clone, Copy, PartialEq, Eq, Hash, Debug, Structural)]
pub struct GridPos {
    pub row: usize,
    pub col: usize,
}

/// A cell's classification on the axis grid, including the routing
/// (Steiner) nodes the earlier surface modeled.
#[derive(Copy, Clone, Eq, PartialEq, Ord, PartialOrd, Debug, Structural)]
pub enum GridNodes {
    Wall,
    StartNode(i32),
    EndNode(i32),
    SteinerNode(i32),
    OpenPath(i32),
    ClosedPath(i32),
    ChosenPath(i32),
}

} // verus!
