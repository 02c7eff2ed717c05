//! The jump-point search variant: selectable, with no stepping behavior
//! of its own defined.

use vstd::prelude::*;

use crate::grid::GridNodePosition;
use crate::pathfinding_types::{nodes_of, PathAlgorithmState, PathNodes};

verus! {

/// The jump-point engine instance.
pub struct JumpPoint {
    algorithm_state: PathAlgorithmState,
    open_list: Vec<PathNodes>,
    closed_list: Vec<PathNodes>,
    path_list: Vec<PathNodes>,
    current_path_node: PathNodes,
}

impl JumpPoint {
    /// A fresh engine in the `Initialization` state.
    pub fn new() -> (r: JumpPoint)
        ensures
            r.algorithm_state() is Initialization,
            r.open() == Map::<GridNodePosition, PathNodes>::empty(),
            r.closed() == Map::<GridNodePosition, PathNodes>::empty(),
    {
        let r = JumpPoint {
            algorithm_state: PathAlgorithmState::Initialization,
            open_list: Vec::new(),
            closed_list: Vec::new(),
            path_list: Vec::new(),
            current_path_node: PathNodes::empty(),
        };
        proof {
            assert(nodes_of(r.open_list@) =~= Map::<GridNodePosition, PathNodes>::empty());
            assert(nodes_of(r.closed_list@) =~= Map::<GridNodePosition, PathNodes>::empty());
        }
        r
    }

    /// The engine's state-machine position.
    pub closed spec fn algorithm_state(self) -> PathAlgorithmState {
        self.algorithm_state
    }

    /// The open set as a position-keyed map.
    pub closed spec fn open(self) -> Map<GridNodePosition, PathNodes> {
        nodes_of(self.open_list@)
    }

    /// The closed set as a position-keyed map.
    pub closed spec fn closed(self) -> Map<GridNodePosition, PathNodes> {
        nodes_of(self.closed_list@)
    }
}

} // verus!
