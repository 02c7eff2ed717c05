//! The recursive-subdivision maze carver: declared but unsupported.
//!
//! The variant exists so hosts can select it, but no carving behavior is
//! defined for it; stepping it reports failure rather than inventing one.

use vstd::prelude::*;

use crate::grid::Grid;
use crate::maze_generation_types::{mnodes_of, MazeAlgorithmState, MazeNodes};

verus! {

/// The recursive-subdivision carver instance.
pub struct RecursiveSubdivision {
    algorithm_state: MazeAlgorithmState,
    closed_list: Vec<MazeNodes>,
    current_path_node: MazeNodes,
}

impl RecursiveSubdivision {
    /// A fresh carver in the `Initialization` state.
    pub fn new() -> (r: RecursiveSubdivision)
        ensures
            r.algorithm_state() is Initialization,
            r.closed() == Map::<crate::grid::GridNodePosition, MazeNodes>::empty(),
    {
        let r = RecursiveSubdivision {
            algorithm_state: MazeAlgorithmState::Initialization,
            closed_list: Vec::new(),
            current_path_node: MazeNodes::empty(),
        };
        proof {
            assert(mnodes_of(r.closed_list@) =~= Map::<
                crate::grid::GridNodePosition,
                MazeNodes,
            >::empty());
        }
        r
    }

    /// The carver's state-machine position.
    pub closed spec fn algorithm_state(self) -> MazeAlgorithmState {
        self.algorithm_state
    }

    /// The visited cells as a position-keyed map.
    pub closed spec fn closed(self) -> Map<crate::grid::GridNodePosition, MazeNodes> {
        mnodes_of(self.closed_list@)
    }

    /// Unsupported: no subdivision behavior is defined, so stepping moves
    /// straight to the `Failed` terminal state and leaves the grid alone.
    pub fn next_step(&mut self, grid: &mut Grid) -> (r: MazeAlgorithmState)
        ensures
            r is Failed,
            final(self).algorithm_state() is Failed,
            final(self).closed() == old(self).closed(),
            final(grid)@ == old(grid)@,
    {
        self.algorithm_state = MazeAlgorithmState::Failed;
        self.algorithm_state
    }

    /// Discards the visited set and returns to `Initialization`.
    pub fn reset(&mut self)
        ensures
            final(self).algorithm_state() is Initialization,
            final(self).closed() == Map::<crate::grid::GridNodePosition, MazeNodes>::empty(),
    {
        self.closed_list.clear();
        self.algorithm_state = MazeAlgorithmState::Initialization;
        proof {
            assert(mnodes_of(self.closed_list@) =~= Map::<
                crate::grid::GridNodePosition,
                MazeNodes,
            >::empty());
        }
    }

    /// The visited cells as a list of nodes.
    pub fn get_closed_nodes(&self) -> (r: &Vec<MazeNodes>)
        ensures
            mnodes_of(r@) == self.closed(),
    {
        &self.closed_list
    }

    /// The carver's state-machine position.
    pub fn get_algorithm_state(&self) -> (r: &MazeAlgorithmState)
        ensures
            *r == self.algorithm_state(),
    {
        &self.algorithm_state
    }
}

} // verus!
