//! A host-side bundle of maze-run state, kept alongside the selected
//! variant.

use vstd::prelude::*;

use crate::maze_generation_types::MazeAlgorithms;
use crate::pathfinding_algorithms::AlgorithmState;
use crate::pathfinding_types::{nodes_of, PathNodes};

verus! {

/// The state a host keeps for a maze run driven through the older
/// engine surface.
pub struct MazeAlgorithmConfig {
    selected_algorithm: MazeAlgorithms,
    pub algorithm_state: AlgorithmState,
    current_path_node: PathNodes,
    open_list: Vec<PathNodes>,
    closed_list: Vec<PathNodes>,
}

impl MazeAlgorithmConfig {
    /// A fresh bundle: recursive backtrace selected, state machine at
    /// `INITIALIZATION`, all lists empty.
    pub fn new() -> (r: MazeAlgorithmConfig)
        ensures
            r.state() is INITIALIZATION,
            r.open() == Map::<crate::grid::GridNodePosition, PathNodes>::empty(),
            r.closed() == Map::<crate::grid::GridNodePosition, PathNodes>::empty(),
    {
        let r = MazeAlgorithmConfig {
            selected_algorithm: MazeAlgorithms::RecursiveBacktrace,
            algorithm_state: AlgorithmState::INITIALIZATION,
            current_path_node: PathNodes::empty(),
            open_list: Vec::new(),
            closed_list: Vec::new(),
        };
        proof {
            assert(nodes_of(r.open_list@) =~= Map::<
                crate::grid::GridNodePosition,
                PathNodes,
            >::empty());
            assert(nodes_of(r.closed_list@) =~= Map::<
                crate::grid::GridNodePosition,
                PathNodes,
            >::empty());
        }
        r
    }

    /// The state-machine position.
    pub closed spec fn state(self) -> AlgorithmState {
        self.algorithm_state
    }

    /// The open set as a position-keyed map.
    pub closed spec fn open(self) -> Map<crate::grid::GridNodePosition, PathNodes> {
        nodes_of(self.open_list@)
    }

    /// The closed set as a position-keyed map.
    pub closed spec fn closed(self) -> Map<crate::grid::GridNodePosition, PathNodes> {
        nodes_of(self.closed_list@)
    }

    /// The open set as a list of nodes.
    pub fn get_open_nodes(&self) -> (r: &Vec<PathNodes>)
        ensures
            nodes_of(r@) == self.open(),
    {
        &self.open_list
    }

    /// The closed set as a list of nodes.
    pub fn get_closed_nodes(&self) -> (r: &Vec<PathNodes>)
        ensures
            nodes_of(r@) == self.closed(),
    {
        &self.closed_list
    }
}

} // verus!
