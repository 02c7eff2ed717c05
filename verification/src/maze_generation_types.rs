//! Shared types of the maze-generation engines.

use vstd::prelude::*;

use crate::assoc::{
    keys_distinct, lemma_keys_distinct_push, lemma_keys_distinct_update, lemma_map_of_dom,
    lemma_map_of_index, lemma_map_of_len, lemma_map_of_push, lemma_map_of_update, map_of,
};
use crate::grid::GridNodePosition;

verus! {

/// The selectable maze-generation algorithm variants.
#[derive(Copy, Clone, Eq, PartialEq, Ord, PartialOrd, Debug, Structural)]
pub enum MazeAlgorithms {
    Random,
    RecursiveBacktrace,
    RecursiveSubdivision,
}

/// The maze engines' state machine.  `Finished` and `Failed` are
/// terminal until a reset.
#[derive(Copy, Clone, Eq, PartialEq, Ord, PartialOrd, Debug, Structural)]
pub enum MazeAlgorithmState {
    Initialization,
    Running,
    Finished,
    Failed,
}

/// A maze node: a position and its parent in the carving tree.  Carving
/// does not rank by cost, so there are no cost fields; equality is by
/// position alone.
#[derive(Copy, Clone, Debug, Eq)]
pub struct MazeNodes {
    pub position: GridNodePosition,
    pub parent: Option<GridNodePosition>,
}

impl PartialEq for MazeNodes {
    fn eq(&self, other: &MazeNodes) -> (r: bool) {
        self.position == other.position
    }
}

impl vstd::std_specs::cmp::PartialEqSpecImpl for MazeNodes {
    open spec fn obeys_eq_spec() -> bool {
        true
    }

    open spec fn eq_spec(&self, other: &MazeNodes) -> bool {
        self.position == other.position
    }
}

impl MazeNodes {
    /// A node at `current_pos` with the given parent.
    pub fn new(current_pos: GridNodePosition, parent: Option<GridNodePosition>) -> (r:
        MazeNodes)
        ensures
            r.position == current_pos,
            r.parent == parent,
    {
        MazeNodes { position: current_pos, parent }
    }

    /// A parentless node at the zero position.
    pub fn empty() -> (r: MazeNodes)
        ensures
            r.position == (GridNodePosition { row: 0, col: 0 }),
            r.parent is None,
    {
        MazeNodes { position: GridNodePosition { row: 0, col: 0 }, parent: None }
    }
}

/// A maze record's key: its position.
pub open spec fn maze_node_key(n: MazeNodes) -> GridNodePosition {
    n.position
}

/// The map from positions to nodes held by a maze node list.
pub open spec fn mnodes_of(s: Seq<MazeNodes>) -> Map<GridNodePosition, MazeNodes> {
    map_of(s, |n: MazeNodes| maze_node_key(n), |n: MazeNodes| n)
}

/// No two nodes of the list share a position.
pub open spec fn mnodes_distinct(s: Seq<MazeNodes>) -> bool {
    keys_distinct(s, |n: MazeNodes| maze_node_key(n))
}

/// The parent links of a maze node map, as a map of its own.
pub open spec fn mparents_of(
    m: Map<GridNodePosition, MazeNodes>,
) -> Map<GridNodePosition, Option<GridNodePosition>> {
    m.map_values(|n: MazeNodes| n.parent)
}

/// Restates the list-to-map correspondence for maze node lists.
pub proof fn lemma_mnodes_of(s: Seq<MazeNodes>)
    requires
        mnodes_distinct(s),
    ensures
        forall|i: int|
            0 <= i < s.len() ==> mnodes_of(s).dom().contains((#[trigger] s[i]).position)
                && mnodes_of(s)[s[i].position] == s[i],
        forall|p: GridNodePosition|
            #[trigger] mnodes_of(s).dom().contains(p) ==> exists|i: int|
                0 <= i < s.len() && (#[trigger] s[i]).position == p,
        mnodes_of(s).dom().finite(),
        mnodes_of(s).dom().len() == s.len(),
{
    let key = |n: MazeNodes| maze_node_key(n);
    let val = |n: MazeNodes| n;
    lemma_map_of_dom(s, key, val);
    lemma_map_of_len(s, key, val);
    assert forall|i: int| 0 <= i < s.len() implies mnodes_of(s).dom().contains(
        (#[trigger] s[i]).position,
    ) && mnodes_of(s)[s[i].position] == s[i] by {
        lemma_map_of_index(s, key, val, i);
    }
}

/// Appending a fresh-positioned node inserts it into the node map.
pub proof fn lemma_mnodes_of_push(s: Seq<MazeNodes>, x: MazeNodes)
    ensures
        mnodes_of(s.push(x)) == mnodes_of(s).insert(x.position, x),
        mnodes_distinct(s) && (forall|i: int|
            0 <= i < s.len() ==> (#[trigger] s[i]).position != x.position) ==> mnodes_distinct(
            s.push(x),
        ),
{
    let key = |n: MazeNodes| maze_node_key(n);
    let val = |n: MazeNodes| n;
    lemma_map_of_push(s, key, val, x);
    if mnodes_distinct(s) && (forall|i: int|
        0 <= i < s.len() ==> (#[trigger] s[i]).position != x.position) {
        lemma_keys_distinct_push(s, key, x);
    }
}

/// Overwriting the node at `i` with one at the same position updates the
/// node map.
pub proof fn lemma_mnodes_of_update(s: Seq<MazeNodes>, i: int, x: MazeNodes)
    requires
        mnodes_distinct(s),
        0 <= i < s.len(),
        x.position == s[i].position,
    ensures
        mnodes_of(s.update(i, x)) == mnodes_of(s).insert(x.position, x),
        mnodes_distinct(s.update(i, x)),
{
    let key = |n: MazeNodes| maze_node_key(n);
    let val = |n: MazeNodes| n;
    lemma_map_of_update(s, key, val, i, x);
    lemma_keys_distinct_update(s, key, i, x);
}

/// A bundle of per-run maze state, kept for hosts that manage it
/// directly.
pub struct MazeGenerationConfig {
    pub algorithm_state: MazeAlgorithmState,
    pub open_list: Vec<MazeNodes>,
    pub closed_list: Vec<MazeNodes>,
    pub current_path_node: MazeNodes,
}

impl MazeGenerationConfig {
    /// A fresh bundle in the `Initialization` state with empty lists.
    pub fn new() -> (r: MazeGenerationConfig)
        ensures
            r.algorithm_state is Initialization,
            r.open_list@.len() == 0,
            r.closed_list@.len() == 0,
    {
        MazeGenerationConfig {
            algorithm_state: MazeAlgorithmState::Initialization,
            open_list: Vec::new(),
            closed_list: Vec::new(),
            current_path_node: MazeNodes::empty(),
        }
    }
}

} // verus!
