//! Shared types of the search engines: cost-annotated nodes, the
//! algorithm state machine, and the engine configuration.

use vstd::prelude::*;

use crate::assoc::{
    keys_distinct, lemma_map_of_dom, lemma_map_of_index, lemma_map_of_len, lemma_map_of_push,
    lemma_map_of_remove, lemma_map_of_update, map_of,
};
use crate::grid::GridNodePosition;
use crate::heuristics::{coord_bounded, squared_euclidean_spec, Heuristics};

verus! {

/// The selectable search algorithm variants.
#[derive(Copy, Clone, Eq, PartialEq, Ord, PartialOrd, Debug, Structural)]
pub enum PathAlgorithms {
    Astar,
    Dijkstra,
    GreedyBestFirstSearch,
    BFS,
    DFS,
    Swarm,
    JumpPoint,
}

/// The search engines' state machine.  `Finished` and `Failed` are
/// terminal until a reset.
#[derive(Copy, Clone, Eq, PartialEq, Ord, PartialOrd, Debug, Structural)]
pub enum PathAlgorithmState {
    Initialization,
    Running,
    PathConstruction,
    Finished,
    Failed,
}

/// Engine configuration flags.  The current engines always search
/// rectilinearly and unidirectionally, so both stay unset.
#[derive(Copy, Clone, Eq, PartialEq, Debug, Structural)]
pub struct PathfinderConfig {
    pub is_bidirectional: bool,
    pub allow_diagonal: bool,
}

impl PathfinderConfig {
    /// A default configuration with both flags unset.
    pub fn new() -> (r: PathfinderConfig)
        ensures
            !r.is_bidirectional,
            !r.allow_diagonal,
    {
        PathfinderConfig { is_bidirectional: false, allow_diagonal: false }
    }
}

/// A search node: a position with its accumulated cost from the start
/// (`g`), its heuristic estimate to the target (`h`), their sum, and its
/// parent position in the search tree.  Equality is defined by position
/// alone; the set bookkeeping keys nodes by position and treats the costs
/// as the keyed value.
#[derive(Copy, Clone, Debug, Eq)]
pub struct PathNodes {
    pub cost_from_start: i64,
    pub cost_to_target: i64,
    pub total_cost: i64,
    pub position: GridNodePosition,
    pub parent: Option<GridNodePosition>,
}

impl PartialEq for PathNodes {
    fn eq(&self, other: &PathNodes) -> (r: bool) {
        self.position == other.position
    }
}

impl vstd::std_specs::cmp::PartialEqSpecImpl for PathNodes {
    open spec fn obeys_eq_spec() -> bool {
        true
    }

    open spec fn eq_spec(&self, other: &PathNodes) -> bool {
        self.position == other.position
    }
}

impl PathNodes {
    /// A node at `current_pos` with the given start cost, the heuristic
    /// estimate to `target_pos` as its target cost, and their sum as its
    /// total cost.
    pub fn new(
        cost_start: i64,
        target_pos: GridNodePosition,
        current_pos: GridNodePosition,
        parent: Option<GridNodePosition>,
    ) -> (r: PathNodes)
        requires
            coord_bounded(current_pos),
            coord_bounded(target_pos),
            0 <= cost_start <= 0x4000_0000_0000_0000,
        ensures
            r.cost_from_start == cost_start,
            r.cost_to_target == squared_euclidean_spec(current_pos, target_pos),
            r.total_cost == cost_start + squared_euclidean_spec(current_pos, target_pos),
            r.position == current_pos,
            r.parent == parent,
    {
        PathNodes {
            cost_from_start: cost_start,
            cost_to_target: Heuristics::target_cost(current_pos, target_pos),
            total_cost: cost_start + Heuristics::target_cost(current_pos, target_pos),
            position: current_pos,
            parent,
        }
    }

    /// A zero-cost, parentless node at `current_pos`, used as a lookup
    /// key: equality ignores the costs.
    pub fn reduced(current_pos: GridNodePosition) -> (r: PathNodes)
        ensures
            r.cost_from_start == 0,
            r.cost_to_target == 0,
            r.total_cost == 0,
            r.position == current_pos,
            r.parent is None,
    {
        PathNodes {
            cost_from_start: 0,
            cost_to_target: 0,
            total_cost: 0,
            position: current_pos,
            parent: None,
        }
    }

    /// A zero-cost node at the zero position.
    pub fn empty() -> (r: PathNodes)
        ensures
            r.cost_from_start == 0,
            r.cost_to_target == 0,
            r.total_cost == 0,
            r.position == (GridNodePosition { row: 0, col: 0 }),
            r.parent is None,
    {
        PathNodes {
            cost_from_start: 0,
            cost_to_target: 0,
            total_cost: 0,
            position: GridNodePosition { row: 0, col: 0 },
            parent: None,
        }
    }
}

/// A node record's key: its position.
pub open spec fn path_node_key(n: PathNodes) -> GridNodePosition {
    n.position
}

/// The map from positions to nodes held by a node list.
pub open spec fn nodes_of(s: Seq<PathNodes>) -> Map<GridNodePosition, PathNodes> {
    map_of(s, |n: PathNodes| path_node_key(n), |n: PathNodes| n)
}

/// No two nodes of the list share a position.
pub open spec fn nodes_distinct(s: Seq<PathNodes>) -> bool {
    keys_distinct(s, |n: PathNodes| path_node_key(n))
}

/// The parent links of a node map, as a map of its own.
pub open spec fn parents_of(
    m: Map<GridNodePosition, PathNodes>,
) -> Map<GridNodePosition, Option<GridNodePosition>> {
    m.map_values(|n: PathNodes| n.parent)
}

/// Restates the list-to-map correspondence for node lists.
pub proof fn lemma_nodes_of(s: Seq<PathNodes>)
    requires
        nodes_distinct(s),
    ensures
        forall|i: int|
            0 <= i < s.len() ==> nodes_of(s).dom().contains((#[trigger] s[i]).position)
                && nodes_of(s)[s[i].position] == s[i],
        forall|p: GridNodePosition|
            #[trigger] nodes_of(s).dom().contains(p) ==> exists|i: int|
                0 <= i < s.len() && (#[trigger] s[i]).position == p,
        nodes_of(s).dom().finite(),
        nodes_of(s).dom().len() == s.len(),
{
    let key = |n: PathNodes| path_node_key(n);
    let val = |n: PathNodes| n;
    lemma_map_of_dom(s, key, val);
    lemma_map_of_len(s, key, val);
    assert forall|i: int| 0 <= i < s.len() implies nodes_of(s).dom().contains(
        (#[trigger] s[i]).position,
    ) && nodes_of(s)[s[i].position] == s[i] by {
        lemma_map_of_index(s, key, val, i);
    }
}

/// Appending a fresh-positioned node inserts it into the node map.
pub proof fn lemma_nodes_of_push(s: Seq<PathNodes>, x: PathNodes)
    ensures
        nodes_of(s.push(x)) == nodes_of(s).insert(x.position, x),
        nodes_distinct(s) && (forall|i: int|
            0 <= i < s.len() ==> (#[trigger] s[i]).position != x.position) ==> nodes_distinct(
            s.push(x),
        ),
{
    let key = |n: PathNodes| path_node_key(n);
    let val = |n: PathNodes| n;
    lemma_map_of_push(s, key, val, x);
    if nodes_distinct(s) && (forall|i: int|
        0 <= i < s.len() ==> (#[trigger] s[i]).position != x.position) {
        crate::assoc::lemma_keys_distinct_push(s, key, x);
    }
}

/// Removing the node at `i` removes its position from the node map.
pub proof fn lemma_nodes_of_remove(s: Seq<PathNodes>, i: int)
    requires
        nodes_distinct(s),
        0 <= i < s.len(),
    ensures
        nodes_of(s.remove(i)) == nodes_of(s).remove(s[i].position),
        nodes_distinct(s.remove(i)),
{
    let key = |n: PathNodes| path_node_key(n);
    let val = |n: PathNodes| n;
    lemma_map_of_remove(s, key, val, i);
    crate::assoc::lemma_keys_distinct_remove(s, key, i);
}

/// Overwriting the node at `i` with one at the same position updates the
/// node map.
pub proof fn lemma_nodes_of_update(s: Seq<PathNodes>, i: int, x: PathNodes)
    requires
        nodes_distinct(s),
        0 <= i < s.len(),
        x.position == s[i].position,
    ensures
        nodes_of(s.update(i, x)) == nodes_of(s).insert(x.position, x),
        nodes_distinct(s.update(i, x)),
{
    let key = |n: PathNodes| path_node_key(n);
    let val = |n: PathNodes| n;
    lemma_map_of_update(s, key, val, i, x);
    crate::assoc::lemma_keys_distinct_update(s, key, i, x);
}

/// Linearizing a position within a `rows` by `cols` box stays in range.
proof fn lemma_linear_bound(r: int, c: int, rows: int, cols: int)
    by (nonlinear_arith)
    requires
        0 <= r < rows,
        0 <= c < cols,
    ensures
        0 <= r * cols + c < rows * cols,
{
}

/// Linearizing positions with in-range columns is injective.
proof fn lemma_linear_injective(r1: int, c1: int, r2: int, c2: int, cols: int)
    by (nonlinear_arith)
    requires
        0 <= c1 < cols,
        0 <= c2 < cols,
        0 <= r1,
        0 <= r2,
        r1 * cols + c1 == r2 * cols + c2,
    ensures
        r1 == r2 && c1 == c2,
{
}

/// Multiplication respects upper bounds on non-negative factors.
pub proof fn lemma_mul_bounds(a: int, b: int, ka: int, kb: int)
    by (nonlinear_arith)
    requires
        0 <= a <= ka,
        0 <= b <= kb,
    ensures
        a * b <= ka * kb,
{
}

/// A finite set of positions interior to a `rows` by `cols` field has at
/// most `rows * cols` members: the search's closed set cannot outgrow the
/// field, which bounds the accumulated start costs.
pub proof fn lemma_interior_card(s: Set<GridNodePosition>, rows: usize, cols: usize)
    requires
        s.finite(),
        forall|p: GridNodePosition|
            #[trigger] s.contains(p) ==> crate::grid::interior(p, rows, cols),
    ensures
        s.len() <= (rows as int) * (cols as int),
{
    let f = |p: GridNodePosition| (p.row as int) * (cols as int) + (p.col as int);
    let img = s.map(f);
    assert(vstd::relations::injective_on(f, s)) by {
        assert forall|p1: GridNodePosition, p2: GridNodePosition|
            s.contains(p1) && s.contains(p2) && #[trigger] f(p1) == #[trigger] f(
                p2,
            ) implies p1 == p2 by {
            lemma_linear_injective(
                p1.row as int,
                p1.col as int,
                p2.row as int,
                p2.col as int,
                cols as int,
            );
        }
    }
    vstd::set_lib::lemma_map_size(s, img, f);
    let range = vstd::set_lib::set_int_range(0, (rows as int) * (cols as int));
    assert forall|x: int| #[trigger] img.contains(x) implies range.contains(x) by {
        let p = choose|p: GridNodePosition| s.contains(p) && f(p) == x;
        lemma_linear_bound(p.row as int, p.col as int, rows as int, cols as int);
    }
    lemma_mul_bounds(0, 0, rows as int, cols as int);
    vstd::set_lib::lemma_int_range(0, (rows as int) * (cols as int));
    vstd::set_lib::lemma_len_subset(img, range);
}

} // verus!
