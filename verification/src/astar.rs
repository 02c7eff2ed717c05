//! The A* search engine: a stepwise, resumable search over the grid.
//!
//! One `next_step` call performs one bounded unit of work: seeding the
//! open set, expanding one node, or unwinding one link of the
//! reconstructed path.  The engine borrows the grid only for the duration
//! of a call and mirrors every queue mutation in the grid's cell
//! classification so a renderer can observe progress through the grid's
//! diff protocol.

use vstd::prelude::*;

use crate::chain::{chain_ok, lemma_chain_ok_insert};
use crate::grid::{
    add_node_view, adjacent, enclosed, interior, remove_node_view, walk_opt, Grid,
    GridNodePosition, GridNodeType, GridView, Net,
};
use crate::heuristics::{coord_bounded, squared_euclidean_spec};
use crate::pathfinding_types::{
    lemma_nodes_of, lemma_nodes_of_push, lemma_nodes_of_remove, lemma_nodes_of_update, nodes_of,
    PathAlgorithmState, PathNodes, PathfinderConfig,
};

verus! {

/// The abstract state of the engine: its state-machine position, the open
/// and closed sets as position-keyed maps, the reconstructed path, the
/// node being unwound, the seed and goal positions, and the grid extent
/// captured at initialization.
#[verifier::ext_equal]
pub ghost struct AstarView {
    pub state: PathAlgorithmState,
    pub open: Map<GridNodePosition, PathNodes>,
    pub closed: Map<GridNodePosition, PathNodes>,
    pub path: Seq<PathNodes>,
    pub current: PathNodes,
    pub seed: GridNodePosition,
    pub goal: GridNodePosition,
    pub rows: usize,
    pub cols: usize,
}

/// The parent links of a node map.
pub open spec fn parents_of(
    m: Map<GridNodePosition, PathNodes>,
) -> Map<GridNodePosition, Option<GridNodePosition>> {
    m.map_values(|n: PathNodes| n.parent)
}

/// A search node is well formed when its position is interior to the
/// captured extent and its parent link either names an adjacent interior
/// cell or, for the seed node alone, is absent.
pub open spec fn node_wf(
    n: PathNodes,
    seed: GridNodePosition,
    rows: usize,
    cols: usize,
) -> bool {
    &&& interior(n.position, rows, cols)
    &&& match n.parent {
        Option::None => n.position == seed,
        Option::Some(q) => adjacent(q, n.position) && interior(q, rows, cols),
    }
}

/// Consecutive path entries are parent-linked: each entry names the entry
/// before it as its parent.
pub open spec fn path_linked(path: Seq<PathNodes>) -> bool {
    forall|i: int|
        1 <= i < path.len() ==> (#[trigger] path[i]).parent == Option::Some(
            path[i - 1].position,
        )
}

/// The engine invariant over its abstract state.
pub open spec fn view_inv(v: AstarView) -> bool {
    &&& v.open.dom().finite()
    &&& v.closed.dom().finite()
    &&& forall|p: GridNodePosition|
        #[trigger] v.open.dom().contains(p) ==> v.open[p].position == p && node_wf(
            v.open[p],
            v.seed,
            v.rows,
            v.cols,
        )
    &&& forall|p: GridNodePosition|
        #[trigger] v.closed.dom().contains(p) ==> v.closed[p].position == p && node_wf(
            v.closed[p],
            v.seed,
            v.rows,
            v.cols,
        )
    &&& forall|p: GridNodePosition|
        !(#[trigger] v.open.dom().contains(p) && v.closed.dom().contains(p))
    &&& v.state is Initialization ==> v.open == Map::<GridNodePosition, PathNodes>::empty()
        && v.closed == Map::<GridNodePosition, PathNodes>::empty() && v.path.len() == 0
    &&& v.state is Running ==> running_inv(v)
    &&& v.state is PathConstruction ==> construction_inv(v)
    &&& v.state is Finished ==> finished_inv(v)
    &&& v.state is Failed ==> v.path.len() == 0
}

/// While running: the extent is a real one, every open node's ancestry is
/// found in the closed set, start costs are bounded by the closed set's
/// size (each expansion adds one), and no path has been built yet.
pub open spec fn running_inv(v: AstarView) -> bool {
    &&& 3 <= v.rows <= 0x100000
    &&& 3 <= v.cols <= 0x100000
    &&& forall|p: GridNodePosition|
        #[trigger] v.open.dom().contains(p) ==> chain_ok(parents_of(v.closed), v.open[p].parent)
    &&& forall|p: GridNodePosition|
        #[trigger] v.open.dom().contains(p) ==> 0 <= v.open[p].cost_from_start
            <= v.closed.dom().len()
    &&& forall|p: GridNodePosition|
        #[trigger] v.closed.dom().contains(p) ==> 0 <= v.closed[p].cost_from_start
            <= v.closed.dom().len()
    &&& v.path.len() == 0
}

/// While unwinding: the node in hand has a parent whose ancestry is found
/// in the closed set; the path built so far ends at the goal, is
/// parent-linked throughout, and its front names the node in hand.
pub open spec fn construction_inv(v: AstarView) -> bool {
    &&& node_wf(v.current, v.seed, v.rows, v.cols)
    &&& v.current.parent is Some
    &&& chain_ok(parents_of(v.closed), v.current.parent)
    &&& v.path.len() == 0 ==> v.current.position == v.goal
    &&& v.path.len() > 0 ==> v.path[0].parent == Option::Some(v.current.position)
        && v.path.last().position == v.goal
    &&& path_linked(v.path)
    &&& forall|i: int|
        0 <= i < v.path.len() ==> node_wf(#[trigger] v.path[i], v.seed, v.rows, v.cols)
}

/// When finished: the path is nonempty, begins at a cell adjacent to the
/// seed (its front names the seed as parent), ends at the goal, and is
/// parent-linked throughout, each link between adjacent interior cells.
pub open spec fn finished_inv(v: AstarView) -> bool {
    &&& v.path.len() > 0
    &&& v.path[0].parent == Option::Some(v.seed)
    &&& v.path.last().position == v.goal
    &&& path_linked(v.path)
    &&& forall|i: int|
        0 <= i < v.path.len() ==> node_wf(#[trigger] v.path[i], v.seed, v.rows, v.cols)
}

/// The expansion choice: the minimal-total-cost member of the open set,
/// ties broken deterministically by the lowest position in row-major
/// order.  The two clauses determine the choice uniquely (see
/// [`lemma_min_choice_unique`]).
pub open spec fn is_min_choice(open: Map<GridNodePosition, PathNodes>, cur: PathNodes) -> bool {
    &&& open.dom().contains(cur.position)
    &&& open[cur.position] == cur
    &&& forall|p: GridNodePosition|
        #[trigger] open.dom().contains(p) ==> cur.total_cost <= open[p].total_cost
    &&& forall|p: GridNodePosition|
        #[trigger] open.dom().contains(p) && open[p].total_cost == cur.total_cost
            ==> crate::grid::pos_le(cur.position, p)
}

/// The expansion choice is a function of the open set: two nodes that
/// both satisfy the minimal-cost, lowest-position selection rule are the
/// same node.
pub proof fn lemma_min_choice_unique(
    open: Map<GridNodePosition, PathNodes>,
    a: PathNodes,
    b: PathNodes,
)
    requires
        is_min_choice(open, a),
        is_min_choice(open, b),
    ensures
        a == b,
{
    assert(a.total_cost == b.total_cost);
    assert(crate::grid::pos_le(a.position, b.position));
    assert(crate::grid::pos_le(b.position, a.position));
    assert(a.position == b.position);
}

/// The node a neighbor expansion would create at `q`: one step beyond
/// `cur`, with the heuristic estimate to `goal`.
pub open spec fn candidate_node(
    cur: PathNodes,
    q: GridNodePosition,
    goal: GridNodePosition,
) -> PathNodes {
    PathNodes {
        cost_from_start: (cur.cost_from_start + 1) as i64,
        cost_to_target: squared_euclidean_spec(q, goal) as i64,
        total_cost: (cur.cost_from_start + 1 + squared_euclidean_spec(q, goal)) as i64,
        position: q,
        parent: Option::Some(cur.position),
    }
}

/// The four walkable-neighbor options of `p`, in the order above, below,
/// left, right.
pub open spec fn neighbor_opts(g: GridView, p: GridNodePosition) -> Seq<
    Option<GridNodePosition>,
> {
    seq![
        walk_opt(g, crate::grid::pos_above(p)),
        walk_opt(g, crate::grid::pos_below(p)),
        walk_opt(g, crate::grid::pos_left(p)),
        walk_opt(g, crate::grid::pos_right(p)),
    ]
}

/// Replace-on-improve: a candidate enters the open set if its position is
/// new; if the position is already present, the entry with the lower
/// start cost is retained (the incumbent wins ties).
pub open spec fn absorb(
    open: Map<GridNodePosition, PathNodes>,
    nq: PathNodes,
) -> Map<GridNodePosition, PathNodes> {
    if !open.dom().contains(nq.position) {
        open.insert(nq.position, nq)
    } else if nq.cost_from_start < open[nq.position].cost_from_start {
        open.insert(nq.position, nq)
    } else {
        open
    }
}

/// The effect of working through the neighbor options in order: walled
/// neighbors are skipped; reaching the goal stops the walk and hands the
/// goal node back; already-expanded neighbors are discarded; the rest are
/// absorbed into the open set (replace-on-improve) and marked as frontier
/// cells on the grid.
pub open spec fn expand_fold(
    open: Map<GridNodePosition, PathNodes>,
    closed: Map<GridNodePosition, PathNodes>,
    g: GridView,
    ns: Seq<Option<GridNodePosition>>,
    cur: PathNodes,
    net: Net,
    goal: GridNodePosition,
) -> (Map<GridNodePosition, PathNodes>, GridView, Option<PathNodes>)
    decreases ns.len(),
{
    if ns.len() == 0 {
        (open, g, Option::<PathNodes>::None)
    } else {
        match ns[0] {
            Option::None => expand_fold(open, closed, g, ns.drop_first(), cur, net, goal),
            Option::Some(q) => {
                if q == goal {
                    (open, g, Option::Some(candidate_node(cur, q, goal)))
                } else if closed.dom().contains(q) {
                    expand_fold(open, closed, g, ns.drop_first(), cur, net, goal)
                } else {
                    let nq = candidate_node(cur, q, goal);
                    let g2 = if open.dom().contains(q) {
                        add_node_view(
                            remove_node_view(g, q),
                            q,
                            GridNodeType::UnexploredNodes(net),
                            net,
                        )
                    } else {
                        add_node_view(g, q, GridNodeType::UnexploredNodes(net), net)
                    };
                    expand_fold(absorb(open, nq), closed, g2, ns.drop_first(), cur, net, goal)
                }
            },
        }
    }
}

/// The effect of one expansion of `cur`: it moves from the open to the
/// closed set (re-marked `ExploredNodes` on the grid), and its walkable
/// neighbors are worked through as [`expand_fold`] describes.  If the
/// goal was among them, the engine stashes the goal node and moves to
/// path construction.
pub open spec fn expanded_post(
    s0: AstarView,
    s1: AstarView,
    g0: GridView,
    g1: GridView,
    cur: PathNodes,
    net: Net,
) -> bool {
    let closed1 = s0.closed.insert(cur.position, cur);
    let gmid = add_node_view(
        remove_node_view(g0, cur.position),
        cur.position,
        GridNodeType::ExploredNodes(net),
        net,
    );
    let ns = neighbor_opts(gmid, cur.position);
    let fold = expand_fold(s0.open.remove(cur.position), closed1, gmid, ns, cur, net, g0.end);
    &&& s1.closed == closed1
    &&& s1.open == fold.0
    &&& g1 == fold.1
    &&& s1.path == s0.path
    &&& s1.seed == s0.seed
    &&& s1.rows == s0.rows
    &&& s1.cols == s0.cols
    &&& match fold.2 {
        Option::Some(t) => s1.state is PathConstruction && s1.current == t && s1.goal == g0.end,
        Option::None => s1.state is Running && s1.current == s0.current && s1.goal == s0.goal,
    }
}

/// After a failed expansion (open set exhausted) nothing but the state
/// changes.
pub open spec fn failed_frame(s0: AstarView, s1: AstarView) -> bool {
    &&& s1.state is Failed
    &&& s1.open == s0.open
    &&& s1.closed == s0.closed
    &&& s1.path == s0.path
}

/// The seed node of a run over grid `g`: the start position at zero cost.
pub open spec fn seed_node_of(g: GridView) -> PathNodes {
    PathNodes {
        cost_from_start: 0,
        cost_to_target: squared_euclidean_spec(g.start, g.end) as i64,
        total_cost: squared_euclidean_spec(g.start, g.end) as i64,
        position: g.start,
        parent: Option::None,
    }
}

/// The effect of initialization: the open set is seeded with the start
/// node, stale path annotations are cleared, the field boundary is walled
/// in, and the engine starts running.  The grid's cells afterwards are
/// exactly the cleared cells overlaid with the boundary walls.
pub open spec fn init_post(
    s0: AstarView,
    s1: AstarView,
    g0: GridView,
    g1: GridView,
    net: Net,
) -> bool {
    let origin = GridNodePosition { row: 0, col: 0 };
    let ring = crate::grid::ring_set(origin, g0.rows, g0.cols);
    &&& s1.state is Running
    &&& s1.open == s0.open.insert(g0.start, seed_node_of(g0))
    &&& s1.closed == s0.closed
    &&& s1.path == s0.path
    &&& s1.current == seed_node_of(g0)
    &&& s1.seed == g0.start
    &&& s1.rows == g0.rows
    &&& s1.cols == g0.cols
    &&& g1.cells == crate::grid::wall_overlay(
        crate::grid::cleared_cells(g0.cells),
        ring,
        g0.start,
        g0.end,
    )
    &&& g1.start == g0.start
    &&& g1.end == g0.end
    &&& g1.rows == g0.rows
    &&& g1.cols == g0.cols
    &&& enclosed(g1)
    &&& g0.adds.subset_of(g1.adds)
    &&& g1.adds.subset_of(g0.adds.union(ring))
    &&& g0.dels.subset_of(g1.dels)
    &&& g1.dels.subset_of(
        g0.dels.union(ring).union(crate::grid::transient_positions(g0.cells)),
    )
}

/// The effect of one path-unwind step: the node in hand is pushed onto
/// the front of the path and marked `ChosenPath` on the grid; its parent
/// is withdrawn from the closed set and unmarked on the grid; if that
/// parent is the root (no parent of its own), the run finishes, otherwise
/// the parent becomes the node in hand.
pub open spec fn constructed_post(
    s0: AstarView,
    s1: AstarView,
    g0: GridView,
    g1: GridView,
    net: Net,
) -> bool {
    match s0.current.parent {
        Option::None => false,
        Option::Some(pp) => {
            let parent_node = s0.closed[pp];
            &&& s1.path == s0.path.insert(0, s0.current)
            &&& g1 == remove_node_view(
                add_node_view(g0, s0.current.position, GridNodeType::ChosenPath(net), net),
                pp,
            )
            &&& s1.closed == s0.closed.remove(pp)
            &&& s1.open == s0.open
            &&& s1.seed == s0.seed
            &&& s1.goal == s0.goal
            &&& s1.rows == s0.rows
            &&& s1.cols == s0.cols
            &&& (parent_node.parent is None ==> s1.state is Finished && s1.current == s0.current)
            &&& (parent_node.parent is Some ==> s1.state is PathConstruction && s1.current
                == parent_node)
        },
    }
}

/// Replace-on-improve, in isolation: absorbing a candidate whose position
/// is already in the open set retains whichever entry has the lower start
/// cost (the incumbent wins ties), and touches no other position.
pub proof fn lemma_replace_on_improve(open: Map<GridNodePosition, PathNodes>, nq: PathNodes)
    ensures
        absorb(open, nq).dom().contains(nq.position),
        !open.dom().contains(nq.position) ==> absorb(open, nq)[nq.position] == nq,
        open.dom().contains(nq.position) && nq.cost_from_start
            < open.spec_index(nq.position).cost_from_start ==> absorb(open, nq)[nq.position]
            == nq,
        open.dom().contains(nq.position) && nq.cost_from_start
            >= open.spec_index(nq.position).cost_from_start ==> absorb(open, nq) == open,
        forall|p: GridNodePosition|
            p != nq.position ==> (absorb(open, nq).dom().contains(p) <==> #[trigger] open.dom().contains(
                p,
            )),
        forall|p: GridNodePosition|
            p != nq.position && #[trigger] open.dom().contains(p) ==> absorb(open, nq)[p]
                == open[p],
{
}

/// When a run has finished, the reconstructed path leads from a cell
/// adjacent to the start to the goal: it is nonempty, its front names the
/// seed as parent, its back sits on the goal, and every consecutive pair
/// is parent-linked across adjacent interior cells.
pub proof fn lemma_finished_path_shape(v: AstarView)
    requires
        view_inv(v),
        v.state is Finished,
    ensures
        v.path.len() > 0,
        v.path[0].parent == Option::Some(v.seed),
        v.path.last().position == v.goal,
        forall|i: int|
            1 <= i < v.path.len() ==> (#[trigger] v.path[i]).parent == Option::Some(
                v.path[i - 1].position,
            ),
        forall|i: int|
            1 <= i < v.path.len() ==> adjacent(
                v.path[i - 1].position,
                (#[trigger] v.path[i]).position,
            ),
{
    assert forall|i: int| 1 <= i < v.path.len() implies adjacent(
        v.path[i - 1].position,
        (#[trigger] v.path[i]).position,
    ) by {
        assert(node_wf(v.path[i], v.seed, v.rows, v.cols));
    }
}

/// A failed run never carries a path: when the open set is exhausted the
/// path list is empty and stays so until a reset.
pub proof fn lemma_failed_path_empty(v: AstarView)
    requires
        view_inv(v),
        v.state is Failed,
    ensures
        v.path.len() == 0,
{
}

/// A bound on how much longer a run can go on: shrinks as the closed set
/// grows and pays for every open entry.
pub open spec fn search_measure(v: AstarView) -> int {
    5 * ((v.rows as int) * (v.cols as int)) - 5 * v.closed.dom().len() + v.open.dom().len()
}

/// Working through the neighbor options grows the open set by at most one
/// entry per option.
proof fn lemma_expand_fold_open_bound(
    open: Map<GridNodePosition, PathNodes>,
    closed: Map<GridNodePosition, PathNodes>,
    g: GridView,
    ns: Seq<Option<GridNodePosition>>,
    cur: PathNodes,
    net: Net,
    goal: GridNodePosition,
)
    requires
        open.dom().finite(),
    ensures
        expand_fold(open, closed, g, ns, cur, net, goal).0.dom().finite(),
        expand_fold(open, closed, g, ns, cur, net, goal).0.dom().len() <= open.dom().len()
            + ns.len(),
    decreases ns.len(),
{
    if ns.len() > 0 {
        match ns[0] {
            Option::None => {
                lemma_expand_fold_open_bound(open, closed, g, ns.drop_first(), cur, net, goal);
            },
            Option::Some(q) => {
                if q == goal {
                } else if closed.dom().contains(q) {
                    lemma_expand_fold_open_bound(
                        open,
                        closed,
                        g,
                        ns.drop_first(),
                        cur,
                        net,
                        goal,
                    );
                } else {
                    let nq = candidate_node(cur, q, goal);
                    let g2 = if open.dom().contains(q) {
                        add_node_view(
                            remove_node_view(g, q),
                            q,
                            GridNodeType::UnexploredNodes(net),
                            net,
                        )
                    } else {
                        add_node_view(g, q, GridNodeType::UnexploredNodes(net), net)
                    };
                    assert(absorb(open, nq).dom().len() <= open.dom().len() + 1);
                    lemma_expand_fold_open_bound(
                        absorb(open, nq),
                        closed,
                        g2,
                        ns.drop_first(),
                        cur,
                        net,
                        goal,
                    );
                }
            },
        }
    }
}

/// Every expansion strictly decreases the search measure, which stays
/// non-negative: a run cannot expand forever, so repeated stepping from
/// `Running` must reach the target, path construction, or failure.
pub proof fn lemma_expansion_decreases_measure(
    s0: AstarView,
    s1: AstarView,
    g0: GridView,
    g1: GridView,
    cur: PathNodes,
    net: Net,
)
    requires
        view_inv(s0),
        s0.state is Running,
        is_min_choice(s0.open, cur),
        expanded_post(s0, s1, g0, g1, cur, net),
    ensures
        search_measure(s1) < search_measure(s0),
        search_measure(s1) >= 0,
{
    let closed1 = s0.closed.insert(cur.position, cur);
    let gmid = add_node_view(
        remove_node_view(g0, cur.position),
        cur.position,
        GridNodeType::ExploredNodes(net),
        net,
    );
    let ns = neighbor_opts(gmid, cur.position);
    assert(!s0.closed.dom().contains(cur.position));
    assert(closed1.dom().len() == s0.closed.dom().len() + 1);
    assert(s0.open.remove(cur.position).dom().len() == s0.open.dom().len() - 1);
    lemma_expand_fold_open_bound(
        s0.open.remove(cur.position),
        closed1,
        gmid,
        ns,
        cur,
        net,
        g0.end,
    );
    assert(s1.open.dom().len() <= s0.open.dom().len() + 3);
    assert forall|p: GridNodePosition| #[trigger] closed1.dom().contains(p) implies interior(
        p,
        s0.rows,
        s0.cols,
    ) by {
        if p != cur.position {
            assert(s0.closed.dom().contains(p));
        }
    }
    crate::pathfinding_types::lemma_interior_card(closed1.dom(), s0.rows, s0.cols);
}

/// The A* engine instance.
pub struct Astar {
    algorithm_state: PathAlgorithmState,
    open_list: Vec<PathNodes>,
    closed_list: Vec<PathNodes>,
    path_list: Vec<PathNodes>,
    current_path_node: PathNodes,
    seed: Ghost<GridNodePosition>,
    goal: Ghost<GridNodePosition>,
    dims: Ghost<(usize, usize)>,
}

impl View for Astar {
    type V = AstarView;

    closed spec fn view(&self) -> AstarView {
        AstarView {
            state: self.algorithm_state,
            open: nodes_of(self.open_list@),
            closed: nodes_of(self.closed_list@),
            path: self.path_list@,
            current: self.current_path_node,
            seed: self.seed@,
            goal: self.goal@,
            rows: self.dims@.0,
            cols: self.dims@.1,
        }
    }
}

impl Astar {
    /// The node lists hold no two nodes at one position.
    pub closed spec fn lists_ok(self) -> bool {
        &&& crate::pathfinding_types::nodes_distinct(self.open_list@)
        &&& crate::pathfinding_types::nodes_distinct(self.closed_list@)
    }

    /// The engine invariant.
    pub open spec fn wf(self) -> bool {
        &&& self.lists_ok()
        &&& view_inv(self@)
    }

    /// A fresh engine, in the `Initialization` state with empty open,
    /// closed and path lists.
    pub fn new() -> (r: Astar)
        ensures
            r.wf(),
            r@.state is Initialization,
            r@.open == Map::<GridNodePosition, PathNodes>::empty(),
            r@.closed == Map::<GridNodePosition, PathNodes>::empty(),
            r@.path.len() == 0,
            r@.current == (PathNodes {
                cost_from_start: 0,
                cost_to_target: 0,
                total_cost: 0,
                position: GridNodePosition { row: 0, col: 0 },
                parent: Option::<GridNodePosition>::None,
            }),
    {
        let r = Astar {
            algorithm_state: PathAlgorithmState::Initialization,
            open_list: Vec::new(),
            closed_list: Vec::new(),
            path_list: Vec::new(),
            current_path_node: PathNodes::empty(),
            seed: Ghost(GridNodePosition { row: 0, col: 0 }),
            goal: Ghost(GridNodePosition { row: 0, col: 0 }),
            dims: Ghost((0, 0)),
        };
        proof {
            assert(r.open_list@ =~= Seq::<PathNodes>::empty());
            assert(nodes_of(r.open_list@) =~= Map::<GridNodePosition, PathNodes>::empty());
            assert(nodes_of(r.closed_list@) =~= Map::<GridNodePosition, PathNodes>::empty());
        }
        r
    }

    /// Discards all accumulated state and returns to `Initialization`.
    pub fn reset(&mut self)
        ensures
            final(self).wf(),
            final(self)@.state is Initialization,
            final(self)@.open == Map::<GridNodePosition, PathNodes>::empty(),
            final(self)@.closed == Map::<GridNodePosition, PathNodes>::empty(),
            final(self)@.path.len() == 0,
            final(self)@.current == old(self)@.current,
    {
        self.open_list.clear();
        self.closed_list.clear();
        self.path_list.clear();
        self.algorithm_state = PathAlgorithmState::Initialization;
        proof {
            assert(nodes_of(self.open_list@) =~= Map::<GridNodePosition, PathNodes>::empty());
            assert(nodes_of(self.closed_list@) =~= Map::<GridNodePosition, PathNodes>::empty());
        }
    }

    /// The open set (frontier) as a list of nodes.
    pub fn get_open_nodes(&self) -> (r: &Vec<PathNodes>)
        ensures
            nodes_of(r@) == self@.open,
    {
        &self.open_list
    }

    /// The closed set (already expanded nodes) as a list of nodes.
    pub fn get_closed_nodes(&self) -> (r: &Vec<PathNodes>)
        ensures
            nodes_of(r@) == self@.closed,
    {
        &self.closed_list
    }

    /// The reconstructed path, front first.
    pub fn get_path_nodes(&self) -> (r: &Vec<PathNodes>)
        ensures
            r@ == self@.path,
    {
        &self.path_list
    }

    /// The engine's state-machine position.
    pub fn get_algorithm_state(&self) -> (r: &PathAlgorithmState)
        ensures
            *r == self@.state,
    {
        &self.algorithm_state
    }

    /// The index of the open-list entry at `pos`, if any.
    fn open_find(&self, pos: GridNodePosition) -> (r: Option<usize>)
        ensures
            match r {
                Some(i) => i < self.open_list@.len() && self.open_list@[i as int].position
                    == pos,
                None => forall|j: int|
                    0 <= j < self.open_list@.len() ==> (#[trigger] self.open_list@[j]).position
                        != pos,
            },
    {
        let n = self.open_list.len();
        let mut i: usize = 0;
        while i < n
            invariant
                n == self.open_list@.len(),
                i <= n,
                forall|j: int| 0 <= j < i ==> (#[trigger] self.open_list@[j]).position != pos,
            decreases n - i,
        {
            if self.open_list[i].position == pos {
                return Some(i);
            }
            i = i + 1;
        }
        None
    }

    /// The index of the closed-list entry at `pos`, if any.
    fn closed_find(&self, pos: GridNodePosition) -> (r: Option<usize>)
        ensures
            match r {
                Some(i) => i < self.closed_list@.len() && self.closed_list@[i as int].position
                    == pos,
                None => forall|j: int|
                    0 <= j < self.closed_list@.len() ==> (
                    #[trigger] self.closed_list@[j]).position != pos,
            },
    {
        let n = self.closed_list.len();
        let mut i: usize = 0;
        while i < n
            invariant
                n == self.closed_list@.len(),
                i <= n,
                forall|j: int|
                    0 <= j < i ==> (#[trigger] self.closed_list@[j]).position != pos,
            decreases n - i,
        {
            if self.closed_list[i].position == pos {
                return Some(i);
            }
            i = i + 1;
        }
        None
    }

    /// Initialization: seeds the open set with the start node, marks it
    /// on the grid (a no-op, since the start cell keeps its anchor),
    /// clears stale path annotations, walls in the field boundary, and
    /// starts running.
    fn init_run(&mut self, grid: &mut Grid, net: Net)
        requires
            old(self).wf(),
            old(self)@.state is Initialization,
            old(grid).wf(),
            interior(old(grid)@.start, old(grid)@.rows, old(grid)@.cols),
            interior(old(grid)@.end, old(grid)@.rows, old(grid)@.cols),
        ensures
            final(self).wf(),
            final(grid).wf(),
            final(self)@.state is Running,
            init_post(old(self)@, final(self)@, old(grid)@, final(grid)@, net),
    {
        let ghost g0 = grid@;
        let start = grid.start_pos();
        let end = grid.end_pos();
        let rows = grid.row_count();
        let cols = grid.col_count();
        self.seed = Ghost(start);
        self.dims = Ghost((rows, cols));
        let seed_node = PathNodes::new(0, end, start, None);
        self.current_path_node = seed_node;
        let ghost oseq = self.open_list@;
        self.open_list.push(seed_node);
        proof {
            lemma_nodes_of(oseq);
            assert(oseq.len() == 0);
            lemma_nodes_of_push(oseq, seed_node);
            assert(seed_node == seed_node_of(g0));
        }
        grid.add_node(&start, GridNodeType::UnexploredNodes(net), net);
        proof {
            assert(grid@ == g0);
        }
        self.algorithm_state = PathAlgorithmState::Running;
        grid.clear_paths();
        let ghost g2 = grid@;
        grid.add_node_perimeter(
            GridNodePosition { row: 0, col: 0 },
            rows,
            cols,
            GridNodeType::Wall,
            1,
        );
        proof {
            let origin = GridNodePosition { row: 0, col: 0 };
            let ring = crate::grid::ring_set(origin, g0.rows, g0.cols);
            assert(g2 == crate::grid::clear_paths_view(g0));
            assert forall|p: GridNodePosition| crate::grid::on_ring(
                p,
                origin,
                g0.rows,
                g0.cols,
            ) implies !(#[trigger] g2.cells.dom().contains(p) && g2.cells[p] is ChosenPath) by {}
            assert(crate::grid::no_chosen_in(g2, ring));
            assert(crate::grid::paint_inv(g2, grid@, ring, ring));
            crate::grid::lemma_perimeter_encloses(g2, grid@, rows, cols);
            assert(crate::grid::transient_positions(g2.cells) =~= Set::<
                GridNodePosition,
            >::empty());
            assert(grid@.dels.subset_of(
                g0.dels.union(ring).union(crate::grid::transient_positions(g0.cells)),
            ));
            assert(init_post(old(self)@, final(self)@, g0, grid@, net));
            assert(view_inv(final(self)@));
        }
    }

    /// One expansion: the minimal-cost open node moves to the closed set
    /// and its walkable neighbors are considered; an exhausted open set
    /// fails the run, and discovering the goal stops the expansion and
    /// moves to path construction.
    fn run_expansion(&mut self, grid: &mut Grid, net: Net)
        requires
            old(self).wf(),
            old(self)@.state is Running,
            old(grid).wf(),
            enclosed(old(grid)@),
            old(grid)@.rows == old(self)@.rows,
            old(grid)@.cols == old(self)@.cols,
            coord_bounded(old(grid)@.end),
        ensures
            final(self).wf(),
            final(grid).wf(),
            old(self)@.open.dom().len() == 0 ==> failed_frame(old(self)@, final(self)@)
                && final(grid)@ == old(grid)@,
            old(self)@.open.dom().len() > 0 ==> exists|cur: PathNodes|
                #[trigger] is_min_choice(old(self)@.open, cur) && expanded_post(
                    old(self)@,
                    final(self)@,
                    old(grid)@,
                    final(grid)@,
                    cur,
                    net,
                ),
    {
        let ghost s0 = self@;
        let ghost g0 = grid@;
        proof {
            lemma_nodes_of(self.open_list@);
            lemma_nodes_of(self.closed_list@);
        }
        let next = self.get_next_node();
        match next {
            None => {
                self.algorithm_state = PathAlgorithmState::Failed;
            },
            Some(cur) => {
                proof {
                    if s0.open.dom().len() == 0 {
                        s0.open.dom().lemma_len0_is_empty();
                        assert(false);
                    }
                }
                let oi = match self.open_find(cur.position) {
                    Some(i) => i,
                    None => {
                        proof {
                            assert(false);
                        }
                        0
                    },
                };
                let ghost open_seq0 = self.open_list@;
                self.open_list.remove(oi);
                grid.remove_node(&cur.position);
                let ghost closed_seq0 = self.closed_list@;
                proof {
                    lemma_nodes_of_remove(open_seq0, oi as int);
                    assert forall|j: int| 0 <= j < closed_seq0.len() implies (
                    #[trigger] closed_seq0[j]).position != cur.position by {
                        assert(s0.closed.dom().contains(closed_seq0[j].position));
                    }
                }
                self.closed_list.push(cur);
                grid.add_node(&cur.position, GridNodeType::ExploredNodes(net), net);
                let ghost closed1 = s0.closed.insert(cur.position, cur);
                let ghost open_m0 = s0.open.remove(cur.position);
                let ghost gmid = grid@;
                proof {
                    lemma_nodes_of_push(closed_seq0, cur);
                    assert(nodes_of(self.closed_list@) == closed1);
                    assert(gmid == add_node_view(
                        remove_node_view(g0, cur.position),
                        cur.position,
                        GridNodeType::ExploredNodes(net),
                        net,
                    ));
                    assert(gmid.start == g0.start && gmid.end == g0.end && gmid.rows == g0.rows
                        && gmid.cols == g0.cols);
                    assert forall|p: GridNodePosition| crate::grid::on_boundary(
                        p,
                        gmid.rows,
                        gmid.cols,
                    ) implies #[trigger] gmid.cells.dom().contains(p) && gmid.cells[p]
                        is Wall by {
                        assert(enclosed(g0));
                        assert(interior(cur.position, s0.rows, s0.cols));
                        assert(p != cur.position);
                        assert(crate::grid::on_boundary(p, g0.rows, g0.cols));
                        assert(g0.cells.dom().contains(p));
                        assert(g0.cells[p] is Wall);
                    }
                    assert(enclosed(gmid));
                }
                let ns = grid.neighbours_rectilinear(cur.position);
                let end = grid.end_pos();
                let ghost end0 = g0.end;
                let ghost ns_spec = neighbor_opts(gmid, cur.position);
                proof {
                    assert(ns_spec.len() == 4);
                    assert(ns@[0] == ns_spec[0] && ns@[1] == ns_spec[1] && ns@[2] == ns_spec[2]
                        && ns@[3] == ns_spec[3]);
                    // ancestry of the fresh closed entry
                    assert(parents_of(s0.closed).dom() =~= s0.closed.dom());
                    assert(parents_of(closed1).dom() =~= closed1.dom());
                    assert(parents_of(closed1) =~= parents_of(s0.closed).insert(
                        cur.position,
                        cur.parent,
                    ));
                    assert(parents_of(closed1).remove(cur.position) =~= parents_of(s0.closed));
                    assert(chain_ok(parents_of(s0.closed), cur.parent));
                    assert(chain_ok(parents_of(closed1), Option::Some(cur.position)));
                    // surviving open entries keep their ancestry
                    assert forall|p: GridNodePosition| #[trigger] open_m0.dom().contains(
                        p,
                    ) implies chain_ok(parents_of(closed1), open_m0[p].parent) by {
                        lemma_chain_ok_insert(
                            parents_of(s0.closed),
                            open_m0[p].parent,
                            cur.position,
                            cur.parent,
                        );
                        assert(parents_of(s0.closed).insert(cur.position, cur.parent)
                            =~= parents_of(closed1));
                    }
                    // the closed set cannot outgrow the field
                    assert forall|p: GridNodePosition| #[trigger] s0.closed.dom().contains(
                        p,
                    ) implies interior(p, s0.rows, s0.cols) by {}
                    crate::pathfinding_types::lemma_interior_card(
                        s0.closed.dom(),
                        s0.rows,
                        s0.cols,
                    );
                    crate::pathfinding_types::lemma_mul_bounds(
                        s0.rows as int,
                        s0.cols as int,
                        0x100000,
                        0x100000,
                    );
                    assert(closed1.dom().len() == s0.closed.dom().len() + 1);
                    assert(cur.cost_from_start + 1 <= closed1.dom().len());
                    assert(cur.cost_from_start <= 0x100_0000_0000);
                    assert(expand_fold(open_m0, closed1, gmid, ns_spec, cur, net, end0)
                        == expand_fold(
                        nodes_of(self.open_list@),
                        closed1,
                        grid@,
                        ns_spec.subrange(0, 4),
                        cur,
                        net,
                        end0,
                    )) by {
                        assert(ns_spec.subrange(0, 4) =~= ns_spec);
                    }
                    assert(view_inv(self@));
                }
                let mut k: usize = 0;
                let mut found = false;
                while k < 4 && !found
                    invariant
                        k <= 4,
                        s0 == old(self)@,
                        g0 == old(grid)@,
                        self.lists_ok(),
                        view_inv(self@),
                        grid.wf(),
                        self@.closed == closed1,
                        self@.path == s0.path,
                        self@.seed == s0.seed,
                        self@.rows == s0.rows,
                        self@.cols == s0.cols,
                        closed1 == s0.closed.insert(cur.position, cur),
                        gmid == add_node_view(
                            remove_node_view(g0, cur.position),
                            cur.position,
                            GridNodeType::ExploredNodes(net),
                            net,
                        ),
                        is_min_choice(s0.open, cur),
                        open_m0 == s0.open.remove(cur.position),
                        node_wf(cur, s0.seed, s0.rows, s0.cols),
                        0 <= cur.cost_from_start <= 0x100_0000_0000,
                        cur.cost_from_start + 1 <= closed1.dom().len(),
                        closed1.dom().finite(),
                        chain_ok(parents_of(closed1), Option::Some(cur.position)),
                        3 <= s0.rows <= 0x100000,
                        3 <= s0.cols <= 0x100000,
                        ns_spec == neighbor_opts(gmid, cur.position),
                        ns_spec.len() == 4,
                        ns@.len() == 4,
                        ns@[0] == ns_spec[0],
                        ns@[1] == ns_spec[1],
                        ns@[2] == ns_spec[2],
                        ns@[3] == ns_spec[3],
                        end0 == g0.end,
                        end == end0,
                        coord_bounded(end0),
                        gmid.start == g0.start && gmid.end == end0,
                        gmid.rows == s0.rows && gmid.cols == s0.cols,
                        enclosed(gmid),
                        grid@.start == gmid.start,
                        grid@.end == end0,
                        grid@.rows == s0.rows,
                        grid@.cols == s0.cols,
                        enclosed(grid@),
                        !found ==> self@.state is Running && self@.current == s0.current
                            && self@.goal == s0.goal && expand_fold(
                            open_m0,
                            closed1,
                            gmid,
                            ns_spec,
                            cur,
                            net,
                            end0,
                        ) == expand_fold(
                            self@.open,
                            closed1,
                            grid@,
                            ns_spec.subrange(k as int, 4),
                            cur,
                            net,
                            end0,
                        ),
                        found ==> self@.state is PathConstruction && self@.goal == end0
                            && expand_fold(open_m0, closed1, gmid, ns_spec, cur, net, end0) == (
                        self@.open,
                        grid@,
                        Option::Some(self@.current),
                        ),
                    decreases 4 - k,
                {
                    let ghost open_now = self@.open;
                    let ghost g_now = grid@;
                    let ghost rest = ns_spec.subrange(k as int, 4);
                    proof {
                        assert(rest[0] == ns_spec[k as int]);
                        assert(rest.drop_first() =~= ns_spec.subrange(k + 1, 4));
                        lemma_nodes_of(self.open_list@);
                        lemma_nodes_of(self.closed_list@);
                    }
                    let nopt = ns[k];
                    match nopt {
                        None => {},
                        Some(q) => {
                            proof {
                                // q is a walkable neighbor of the interior
                                // cell being expanded, hence interior itself
                                if k == 0 {
                                    assert(ns_spec[0] == walk_opt(
                                        gmid,
                                        crate::grid::pos_above(cur.position),
                                    ));
                                } else if k == 1 {
                                    assert(ns_spec[1] == walk_opt(
                                        gmid,
                                        crate::grid::pos_below(cur.position),
                                    ));
                                } else if k == 2 {
                                    assert(ns_spec[2] == walk_opt(
                                        gmid,
                                        crate::grid::pos_left(cur.position),
                                    ));
                                } else {
                                    assert(ns_spec[3] == walk_opt(
                                        gmid,
                                        crate::grid::pos_right(cur.position),
                                    ));
                                }
                                assert(crate::grid::walkable(gmid, q));
                                assert(adjacent(cur.position, q));
                                crate::grid::lemma_enclosed_neighbor(gmid, cur.position, q);
                                assert(interior(q, s0.rows, s0.cols));
                                assert(coord_bounded(q));
                                crate::heuristics::lemma_squared_euclidean_bounds(q, end0);
                            }
                            let nq = PathNodes::new(
                                cur.cost_from_start + 1,
                                end,
                                q,
                                Some(cur.position),
                            );
                            proof {
                                assert(nq == candidate_node(cur, q, end0));
                                assert(node_wf(nq, s0.seed, s0.rows, s0.cols));
                            }
                            if q == end {
                                self.current_path_node = nq;
                                self.goal = Ghost(end);
                                self.algorithm_state = PathAlgorithmState::PathConstruction;
                                found = true;
                                proof {
                                    assert(expand_fold(
                                        open_now,
                                        closed1,
                                        g_now,
                                        rest,
                                        cur,
                                        net,
                                        end0,
                                    ) == (open_now, g_now, Option::Some(nq)));
                                    assert(construction_inv(self@));
                                    assert(view_inv(self@));
                                }
                            } else {
                                let in_closed = match self.closed_find(q) {
                                    Some(_) => true,
                                    None => false,
                                };
                                proof {
                                    if in_closed {
                                        assert(closed1.dom().contains(q));
                                    } else {
                                        assert(!closed1.dom().contains(q));
                                    }
                                }
                                if !in_closed {
                                    let oi2 = self.open_find(q);
                                    match oi2 {
                                        None => {
                                            let ghost oseq = self.open_list@;
                                            proof {
                                                assert(!open_now.dom().contains(q));
                                            }
                                            self.open_list.push(nq);
                                            grid.add_node(
                                                &q,
                                                GridNodeType::UnexploredNodes(net),
                                                net,
                                            );
                                            proof {
                                                lemma_nodes_of_push(oseq, nq);
                                                assert forall|p: GridNodePosition| crate::grid::on_boundary(
                                                    p,
                                                    grid@.rows,
                                                    grid@.cols,
                                                ) implies #[trigger] grid@.cells.dom().contains(
                                                    p,
                                                ) && grid@.cells[p] is Wall by {
                                                    assert(enclosed(g_now));
                                                    assert(grid@.rows == g_now.rows);
                                                    assert(grid@.cols == g_now.cols);
                                                    assert(crate::grid::on_boundary(
                                                        p,
                                                        g_now.rows,
                                                        g_now.cols,
                                                    ));
                                                    assert(p != q);
                                                    assert(g_now.cells.dom().contains(p));
                                                    assert(g_now.cells[p] is Wall);
                                                }
                                                assert(self@.open == absorb(open_now, nq));
                                                assert(expand_fold(
                                                    open_now,
                                                    closed1,
                                                    g_now,
                                                    rest,
                                                    cur,
                                                    net,
                                                    end0,
                                                ) == expand_fold(
                                                    self@.open,
                                                    closed1,
                                                    grid@,
                                                    rest.drop_first(),
                                                    cur,
                                                    net,
                                                    end0,
                                                ));
                                                assert(view_inv(self@));
                                            }
                                        },
                                        Some(j) => {
                                            let other = self.open_list[j];
                                            proof {
                                                assert(open_now.dom().contains(q));
                                                assert(open_now[q] == other);
                                            }
                                            grid.remove_node(&q);
                                            let winner = if nq.cost_from_start
                                                < other.cost_from_start {
                                                nq
                                            } else {
                                                other
                                            };
                                            let ghost oseq = self.open_list@;
                                            self.open_list.set(j, winner);
                                            grid.add_node(
                                                &q,
                                                GridNodeType::UnexploredNodes(net),
                                                net,
                                            );
                                            proof {
                                                lemma_nodes_of_update(
                                                    oseq,
                                                    j as int,
                                                    winner,
                                                );
                                                assert forall|p: GridNodePosition| crate::grid::on_boundary(
                                                    p,
                                                    grid@.rows,
                                                    grid@.cols,
                                                ) implies #[trigger] grid@.cells.dom().contains(
                                                    p,
                                                ) && grid@.cells[p] is Wall by {
                                                    assert(enclosed(g_now));
                                                    assert(grid@.rows == g_now.rows);
                                                    assert(grid@.cols == g_now.cols);
                                                    assert(crate::grid::on_boundary(
                                                        p,
                                                        g_now.rows,
                                                        g_now.cols,
                                                    ));
                                                    assert(p != q);
                                                    assert(g_now.cells.dom().contains(p));
                                                    assert(g_now.cells[p] is Wall);
                                                }
                                                assert(self@.open == open_now.insert(
                                                    q,
                                                    winner,
                                                ));
                                                if winner == other {
                                                    assert(self@.open =~= absorb(
                                                        open_now,
                                                        nq,
                                                    ));
                                                }
                                                assert(self@.open == absorb(open_now, nq));
                                                assert(expand_fold(
                                                    open_now,
                                                    closed1,
                                                    g_now,
                                                    rest,
                                                    cur,
                                                    net,
                                                    end0,
                                                ) == expand_fold(
                                                    self@.open,
                                                    closed1,
                                                    grid@,
                                                    rest.drop_first(),
                                                    cur,
                                                    net,
                                                    end0,
                                                ));
                                                assert(view_inv(self@));
                                            }
                                        },
                                    }
                                }
                            }
                        },
                    }
                    k = k + 1;
                }
                proof {
                    if !found {
                        assert(ns_spec.subrange(4, 4) =~= Seq::<
                            Option<GridNodePosition>,
                        >::empty());
                    }
                    assert(expanded_post(s0, self@, g0, grid@, cur, net));
                    assert(exists|c: PathNodes|
                        #[trigger] is_min_choice(s0.open, c) && expanded_post(
                            s0,
                            self@,
                            g0,
                            grid@,
                            c,
                            net,
                        )) by {
                        assert(is_min_choice(s0.open, cur) && expanded_post(
                            s0,
                            self@,
                            g0,
                            grid@,
                            cur,
                            net,
                        ));
                    }
                }
            },
        }
    }

    /// One bounded unit of work: seeding on the first call, one node
    /// expansion while running, or one link of path reconstruction.  The
    /// caller must have the field enclosed in a wall perimeter while the
    /// engine runs (initialization establishes it; later grid edits must
    /// preserve it).
    pub fn next_step(&mut self, grid: &mut Grid, config: &mut PathfinderConfig, net: Net) -> (r:
        PathAlgorithmState)
        requires
            old(self).wf(),
            old(grid).wf(),
            old(self)@.state is Initialization ==> interior(
                old(grid)@.start,
                old(grid)@.rows,
                old(grid)@.cols,
            ) && interior(old(grid)@.end, old(grid)@.rows, old(grid)@.cols),
            old(self)@.state is Running ==> enclosed(old(grid)@) && old(grid)@.rows == old(
                self,
            )@.rows && old(grid)@.cols == old(self)@.cols && coord_bounded(old(grid)@.end),
        ensures
            final(self).wf(),
            final(grid).wf(),
            r == final(self)@.state,
            *final(config) == *old(config),
            old(self)@.state is Initialization ==> init_post(
                old(self)@,
                final(self)@,
                old(grid)@,
                final(grid)@,
                net,
            ),
            old(self)@.state is Running && old(self)@.open.dom().len() == 0 ==> failed_frame(
                old(self)@,
                final(self)@,
            ) && final(grid)@ == old(grid)@,
            old(self)@.state is Running && old(self)@.open.dom().len() > 0 ==> exists|
                cur: PathNodes,
            |
                #[trigger] is_min_choice(old(self)@.open, cur) && expanded_post(
                    old(self)@,
                    final(self)@,
                    old(grid)@,
                    final(grid)@,
                    cur,
                    net,
                ),
            old(self)@.state is PathConstruction ==> constructed_post(
                old(self)@,
                final(self)@,
                old(grid)@,
                final(grid)@,
                net,
            ),
            old(self)@.state is Finished || old(self)@.state is Failed ==> final(self)@
                == old(self)@ && final(grid)@ == old(grid)@,
    {
        if self.algorithm_state == PathAlgorithmState::Initialization {
            self.init_run(grid, net);
        } else if self.algorithm_state == PathAlgorithmState::Running {
            self.run_expansion(grid, net);
        } else if self.algorithm_state == PathAlgorithmState::PathConstruction {
            self.construct_path(grid, net);
        }
        self.algorithm_state
    }

    /// One link of path reconstruction: pushes the node in hand onto the
    /// front of the path, marks it on the grid, withdraws its parent from
    /// the closed set, and either finishes (parent was the seed) or
    /// continues from the parent.
    pub fn construct_path(&mut self, grid: &mut Grid, net: Net)
        requires
            old(self).wf(),
            old(self)@.state is PathConstruction,
            old(grid).wf(),
        ensures
            final(self).wf(),
            final(grid).wf(),
            constructed_post(old(self)@, final(self)@, old(grid)@, final(grid)@, net),
    {
        let ghost s0 = self@;
        let current_node = self.current_path_node;
        self.path_list.insert(0, current_node);
        grid.add_node(&current_node.position, GridNodeType::ChosenPath(net), net);
        let pp = current_node.parent.unwrap();
        proof {
            lemma_nodes_of(self.closed_list@);
            assert(parents_of(s0.closed).dom() =~= s0.closed.dom());
            assert(s0.closed.dom().contains(pp));
        }
        let idx = match self.closed_find(pp) {
            Some(i) => i,
            None => {
                proof {
                    assert(false);
                }
                0
            },
        };
        let parent_node = self.closed_list[idx];
        let ghost closed_seq0 = self.closed_list@;
        self.closed_list.remove(idx);
        grid.remove_node(&pp);
        proof {
            lemma_nodes_of_remove(closed_seq0, idx as int);
            assert(s0.closed[pp] == parent_node);
            assert(parents_of(s0.closed.remove(pp)) =~= parents_of(s0.closed).remove(pp));
        }
        if parent_node.parent.is_none() {
            self.algorithm_state = PathAlgorithmState::Finished;
        } else {
            self.current_path_node = parent_node;
        }
        proof {
            let s1 = final(self)@;
            assert(s1.path == s0.path.insert(0, s0.current));
            assert(s1.path[0] == s0.current);
            assert(s1.path.len() == s0.path.len() + 1);
            assert(forall|i: int| 1 <= i < s1.path.len() ==> s1.path[i] == s0.path[i - 1]);
            assert(s1.path.last() == (if s0.path.len() == 0 {
                s0.current
            } else {
                s0.path.last()
            }));
            assert(chain_ok(parents_of(s0.closed), Option::Some(pp)));
            assert(chain_ok(parents_of(s0.closed).remove(pp), parents_of(s0.closed)[pp]));
            assert(parents_of(s0.closed)[pp] == parent_node.parent);
            if parent_node.parent is None {
                assert(parent_node.position == s0.seed);
                assert(s1.path[0].parent == Option::Some(s0.seed));
                assert(finished_inv(s1));
            } else {
                assert(chain_ok(parents_of(s1.closed), s1.current.parent));
                assert(s1.path[0].parent == Option::Some(parent_node.position));
                assert(construction_inv(s1));
            }
            assert(view_inv(s1));
        }
    }

    /// The expansion choice: the minimal-total-cost member of the open
    /// set, the lowest position in row-major order among ties, or `None`
    /// when the open set is exhausted.
    pub fn get_next_node(&self) -> (r: Option<PathNodes>)
        requires
            self.wf(),
        ensures
            match r {
                Some(n) => is_min_choice(self@.open, n),
                None => self@.open.dom().len() == 0,
            },
    {
        proof {
            lemma_nodes_of(self.open_list@);
        }
        let n = self.open_list.len();
        if n == 0 {
            return None;
        }
        let mut min_index: usize = 0;
        let mut found = false;
        let mut i: usize = 0;
        while i < n
            invariant
                n == self.open_list@.len(),
                i <= n,
                n > 0,
                found ==> min_index < i,
                found ==> forall|j: int|
                    0 <= j < i ==> self.open_list@[min_index as int].total_cost <= (
                    #[trigger] self.open_list@[j]).total_cost,
                found ==> forall|j: int|
                    0 <= j < i && (#[trigger] self.open_list@[j]).total_cost
                        == self.open_list@[min_index as int].total_cost
                        ==> crate::grid::pos_le(
                        self.open_list@[min_index as int].position,
                        self.open_list@[j].position,
                    ),
                !found ==> i == 0,
            decreases n - i,
        {
            let candidate = self.open_list[i];
            let take = if !found {
                true
            } else {
                let best = self.open_list[min_index];
                candidate.total_cost < best.total_cost || (candidate.total_cost
                    == best.total_cost && (candidate.position.row < best.position.row || (
                candidate.position.row == best.position.row && candidate.position.col
                    < best.position.col)))
            };
            if take {
                min_index = i;
                found = true;
            }
            i = i + 1;
        }
        let chosen = self.open_list[min_index];
        proof {
            assert forall|p: GridNodePosition| #[trigger] self@.open.dom().contains(
                p,
            ) implies chosen.total_cost <= self@.open[p].total_cost && (self@.open[p].total_cost
                == chosen.total_cost ==> crate::grid::pos_le(chosen.position, p)) by {
                let j = choose|j: int|
                    0 <= j < self.open_list@.len() && (#[trigger] self.open_list@[j]).position
                        == p;
                assert(self@.open[p] == self.open_list@[j]);
            }
        }
        Some(chosen)
    }
}

} // verus!
