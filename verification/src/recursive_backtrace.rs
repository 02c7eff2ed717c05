//! The recursive-backtracker maze carver: a randomized corridor-carver on
//! a two-cells-per-step lattice.
//!
//! One `next_step` call performs one carve-or-backtrack step.  For each
//! direction from the current cell, the adjacent (first-order) and the
//! two-away (second-order) cells are examined; directions whose cells are
//! already visited are walled off, corridors are kept one cell wide by
//! walling the first-order cell's lateral neighbors, and one surviving
//! direction is chosen at random.  With no survivors the carver backtracks
//! to the current cell's parent; a missing parent means the whole
//! reachable area is carved and the run finishes.

use rand::Rng;
use vstd::prelude::*;

use crate::chain::{
    chain_len, chain_ok, lemma_chain_len_insert, lemma_chain_ok_insert,
    lemma_chain_ok_still_ok_after_reinsert,
};
use crate::grid::{
    add_node_view, enclosed, interior, pos_above, pos_below, pos_left, pos_right, walk_opt, Grid,
    GridNodePosition, GridNodeType, GridView,
};
use crate::maze_generation_types::{
    lemma_mnodes_of, lemma_mnodes_of_push, lemma_mnodes_of_update, mnodes_of, mparents_of,
    MazeAlgorithmState, MazeNodes,
};

verus! {

/// The abstract state of the carver.
#[verifier::ext_equal]
pub ghost struct BacktraceView {
    pub state: MazeAlgorithmState,
    pub closed: Map<GridNodePosition, MazeNodes>,
    pub current: MazeNodes,
    pub rows: usize,
    pub cols: usize,
}

/// The carver invariant: a position-keyed visited map of interior cells,
/// and while running a current cell whose ancestry (with itself counted
/// as visited) walks back to the carve root.
pub open spec fn bt_inv(v: BacktraceView) -> bool {
    &&& v.closed.dom().finite()
    &&& forall|p: GridNodePosition|
        #[trigger] v.closed.dom().contains(p) ==> v.closed[p].position == p && interior(
            p,
            v.rows,
            v.cols,
        )
    &&& v.state is Initialization ==> v.closed == Map::<GridNodePosition, MazeNodes>::empty()
    &&& v.state is Running ==> bt_running_inv(v)
}

/// While running: real extent, an interior current cell consistent with
/// the visited map, and an intact ancestry walk from it.
pub open spec fn bt_running_inv(v: BacktraceView) -> bool {
    &&& 3 <= v.rows <= 0x100000
    &&& 3 <= v.cols <= 0x100000
    &&& interior(v.current.position, v.rows, v.cols)
    &&& v.closed.dom().contains(v.current.position) ==> v.closed[v.current.position]
        == v.current
    &&& chain_ok(
        mparents_of(v.closed.insert(v.current.position, v.current)),
        Option::Some(v.current.position),
    )
}

/// The first lateral neighbor walled off beside a first-order cell in
/// direction `k` (0 above, 1 below, 2 left, 3 right).
pub open spec fn lateral_one(f: GridNodePosition, k: int) -> GridNodePosition {
    if k <= 1 {
        pos_left(f)
    } else {
        pos_above(f)
    }
}

/// The second lateral neighbor walled off beside a first-order cell.
pub open spec fn lateral_two(f: GridNodePosition, k: int) -> GridNodePosition {
    if k <= 1 {
        pos_right(f)
    } else {
        pos_below(f)
    }
}

/// The second-order cell in direction `k`: two steps from the current
/// cell, one beyond the first-order cell `f`.
pub open spec fn second_of(f: GridNodePosition, k: int) -> GridNodePosition {
    if k == 0 {
        pos_above(f)
    } else if k == 1 {
        pos_below(f)
    } else if k == 2 {
        pos_left(f)
    } else {
        pos_right(f)
    }
}

/// One direction's worth of scanning: an unavailable or already-visited
/// first-order cell changes nothing; otherwise its lateral neighbors are
/// walled off, and the direction either yields a candidate pair (both
/// cells unvisited) or has its first-order cell walled off too.
pub open spec fn maze_step(
    closed: Map<GridNodePosition, MazeNodes>,
    g: GridView,
    nopt: Option<GridNodePosition>,
    c: GridNodePosition,
    k: int,
) -> (GridView, Option<(MazeNodes, MazeNodes)>) {
    match nopt {
        Option::None => (g, Option::<(MazeNodes, MazeNodes)>::None),
        Option::Some(f) => {
            if closed.dom().contains(f) {
                (g, Option::<(MazeNodes, MazeNodes)>::None)
            } else {
                let g1 = add_node_view(
                    add_node_view(g, lateral_one(f, k), GridNodeType::Wall, 1),
                    lateral_two(f, k),
                    GridNodeType::Wall,
                    1,
                );
                match walk_opt(g1, second_of(f, k)) {
                    Option::None => (
                        add_node_view(g1, f, GridNodeType::Wall, 1),
                        Option::<(MazeNodes, MazeNodes)>::None,
                    ),
                    Option::Some(s) => {
                        if closed.dom().contains(s) {
                            (
                                add_node_view(g1, f, GridNodeType::Wall, 1),
                                Option::<(MazeNodes, MazeNodes)>::None,
                            )
                        } else {
                            (
                                g1,
                                Option::Some(
                                    (
                                        MazeNodes { position: f, parent: Option::Some(c) },
                                        MazeNodes { position: s, parent: Option::Some(c) },
                                    ),
                                ),
                            )
                        }
                    },
                }
            }
        },
    }
}

/// Scanning the four directions in order, threading the grid through and
/// collecting the candidate pairs.
pub open spec fn maze_fold(
    closed: Map<GridNodePosition, MazeNodes>,
    g: GridView,
    ns: Seq<Option<GridNodePosition>>,
    c: GridNodePosition,
    k: int,
) -> (GridView, Seq<(MazeNodes, MazeNodes)>)
    decreases 4 - k,
{
    if !(0 <= k < 4) {
        (g, Seq::<(MazeNodes, MazeNodes)>::empty())
    } else {
        let st = maze_step(closed, g, ns[k], c, k);
        let rest = maze_fold(closed, st.0, ns, c, k + 1);
        (
            rest.0,
            match st.1 {
                Option::Some(cand) => seq![cand] + rest.1,
                Option::None => rest.1,
            },
        )
    }
}

/// What holds of every candidate pair a scan yields: both cells unvisited
/// and interior, parented on the scanned cell, and the three positions
/// pairwise distinct.
pub open spec fn cand_wf(
    closed: Map<GridNodePosition, MazeNodes>,
    c: GridNodePosition,
    cand: (MazeNodes, MazeNodes),
    rows: usize,
    cols: usize,
) -> bool {
    &&& cand.0.parent == Option::Some(c)
    &&& cand.1.parent == Option::Some(c)
    &&& !closed.dom().contains(cand.0.position)
    &&& !closed.dom().contains(cand.1.position)
    &&& cand.0.position != c
    &&& cand.1.position != c
    &&& cand.1.position != cand.0.position
    &&& interior(cand.0.position, rows, cols)
    &&& interior(cand.1.position, rows, cols)
}

/// The effect of one directional scan: the grid ends as the fold leaves
/// it, the carver's own position and state are untouched, and the result
/// is exhaustion (`None`: no candidates and no parent), the parent node
/// (no candidates), or the second-order cell of one candidate, whose
/// first-order cell has just been marked visited.
pub open spec fn scan_post(
    s0: BacktraceView,
    s1: BacktraceView,
    g0: GridView,
    g1: GridView,
    r: Option<MazeNodes>,
) -> bool {
    let c = s0.current.position;
    let ns = crate::astar::neighbor_opts(g0, c);
    let fold = maze_fold(s0.closed, g0, ns, c, 0);
    &&& g1 == fold.0
    &&& s1.state == s0.state
    &&& s1.current == s0.current
    &&& s1.rows == s0.rows
    &&& s1.cols == s0.cols
    &&& match r {
        Option::None => fold.1.len() == 0 && s0.current.parent is None && s1.closed
            == s0.closed,
        Option::Some(n) => {
            if fold.1.len() == 0 {
                match s0.current.parent {
                    Option::None => false,
                    Option::Some(pp) => n == s0.closed[pp] && s1.closed == s0.closed,
                }
            } else {
                exists|i: int|
                    0 <= i < fold.1.len() && n == (#[trigger] fold.1[i]).1 && s1.closed
                        == s0.closed.insert(fold.1[i].0.position, fold.1[i].0) && cand_wf(
                        s0.closed,
                        c,
                        fold.1[i],
                        s0.rows,
                        s0.cols,
                    )
            }
        },
    }
}

/// The effect of one carve-or-backtrack step from the `Running` state.
pub open spec fn mz_running_post(
    s0: BacktraceView,
    s1: BacktraceView,
    g0: GridView,
    g1: GridView,
) -> bool {
    let c = s0.current.position;
    let ns = crate::astar::neighbor_opts(g0, c);
    let fold = maze_fold(s0.closed, g0, ns, c, 0);
    &&& g1 == fold.0
    &&& s1.rows == s0.rows
    &&& s1.cols == s0.cols
    &&& if fold.1.len() == 0 {
        match s0.current.parent {
            Option::None => s1.state is Finished && s1.closed == s0.closed && s1.current
                == s0.current,
            Option::Some(pp) => s1.state is Running && s1.closed == s0.closed.insert(
                c,
                s0.current,
            ) && s1.current == s0.closed[pp],
        }
    } else {
        exists|i: int|
            0 <= i < fold.1.len() && s1.state is Running && s1.closed == s0.closed.insert(
                (#[trigger] fold.1[i]).0.position,
                fold.1[i].0,
            ).insert(c, s0.current) && s1.current == fold.1[i].1 && cand_wf(
                s0.closed,
                c,
                fold.1[i],
                s0.rows,
                s0.cols,
            )
    }
}

/// The effect of initialization: the board is cleared, the field boundary
/// walled in, and carving starts from the fixed interior cell one step in
/// from the field origin.
pub open spec fn mz_init_post(
    s0: BacktraceView,
    s1: BacktraceView,
    g0: GridView,
    g1: GridView,
) -> bool {
    let origin = GridNodePosition { row: 0, col: 0 };
    let ring = crate::grid::ring_set(origin, g0.rows, g0.cols);
    let cleared = crate::grid::clear_all_view(g0);
    &&& s1.state is Running
    &&& s1.closed == s0.closed
    &&& s1.current == (MazeNodes {
        position: GridNodePosition { row: 1, col: 1 },
        parent: Option::<GridNodePosition>::None,
    })
    &&& s1.rows == g0.rows
    &&& s1.cols == g0.cols
    &&& g1.cells == crate::grid::wall_overlay(cleared.cells, ring, g0.start, g0.end)
    &&& g1.start == g0.start
    &&& g1.end == g0.end
    &&& g1.rows == g0.rows
    &&& g1.cols == g0.cols
    &&& enclosed(g1)
}

/// A bound on how much longer a carve can go on: shrinks as the visited
/// set grows and pays for the current backtracking chain.
pub open spec fn carve_measure(v: BacktraceView) -> int {
    3 * ((v.rows as int) * (v.cols as int)) - 3 * v.closed.dom().len() + chain_len(
        mparents_of(v.closed.insert(v.current.position, v.current)),
        Option::Some(v.current.position),
    )
}

/// Every carve-or-backtrack step that stays in `Running` strictly
/// decreases the carve measure, which stays non-negative: advancing grows
/// the visited set, backtracking shortens the chain, so the carver cannot
/// run forever and must finish.
pub proof fn lemma_carve_decreases_measure(
    s0: BacktraceView,
    s1: BacktraceView,
    g0: GridView,
    g1: GridView,
)
    requires
        bt_inv(s0),
        s0.state is Running,
        mz_running_post(s0, s1, g0, g1),
        s1.state is Running,
    ensures
        carve_measure(s1) < carve_measure(s0),
        carve_measure(s1) >= 0,
{
    let c = s0.current.position;
    let cur = s0.current;
    let closed0 = s0.closed;
    let ns = crate::astar::neighbor_opts(g0, c);
    let fold = maze_fold(closed0, g0, ns, c, 0);
    let pm1 = mparents_of(closed0.insert(c, cur));
    assert(pm1.dom() =~= closed0.dom().insert(c));
    assert(chain_ok(pm1, Option::Some(c)));
    assert(pm1[c] == cur.parent);
    let m0 = chain_len(pm1, Option::Some(c));
    assert(m0 == 1 + chain_len(pm1.remove(c), cur.parent));
    if fold.1.len() == 0 {
        // Backtrack: the chain shortens by one, the visited set does not
        // shrink.
        let pp = cur.parent.unwrap();
        assert(chain_ok(pm1.remove(c), Option::Some(pp)));
        assert(pm1.remove(c).dom().contains(pp));
        assert(pp != c);
        assert(closed0.dom().contains(pp));
        let n = closed0[pp];
        assert(s1.current == n && s1.closed == closed0.insert(c, cur));
        assert(n.position == pp);
        assert(s1.closed.insert(pp, n) =~= s1.closed);
        assert(mparents_of(s1.closed.insert(pp, n)) =~= pm1);
        lemma_chain_len_insert(pm1.remove(c), Option::Some(pp), c, pm1[c]);
        assert(pm1.remove(c).insert(c, pm1[c]) =~= pm1);
        assert(chain_len(pm1, Option::Some(pp)) == chain_len(
            pm1.remove(c),
            Option::Some(pp),
        ));
        assert(chain_len(
            mparents_of(s1.closed.insert(s1.current.position, s1.current)),
            Option::Some(s1.current.position),
        ) == m0 - 1);
        assert(s1.closed.dom().len() >= closed0.dom().len()) by {
            if closed0.dom().contains(c) {
                assert(s1.closed.dom() =~= closed0.dom());
            } else {
                assert(s1.closed.dom() =~= closed0.dom().insert(c));
            }
        }
    } else {
        // Advance: the visited set grows by at least the fresh first-order
        // cell while the chain grows by only one.
        let i = choose|i: int|
            0 <= i < fold.1.len() && s1.state is Running && s1.closed == closed0.insert(
                (#[trigger] fold.1[i]).0.position,
                fold.1[i].0,
            ).insert(c, cur) && s1.current == fold.1[i].1 && cand_wf(
                closed0,
                c,
                fold.1[i],
                s0.rows,
                s0.cols,
            );
        let f = fold.1[i].0;
        let sn = fold.1[i].1;
        assert(!s1.closed.dom().contains(sn.position));
        let m3 = mparents_of(s1.closed.insert(sn.position, sn));
        assert(m3.dom() =~= s1.closed.dom().insert(sn.position));
        assert(m3.remove(sn.position) =~= mparents_of(s1.closed));
        assert(m3[sn.position] == Option::Some(c));
        assert(chain_len(m3, Option::Some(sn.position)) == 1 + chain_len(
            mparents_of(s1.closed),
            Option::Some(c),
        ));
        assert(mparents_of(s1.closed).dom() =~= s1.closed.dom());
        assert(mparents_of(s1.closed)[c] == cur.parent);
        assert(chain_len(mparents_of(s1.closed), Option::Some(c)) == 1 + chain_len(
            mparents_of(s1.closed).remove(c),
            cur.parent,
        ));
        assert(chain_ok(pm1.remove(c), cur.parent));
        assert(!pm1.remove(c).dom().contains(f.position));
        lemma_chain_len_insert(pm1.remove(c), cur.parent, f.position, Option::Some(c));
        assert(mparents_of(s1.closed).remove(c) =~= pm1.remove(c).insert(
            f.position,
            Option::Some(c),
        ));
        assert(chain_len(mparents_of(s1.closed).remove(c), cur.parent) == chain_len(
            pm1.remove(c),
            cur.parent,
        ));
        assert(chain_len(
            mparents_of(s1.closed.insert(s1.current.position, s1.current)),
            Option::Some(s1.current.position),
        ) == m0 + 1);
        assert(s1.closed.dom().len() >= closed0.dom().len() + 1) by {
            if closed0.dom().contains(c) {
                assert(s1.closed.dom() =~= closed0.dom().insert(f.position));
            } else {
                assert(s1.closed.dom() =~= closed0.dom().insert(f.position).insert(c));
                assert(closed0.dom().insert(f.position).len() == closed0.dom().len() + 1);
            }
        }
    }
    // The visited set never outgrows the field, so the measure stays
    // non-negative.
    assert forall|p: GridNodePosition| #[trigger] s1.closed.dom().contains(p) implies interior(
        p,
        s0.rows,
        s0.cols,
    ) by {
        if p != c && !closed0.dom().contains(p) {
            assert(fold.1.len() > 0);
        }
    }
    crate::pathfinding_types::lemma_interior_card(s1.closed.dom(), s0.rows, s0.cols);
    assert(s1.rows == s0.rows && s1.cols == s0.cols);
}

/// Relies on rand's thread-local generator: `gen_range` on the non-empty
/// range `0..n` panics only on an empty range and returns a sample of the
/// range, so the result is always below `n`.
#[verifier::external_body]
fn random_below(n: usize) -> (r: usize)
    requires
        n >= 1,
    ensures
        r < n,
{
    rand::thread_rng().gen_range(0..n)
}

/// The recursive-backtracker carver instance.
pub struct RecursiveBacktrace {
    algorithm_state: MazeAlgorithmState,
    closed_list: Vec<MazeNodes>,
    current_maze_node: MazeNodes,
    dims: Ghost<(usize, usize)>,
}

impl View for RecursiveBacktrace {
    type V = BacktraceView;

    closed spec fn view(&self) -> BacktraceView {
        BacktraceView {
            state: self.algorithm_state,
            closed: mnodes_of(self.closed_list@),
            current: self.current_maze_node,
            rows: self.dims@.0,
            cols: self.dims@.1,
        }
    }
}

impl RecursiveBacktrace {
    /// The visited list holds no two nodes at one position.
    pub closed spec fn lists_ok(self) -> bool {
        crate::maze_generation_types::mnodes_distinct(self.closed_list@)
    }

    /// The carver invariant.
    pub open spec fn wf(self) -> bool {
        &&& self.lists_ok()
        &&& bt_inv(self@)
    }

    /// A fresh carver in the `Initialization` state.
    pub fn new() -> (r: RecursiveBacktrace)
        ensures
            r.wf(),
            r@.state is Initialization,
            r@.closed == Map::<GridNodePosition, MazeNodes>::empty(),
            r@.current == (MazeNodes {
                position: GridNodePosition { row: 0, col: 0 },
                parent: Option::<GridNodePosition>::None,
            }),
    {
        let r = RecursiveBacktrace {
            algorithm_state: MazeAlgorithmState::Initialization,
            closed_list: Vec::new(),
            current_maze_node: MazeNodes::empty(),
            dims: Ghost((0, 0)),
        };
        proof {
            assert(mnodes_of(r.closed_list@) =~= Map::<GridNodePosition, MazeNodes>::empty());
        }
        r
    }

    /// Discards the visited set and returns to `Initialization`.
    pub fn reset(&mut self)
        ensures
            final(self).wf(),
            final(self)@.state is Initialization,
            final(self)@.closed == Map::<GridNodePosition, MazeNodes>::empty(),
            final(self)@.current == old(self)@.current,
    {
        self.closed_list.clear();
        self.algorithm_state = MazeAlgorithmState::Initialization;
        proof {
            assert(mnodes_of(self.closed_list@) =~= Map::<GridNodePosition, MazeNodes>::empty());
        }
    }

    /// The visited (carved) cells as a list of nodes.
    pub fn get_closed_nodes(&self) -> (r: &Vec<MazeNodes>)
        ensures
            mnodes_of(r@) == self@.closed,
    {
        &self.closed_list
    }

    /// The carver's state-machine position.
    pub fn get_algorithm_state(&self) -> (r: &MazeAlgorithmState)
        ensures
            *r == self@.state,
    {
        &self.algorithm_state
    }

    /// The index of the visited-list entry at `pos`, if any.
    fn closed_find(&self, pos: GridNodePosition) -> (r: Option<usize>)
        ensures
            match r {
                Some(i) => i < self.closed_list@.len() && self.closed_list@[i as int].position
                    == pos,
                None => forall|j: int|
                    0 <= j < self.closed_list@.len() ==> (
                    #[trigger] self.closed_list@[j]).position != pos,
            },
    {
        let n = self.closed_list.len();
        let mut i: usize = 0;
        while i < n
            invariant
                n == self.closed_list@.len(),
                i <= n,
                forall|j: int|
                    0 <= j < i ==> (#[trigger] self.closed_list@[j]).position != pos,
            decreases n - i,
        {
            if self.closed_list[i].position == pos {
                return Some(i);
            }
            i = i + 1;
        }
        None
    }

    /// One carve-or-backtrack step: initialization clears the board,
    /// walls in the field boundary and starts from the fixed interior
    /// cell; while running, one directional scan either advances the
    /// carver, backtracks, or finishes the run.  Carving never disturbs
    /// the boundary walls.
    pub fn next_step(&mut self, grid: &mut Grid) -> (r: MazeAlgorithmState)
        requires
            old(self).wf(),
            old(grid).wf(),
            old(self)@.state is Initialization ==> interior(
                old(grid)@.start,
                old(grid)@.rows,
                old(grid)@.cols,
            ) && interior(old(grid)@.end, old(grid)@.rows, old(grid)@.cols),
            old(self)@.state is Running ==> enclosed(old(grid)@) && old(grid)@.rows == old(self)@.rows && old(grid)@.cols == old(self)@.cols,
        ensures
            final(self).wf(),
            final(grid).wf(),
            r == final(self)@.state,
            old(self)@.state is Initialization ==> mz_init_post(
                old(self)@,
                final(self)@,
                old(grid)@,
                final(grid)@,
            ),
            old(self)@.state is Running ==> mz_running_post(
                old(self)@,
                final(self)@,
                old(grid)@,
                final(grid)@,
            ) && enclosed(final(grid)@),
            old(self)@.state is Finished || old(self)@.state is Failed ==> final(self)@
                == old(self)@ && final(grid)@ == old(grid)@,
    {
        if self.algorithm_state == MazeAlgorithmState::Initialization {
            let ghost g0 = grid@;
            let rows = grid.row_count();
            let cols = grid.col_count();
            self.dims = Ghost((rows, cols));
            let pos = GridNodePosition { row: 1, col: 1 };
            self.current_maze_node = MazeNodes::new(pos, None);
            grid.clear_all();
            let ghost g2 = grid@;
            grid.add_node_perimeter(
                GridNodePosition { row: 0, col: 0 },
                rows,
                cols,
                GridNodeType::Wall,
                1,
            );
            self.algorithm_state = MazeAlgorithmState::Running;
            proof {
                let origin = GridNodePosition { row: 0, col: 0 };
                let ring = crate::grid::ring_set(origin, g0.rows, g0.cols);
                assert(g2 == crate::grid::clear_all_view(g0));
                assert forall|p: GridNodePosition| crate::grid::on_ring(
                    p,
                    origin,
                    g0.rows,
                    g0.cols,
                ) implies !(#[trigger] g2.cells.dom().contains(p) && g2.cells[p]
                    is ChosenPath) by {}
                assert(crate::grid::no_chosen_in(g2, ring));
                assert(crate::grid::paint_inv(g2, grid@, ring, ring));
                crate::grid::lemma_perimeter_encloses(g2, grid@, rows, cols);
                let cur = final(self)@.current;
                let pm = mparents_of(final(self)@.closed.insert(cur.position, cur));
                assert(pm.dom() =~= final(self)@.closed.dom().insert(cur.position));
                assert(pm.remove(cur.position) =~= Map::<
                    GridNodePosition,
                    Option<GridNodePosition>,
                >::empty());
                assert(pm[cur.position] == Option::<GridNodePosition>::None);
                assert(chain_ok(
                    pm.remove(cur.position),
                    Option::<GridNodePosition>::None,
                ));
                assert(pm.dom().contains(cur.position));
                assert(pm.dom().finite());
                assert(chain_ok(pm, Option::Some(cur.position)));
                assert(bt_inv(final(self)@));
                assert(mz_init_post(old(self)@, final(self)@, g0, grid@));
            }
        } else if self.algorithm_state == MazeAlgorithmState::Running {
            let ghost s0 = self@;
            let ghost g0 = grid@;
            let next = self.get_next_node(grid);
            match next {
                None => {
                    self.algorithm_state = MazeAlgorithmState::Finished;
                    proof {
                        assert(bt_inv(final(self)@));
                        assert(mz_running_post(s0, final(self)@, g0, grid@));
                    }
                },
                Some(next_node) => {
                    let ghost s_mid = self@;
                    let cur = self.current_maze_node;
                    let c = cur.position;
                    self.closed_upsert(cur);
                    self.current_maze_node = next_node;
                    proof {
                        let closed0 = s0.closed;
                        let pm1 = mparents_of(closed0.insert(c, cur));
                        assert(chain_ok(pm1, Option::Some(c)));
                        let fold = maze_fold(
                            closed0,
                            g0,
                            crate::astar::neighbor_opts(g0, c),
                            c,
                            0,
                        );
                        let closed2 = final(self)@.closed;
                        if fold.1.len() == 0 {
                            // backtrack: next_node came from the visited set
                            let pp = cur.parent.unwrap();
                            assert(pm1[c] == Option::Some(pp));
                            assert(chain_ok(pm1.remove(c), Option::Some(pp)));
                            assert(pm1.remove(c).dom().contains(pp));
                            assert(pp != c);
                            assert(closed0.dom().contains(pp));
                            assert(next_node == closed0[pp]);
                            assert(next_node.position == pp);
                            assert(closed2 == closed0.insert(c, cur));
                            assert(mparents_of(closed2) =~= pm1);
                            lemma_chain_ok_still_ok_after_reinsert(pm1, Option::Some(pp), c);
                            assert(closed2.insert(pp, next_node) =~= closed2);
                            assert(mparents_of(closed2.insert(pp, next_node)) =~= pm1);
                            assert(chain_ok(
                                mparents_of(closed2.insert(next_node.position, next_node)),
                                Option::Some(next_node.position),
                            ));
                            assert(bt_running_inv(final(self)@));
                        } else {
                            // advance: next_node is a fresh second-order cell
                            let i = choose|i: int|
                                0 <= i < fold.1.len() && next_node == (
                                #[trigger] fold.1[i]).1 && s_mid.closed == closed0.insert(
                                    fold.1[i].0.position,
                                    fold.1[i].0,
                                ) && cand_wf(closed0, c, fold.1[i], s0.rows, s0.cols);
                            let f = fold.1[i].0;
                            let s = fold.1[i].1;
                            assert(next_node == s);
                            assert(f.position != c);
                            assert(closed2 == closed0.insert(f.position, f).insert(c, cur));
                            assert(s.position != c && s.position != f.position
                                && !closed0.dom().contains(s.position));
                            assert(!closed2.dom().contains(s.position));
                            let m3 = mparents_of(closed2.insert(s.position, s));
                            assert(m3.dom() =~= closed2.dom().insert(s.position));
                            assert(m3.remove(s.position) =~= mparents_of(closed2));
                            assert(m3[s.position] == Option::Some(c));
                            // the walk from the scanned cell is intact in the
                            // grown visited set
                            assert(mparents_of(closed2).dom() =~= closed2.dom());
                            assert(mparents_of(closed2)[c] == cur.parent);
                            assert(chain_ok(pm1.remove(c), pm1[c]));
                            assert(pm1[c] == cur.parent);
                            assert(!pm1.remove(c).dom().contains(f.position));
                            lemma_chain_ok_insert(
                                pm1.remove(c),
                                cur.parent,
                                f.position,
                                Option::Some(c),
                            );
                            assert(mparents_of(closed2).remove(c) =~= pm1.remove(c).insert(
                                f.position,
                                Option::Some(c),
                            ));
                            assert(chain_ok(mparents_of(closed2).remove(c), cur.parent));
                            assert(chain_ok(mparents_of(closed2), Option::Some(c)));
                            assert(chain_ok(
                                m3.remove(s.position),
                                Option::Some(c),
                            ));
                            assert(chain_ok(m3, Option::Some(s.position)));
                            assert(bt_running_inv(final(self)@));
                            assert(exists|j: int|
                                0 <= j < fold.1.len() && final(self)@.state is Running && final(self)@.closed == closed0.insert(
                                    (#[trigger] fold.1[j]).0.position,
                                    fold.1[j].0,
                                ).insert(c, s0.current) && final(self)@.current
                                    == fold.1[j].1 && cand_wf(
                                    closed0,
                                    c,
                                    fold.1[j],
                                    s0.rows,
                                    s0.cols,
                                )) by {
                                assert(0 <= i < fold.1.len() && final(self)@.state is Running
                                    && final(self)@.closed == closed0.insert(
                                    fold.1[i].0.position,
                                    fold.1[i].0,
                                ).insert(c, s0.current) && final(self)@.current
                                    == fold.1[i].1 && cand_wf(
                                    closed0,
                                    c,
                                    fold.1[i],
                                    s0.rows,
                                    s0.cols,
                                ));
                            }
                        }
                        assert(bt_inv(final(self)@));
                        assert(mz_running_post(s0, final(self)@, g0, grid@));
                    }
                },
            }
        }
        self.algorithm_state
    }

    /// One directional scan from the current cell: paints rejection walls
    /// as it goes, then either picks a surviving direction at random
    /// (marking its first-order cell visited and handing back its
    /// second-order cell), backtracks to the parent, or reports
    /// exhaustion.
    fn get_next_node(&mut self, grid: &mut Grid) -> (r: Option<MazeNodes>)
        requires
            old(self).wf(),
            old(self)@.state is Running,
            old(grid).wf(),
            enclosed(old(grid)@),
            old(grid)@.rows == old(self)@.rows,
            old(grid)@.cols == old(self)@.cols,
        ensures
            final(self).lists_ok(),
            final(grid).wf(),
            enclosed(final(grid)@),
            scan_post(old(self)@, final(self)@, old(grid)@, final(grid)@, r),
    {
        let ghost s0 = self@;
        let ghost g0 = grid@;
        let ghost closed0 = s0.closed;
        let c = self.current_maze_node.position;
        let ns = grid.neighbours_rectilinear(c);
        let ghost ns_spec = crate::astar::neighbor_opts(g0, c);
        let mut first_order_list: Vec<MazeNodes> = Vec::new();
        let mut second_order_list: Vec<MazeNodes> = Vec::new();
        let ghost mut cands: Seq<(MazeNodes, MazeNodes)> = Seq::empty();
        proof {
            assert(ns_spec.len() == 4);
            assert(ns@[0] == ns_spec[0] && ns@[1] == ns_spec[1] && ns@[2] == ns_spec[2]
                && ns@[3] == ns_spec[3]);
            lemma_mnodes_of(self.closed_list@);
            assert(Seq::<(MazeNodes, MazeNodes)>::empty() + maze_fold(
                closed0,
                g0,
                ns_spec,
                c,
                0,
            ).1 =~= maze_fold(closed0, g0, ns_spec, c, 0).1);
        }
        let mut k: usize = 0;
        while k < 4
            invariant
                k <= 4,
                s0 == old(self)@,
                g0 == old(grid)@,
                self@ == s0,
                self.lists_ok(),
                bt_inv(s0),
                s0.state is Running,
                closed0 == s0.closed,
                c == s0.current.position,
                grid.wf(),
                enclosed(grid@),
                enclosed(g0),
                grid@.rows == s0.rows,
                grid@.cols == s0.cols,
                g0.rows == s0.rows,
                g0.cols == s0.cols,
                3 <= s0.rows <= 0x100000,
                3 <= s0.cols <= 0x100000,
                interior(c, s0.rows, s0.cols),
                ns_spec == crate::astar::neighbor_opts(g0, c),
                ns_spec.len() == 4,
                ns@.len() == 4,
                ns@[0] == ns_spec[0],
                ns@[1] == ns_spec[1],
                ns@[2] == ns_spec[2],
                ns@[3] == ns_spec[3],
                first_order_list@.len() == cands.len(),
                second_order_list@.len() == cands.len(),
                forall|i: int|
                    0 <= i < cands.len() ==> first_order_list@[i] == (
                    #[trigger] cands[i]).0 && second_order_list@[i] == cands[i].1,
                forall|i: int|
                    0 <= i < cands.len() ==> cand_wf(
                        closed0,
                        c,
                        #[trigger] cands[i],
                        s0.rows,
                        s0.cols,
                    ),
                maze_fold(closed0, g0, ns_spec, c, 0).0 == maze_fold(
                    closed0,
                    grid@,
                    ns_spec,
                    c,
                    k as int,
                ).0,
                maze_fold(closed0, g0, ns_spec, c, 0).1 == cands + maze_fold(
                    closed0,
                    grid@,
                    ns_spec,
                    c,
                    k as int,
                ).1,
            decreases 4 - k,
        {
            let ghost g_now = grid@;
            let nopt = ns[k];
            proof {
                lemma_mnodes_of(self.closed_list@);
            }
            match nopt {
                None => {},
                Some(f) => {
                    proof {
                        if k == 0 {
                            assert(ns_spec[0] == walk_opt(g0, pos_above(c)));
                        } else if k == 1 {
                            assert(ns_spec[1] == walk_opt(g0, pos_below(c)));
                        } else if k == 2 {
                            assert(ns_spec[2] == walk_opt(g0, pos_left(c)));
                        } else {
                            assert(ns_spec[3] == walk_opt(g0, pos_right(c)));
                        }
                        assert(crate::grid::walkable(g0, f));
                        assert(crate::grid::adjacent(c, f));
                        crate::grid::lemma_enclosed_neighbor(g0, c, f);
                        assert(interior(f, s0.rows, s0.cols));
                    }
                    let visited = match self.closed_find(f) {
                        Some(_) => true,
                        None => false,
                    };
                    proof {
                        if visited {
                            assert(closed0.dom().contains(f));
                        } else {
                            assert(!closed0.dom().contains(f));
                        }
                    }
                    if !visited {
                        if k <= 1 {
                            grid.add_node(&f.left(), GridNodeType::Wall, 1);
                            proof {
                                crate::grid::lemma_wall_add_preserves_enclosed(
                                    g_now,
                                    pos_left(f),
                                    1,
                                );
                            }
                            let ghost g_w1 = grid@;
                            grid.add_node(&f.right(), GridNodeType::Wall, 1);
                            proof {
                                crate::grid::lemma_wall_add_preserves_enclosed(
                                    g_w1,
                                    pos_right(f),
                                    1,
                                );
                            }
                        } else {
                            grid.add_node(&f.above(), GridNodeType::Wall, 1);
                            proof {
                                crate::grid::lemma_wall_add_preserves_enclosed(
                                    g_now,
                                    pos_above(f),
                                    1,
                                );
                            }
                            let ghost g_w1 = grid@;
                            grid.add_node(&f.below(), GridNodeType::Wall, 1);
                            proof {
                                crate::grid::lemma_wall_add_preserves_enclosed(
                                    g_w1,
                                    pos_below(f),
                                    1,
                                );
                            }
                        }
                        let ghost g1 = grid@;
                        proof {
                            assert(g1 == add_node_view(
                                add_node_view(g_now, lateral_one(f, k as int), GridNodeType::Wall, 1),
                                lateral_two(f, k as int),
                                GridNodeType::Wall,
                                1,
                            ));
                        }
                        let second_opt = if k == 0 {
                            grid.available_above(f)
                        } else if k == 1 {
                            grid.available_below(f)
                        } else if k == 2 {
                            grid.available_left(f)
                        } else {
                            grid.available_right(f)
                        };
                        proof {
                            assert(second_opt == walk_opt(g1, second_of(f, k as int)));
                        }
                        match second_opt {
                            None => {
                                grid.add_node(&f, GridNodeType::Wall, 1);
                                proof {
                                    crate::grid::lemma_wall_add_preserves_enclosed(g1, f, 1);
                                }
                            },
                            Some(s) => {
                                let s_visited = match self.closed_find(s) {
                                    Some(_) => true,
                                    None => false,
                                };
                                proof {
                                    if s_visited {
                                        assert(closed0.dom().contains(s));
                                    } else {
                                        assert(!closed0.dom().contains(s));
                                    }
                                }
                                if s_visited {
                                    grid.add_node(&f, GridNodeType::Wall, 1);
                                    proof {
                                        crate::grid::lemma_wall_add_preserves_enclosed(
                                            g1,
                                            f,
                                            1,
                                        );
                                    }
                                } else {
                                    proof {
                                        assert(crate::grid::walkable(g1, s));
                                        assert(crate::grid::adjacent(f, s));
                                        crate::grid::lemma_enclosed_neighbor(g1, f, s);
                                        assert(interior(s, s0.rows, s0.cols));
                                        assert(s != c && s != f && f != c);
                                    }
                                    let fnode = MazeNodes::new(f, Some(c));
                                    let snode = MazeNodes::new(s, Some(c));
                                    first_order_list.push(fnode);
                                    second_order_list.push(snode);
                                    proof {
                                        let pair = (fnode, snode);
                                        assert(cand_wf(closed0, c, pair, s0.rows, s0.cols));
                                        let rest1 = maze_fold(
                                            closed0,
                                            grid@,
                                            ns_spec,
                                            c,
                                            k + 1,
                                        ).1;
                                        assert(cands + (seq![pair] + rest1) =~= cands.push(
                                            pair,
                                        ) + rest1);
                                        cands = cands.push(pair);
                                    }
                                }
                            },
                        }
                    }
                },
            }
            k = k + 1;
        }
        proof {
            assert(maze_fold(closed0, grid@, ns_spec, c, 4).1 =~= Seq::<
                (MazeNodes, MazeNodes),
            >::empty());
            assert(cands + maze_fold(closed0, grid@, ns_spec, c, 4).1 =~= cands);
            assert(maze_fold(closed0, g0, ns_spec, c, 0).1 == cands);
            assert(maze_fold(closed0, g0, ns_spec, c, 0).0 == grid@);
        }
        if second_order_list.len() == 0 {
            let parent = self.current_maze_node.parent;
            match parent {
                None => {
                    return None;
                },
                Some(pos) => {
                    proof {
                        let pm1 = mparents_of(closed0.insert(c, s0.current));
                        assert(chain_ok(pm1, Option::Some(c)));
                        assert(pm1[c] == Option::Some(pos));
                        assert(chain_ok(pm1.remove(c), Option::Some(pos)));
                        assert(pm1.remove(c).dom().contains(pos));
                        assert(pos != c);
                        assert(closed0.dom().contains(pos));
                        lemma_mnodes_of(self.closed_list@);
                    }
                    let idx = match self.closed_find(pos) {
                        Some(i) => i,
                        None => {
                            proof {
                                assert(false);
                            }
                            0
                        },
                    };
                    let parent_node = self.closed_list[idx];
                    proof {
                        assert(parent_node == closed0[pos]);
                    }
                    return Some(parent_node);
                },
            }
        }
        let index = random_below(second_order_list.len());
        let fnode = first_order_list[index];
        let snode = second_order_list[index];
        proof {
            assert(fnode == cands[index as int].0 && snode == cands[index as int].1);
            assert(cand_wf(closed0, c, cands[index as int], s0.rows, s0.cols));
        }
        self.closed_upsert(fnode);
        proof {
            let fold = maze_fold(closed0, g0, ns_spec, c, 0);
            assert(0 <= index < fold.1.len() && snode == fold.1[index as int].1
                && final(self)@.closed == closed0.insert(
                fold.1[index as int].0.position,
                fold.1[index as int].0,
            ) && cand_wf(closed0, c, fold.1[index as int], s0.rows, s0.cols));
        }
        Some(snode)
    }

    /// Stores `n` in the visited set, replacing any entry at its
    /// position.
    fn closed_upsert(&mut self, n: MazeNodes)
        requires
            old(self).lists_ok(),
        ensures
            final(self).lists_ok(),
            final(self)@.closed == old(self)@.closed.insert(n.position, n),
            final(self)@.state == old(self)@.state,
            final(self)@.current == old(self)@.current,
            final(self)@.rows == old(self)@.rows,
            final(self)@.cols == old(self)@.cols,
    {
        let ghost seq0 = self.closed_list@;
        proof {
            lemma_mnodes_of(seq0);
        }
        match self.closed_find(n.position) {
            Some(i) => {
                self.closed_list.set(i, n);
                proof {
                    lemma_mnodes_of_update(seq0, i as int, n);
                }
            },
            None => {
                self.closed_list.push(n);
                proof {
                    lemma_mnodes_of_push(seq0, n);
                }
            },
        }
    }
}

} // verus!
