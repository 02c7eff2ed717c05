//! The older single-struct search engine: cost-ranked expansion over a
//! read-only grid, without the grid-marking side effects of the later
//! engines.

use vstd::prelude::*;

use crate::astar::{absorb, candidate_node, is_min_choice, neighbor_opts, parents_of};
use crate::chain::{chain_ok, lemma_chain_ok_insert};
use crate::grid::{enclosed, interior, Grid, GridNodePosition, GridView};
use crate::heuristics::coord_bounded;
use crate::pathfinding_types::{
    lemma_nodes_of, lemma_nodes_of_push, lemma_nodes_of_remove, lemma_nodes_of_update, nodes_of,
    PathAlgorithms, PathNodes,
};

verus! {

/// The engine's state machine.  `FINISHED` and `FAILED` are terminal
/// until a `cancel`.
#[derive(Copy, Clone, Eq, PartialEq, Debug, Structural)]
#[allow(non_camel_case_types)]
pub enum AlgorithmState {
    INITIALIZATION,
    RUNNING,
    PATH_CONSTRUCTION,
    FINISHED,
    FAILED,
}

/// The abstract state of the engine.
#[verifier::ext_equal]
pub ghost struct PathAlgoView {
    pub state: AlgorithmState,
    pub open: Map<GridNodePosition, PathNodes>,
    pub closed: Map<GridNodePosition, PathNodes>,
    pub path: Seq<PathNodes>,
    pub current: PathNodes,
    pub rows: usize,
    pub cols: usize,
}

/// The engine invariant: position-keyed node maps, disjoint open and
/// closed sets, interior positions, bounded costs, and ancestry of every
/// open node found in the closed set while running.
pub open spec fn pa_inv(v: PathAlgoView) -> bool {
    &&& v.open.dom().finite()
    &&& v.closed.dom().finite()
    &&& forall|p: GridNodePosition|
        #[trigger] v.open.dom().contains(p) ==> v.open[p].position == p && interior(
            p,
            v.rows,
            v.cols,
        )
    &&& forall|p: GridNodePosition|
        #[trigger] v.closed.dom().contains(p) ==> v.closed[p].position == p && interior(
            p,
            v.rows,
            v.cols,
        )
    &&& forall|p: GridNodePosition|
        !(#[trigger] v.open.dom().contains(p) && v.closed.dom().contains(p))
    &&& v.state is INITIALIZATION ==> v.open == Map::<GridNodePosition, PathNodes>::empty()
        && v.closed == Map::<GridNodePosition, PathNodes>::empty()
    &&& v.state is RUNNING ==> pa_running_inv(v)
    &&& v.state is PATH_CONSTRUCTION ==> v.current.parent is Some && chain_ok(
        parents_of(v.closed),
        v.current.parent,
    )
}

/// While running: real extent, ancestry in the closed set, and costs
/// bounded by the closed set's size.
pub open spec fn pa_running_inv(v: PathAlgoView) -> bool {
    &&& 3 <= v.rows <= 0x100000
    &&& 3 <= v.cols <= 0x100000
    &&& forall|p: GridNodePosition|
        #[trigger] v.open.dom().contains(p) ==> chain_ok(parents_of(v.closed), v.open[p].parent)
    &&& forall|p: GridNodePosition|
        #[trigger] v.open.dom().contains(p) ==> 0 <= v.open[p].cost_from_start
            <= v.closed.dom().len()
    &&& forall|p: GridNodePosition|
        #[trigger] v.closed.dom().contains(p) ==> 0 <= v.closed[p].cost_from_start
            <= v.closed.dom().len()
}

/// The effect of working through the neighbor options in order, without
/// grid side effects: walls are skipped, the goal stops the walk, closed
/// neighbors are discarded, and the rest are absorbed into the open set
/// (replace-on-improve).
pub open spec fn pa_expand_fold(
    open: Map<GridNodePosition, PathNodes>,
    closed: Map<GridNodePosition, PathNodes>,
    ns: Seq<Option<GridNodePosition>>,
    cur: PathNodes,
    goal: GridNodePosition,
) -> (Map<GridNodePosition, PathNodes>, Option<PathNodes>)
    decreases ns.len(),
{
    if ns.len() == 0 {
        (open, Option::<PathNodes>::None)
    } else {
        match ns[0] {
            Option::None => pa_expand_fold(open, closed, ns.drop_first(), cur, goal),
            Option::Some(q) => {
                if q == goal {
                    (open, Option::Some(candidate_node(cur, q, goal)))
                } else if closed.dom().contains(q) {
                    pa_expand_fold(open, closed, ns.drop_first(), cur, goal)
                } else {
                    pa_expand_fold(
                        absorb(open, candidate_node(cur, q, goal)),
                        closed,
                        ns.drop_first(),
                        cur,
                        goal,
                    )
                }
            },
        }
    }
}

/// The effect of one expansion of `cur`.
pub open spec fn pa_expanded_post(
    s0: PathAlgoView,
    s1: PathAlgoView,
    g: GridView,
    cur: PathNodes,
) -> bool {
    let closed1 = s0.closed.insert(cur.position, cur);
    let ns = neighbor_opts(g, cur.position);
    let fold = pa_expand_fold(s0.open.remove(cur.position), closed1, ns, cur, g.end);
    &&& s1.closed == closed1
    &&& s1.open == fold.0
    &&& s1.path == s0.path
    &&& s1.rows == s0.rows
    &&& s1.cols == s0.cols
    &&& match fold.1 {
        Option::Some(t) => s1.state is PATH_CONSTRUCTION && s1.current == t,
        Option::None => s1.state is RUNNING && s1.current == s0.current,
    }
}

/// The effect of one path-unwind step.
pub open spec fn pa_constructed_post(s0: PathAlgoView, s1: PathAlgoView) -> bool {
    match s0.current.parent {
        Option::None => false,
        Option::Some(pp) => {
            let parent_node = s0.closed[pp];
            &&& s1.path == s0.path.insert(0, s0.current)
            &&& s1.closed == s0.closed.remove(pp)
            &&& s1.open == s0.open
            &&& s1.rows == s0.rows
            &&& s1.cols == s0.cols
            &&& (parent_node.parent is None ==> s1.state is FINISHED && s1.current == s0.current)
            &&& (parent_node.parent is Some ==> s1.state is PATH_CONSTRUCTION && s1.current
                == parent_node)
        },
    }
}

/// The older cost-ranked search engine, kept alongside the per-variant
/// engines.
pub struct PathAlgo {
    selected_algorithm: PathAlgorithms,
    is_bidirectional: bool,
    allow_diagonal: bool,
    algorithm_state: AlgorithmState,
    open_list: Vec<PathNodes>,
    closed_list: Vec<PathNodes>,
    path_list: Vec<PathNodes>,
    current_path_node: PathNodes,
    dims: Ghost<(usize, usize)>,
}

impl View for PathAlgo {
    type V = PathAlgoView;

    closed spec fn view(&self) -> PathAlgoView {
        PathAlgoView {
            state: self.algorithm_state,
            open: nodes_of(self.open_list@),
            closed: nodes_of(self.closed_list@),
            path: self.path_list@,
            current: self.current_path_node,
            rows: self.dims@.0,
            cols: self.dims@.1,
        }
    }
}

impl PathAlgo {
    /// The node lists hold no two nodes at one position.
    pub closed spec fn lists_ok(self) -> bool {
        &&& crate::pathfinding_types::nodes_distinct(self.open_list@)
        &&& crate::pathfinding_types::nodes_distinct(self.closed_list@)
    }

    /// The engine invariant.
    pub open spec fn wf(self) -> bool {
        &&& self.lists_ok()
        &&& pa_inv(self@)
    }

    /// A fresh engine in the `INITIALIZATION` state.
    pub fn new() -> (r: PathAlgo)
        ensures
            r.wf(),
            r@.state is INITIALIZATION,
            r@.open == Map::<GridNodePosition, PathNodes>::empty(),
            r@.closed == Map::<GridNodePosition, PathNodes>::empty(),
            r@.path.len() == 0,
            r@.current == (PathNodes {
                cost_from_start: 0,
                cost_to_target: 0,
                total_cost: 0,
                position: GridNodePosition { row: 0, col: 0 },
                parent: Option::<GridNodePosition>::None,
            }),
    {
        let r = PathAlgo {
            selected_algorithm: PathAlgorithms::Astar,
            is_bidirectional: false,
            allow_diagonal: false,
            algorithm_state: AlgorithmState::INITIALIZATION,
            open_list: Vec::new(),
            closed_list: Vec::new(),
            path_list: Vec::new(),
            current_path_node: PathNodes::empty(),
            dims: Ghost((0, 0)),
        };
        proof {
            assert(nodes_of(r.open_list@) =~= Map::<GridNodePosition, PathNodes>::empty());
            assert(nodes_of(r.closed_list@) =~= Map::<GridNodePosition, PathNodes>::empty());
        }
        r
    }

    /// The explicit reset: empties the open, closed and path lists and
    /// returns to `INITIALIZATION`.
    pub fn cancel(&mut self)
        ensures
            final(self).wf(),
            final(self)@.state is INITIALIZATION,
            final(self)@.open == Map::<GridNodePosition, PathNodes>::empty(),
            final(self)@.closed == Map::<GridNodePosition, PathNodes>::empty(),
            final(self)@.path.len() == 0,
            final(self)@.current == old(self)@.current,
    {
        self.open_list.clear();
        self.closed_list.clear();
        self.path_list.clear();
        self.algorithm_state = AlgorithmState::INITIALIZATION;
        proof {
            assert(nodes_of(self.open_list@) =~= Map::<GridNodePosition, PathNodes>::empty());
            assert(nodes_of(self.closed_list@) =~= Map::<GridNodePosition, PathNodes>::empty());
        }
    }

    /// The open set (frontier) as a list of nodes.
    pub fn get_open_nodes(&self) -> (r: &Vec<PathNodes>)
        ensures
            nodes_of(r@) == self@.open,
    {
        &self.open_list
    }

    /// The closed set as a list of nodes.
    pub fn get_closed_nodes(&self) -> (r: &Vec<PathNodes>)
        ensures
            nodes_of(r@) == self@.closed,
    {
        &self.closed_list
    }

    /// The reconstructed path, front first.
    pub fn get_path_nodes(&self) -> (r: &Vec<PathNodes>)
        ensures
            r@ == self@.path,
    {
        &self.path_list
    }

    /// The index of the open-list entry at `pos`, if any.
    fn open_find(&self, pos: GridNodePosition) -> (r: Option<usize>)
        ensures
            match r {
                Some(i) => i < self.open_list@.len() && self.open_list@[i as int].position
                    == pos,
                None => forall|j: int|
                    0 <= j < self.open_list@.len() ==> (#[trigger] self.open_list@[j]).position
                        != pos,
            },
    {
        let n = self.open_list.len();
        let mut i: usize = 0;
        while i < n
            invariant
                n == self.open_list@.len(),
                i <= n,
                forall|j: int| 0 <= j < i ==> (#[trigger] self.open_list@[j]).position != pos,
            decreases n - i,
        {
            if self.open_list[i].position == pos {
                return Some(i);
            }
            i = i + 1;
        }
        None
    }

    /// The index of the closed-list entry at `pos`, if any.
    fn closed_find(&self, pos: GridNodePosition) -> (r: Option<usize>)
        ensures
            match r {
                Some(i) => i < self.closed_list@.len() && self.closed_list@[i as int].position
                    == pos,
                None => forall|j: int|
                    0 <= j < self.closed_list@.len() ==> (
                    #[trigger] self.closed_list@[j]).position != pos,
            },
    {
        let n = self.closed_list.len();
        let mut i: usize = 0;
        while i < n
            invariant
                n == self.closed_list@.len(),
                i <= n,
                forall|j: int|
                    0 <= j < i ==> (#[trigger] self.closed_list@[j]).position != pos,
            decreases n - i,
        {
            if self.closed_list[i].position == pos {
                return Some(i);
            }
            i = i + 1;
        }
        None
    }

    /// The minimal-total-cost member of the open set, the lowest position
    /// in row-major order among ties, or `None` when the open set is
    /// exhausted.
    fn get_min_cost_node(&self) -> (r: Option<PathNodes>)
        requires
            self.wf(),
        ensures
            match r {
                Some(n) => is_min_choice(self@.open, n),
                None => self@.open.dom().len() == 0,
            },
    {
        proof {
            lemma_nodes_of(self.open_list@);
        }
        let n = self.open_list.len();
        if n == 0 {
            return None;
        }
        let mut min_index: usize = 0;
        let mut found = false;
        let mut i: usize = 0;
        while i < n
            invariant
                n == self.open_list@.len(),
                i <= n,
                n > 0,
                found ==> min_index < i,
                found ==> forall|j: int|
                    0 <= j < i ==> self.open_list@[min_index as int].total_cost <= (
                    #[trigger] self.open_list@[j]).total_cost,
                found ==> forall|j: int|
                    0 <= j < i && (#[trigger] self.open_list@[j]).total_cost
                        == self.open_list@[min_index as int].total_cost
                        ==> crate::grid::pos_le(
                        self.open_list@[min_index as int].position,
                        self.open_list@[j].position,
                    ),
                !found ==> i == 0,
            decreases n - i,
        {
            let candidate = self.open_list[i];
            let take = if !found {
                true
            } else {
                let best = self.open_list[min_index];
                candidate.total_cost < best.total_cost || (candidate.total_cost
                    == best.total_cost && (candidate.position.row < best.position.row || (
                candidate.position.row == best.position.row && candidate.position.col
                    < best.position.col)))
            };
            if take {
                min_index = i;
                found = true;
            }
            i = i + 1;
        }
        let chosen = self.open_list[min_index];
        proof {
            assert forall|p: GridNodePosition| #[trigger] self@.open.dom().contains(
                p,
            ) implies chosen.total_cost <= self@.open[p].total_cost && (self@.open[p].total_cost
                == chosen.total_cost ==> crate::grid::pos_le(chosen.position, p)) by {
                let j = choose|j: int|
                    0 <= j < self.open_list@.len() && (#[trigger] self.open_list@[j]).position
                        == p;
                assert(self@.open[p] == self.open_list@[j]);
            }
        }
        Some(chosen)
    }

    /// One path-unwind step: pushes the node in hand onto the front of
    /// the path and withdraws its parent from the closed set.
    fn construct_path(&mut self)
        requires
            old(self).wf(),
            old(self)@.state is PATH_CONSTRUCTION,
        ensures
            final(self).wf(),
            pa_constructed_post(old(self)@, final(self)@),
    {
        let ghost s0 = self@;
        let current_node = self.current_path_node;
        self.path_list.insert(0, current_node);
        let pp = current_node.parent.unwrap();
        proof {
            lemma_nodes_of(self.closed_list@);
            assert(parents_of(s0.closed).dom() =~= s0.closed.dom());
            assert(s0.closed.dom().contains(pp));
        }
        let idx = match self.closed_find(pp) {
            Some(i) => i,
            None => {
                proof {
                    assert(false);
                }
                0
            },
        };
        let parent_node = self.closed_list[idx];
        let ghost closed_seq0 = self.closed_list@;
        self.closed_list.remove(idx);
        proof {
            lemma_nodes_of_remove(closed_seq0, idx as int);
            assert(s0.closed[pp] == parent_node);
            assert(parents_of(s0.closed.remove(pp)) =~= parents_of(s0.closed).remove(pp));
            assert(chain_ok(parents_of(s0.closed), Option::Some(pp)));
            assert(parents_of(s0.closed)[pp] == parent_node.parent);
        }
        if parent_node.parent.is_none() {
            self.algorithm_state = AlgorithmState::FINISHED;
        } else {
            self.current_path_node = parent_node;
        }
        proof {
            assert(pa_inv(final(self)@));
        }
    }

    /// One bounded unit of work: seeding on the first call, one node
    /// expansion while running, or one link of path reconstruction.  The
    /// caller must keep the field enclosed in a wall perimeter while the
    /// engine runs; unlike the later engines, this one does not build the
    /// perimeter itself.
    pub fn next_step(&mut self, grid: &Grid) -> (r: AlgorithmState)
        requires
            old(self).wf(),
            grid.wf(),
            old(self)@.state is INITIALIZATION ==> interior(grid@.start, grid@.rows, grid@.cols)
                && interior(grid@.end, grid@.rows, grid@.cols),
            old(self)@.state is RUNNING ==> enclosed(grid@) && grid@.rows == old(self)@.rows
                && grid@.cols == old(self)@.cols && coord_bounded(grid@.end),
        ensures
            final(self).wf(),
            r == final(self)@.state,
            old(self)@.state is INITIALIZATION ==> final(self)@.state is RUNNING && final(self)@.open == old(self)@.open.insert(grid@.start, crate::astar::seed_node_of(grid@))
                && final(self)@.closed == old(self)@.closed && final(self)@.path == old(self)@.path && final(self)@.rows == grid@.rows && final(self)@.cols == grid@.cols,
            old(self)@.state is RUNNING && old(self)@.open.dom().len() == 0 ==> final(self)@.state is FAILED && final(self)@.open == old(self)@.open && final(self)@.closed
                == old(self)@.closed && final(self)@.path == old(self)@.path,
            old(self)@.state is RUNNING && old(self)@.open.dom().len() > 0 ==> exists|
                cur: PathNodes,
            |
                #[trigger] is_min_choice(old(self)@.open, cur) && pa_expanded_post(
                    old(self)@,
                    final(self)@,
                    grid@,
                    cur,
                ),
            old(self)@.state is PATH_CONSTRUCTION ==> pa_constructed_post(
                old(self)@,
                final(self)@,
            ),
            old(self)@.state is FINISHED || old(self)@.state is FAILED ==> final(self)@
                == old(self)@,
    {
        let ghost s0 = self@;
        if self.algorithm_state == AlgorithmState::INITIALIZATION {
            let start = grid.start_pos();
            let end = grid.end_pos();
            let rows = grid.row_count();
            let cols = grid.col_count();
            self.dims = Ghost((rows, cols));
            let seed_node = PathNodes::new(0, end, start, None);
            let ghost oseq = self.open_list@;
            self.open_list.push(seed_node);
            self.algorithm_state = AlgorithmState::RUNNING;
            proof {
                lemma_nodes_of(oseq);
                lemma_nodes_of_push(oseq, seed_node);
                assert(seed_node == crate::astar::seed_node_of(grid@));
                assert(pa_inv(final(self)@));
            }
        } else if self.algorithm_state == AlgorithmState::RUNNING {
            self.run_expansion(grid);
        } else if self.algorithm_state == AlgorithmState::PATH_CONSTRUCTION {
            self.construct_path();
        }
        self.algorithm_state
    }

    /// One expansion over a read-only grid.
    fn run_expansion(&mut self, grid: &Grid)
        requires
            old(self).wf(),
            old(self)@.state is RUNNING,
            grid.wf(),
            enclosed(grid@),
            grid@.rows == old(self)@.rows,
            grid@.cols == old(self)@.cols,
            coord_bounded(grid@.end),
        ensures
            final(self).wf(),
            old(self)@.open.dom().len() == 0 ==> final(self)@.state is FAILED && final(self)@.open == old(self)@.open && final(self)@.closed == old(self)@.closed && final(self)@.path == old(self)@.path,
            old(self)@.open.dom().len() > 0 ==> exists|cur: PathNodes|
                #[trigger] is_min_choice(old(self)@.open, cur) && pa_expanded_post(
                    old(self)@,
                    final(self)@,
                    grid@,
                    cur,
                ),
    {
        let ghost s0 = self@;
        let ghost g = grid@;
        proof {
            lemma_nodes_of(self.open_list@);
            lemma_nodes_of(self.closed_list@);
        }
        let next = self.get_min_cost_node();
        match next {
            None => {
                self.algorithm_state = AlgorithmState::FAILED;
            },
            Some(cur) => {
                proof {
                    if s0.open.dom().len() == 0 {
                        s0.open.dom().lemma_len0_is_empty();
                        assert(false);
                    }
                }
                let oi = match self.open_find(cur.position) {
                    Some(i) => i,
                    None => {
                        proof {
                            assert(false);
                        }
                        0
                    },
                };
                let ghost open_seq0 = self.open_list@;
                self.open_list.remove(oi);
                let ghost closed_seq0 = self.closed_list@;
                proof {
                    lemma_nodes_of_remove(open_seq0, oi as int);
                    assert forall|j: int| 0 <= j < closed_seq0.len() implies (
                    #[trigger] closed_seq0[j]).position != cur.position by {
                        assert(s0.closed.dom().contains(closed_seq0[j].position));
                    }
                }
                self.closed_list.push(cur);
                let ghost closed1 = s0.closed.insert(cur.position, cur);
                let ghost open_m0 = s0.open.remove(cur.position);
                proof {
                    lemma_nodes_of_push(closed_seq0, cur);
                    assert(nodes_of(self.closed_list@) == closed1);
                }
                let ns = grid.neighbours_rectilinear(cur.position);
                let end = grid.end_pos();
                let ghost end0 = g.end;
                let ghost ns_spec = neighbor_opts(g, cur.position);
                proof {
                    assert(ns_spec.len() == 4);
                    assert(ns@[0] == ns_spec[0] && ns@[1] == ns_spec[1] && ns@[2] == ns_spec[2]
                        && ns@[3] == ns_spec[3]);
                    assert(parents_of(s0.closed).dom() =~= s0.closed.dom());
                    assert(parents_of(closed1).dom() =~= closed1.dom());
                    assert(parents_of(closed1) =~= parents_of(s0.closed).insert(
                        cur.position,
                        cur.parent,
                    ));
                    assert(parents_of(closed1).remove(cur.position) =~= parents_of(s0.closed));
                    assert(chain_ok(parents_of(s0.closed), cur.parent));
                    assert(chain_ok(parents_of(closed1), Option::Some(cur.position)));
                    assert forall|p: GridNodePosition| #[trigger] open_m0.dom().contains(
                        p,
                    ) implies chain_ok(parents_of(closed1), open_m0[p].parent) by {
                        lemma_chain_ok_insert(
                            parents_of(s0.closed),
                            open_m0[p].parent,
                            cur.position,
                            cur.parent,
                        );
                        assert(parents_of(s0.closed).insert(cur.position, cur.parent)
                            =~= parents_of(closed1));
                    }
                    assert forall|p: GridNodePosition| #[trigger] s0.closed.dom().contains(
                        p,
                    ) implies interior(p, s0.rows, s0.cols) by {}
                    crate::pathfinding_types::lemma_interior_card(
                        s0.closed.dom(),
                        s0.rows,
                        s0.cols,
                    );
                    crate::pathfinding_types::lemma_mul_bounds(
                        s0.rows as int,
                        s0.cols as int,
                        0x100000,
                        0x100000,
                    );
                    assert(closed1.dom().len() == s0.closed.dom().len() + 1);
                    assert(cur.cost_from_start + 1 <= closed1.dom().len());
                    assert(cur.cost_from_start <= 0x100_0000_0000);
                    assert(pa_expand_fold(open_m0, closed1, ns_spec, cur, end0)
                        == pa_expand_fold(
                        nodes_of(self.open_list@),
                        closed1,
                        ns_spec.subrange(0, 4),
                        cur,
                        end0,
                    )) by {
                        assert(ns_spec.subrange(0, 4) =~= ns_spec);
                    }
                    assert(pa_inv(self@));
                }
                let mut k: usize = 0;
                let mut found = false;
                while k < 4 && !found
                    invariant
                        k <= 4,
                        s0 == old(self)@,
                        g == grid@,
                        self.lists_ok(),
                        pa_inv(self@),
                        grid.wf(),
                        self@.closed == closed1,
                        self@.path == s0.path,
                        self@.rows == s0.rows,
                        self@.cols == s0.cols,
                        closed1 == s0.closed.insert(cur.position, cur),
                        is_min_choice(s0.open, cur),
                        open_m0 == s0.open.remove(cur.position),
                        interior(cur.position, s0.rows, s0.cols),
                        0 <= cur.cost_from_start <= 0x100_0000_0000,
                        cur.cost_from_start + 1 <= closed1.dom().len(),
                        closed1.dom().finite(),
                        chain_ok(parents_of(closed1), Option::Some(cur.position)),
                        3 <= s0.rows <= 0x100000,
                        3 <= s0.cols <= 0x100000,
                        ns_spec == neighbor_opts(g, cur.position),
                        ns_spec.len() == 4,
                        ns@.len() == 4,
                        ns@[0] == ns_spec[0],
                        ns@[1] == ns_spec[1],
                        ns@[2] == ns_spec[2],
                        ns@[3] == ns_spec[3],
                        end0 == g.end,
                        end == end0,
                        coord_bounded(end0),
                        enclosed(g),
                        g.rows == s0.rows && g.cols == s0.cols,
                        !found ==> self@.state is RUNNING && self@.current == s0.current
                            && pa_expand_fold(open_m0, closed1, ns_spec, cur, end0)
                            == pa_expand_fold(
                            self@.open,
                            closed1,
                            ns_spec.subrange(k as int, 4),
                            cur,
                            end0,
                        ),
                        found ==> self@.state is PATH_CONSTRUCTION && pa_expand_fold(
                            open_m0,
                            closed1,
                            ns_spec,
                            cur,
                            end0,
                        ) == (self@.open, Option::Some(self@.current)),
                    decreases 4 - k,
                {
                    let ghost open_now = self@.open;
                    let ghost rest = ns_spec.subrange(k as int, 4);
                    proof {
                        assert(rest[0] == ns_spec[k as int]);
                        assert(rest.drop_first() =~= ns_spec.subrange(k + 1, 4));
                        lemma_nodes_of(self.open_list@);
                        lemma_nodes_of(self.closed_list@);
                    }
                    let nopt = ns[k];
                    match nopt {
                        None => {},
                        Some(q) => {
                            proof {
                                if k == 0 {
                                    assert(ns_spec[0] == crate::grid::walk_opt(
                                        g,
                                        crate::grid::pos_above(cur.position),
                                    ));
                                } else if k == 1 {
                                    assert(ns_spec[1] == crate::grid::walk_opt(
                                        g,
                                        crate::grid::pos_below(cur.position),
                                    ));
                                } else if k == 2 {
                                    assert(ns_spec[2] == crate::grid::walk_opt(
                                        g,
                                        crate::grid::pos_left(cur.position),
                                    ));
                                } else {
                                    assert(ns_spec[3] == crate::grid::walk_opt(
                                        g,
                                        crate::grid::pos_right(cur.position),
                                    ));
                                }
                                assert(crate::grid::walkable(g, q));
                                assert(crate::grid::adjacent(cur.position, q));
                                crate::grid::lemma_enclosed_neighbor(g, cur.position, q);
                                assert(interior(q, s0.rows, s0.cols));
                                assert(coord_bounded(q));
                                crate::heuristics::lemma_squared_euclidean_bounds(q, end0);
                            }
                            let nq = PathNodes::new(
                                cur.cost_from_start + 1,
                                end,
                                q,
                                Some(cur.position),
                            );
                            proof {
                                assert(nq == candidate_node(cur, q, end0));
                            }
                            if q == end {
                                self.current_path_node = nq;
                                self.algorithm_state = AlgorithmState::PATH_CONSTRUCTION;
                                found = true;
                                proof {
                                    assert(pa_expand_fold(open_now, closed1, rest, cur, end0)
                                        == (open_now, Option::Some(nq)));
                                    assert(pa_inv(self@));
                                }
                            } else {
                                let in_closed = match self.closed_find(q) {
                                    Some(_) => true,
                                    None => false,
                                };
                                proof {
                                    if in_closed {
                                        assert(closed1.dom().contains(q));
                                    } else {
                                        assert(!closed1.dom().contains(q));
                                    }
                                }
                                if !in_closed {
                                    let oi2 = self.open_find(q);
                                    match oi2 {
                                        None => {
                                            let ghost oseq = self.open_list@;
                                            proof {
                                                assert(!open_now.dom().contains(q));
                                            }
                                            self.open_list.push(nq);
                                            proof {
                                                lemma_nodes_of_push(oseq, nq);
                                                assert(self@.open == absorb(open_now, nq));
                                                assert(pa_expand_fold(
                                                    open_now,
                                                    closed1,
                                                    rest,
                                                    cur,
                                                    end0,
                                                ) == pa_expand_fold(
                                                    self@.open,
                                                    closed1,
                                                    rest.drop_first(),
                                                    cur,
                                                    end0,
                                                ));
                                                assert(pa_inv(self@));
                                            }
                                        },
                                        Some(j) => {
                                            let other = self.open_list[j];
                                            proof {
                                                assert(open_now.dom().contains(q));
                                                assert(open_now[q] == other);
                                            }
                                            let winner = if nq.cost_from_start
                                                < other.cost_from_start {
                                                nq
                                            } else {
                                                other
                                            };
                                            let ghost oseq = self.open_list@;
                                            self.open_list.set(j, winner);
                                            proof {
                                                lemma_nodes_of_update(
                                                    oseq,
                                                    j as int,
                                                    winner,
                                                );
                                                assert(self@.open == open_now.insert(
                                                    q,
                                                    winner,
                                                ));
                                                if winner == other {
                                                    assert(self@.open =~= absorb(
                                                        open_now,
                                                        nq,
                                                    ));
                                                }
                                                assert(self@.open == absorb(open_now, nq));
                                                assert(pa_expand_fold(
                                                    open_now,
                                                    closed1,
                                                    rest,
                                                    cur,
                                                    end0,
                                                ) == pa_expand_fold(
                                                    self@.open,
                                                    closed1,
                                                    rest.drop_first(),
                                                    cur,
                                                    end0,
                                                ));
                                                assert(pa_inv(self@));
                                            }
                                        },
                                    }
                                }
                            }
                        },
                    }
                    k = k + 1;
                }
                proof {
                    if !found {
                        assert(ns_spec.subrange(4, 4) =~= Seq::<
                            Option<GridNodePosition>,
                        >::empty());
                    }
                    assert(pa_expanded_post(s0, self@, g, cur));
                    assert(exists|c: PathNodes|
                        #[trigger] is_min_choice(s0.open, c) && pa_expanded_post(
                            s0,
                            self@,
                            g,
                            c,
                        )) by {
                        assert(is_min_choice(s0.open, cur) && pa_expanded_post(
                            s0,
                            self@,
                            g,
                            cur,
                        ));
                    }
                }
            },
        }
    }
}

} // verus!
