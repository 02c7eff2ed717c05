//! The grid model: positions, cell classification, and the mutable grid
//! store with diff tracking.
//!
//! A grid maps positions to cell kinds.  Exactly one position holds the
//! start anchor and exactly one holds the target anchor; walls may never
//! overwrite an anchor, and moving an anchor or dropping a wall on a chosen
//! path cell clears all transient search state.  Every successful mutation
//! is recorded in an additions set (and a deletions set when a cell is
//! displaced or removed), so a renderer can repaint only changed cells.

use vstd::prelude::*;

use crate::assoc::{
    keys_distinct, lemma_keys_distinct_push, lemma_keys_distinct_remove,
    lemma_keys_distinct_update, lemma_map_of_dom, lemma_map_of_index, lemma_map_of_len,
    lemma_map_of_push, lemma_map_of_remove, lemma_map_of_update, lemma_to_set_push, map_of,
};

verus! {

/// The tag distinguishing independent searches that share one grid.
pub type Net = i32;

/// A cell's location on the grid, identified by row and column.
#[derive(Clone, Copy, PartialEq, Eq, Hash, Debug, Structural)]
pub struct GridNodePosition {
    pub row: usize,
    pub col: usize,
}

impl GridNodePosition {
    /// The cell directly above this one (one row up).
    pub fn above(self) -> (r: GridNodePosition)
        requires
            self.row >= 1,
        ensures
            r.row == self.row - 1,
            r.col == self.col,
    {
        GridNodePosition { row: self.row - 1, col: self.col }
    }

    /// The cell directly below this one (one row down).
    pub fn below(self) -> (r: GridNodePosition)
        requires
            self.row < usize::MAX,
        ensures
            r.row == self.row + 1,
            r.col == self.col,
    {
        GridNodePosition { row: self.row + 1, col: self.col }
    }

    /// The cell directly to the left (one column back).
    pub fn left(self) -> (r: GridNodePosition)
        requires
            self.col >= 1,
        ensures
            r.row == self.row,
            r.col == self.col - 1,
    {
        GridNodePosition { row: self.row, col: self.col - 1 }
    }

    /// The cell directly to the right (one column forward).
    pub fn right(self) -> (r: GridNodePosition)
        requires
            self.col < usize::MAX,
        ensures
            r.row == self.row,
            r.col == self.col + 1,
    {
        GridNodePosition { row: self.row, col: self.col + 1 }
    }
}

/// The position one row above.
pub open spec fn pos_above(p: GridNodePosition) -> GridNodePosition {
    GridNodePosition { row: (p.row - 1) as usize, col: p.col }
}

/// The position one row below.
pub open spec fn pos_below(p: GridNodePosition) -> GridNodePosition {
    GridNodePosition { row: (p.row + 1) as usize, col: p.col }
}

/// The position one column to the left.
pub open spec fn pos_left(p: GridNodePosition) -> GridNodePosition {
    GridNodePosition { row: p.row, col: (p.col - 1) as usize }
}

/// The position one column to the right.
pub open spec fn pos_right(p: GridNodePosition) -> GridNodePosition {
    GridNodePosition { row: p.row, col: (p.col + 1) as usize }
}

/// Row-major order on positions: the tie-break rule used when several
/// open nodes share the minimal cost.
pub open spec fn pos_le(a: GridNodePosition, b: GridNodePosition) -> bool {
    a.row < b.row || (a.row == b.row && a.col <= b.col)
}

/// Whether two positions are rectilinear neighbors (one step apart along
/// exactly one axis).
pub open spec fn adjacent(p: GridNodePosition, q: GridNodePosition) -> bool {
    ||| q == pos_above(p) && p.row >= 1
    ||| q == pos_below(p) && p.row < usize::MAX
    ||| q == pos_left(p) && p.col >= 1
    ||| q == pos_right(p) && p.col < usize::MAX
}

impl GridNodePosition {
    /// The four rectilinear neighbors, in the order above, below, left,
    /// right.
    pub fn neighbors_rectilinear(self) -> (r: [GridNodePosition; 4])
        requires
            self.row >= 1,
            self.col >= 1,
            self.row < usize::MAX,
            self.col < usize::MAX,
        ensures
            r@.len() == 4,
            r@[0] == pos_above(self),
            r@[1] == pos_below(self),
            r@[2] == pos_left(self),
            r@[3] == pos_right(self),
    {
        let above = self.above();
        let below = self.below();
        let left = self.left();
        let right = self.right();
        [above, below, left, right]
    }

    /// The eight neighbors including diagonals, rectilinear ones first.
    pub fn neighbors_octilinear(self) -> (r: [GridNodePosition; 8])
        requires
            self.row >= 1,
            self.col >= 1,
            self.row < usize::MAX,
            self.col < usize::MAX,
        ensures
            r@.len() == 8,
            r@[0] == pos_above(self),
            r@[1] == pos_below(self),
            r@[2] == pos_left(self),
            r@[3] == pos_right(self),
            r@[4] == pos_left(pos_above(self)),
            r@[5] == pos_right(pos_above(self)),
            r@[6] == pos_left(pos_below(self)),
            r@[7] == pos_right(pos_below(self)),
    {
        let above = self.above();
        let below = self.below();
        let left = self.left();
        let right = self.right();
        let above_left = above.left();
        let above_right = above.right();
        let below_left = below.left();
        let below_right = below.right();
        [above, below, left, right, above_left, above_right, below_left, below_right]
    }
}

/// A position's classification.  Absence from the grid store means the cell
/// is unclassified (empty); the `Empty` tool exists only as a no-op tool.
#[derive(Copy, Clone, Eq, PartialEq, Ord, PartialOrd, Debug, Structural)]
pub enum GridNodeType {
    Wall,
    Empty,
    StartNode(Net),
    TargetNode(Net),
    UnexploredNodes(Net),
    ExploredNodes(Net),
    ChosenPath(Net),
}

/// Whether a cell holds one of the two anchors (start or target).
pub open spec fn is_anchor(t: GridNodeType) -> bool {
    t is StartNode || t is TargetNode
}

/// Whether a cell holds transient search state: frontier (unexplored),
/// closed-set (explored), or reconstructed-path classification.
pub open spec fn is_transient(t: GridNodeType) -> bool {
    t is UnexploredNodes || t is ExploredNodes || t is ChosenPath
}

/// The abstract state of a grid: its cell map, anchors, extent, and the
/// accumulated diff sets.
#[verifier::ext_equal]
pub ghost struct GridView {
    pub cells: Map<GridNodePosition, GridNodeType>,
    pub start: GridNodePosition,
    pub end: GridNodePosition,
    pub rows: usize,
    pub cols: usize,
    pub adds: Set<GridNodePosition>,
    pub dels: Set<GridNodePosition>,
}

/// The positions currently holding transient search state.
pub open spec fn transient_positions(
    cells: Map<GridNodePosition, GridNodeType>,
) -> Set<GridNodePosition> {
    Set::new(|p: GridNodePosition| cells.dom().contains(p) && is_transient(cells[p]))
}

/// The cell map with every transient cell removed.
pub open spec fn cleared_cells(
    cells: Map<GridNodePosition, GridNodeType>,
) -> Map<GridNodePosition, GridNodeType> {
    Map::new(
        |p: GridNodePosition| cells.dom().contains(p) && !is_transient(cells[p]),
        |p: GridNodePosition| cells[p],
    )
}

/// The effect of clearing all transient cells: they leave the cell map and
/// their positions are recorded as deletions.
pub open spec fn clear_paths_view(v: GridView) -> GridView {
    GridView {
        cells: cleared_cells(v.cells),
        start: v.start,
        end: v.end,
        rows: v.rows,
        cols: v.cols,
        adds: v.adds,
        dels: v.dels.union(transient_positions(v.cells)),
    }
}

/// The effect of writing `t` at `pos`: the cell is stored, the position is
/// recorded as an addition, and as a deletion too when it displaces an
/// existing cell.
pub open spec fn view_written(v: GridView, pos: GridNodePosition, t: GridNodeType) -> GridView {
    GridView {
        cells: v.cells.insert(pos, t),
        start: v.start,
        end: v.end,
        rows: v.rows,
        cols: v.cols,
        adds: v.adds.insert(pos),
        dels: if v.cells.dom().contains(pos) {
            v.dels.insert(pos)
        } else {
            v.dels
        },
    }
}

/// The effect of erasing whatever is stored at `pos`: a no-op when the cell
/// is empty, otherwise the cell leaves the map and the position is recorded
/// as a deletion.
pub open spec fn view_erased(v: GridView, pos: GridNodePosition) -> GridView {
    if v.cells.dom().contains(pos) {
        GridView {
            cells: v.cells.remove(pos),
            start: v.start,
            end: v.end,
            rows: v.rows,
            cols: v.cols,
            adds: v.adds,
            dels: v.dels.insert(pos),
        }
    } else {
        v
    }
}

/// The effect of relocating the start anchor to `pos`: the old anchor cell
/// is erased, the new one written, and all transient state cleared.
pub open spec fn moved_start_view(v: GridView, pos: GridNodePosition, net: Net) -> GridView {
    let v1 = view_erased(v, v.start);
    let v2 = view_written(v1, pos, GridNodeType::StartNode(net));
    clear_paths_view(
        GridView {
            cells: v2.cells,
            start: pos,
            end: v2.end,
            rows: v2.rows,
            cols: v2.cols,
            adds: v2.adds,
            dels: v2.dels,
        },
    )
}

/// The effect of relocating the target anchor to `pos`.
pub open spec fn moved_end_view(v: GridView, pos: GridNodePosition, net: Net) -> GridView {
    let v1 = view_erased(v, v.end);
    let v2 = view_written(v1, pos, GridNodeType::TargetNode(net));
    clear_paths_view(
        GridView {
            cells: v2.cells,
            start: v2.start,
            end: pos,
            rows: v2.rows,
            cols: v2.cols,
            adds: v2.adds,
            dels: v2.dels,
        },
    )
}

/// The effect of applying a tool at a position, with its kind-specific
/// validation:
/// - `Empty` does nothing.
/// - `Wall` refuses to overwrite an anchor; if it lands on a chosen-path
///   cell it first clears all transient state.
/// - `StartNode`/`TargetNode` refuse to land on the other anchor, and
///   otherwise relocate the anchor and clear all transient state.
/// - `UnexploredNodes`/`ExploredNodes` refuse to overwrite an anchor or a
///   wall.
/// - `ChosenPath` refuses to overwrite an anchor only.
pub open spec fn add_node_view(
    v: GridView,
    pos: GridNodePosition,
    tool: GridNodeType,
    net: Net,
) -> GridView {
    match tool {
        GridNodeType::Empty => v,
        GridNodeType::Wall => {
            let v1 = if v.cells.dom().contains(pos) && v.cells[pos] is ChosenPath {
                clear_paths_view(v)
            } else {
                v
            };
            if v1.cells.dom().contains(pos) && is_anchor(v1.cells[pos]) {
                v1
            } else {
                view_written(v1, pos, GridNodeType::Wall)
            }
        },
        GridNodeType::StartNode(_) => {
            if pos == v.end {
                v
            } else {
                moved_start_view(v, pos, net)
            }
        },
        GridNodeType::TargetNode(_) => {
            if pos == v.start {
                v
            } else {
                moved_end_view(v, pos, net)
            }
        },
        GridNodeType::UnexploredNodes(_) => {
            if v.cells.dom().contains(pos) && (is_anchor(v.cells[pos]) || v.cells[pos] is Wall) {
                v
            } else {
                view_written(v, pos, GridNodeType::UnexploredNodes(net))
            }
        },
        GridNodeType::ExploredNodes(_) => {
            if v.cells.dom().contains(pos) && (is_anchor(v.cells[pos]) || v.cells[pos] is Wall) {
                v
            } else {
                view_written(v, pos, GridNodeType::ExploredNodes(net))
            }
        },
        GridNodeType::ChosenPath(_) => {
            if v.cells.dom().contains(pos) && is_anchor(v.cells[pos]) {
                v
            } else {
                view_written(v, pos, GridNodeType::ChosenPath(net))
            }
        },
    }
}

/// The effect of removing a cell: a no-op when the cell holds an anchor,
/// otherwise the cell is erased.
pub open spec fn remove_node_view(v: GridView, pos: GridNodePosition) -> GridView {
    if v.cells.dom().contains(pos) && !is_anchor(v.cells[pos]) {
        view_erased(v, pos)
    } else {
        v
    }
}

/// The effect of clearing every non-anchor cell: only the two anchors
/// remain, re-tagged with net 1.
pub open spec fn clear_all_view(v: GridView) -> GridView {
    GridView {
        cells: Map::empty().insert(v.start, GridNodeType::StartNode(1)).insert(
            v.end,
            GridNodeType::TargetNode(1),
        ),
        start: v.start,
        end: v.end,
        rows: v.rows,
        cols: v.cols,
        adds: v.adds.insert(v.start).insert(v.end),
        dels: v.dels.union(
            Set::new(
                |p: GridNodePosition|
                    v.cells.dom().contains(p) && p != v.start && p != v.end,
            ),
        ),
    }
}

/// Well-formedness of a grid's abstract state: distinct anchors, each
/// present exactly once, and an extent within the supported range.
pub open spec fn view_wf(v: GridView) -> bool {
    &&& v.start != v.end
    &&& v.cells.dom().contains(v.start) && v.cells[v.start] is StartNode
    &&& v.cells.dom().contains(v.end) && v.cells[v.end] is TargetNode
    &&& forall|p: GridNodePosition|
        #[trigger] v.cells.dom().contains(p) ==> (v.cells[p] is StartNode ==> p == v.start) && (
        v.cells[p] is TargetNode ==> p == v.end)
    &&& 3 <= v.rows <= 0x100000
    &&& 3 <= v.cols <= 0x100000
}

/// A position is walkable when it is not classified as a wall.
pub open spec fn walkable(v: GridView, p: GridNodePosition) -> bool {
    !(v.cells.dom().contains(p) && v.cells[p] is Wall)
}

/// The position itself when walkable, `None` when walled.
pub open spec fn walk_opt(v: GridView, p: GridNodePosition) -> Option<GridNodePosition> {
    if walkable(v, p) {
        Option::Some(p)
    } else {
        Option::None
    }
}

/// Whether `p` lies on the one-cell-wide rectangular ring with the given
/// origin and extent.
pub open spec fn on_ring(
    p: GridNodePosition,
    origin: GridNodePosition,
    row_n: usize,
    col_n: usize,
) -> bool {
    &&& origin.row <= p.row < origin.row + row_n
    &&& origin.col <= p.col < origin.col + col_n
    &&& (p.row == origin.row || p.row == origin.row + row_n - 1 || p.col == origin.col || p.col
        == origin.col + col_n - 1)
}

/// Whether `p` lies on the outer boundary of a `rows` by `cols` field
/// whose origin is the zero position.
pub open spec fn on_boundary(p: GridNodePosition, rows: usize, cols: usize) -> bool {
    &&& p.row < rows
    &&& p.col < cols
    &&& (p.row == 0 || p.row == rows - 1 || p.col == 0 || p.col == cols - 1)
}

/// Whether `p` lies strictly inside that boundary.
pub open spec fn interior(p: GridNodePosition, rows: usize, cols: usize) -> bool {
    &&& 1 <= p.row < rows - 1
    &&& 1 <= p.col < cols - 1
}

/// The caller-supplied enclosure invariant: every cell of the grid's outer
/// boundary is a wall, so neighbor expansion can never escape the field.
pub open spec fn enclosed(v: GridView) -> bool {
    forall|p: GridNodePosition|
        on_boundary(p, v.rows, v.cols) ==> #[trigger] v.cells.dom().contains(p) && v.cells[p]
            is Wall
}

/// The cell map after painting every non-anchor position of `s` as a wall.
pub open spec fn wall_overlay(
    cells: Map<GridNodePosition, GridNodeType>,
    s: Set<GridNodePosition>,
    start: GridNodePosition,
    end: GridNodePosition,
) -> Map<GridNodePosition, GridNodeType> {
    Map::new(
        |p: GridNodePosition|
            cells.dom().contains(p) || (s.contains(p) && p != start && p != end),
        |p: GridNodePosition|
            if s.contains(p) && p != start && p != end {
                GridNodeType::Wall
            } else {
                cells[p]
            },
    )
}

/// The position of a storage entry.
pub open spec fn entry_key(e: (GridNodePosition, GridNodeType)) -> GridNodePosition {
    e.0
}

/// The cell of a storage entry.
pub open spec fn entry_val(e: (GridNodePosition, GridNodeType)) -> GridNodeType {
    e.1
}

/// The cell map held by a storage sequence.
pub open spec fn cells_of(
    s: Seq<(GridNodePosition, GridNodeType)>,
) -> Map<GridNodePosition, GridNodeType> {
    map_of(
        s,
        |e: (GridNodePosition, GridNodeType)| entry_key(e),
        |e: (GridNodePosition, GridNodeType)| entry_val(e),
    )
}

/// No two storage entries share a position.
pub open spec fn entries_distinct(s: Seq<(GridNodePosition, GridNodeType)>) -> bool {
    keys_distinct(s, |e: (GridNodePosition, GridNodeType)| entry_key(e))
}

/// Restates the storage-to-map correspondence: indices find their entry in
/// the map, map members come from some index, and the map is finite with
/// one key per entry.
proof fn lemma_cells_of(s: Seq<(GridNodePosition, GridNodeType)>)
    requires
        entries_distinct(s),
    ensures
        forall|i: int|
            0 <= i < s.len() ==> cells_of(s).dom().contains((#[trigger] s[i]).0) && cells_of(
                s,
            )[s[i].0] == s[i].1,
        forall|p: GridNodePosition|
            #[trigger] cells_of(s).dom().contains(p) ==> exists|i: int|
                0 <= i < s.len() && (#[trigger] s[i]).0 == p,
        cells_of(s).dom().finite(),
        cells_of(s).dom().len() == s.len(),
{
    let key = |e: (GridNodePosition, GridNodeType)| entry_key(e);
    let val = |e: (GridNodePosition, GridNodeType)| entry_val(e);
    lemma_map_of_dom(s, key, val);
    lemma_map_of_len(s, key, val);
    assert forall|i: int| 0 <= i < s.len() implies cells_of(s).dom().contains(
        (#[trigger] s[i]).0,
    ) && cells_of(s)[s[i].0] == s[i].1 by {
        lemma_map_of_index(s, key, val, i);
    }
}

/// Appending a fresh-keyed entry inserts it into the cell map.
proof fn lemma_cells_of_push(
    s: Seq<(GridNodePosition, GridNodeType)>,
    x: (GridNodePosition, GridNodeType),
)
    ensures
        cells_of(s.push(x)) == cells_of(s).insert(x.0, x.1),
        entries_distinct(s) && (forall|i: int|
            0 <= i < s.len() ==> (#[trigger] s[i]).0 != x.0) ==> entries_distinct(s.push(x)),
{
    let key = |e: (GridNodePosition, GridNodeType)| entry_key(e);
    let val = |e: (GridNodePosition, GridNodeType)| entry_val(e);
    lemma_map_of_push(s, key, val, x);
    if entries_distinct(s) && (forall|i: int| 0 <= i < s.len() ==> (#[trigger] s[i]).0 != x.0) {
        lemma_keys_distinct_push(s, key, x);
    }
}

/// Removing the entry at `i` removes its position from the cell map.
proof fn lemma_cells_of_remove(s: Seq<(GridNodePosition, GridNodeType)>, i: int)
    requires
        entries_distinct(s),
        0 <= i < s.len(),
    ensures
        cells_of(s.remove(i)) == cells_of(s).remove(s[i].0),
        entries_distinct(s.remove(i)),
{
    let key = |e: (GridNodePosition, GridNodeType)| entry_key(e);
    let val = |e: (GridNodePosition, GridNodeType)| entry_val(e);
    lemma_map_of_remove(s, key, val, i);
    lemma_keys_distinct_remove(s, key, i);
}

/// Overwriting the entry at `i` with one of the same position updates the
/// cell map.
proof fn lemma_cells_of_update(
    s: Seq<(GridNodePosition, GridNodeType)>,
    i: int,
    x: (GridNodePosition, GridNodeType),
)
    requires
        entries_distinct(s),
        0 <= i < s.len(),
        x.0 == s[i].0,
    ensures
        cells_of(s.update(i, x)) == cells_of(s).insert(x.0, x.1),
        entries_distinct(s.update(i, x)),
{
    let key = |e: (GridNodePosition, GridNodeType)| entry_key(e);
    let val = |e: (GridNodePosition, GridNodeType)| entry_val(e);
    lemma_map_of_update(s, key, val, i, x);
    lemma_keys_distinct_update(s, key, i, x);
}

/// The grid store.  Cell classifications are kept in a position-keyed
/// vector; the `additions`/`deletions` vectors accumulate the diff sets.
pub struct Grid {
    storage: Vec<(GridNodePosition, GridNodeType)>,
    pub start_node: GridNodePosition,
    pub end_node: GridNodePosition,
    pub rows: usize,
    pub cols: usize,
    additions: Vec<GridNodePosition>,
    deletions: Vec<GridNodePosition>,
}

impl View for Grid {
    type V = GridView;

    closed spec fn view(&self) -> GridView {
        GridView {
            cells: cells_of(self.storage@),
            start: self.start_node,
            end: self.end_node,
            rows: self.rows,
            cols: self.cols,
            adds: self.additions@.to_set(),
            dels: self.deletions@.to_set(),
        }
    }
}

impl Grid {
    /// No two storage entries share a position.
    pub closed spec fn storage_ok(self) -> bool {
        entries_distinct(self.storage@)
    }

    /// The grid invariant: distinct storage keys and a well-formed
    /// abstract state.
    pub open spec fn wf(self) -> bool {
        &&& self.storage_ok()
        &&& view_wf(self@)
    }

    /// The start anchor's position.
    pub fn start_pos(&self) -> (r: GridNodePosition)
        ensures
            r == self@.start,
    {
        self.start_node
    }

    /// The target anchor's position.
    pub fn end_pos(&self) -> (r: GridNodePosition)
        ensures
            r == self@.end,
    {
        self.end_node
    }

    /// The grid's nominal row count.
    pub fn row_count(&self) -> (r: usize)
        ensures
            r == self@.rows,
    {
        self.rows
    }

    /// The grid's nominal column count.
    pub fn col_count(&self) -> (r: usize)
        ensures
            r == self@.cols,
    {
        self.cols
    }

    /// Creates a grid of the given extent holding only the two anchors,
    /// both recorded as additions.
    pub fn new(
        start_node: GridNodePosition,
        end_node: GridNodePosition,
        rows: usize,
        cols: usize,
    ) -> (r: Grid)
        requires
            start_node != end_node,
            3 <= rows <= 0x100000,
            3 <= cols <= 0x100000,
        ensures
            r.wf(),
            r@.cells == Map::empty().insert(start_node, GridNodeType::StartNode(1)).insert(
                end_node,
                GridNodeType::TargetNode(1),
            ),
            r@.start == start_node,
            r@.end == end_node,
            r@.rows == rows,
            r@.cols == cols,
            r@.adds == Set::empty().insert(start_node).insert(end_node),
            r@.dels == Set::<GridNodePosition>::empty(),
    {
        let mut storage: Vec<(GridNodePosition, GridNodeType)> = Vec::new();
        storage.push((start_node, GridNodeType::StartNode(1)));
        storage.push((end_node, GridNodeType::TargetNode(1)));
        let mut additions: Vec<GridNodePosition> = Vec::new();
        additions.push(start_node);
        additions.push(end_node);
        let r = Grid {
            storage,
            start_node,
            end_node,
            rows,
            cols,
            additions,
            deletions: Vec::new(),
        };
        proof {
            let s0 = Seq::<(GridNodePosition, GridNodeType)>::empty();
            let s1 = s0.push((start_node, GridNodeType::StartNode(1)));
            lemma_cells_of_push(s0, (start_node, GridNodeType::StartNode(1)));
            lemma_cells_of_push(s1, (end_node, GridNodeType::TargetNode(1)));
            assert(r.storage@ =~= s1.push((end_node, GridNodeType::TargetNode(1))));
            assert(s1[0] == (start_node, GridNodeType::StartNode(1)));
            lemma_to_set_push(Seq::<GridNodePosition>::empty(), start_node);
            lemma_to_set_push(Seq::<GridNodePosition>::empty().push(start_node), end_node);
            assert(r.additions@ =~= Seq::<GridNodePosition>::empty().push(start_node).push(
                end_node,
            ));
            assert(Seq::<GridNodePosition>::empty().to_set() =~= Set::<
                GridNodePosition,
            >::empty());
            assert(r.deletions@.to_set() =~= Set::<GridNodePosition>::empty());
        }
        r
    }

    /// The index of the storage entry at `pos`, if any.
    fn find_index(&self, pos: GridNodePosition) -> (r: Option<usize>)
        ensures
            match r {
                Some(i) => i < self.storage@.len() && self.storage@[i as int].0 == pos,
                None => forall|j: int|
                    0 <= j < self.storage@.len() ==> (#[trigger] self.storage@[j]).0 != pos,
            },
    {
        let n = self.storage.len();
        let mut i: usize = 0;
        while i < n
            invariant
                n == self.storage@.len(),
                i <= n,
                forall|j: int| 0 <= j < i ==> (#[trigger] self.storage@[j]).0 != pos,
            decreases n - i,
        {
            if self.storage[i].0 == pos {
                return Some(i);
            }
            i = i + 1;
        }
        None
    }

    /// Restates the storage-to-map correspondence for this grid.
    proof fn lemma_cells(self)
        requires
            self.storage_ok(),
        ensures
            forall|i: int|
                0 <= i < self.storage@.len() ==> self@.cells.dom().contains(
                    (#[trigger] self.storage@[i]).0,
                ) && self@.cells[self.storage@[i].0] == self.storage@[i].1,
            forall|p: GridNodePosition|
                #[trigger] self@.cells.dom().contains(p) ==> exists|i: int|
                    0 <= i < self.storage@.len() && (#[trigger] self.storage@[i]).0 == p,
            self@.cells.dom().finite(),
            self@.cells.dom().len() == self.storage@.len(),
    {
        lemma_cells_of(self.storage@);
    }

    /// The cell stored at `key`, or `None` for an unclassified cell.
    pub fn get(&self, key: &GridNodePosition) -> (r: Option<&GridNodeType>)
        requires
            self.wf(),
        ensures
            match r {
                Some(t) => self@.cells.dom().contains(*key) && *t == self@.cells[*key],
                None => !self@.cells.dom().contains(*key),
            },
    {
        proof {
            self.lemma_cells();
        }
        match self.find_index(*key) {
            Some(i) => Some(&self.storage[i].1),
            None => None,
        }
    }

    /// The number of classified cells.
    pub fn len(&self) -> (r: usize)
        requires
            self.wf(),
        ensures
            r == self@.cells.dom().len(),
    {
        proof {
            self.lemma_cells();
        }
        self.storage.len()
    }

    /// The positions touched by mutations since the last acknowledgement.
    pub fn get_additions(&self) -> (r: &Vec<GridNodePosition>)
        ensures
            r@.to_set() == self@.adds,
    {
        &self.additions
    }

    /// The positions whose cells were displaced or removed since the last
    /// acknowledgement.
    pub fn get_deletions(&self) -> (r: &Vec<GridNodePosition>)
        ensures
            r@.to_set() == self@.dels,
    {
        &self.deletions
    }

    /// Acknowledges the accumulated diff: empties both diff sets.
    pub fn clear_store(&mut self)
        requires
            old(self).wf(),
        ensures
            final(self).wf(),
            final(self)@.cells == old(self)@.cells,
            final(self)@.start == old(self)@.start,
            final(self)@.end == old(self)@.end,
            final(self)@.rows == old(self)@.rows,
            final(self)@.cols == old(self)@.cols,
            final(self)@.adds == Set::<GridNodePosition>::empty(),
            final(self)@.dels == Set::<GridNodePosition>::empty(),
    {
        self.additions.clear();
        self.deletions.clear();
        proof {
            assert(self.additions@.to_set() =~= Set::<GridNodePosition>::empty());
            assert(self.deletions@.to_set() =~= Set::<GridNodePosition>::empty());
        }
    }

    /// The cell stored at `pos`, by value.
    fn cell_at(&self, pos: GridNodePosition) -> (r: Option<GridNodeType>)
        requires
            self.storage_ok(),
        ensures
            match r {
                Some(t) => self@.cells.dom().contains(pos) && self@.cells[pos] == t,
                None => !self@.cells.dom().contains(pos),
            },
    {
        proof {
            self.lemma_cells();
        }
        match self.find_index(pos) {
            Some(i) => Some(self.storage[i].1),
            None => None,
        }
    }

    /// Stores `t` at `pos`, recording the diff.
    fn insert_cell(&mut self, pos: GridNodePosition, t: GridNodeType)
        requires
            old(self).storage_ok(),
        ensures
            final(self).storage_ok(),
            final(self)@ == view_written(old(self)@, pos, t),
            final(self).start_node == old(self).start_node,
            final(self).end_node == old(self).end_node,
            final(self).rows == old(self).rows,
            final(self).cols == old(self).cols,
    {
        let ghost s0 = self.storage@;
        proof {
            self.lemma_cells();
        }
        match self.find_index(pos) {
            Some(i) => {
                self.deletions.push(pos);
                self.storage.set(i, (pos, t));
                self.additions.push(pos);
                proof {
                    lemma_cells_of_update(s0, i as int, (pos, t));
                    lemma_to_set_push(old(self).deletions@, pos);
                    lemma_to_set_push(old(self).additions@, pos);
                    assert(final(self)@ =~= view_written(old(self)@, pos, t));
                }
            },
            None => {
                self.storage.push((pos, t));
                self.additions.push(pos);
                proof {
                    lemma_cells_of_push(s0, (pos, t));
                    lemma_to_set_push(old(self).additions@, pos);
                    assert(!old(self)@.cells.dom().contains(pos));
                    assert(final(self)@ =~= view_written(old(self)@, pos, t));
                }
            },
        }
    }

    /// Erases whatever is stored at `pos`, recording the deletion.
    fn erase_cell(&mut self, pos: GridNodePosition)
        requires
            old(self).storage_ok(),
        ensures
            final(self).storage_ok(),
            final(self)@ == view_erased(old(self)@, pos),
            final(self).start_node == old(self).start_node,
            final(self).end_node == old(self).end_node,
            final(self).rows == old(self).rows,
            final(self).cols == old(self).cols,
    {
        let ghost s0 = self.storage@;
        proof {
            self.lemma_cells();
        }
        match self.find_index(pos) {
            Some(i) => {
                let _ = self.storage.remove(i);
                self.deletions.push(pos);
                proof {
                    lemma_cells_of_remove(s0, i as int);
                    lemma_to_set_push(old(self).deletions@, pos);
                    assert(final(self)@ =~= view_erased(old(self)@, pos));
                }
            },
            None => {
                proof {
                    assert(!old(self)@.cells.dom().contains(pos));
                    assert(final(self)@ =~= view_erased(old(self)@, pos));
                }
            },
        }
    }

    /// Removes every transient cell, recording the deletions; anchors and
    /// walls stay.  Needs only distinct storage keys, so the anchor moves
    /// can call it mid-update.
    fn clear_paths_inner(&mut self)
        requires
            old(self).storage_ok(),
        ensures
            final(self).storage_ok(),
            final(self)@ == clear_paths_view(old(self)@),
            final(self).start_node == old(self).start_node,
            final(self).end_node == old(self).end_node,
            final(self).rows == old(self).rows,
            final(self).cols == old(self).cols,
    {
        let ghost s0 = self.storage@;
        let ghost d0 = self.deletions@.to_set();
        let mut kept: Vec<(GridNodePosition, GridNodeType)> = Vec::new();
        let n = self.storage.len();
        let mut i: usize = 0;
        while i < n
            invariant
                entries_distinct(s0),
                s0 == old(self).storage@,
                d0 == old(self).deletions@.to_set(),
                n == s0.len(),
                i <= n,
                self.storage@ == s0,
                self.additions@ == old(self).additions@,
                self.start_node == old(self).start_node,
                self.end_node == old(self).end_node,
                self.rows == old(self).rows,
                self.cols == old(self).cols,
                entries_distinct(kept@),
                cells_of(kept@) == cleared_cells(cells_of(s0.take(i as int))),
                self.deletions@.to_set() == d0.union(
                    transient_positions(cells_of(s0.take(i as int))),
                ),
            decreases n - i,
        {
            let (p, t) = self.storage[i];
            let ghost prefix = s0.take(i as int);
            let ghost m_pre = cells_of(prefix);
            proof {
                assert(s0.take(i + 1) =~= prefix.push(s0[i as int]));
                lemma_cells_of_push(prefix, s0[i as int]);
                lemma_cells_of(prefix);
                assert forall|j: int| 0 <= j < i implies (#[trigger] prefix[j]).0 != p by {
                    assert(prefix[j] == s0[j]);
                    assert(s0[j].0 != s0[i as int].0);
                }
                assert(!m_pre.dom().contains(p));
            }
            if is_transient_cell(t) {
                let ghost dpre = self.deletions@;
                self.deletions.push(p);
                proof {
                    lemma_to_set_push(dpre, p);
                    assert(cleared_cells(m_pre.insert(p, t)) =~= cleared_cells(m_pre));
                    assert(transient_positions(m_pre.insert(p, t)) =~= transient_positions(
                        m_pre,
                    ).insert(p));
                    assert(self.deletions@.to_set() =~= d0.union(
                        transient_positions(cells_of(s0.take(i + 1))),
                    ));
                }
            } else {
                let ghost kept0 = kept@;
                proof {
                    lemma_cells_of(kept0);
                    assert forall|j: int| 0 <= j < kept0.len() implies (
                    #[trigger] kept0[j]).0 != p by {
                        assert(cells_of(kept0).dom().contains(kept0[j].0));
                        assert(cleared_cells(m_pre).dom().contains(kept0[j].0));
                    }
                }
                kept.push((p, t));
                proof {
                    lemma_cells_of_push(kept0, (p, t));
                    assert(cleared_cells(m_pre.insert(p, t)) =~= cleared_cells(m_pre).insert(
                        p,
                        t,
                    ));
                    assert(transient_positions(m_pre.insert(p, t)) =~= transient_positions(
                        m_pre,
                    ));
                }
            }
            i = i + 1;
        }
        proof {
            assert(s0.take(n as int) =~= s0);
        }
        self.storage = kept;
        proof {
            assert(final(self)@ =~= clear_paths_view(old(self)@));
        }
    }

    /// Removes only the transient frontier/visited/path cells, leaving
    /// walls and anchors untouched.  Idempotent: a second call changes
    /// nothing.
    pub fn clear_paths(&mut self)
        requires
            old(self).wf(),
        ensures
            final(self).wf(),
            final(self)@ == clear_paths_view(old(self)@),
    {
        self.clear_paths_inner();
        proof {
            assert(view_wf(final(self)@));
        }
    }

    /// Applies the given tool at `pos` with its kind-specific validation;
    /// see [`add_node_view`] for the exact effect.
    pub fn add_node(&mut self, pos: &GridNodePosition, tool: GridNodeType, net: Net)
        requires
            old(self).wf(),
        ensures
            final(self).wf(),
            final(self)@ == add_node_view(old(self)@, *pos, tool, net),
    {
        let p = *pos;
        let ghost v0 = self@;
        match tool {
            GridNodeType::Empty => {},
            GridNodeType::Wall => {
                let cur = self.cell_at(p);
                match cur {
                    Some(t0) => {
                        if is_chosen_path_cell(t0) {
                            self.clear_paths_inner();
                        }
                        let cur2 = self.cell_at(p);
                        let blocked = match cur2 {
                            Some(t) => is_anchor_cell(t),
                            None => false,
                        };
                        if !blocked {
                            self.insert_cell(p, GridNodeType::Wall);
                        }
                    },
                    None => {
                        self.insert_cell(p, GridNodeType::Wall);
                    },
                }
            },
            GridNodeType::StartNode(_) => {
                if p != self.end_node {
                    let old_start = self.start_node;
                    self.erase_cell(old_start);
                    self.start_node = p;
                    let ghost v2 = self@;
                    self.insert_cell(p, GridNodeType::StartNode(net));
                    self.clear_paths_inner();
                    proof {
                        assert(v2 =~= (GridView {
                            cells: view_erased(v0, v0.start).cells,
                            start: p,
                            end: v0.end,
                            rows: v0.rows,
                            cols: v0.cols,
                            adds: view_erased(v0, v0.start).adds,
                            dels: view_erased(v0, v0.start).dels,
                        }));
                        assert(final(self)@ =~= moved_start_view(v0, p, net));
                    }
                }
            },
            GridNodeType::TargetNode(_) => {
                if p != self.start_node {
                    let old_end = self.end_node;
                    self.erase_cell(old_end);
                    self.end_node = p;
                    let ghost v2 = self@;
                    self.insert_cell(p, GridNodeType::TargetNode(net));
                    self.clear_paths_inner();
                    proof {
                        assert(v2 =~= (GridView {
                            cells: view_erased(v0, v0.end).cells,
                            start: v0.start,
                            end: p,
                            rows: v0.rows,
                            cols: v0.cols,
                            adds: view_erased(v0, v0.end).adds,
                            dels: view_erased(v0, v0.end).dels,
                        }));
                        assert(final(self)@ =~= moved_end_view(v0, p, net));
                    }
                }
            },
            GridNodeType::UnexploredNodes(_) => {
                let cur = self.cell_at(p);
                let blocked = match cur {
                    Some(t) => is_anchor_cell(t) || is_wall_cell(t),
                    None => false,
                };
                if !blocked {
                    self.insert_cell(p, GridNodeType::UnexploredNodes(net));
                }
            },
            GridNodeType::ExploredNodes(_) => {
                let cur = self.cell_at(p);
                let blocked = match cur {
                    Some(t) => is_anchor_cell(t) || is_wall_cell(t),
                    None => false,
                };
                if !blocked {
                    self.insert_cell(p, GridNodeType::ExploredNodes(net));
                }
            },
            GridNodeType::ChosenPath(_) => {
                let cur = self.cell_at(p);
                let blocked = match cur {
                    Some(t) => is_anchor_cell(t),
                    None => false,
                };
                if !blocked {
                    self.insert_cell(p, GridNodeType::ChosenPath(net));
                }
            },
        }
        proof {
            assert(final(self)@ == add_node_view(v0, p, tool, net));
            assert(view_wf(final(self)@));
        }
    }

    /// Clears the cell at `pos` unless it holds an anchor; anchors are
    /// immutable through this call.
    pub fn remove_node(&mut self, pos: &GridNodePosition)
        requires
            old(self).wf(),
        ensures
            final(self).wf(),
            final(self)@ == remove_node_view(old(self)@, *pos),
    {
        let p = *pos;
        let cur = self.cell_at(p);
        match cur {
            Some(t) => {
                if !is_anchor_cell(t) {
                    self.erase_cell(p);
                }
            },
            None => {},
        }
        proof {
            assert(view_wf(final(self)@));
        }
    }

    /// Removes every cell but the two anchors, which are re-tagged with
    /// net 1.
    pub fn clear_all(&mut self)
        requires
            old(self).wf(),
        ensures
            final(self).wf(),
            final(self)@ == clear_all_view(old(self)@),
    {
        let ghost s0 = self.storage@;
        let ghost d0 = self.deletions@.to_set();
        let n = self.storage.len();
        let mut i: usize = 0;
        while i < n
            invariant
                entries_distinct(s0),
                s0 == old(self).storage@,
                d0 == old(self).deletions@.to_set(),
                n == s0.len(),
                i <= n,
                self.storage@ == s0,
                self.additions@ == old(self).additions@,
                self.start_node == old(self).start_node,
                self.end_node == old(self).end_node,
                self.rows == old(self).rows,
                self.cols == old(self).cols,
                self.deletions@.to_set() == d0.union(
                    Set::new(
                        |q: GridNodePosition|
                            (exists|j: int|
                                0 <= j < i && (#[trigger] s0[j]).0 == q) && q
                                != self.start_node && q != self.end_node,
                    ),
                ),
            decreases n - i,
        {
            let p = self.storage[i].0;
            let ghost pre = self.deletions@.to_set();
            if p != self.start_node && p != self.end_node {
                let ghost dpre = self.deletions@;
                self.deletions.push(p);
                proof {
                    lemma_to_set_push(dpre, p);
                }
            }
            proof {
                let part = |k: int| Set::new(
                    |q: GridNodePosition|
                        (exists|j: int|
                            0 <= j < k && (#[trigger] s0[j]).0 == q) && q != self.start_node
                            && q != self.end_node,
                );
                assert forall|q: GridNodePosition| #[trigger] part(i + 1).contains(q) implies (
                part(i as int).contains(q) || (q == p && p != self.start_node && p
                    != self.end_node)) by {
                    let j = choose|j: int| 0 <= j < i + 1 && (#[trigger] s0[j]).0 == q;
                    if j < i {
                        assert(part(i as int).contains(q));
                    }
                }
                assert forall|q: GridNodePosition| #[trigger] part(i as int).contains(
                    q,
                ) implies part(i + 1).contains(q) by {
                    let j = choose|j: int| 0 <= j < i && (#[trigger] s0[j]).0 == q;
                    assert(0 <= j < i + 1 && s0[j].0 == q);
                }
                if p != self.start_node && p != self.end_node {
                    assert(s0[i as int].0 == p);
                    assert(part(i + 1).contains(p));
                    assert(self.deletions@.to_set() =~= d0.union(part(i + 1)));
                } else {
                    assert(part(i + 1) =~= part(i as int));
                    assert(self.deletions@.to_set() =~= d0.union(part(i + 1)));
                }
            }
            i = i + 1;
        }
        let start = self.start_node;
        let end = self.end_node;
        self.storage = Vec::new();
        self.storage.push((start, GridNodeType::StartNode(1)));
        self.storage.push((end, GridNodeType::TargetNode(1)));
        self.additions.push(start);
        self.additions.push(end);
        proof {
            let e0 = Seq::<(GridNodePosition, GridNodeType)>::empty();
            let e1 = e0.push((start, GridNodeType::StartNode(1)));
            lemma_cells_of_push(e0, (start, GridNodeType::StartNode(1)));
            lemma_cells_of_push(e1, (end, GridNodeType::TargetNode(1)));
            assert(e1[0] == (start, GridNodeType::StartNode(1)));
            assert(final(self).storage@ =~= e1.push((end, GridNodeType::TargetNode(1))));
            lemma_to_set_push(old(self).additions@, start);
            lemma_to_set_push(old(self).additions@.push(start), end);
            assert(final(self).additions@ =~= old(self).additions@.push(start).push(end));
            lemma_cells_of(s0);
            assert forall|q: GridNodePosition|
                ((exists|j: int| 0 <= j < n && (#[trigger] s0[j]).0 == q) && q != start && q
                    != end) <==> (v_dom_contains(cells_of(s0), q) && q != start && q
                != end) by {
                if cells_of(s0).dom().contains(q) {
                    let j = choose|j: int| 0 <= j < s0.len() && (#[trigger] s0[j]).0 == q;
                    assert(0 <= j < n && s0[j].0 == q);
                }
                if exists|j: int| 0 <= j < n && (#[trigger] s0[j]).0 == q {
                    let j = choose|j: int| 0 <= j < n && (#[trigger] s0[j]).0 == q;
                    assert(cells_of(s0).dom().contains(s0[j].0));
                }
            }
            assert(final(self).deletions@.to_set() =~= clear_all_view(old(self)@).dels);
            assert(final(self)@ =~= clear_all_view(old(self)@));
            assert(view_wf(final(self)@));
        }
    }

    /// Paints the rectangular boundary (top row, bottom row, left column,
    /// right column) of the given rectangle with `tool`, applying the same
    /// validation as [`Self::add_node`] per cell.  Painting the full field
    /// boundary with walls before a run establishes the enclosure that
    /// neighbor expansion relies on.  The contract details the effect of
    /// wall painting, the one use the engines make of it.
    pub fn add_node_perimeter(
        &mut self,
        pos: GridNodePosition,
        row_n: usize,
        column_n: usize,
        tool: GridNodeType,
        net: Net,
    )
        requires
            old(self).wf(),
            pos.row + row_n <= usize::MAX,
            pos.col + column_n <= usize::MAX,
            row_n >= 3 ==> column_n >= 1,
        ensures
            final(self).wf(),
            final(self)@.rows == old(self)@.rows,
            final(self)@.cols == old(self)@.cols,
            final(self)@ == perimeter_applied(
                old(self)@,
                pos,
                row_n as int,
                column_n as int,
                0,
                tool,
                net,
            ),
            tool is Wall ==> paint_inv(
                old(self)@,
                final(self)@,
                ring_set(pos, row_n, column_n),
                ring_set(pos, row_n, column_n),
            ),
    {
        let ghost v0 = self@;
        proof {
            assert(ring_below_row(pos, row_n, column_n, pos.row as int) =~= Set::<
                GridNodePosition,
            >::empty());
            if no_chosen_in(v0, ring_set(pos, row_n, column_n)) {
                assert(v0.cells =~= wall_overlay(
                    v0.cells,
                    Set::empty(),
                    v0.start,
                    v0.end,
                ));
            }
        }
        let row_end = pos.row + row_n;
        let col_end = pos.col + column_n;
        let mut row = pos.row;
        while row < row_end
            invariant
                self.wf(),
                pos.row <= row <= row_end,
                row_end == pos.row + row_n,
                col_end == pos.col + column_n,
                row_end <= usize::MAX,
                col_end <= usize::MAX,
                row_n >= 3 ==> column_n >= 1,
                self@.rows == v0.rows,
                self@.cols == v0.cols,
                view_wf(v0),
                perimeter_applied(v0, pos, row_n as int, column_n as int, 0, tool, net)
                    == perimeter_applied(
                    self@,
                    pos,
                    row_n as int,
                    column_n as int,
                    row - pos.row,
                    tool,
                    net,
                ),
                tool is Wall ==> paint_inv(
                    v0,
                    self@,
                    ring_set(pos, row_n, column_n),
                    ring_below_row(pos, row_n, column_n, row as int),
                ),
            decreases row_end - row,
        {
            if row == pos.row || row == pos.row + row_n - 1 {
                let mut column = pos.col;
                proof {
                    assert(ring_below_col(pos, row_n, column_n, row as int, pos.col as int)
                        =~= ring_below_row(pos, row_n, column_n, row as int));
                    assert(perimeter_applied(
                        self@,
                        pos,
                        row_n as int,
                        column_n as int,
                        row - pos.row,
                        tool,
                        net,
                    ) == perimeter_applied(
                        row_applied(
                            self@,
                            row as int,
                            pos.col as int,
                            column_n as int,
                            tool,
                            net,
                        ),
                        pos,
                        row_n as int,
                        column_n as int,
                        row - pos.row + 1,
                        tool,
                        net,
                    ));
                }
                while column < col_end
                    invariant
                        self.wf(),
                        pos.col <= column <= col_end,
                        row_end == pos.row + row_n,
                        col_end == pos.col + column_n,
                        row_end <= usize::MAX,
                        col_end <= usize::MAX,
                        pos.row <= row < row_end,
                        row == pos.row || row == pos.row + row_n - 1,
                        self@.rows == v0.rows,
                        self@.cols == v0.cols,
                        view_wf(v0),
                        perimeter_applied(v0, pos, row_n as int, column_n as int, 0, tool, net)
                            == perimeter_applied(
                            row_applied(
                                self@,
                                row as int,
                                column as int,
                                col_end - column,
                                tool,
                                net,
                            ),
                            pos,
                            row_n as int,
                            column_n as int,
                            row - pos.row + 1,
                            tool,
                            net,
                        ),
                        tool is Wall ==> paint_inv(
                            v0,
                            self@,
                            ring_set(pos, row_n, column_n),
                            ring_below_col(pos, row_n, column_n, row as int, column as int),
                        ),
                    decreases col_end - column,
                {
                    let ghost vpre = self@;
                    let q = GridNodePosition { row, col: column };
                    self.add_node(&q, tool, net);
                    proof {
                        assert(q == (GridNodePosition {
                            row: (row as int) as usize,
                            col: (column as int) as usize,
                        }));
                        assert(row_applied(
                            vpre,
                            row as int,
                            column as int,
                            col_end - column,
                            tool,
                            net,
                        ) == row_applied(
                            self@,
                            row as int,
                            column + 1,
                            col_end - column - 1,
                            tool,
                            net,
                        ));
                        if tool is Wall {
                            assert(ring_set(pos, row_n, column_n).contains(q));
                            lemma_paint_step(
                                v0,
                                vpre,
                                ring_set(pos, row_n, column_n),
                                net,
                                ring_below_col(
                                    pos,
                                    row_n,
                                    column_n,
                                    row as int,
                                    column as int,
                                ),
                                q,
                            );
                            assert(ring_below_col(
                                pos,
                                row_n,
                                column_n,
                                row as int,
                                column as int,
                            ).insert(q) =~= ring_below_col(
                                pos,
                                row_n,
                                column_n,
                                row as int,
                                column + 1,
                            ));
                        }
                    }
                    column = column + 1;
                }
                proof {
                    assert(row_applied(self@, row as int, col_end as int, 0, tool, net)
                        == self@);
                    if tool is Wall {
                        assert(ring_below_col(pos, row_n, column_n, row as int, col_end as int)
                            =~= ring_below_row(pos, row_n, column_n, row + 1));
                    }
                }
            } else {
                let ghost vpre1 = self@;
                let q1 = GridNodePosition { row, col: pos.col };
                self.add_node(&q1, tool, net);
                let ghost done1 = ring_below_row(pos, row_n, column_n, row as int).insert(q1);
                proof {
                    if tool is Wall {
                        assert(ring_set(pos, row_n, column_n).contains(q1));
                        lemma_paint_step(
                            v0,
                            vpre1,
                            ring_set(pos, row_n, column_n),
                            net,
                            ring_below_row(pos, row_n, column_n, row as int),
                            q1,
                        );
                    }
                }
                let ghost vpre2 = self@;
                let q2 = GridNodePosition { row, col: pos.col + column_n - 1 };
                self.add_node(&q2, tool, net);
                proof {
                    assert(q1 == (GridNodePosition {
                        row: (row as int) as usize,
                        col: pos.col,
                    }));
                    assert(q2 == (GridNodePosition {
                        row: (row as int) as usize,
                        col: (pos.col + column_n - 1) as usize,
                    }));
                    assert(vpre2 == add_node_view(vpre1, q1, tool, net));
                    assert(self@ == add_node_view(vpre2, q2, tool, net));
                    assert(perimeter_applied(
                        vpre1,
                        pos,
                        row_n as int,
                        column_n as int,
                        row - pos.row,
                        tool,
                        net,
                    ) == perimeter_applied(
                        self@,
                        pos,
                        row_n as int,
                        column_n as int,
                        row - pos.row + 1,
                        tool,
                        net,
                    ));
                    if tool is Wall {
                        assert(ring_set(pos, row_n, column_n).contains(q2));
                        lemma_paint_step(
                            v0,
                            vpre2,
                            ring_set(pos, row_n, column_n),
                            net,
                            done1,
                            q2,
                        );
                        assert forall|p: GridNodePosition| #[trigger] ring_below_row(
                            pos,
                            row_n,
                            column_n,
                            row + 1,
                        ).contains(p) implies done1.insert(q2).contains(p) by {
                            if p.row == row {
                                assert(p.row != pos.row && p.row != pos.row + row_n - 1);
                                assert(p.col == pos.col || p.col == pos.col + column_n - 1);
                            }
                        }
                        assert(done1.insert(q2) =~= ring_below_row(
                            pos,
                            row_n,
                            column_n,
                            row + 1,
                        ));
                    }
                }
            }
            row = row + 1;
        }
        proof {
            assert(perimeter_applied(
                self@,
                pos,
                row_n as int,
                column_n as int,
                row_n as int,
                tool,
                net,
            ) == self@);
            if tool is Wall {
                assert(ring_below_row(pos, row_n, column_n, row_end as int) =~= ring_set(
                    pos,
                    row_n,
                    column_n,
                ));
            }
        }
    }

    /// Paints every cell of the given rectangle with `tool`, applying the
    /// same validation as [`Self::add_node`] per cell.  The contract
    /// details the effect of wall painting.
    pub fn add_node_area(
        &mut self,
        pos: GridNodePosition,
        row_n: usize,
        column_n: usize,
        tool: GridNodeType,
        net: Net,
    )
        requires
            old(self).wf(),
            pos.row + row_n <= usize::MAX,
            pos.col + column_n <= usize::MAX,
        ensures
            final(self).wf(),
            final(self)@.rows == old(self)@.rows,
            final(self)@.cols == old(self)@.cols,
            final(self)@ == area_applied(
                old(self)@,
                pos,
                row_n as int,
                column_n as int,
                0,
                tool,
                net,
            ),
            tool is Wall ==> paint_inv(
                old(self)@,
                final(self)@,
                rect_set(pos, row_n, column_n),
                rect_set(pos, row_n, column_n),
            ),
    {
        let ghost v0 = self@;
        proof {
            assert(rect_below_row(pos, row_n, column_n, pos.row as int) =~= Set::<
                GridNodePosition,
            >::empty());
            if no_chosen_in(v0, rect_set(pos, row_n, column_n)) {
                assert(v0.cells =~= wall_overlay(
                    v0.cells,
                    Set::empty(),
                    v0.start,
                    v0.end,
                ));
            }
        }
        let row_end = pos.row + row_n;
        let col_end = pos.col + column_n;
        let mut row = pos.row;
        while row < row_end
            invariant
                self.wf(),
                pos.row <= row <= row_end,
                row_end == pos.row + row_n,
                col_end == pos.col + column_n,
                row_end <= usize::MAX,
                col_end <= usize::MAX,
                self@.rows == v0.rows,
                self@.cols == v0.cols,
                view_wf(v0),
                area_applied(v0, pos, row_n as int, column_n as int, 0, tool, net)
                    == area_applied(
                    self@,
                    pos,
                    row_n as int,
                    column_n as int,
                    row - pos.row,
                    tool,
                    net,
                ),
                tool is Wall ==> paint_inv(
                    v0,
                    self@,
                    rect_set(pos, row_n, column_n),
                    rect_below_row(pos, row_n, column_n, row as int),
                ),
            decreases row_end - row,
        {
            let mut column = pos.col;
            proof {
                assert(rect_below_col(pos, row_n, column_n, row as int, pos.col as int)
                    =~= rect_below_row(pos, row_n, column_n, row as int));
                assert(area_applied(
                    self@,
                    pos,
                    row_n as int,
                    column_n as int,
                    row - pos.row,
                    tool,
                    net,
                ) == area_applied(
                    row_applied(self@, row as int, pos.col as int, column_n as int, tool, net),
                    pos,
                    row_n as int,
                    column_n as int,
                    row - pos.row + 1,
                    tool,
                    net,
                ));
            }
            while column < col_end
                invariant
                    self.wf(),
                    pos.col <= column <= col_end,
                    row_end == pos.row + row_n,
                    col_end == pos.col + column_n,
                    row_end <= usize::MAX,
                    col_end <= usize::MAX,
                    pos.row <= row < row_end,
                    self@.rows == v0.rows,
                    self@.cols == v0.cols,
                    view_wf(v0),
                    area_applied(v0, pos, row_n as int, column_n as int, 0, tool, net)
                        == area_applied(
                        row_applied(
                            self@,
                            row as int,
                            column as int,
                            col_end - column,
                            tool,
                            net,
                        ),
                        pos,
                        row_n as int,
                        column_n as int,
                        row - pos.row + 1,
                        tool,
                        net,
                    ),
                    tool is Wall ==> paint_inv(
                        v0,
                        self@,
                        rect_set(pos, row_n, column_n),
                        rect_below_col(pos, row_n, column_n, row as int, column as int),
                    ),
                decreases col_end - column,
            {
                let ghost vpre = self@;
                let q = GridNodePosition { row, col: column };
                self.add_node(&q, tool, net);
                proof {
                    assert(q == (GridNodePosition {
                        row: (row as int) as usize,
                        col: (column as int) as usize,
                    }));
                    assert(row_applied(
                        vpre,
                        row as int,
                        column as int,
                        col_end - column,
                        tool,
                        net,
                    ) == row_applied(
                        self@,
                        row as int,
                        column + 1,
                        col_end - column - 1,
                        tool,
                        net,
                    ));
                    if tool is Wall {
                        assert(rect_set(pos, row_n, column_n).contains(q));
                        lemma_paint_step(
                            v0,
                            vpre,
                            rect_set(pos, row_n, column_n),
                            net,
                            rect_below_col(pos, row_n, column_n, row as int, column as int),
                            q,
                        );
                        assert(rect_below_col(
                            pos,
                            row_n,
                            column_n,
                            row as int,
                            column as int,
                        ).insert(q) =~= rect_below_col(
                            pos,
                            row_n,
                            column_n,
                            row as int,
                            column + 1,
                        ));
                    }
                }
                column = column + 1;
            }
            proof {
                assert(row_applied(self@, row as int, col_end as int, 0, tool, net) == self@);
                if tool is Wall {
                    assert(rect_below_col(pos, row_n, column_n, row as int, col_end as int)
                        =~= rect_below_row(pos, row_n, column_n, row + 1));
                }
            }
            row = row + 1;
        }
        proof {
            assert(area_applied(
                self@,
                pos,
                row_n as int,
                column_n as int,
                row_n as int,
                tool,
                net,
            ) == self@);
            if tool is Wall {
                assert(rect_below_row(pos, row_n, column_n, row_end as int) =~= rect_set(
                    pos,
                    row_n,
                    column_n,
                ));
            }
        }
    }

    /// `pos` itself when walkable, `None` when walled.
    fn available(&self, pos: GridNodePosition) -> (r: Option<GridNodePosition>)
        requires
            self.wf(),
        ensures
            r == walk_opt(self@, pos),
    {
        match self.cell_at(pos) {
            Some(t) => {
                if is_wall_cell(t) {
                    None
                } else {
                    Some(pos)
                }
            },
            None => Some(pos),
        }
    }

    /// The cell above `pos` unless it is walled.
    pub fn available_above(&self, pos: GridNodePosition) -> (r: Option<GridNodePosition>)
        requires
            self.wf(),
            pos.row >= 1,
        ensures
            r == walk_opt(self@, pos_above(pos)),
    {
        self.available(pos.above())
    }

    /// The cell below `pos` unless it is walled.
    pub fn available_below(&self, pos: GridNodePosition) -> (r: Option<GridNodePosition>)
        requires
            self.wf(),
            pos.row < usize::MAX,
        ensures
            r == walk_opt(self@, pos_below(pos)),
    {
        self.available(pos.below())
    }

    /// The cell left of `pos` unless it is walled.
    pub fn available_left(&self, pos: GridNodePosition) -> (r: Option<GridNodePosition>)
        requires
            self.wf(),
            pos.col >= 1,
        ensures
            r == walk_opt(self@, pos_left(pos)),
    {
        self.available(pos.left())
    }

    /// The cell right of `pos` unless it is walled.
    pub fn available_right(&self, pos: GridNodePosition) -> (r: Option<GridNodePosition>)
        requires
            self.wf(),
            pos.col < usize::MAX,
        ensures
            r == walk_opt(self@, pos_right(pos)),
    {
        self.available(pos.right())
    }

    /// For each of the four rectilinear neighbors of `pos`, in the order
    /// above, below, left, right: the neighbor's position unless that cell
    /// is walled.
    pub fn neighbours_rectilinear(&self, pos: GridNodePosition) -> (r: [Option<
        GridNodePosition,
    >; 4])
        requires
            self.wf(),
            pos.row >= 1,
            pos.col >= 1,
            pos.row < usize::MAX,
            pos.col < usize::MAX,
        ensures
            r@.len() == 4,
            r@[0] == walk_opt(self@, pos_above(pos)),
            r@[1] == walk_opt(self@, pos_below(pos)),
            r@[2] == walk_opt(self@, pos_left(pos)),
            r@[3] == walk_opt(self@, pos_right(pos)),
    {
        let above = self.available_above(pos);
        let below = self.available_below(pos);
        let left = self.available_left(pos);
        let right = self.available_right(pos);
        [above, below, left, right]
    }

    /// For each of the eight neighbors of `pos` (rectilinear ones first,
    /// then the diagonals): the neighbor's position unless that cell is
    /// walled.
    pub fn neighbours_octilinear(&self, pos: GridNodePosition) -> (r: [Option<
        GridNodePosition,
    >; 8])
        requires
            self.wf(),
            pos.row >= 1,
            pos.col >= 1,
            pos.row < usize::MAX,
            pos.col < usize::MAX,
        ensures
            r@.len() == 8,
            r@[0] == walk_opt(self@, pos_above(pos)),
            r@[1] == walk_opt(self@, pos_below(pos)),
            r@[2] == walk_opt(self@, pos_left(pos)),
            r@[3] == walk_opt(self@, pos_right(pos)),
            r@[4] == walk_opt(self@, pos_left(pos_above(pos))),
            r@[5] == walk_opt(self@, pos_right(pos_above(pos))),
            r@[6] == walk_opt(self@, pos_left(pos_below(pos))),
            r@[7] == walk_opt(self@, pos_right(pos_below(pos))),
    {
        let above = self.available(pos.above());
        let below = self.available(pos.below());
        let left = self.available(pos.left());
        let right = self.available(pos.right());
        let above_left = self.available(pos.above().left());
        let above_right = self.available(pos.above().right());
        let below_left = self.available(pos.below().left());
        let below_right = self.available(pos.below().right());
        [above, below, left, right, above_left, above_right, below_left, below_right]
    }
}

/// Whether the map's domain holds `q` (a named trigger target).
pub open spec fn v_dom_contains(
    m: Map<GridNodePosition, GridNodeType>,
    q: GridNodePosition,
) -> bool {
    m.dom().contains(q)
}

/// The effect of applying the tool, with its per-cell validation, to `n`
/// consecutive cells of one row, left to right.
pub open spec fn row_applied(
    v: GridView,
    row: int,
    col0: int,
    n: int,
    tool: GridNodeType,
    net: Net,
) -> GridView
    decreases n,
{
    if n <= 0 {
        v
    } else {
        row_applied(
            add_node_view(
                v,
                GridNodePosition { row: row as usize, col: col0 as usize },
                tool,
                net,
            ),
            row,
            col0 + 1,
            n - 1,
            tool,
            net,
        )
    }
}

/// The effect of the perimeter walk from relative row `r` on: the whole
/// top and bottom rows, the first and last cell of each middle row, each
/// cell through the tool's per-cell validation, in visiting order.
pub open spec fn perimeter_applied(
    v: GridView,
    origin: GridNodePosition,
    row_n: int,
    col_n: int,
    r: int,
    tool: GridNodeType,
    net: Net,
) -> GridView
    decreases row_n - r,
{
    if r < 0 || r >= row_n {
        v
    } else {
        let row = origin.row + r;
        let v1 = if r == 0 || r == row_n - 1 {
            row_applied(v, row, origin.col as int, col_n, tool, net)
        } else {
            add_node_view(
                add_node_view(
                    v,
                    GridNodePosition { row: row as usize, col: origin.col },
                    tool,
                    net,
                ),
                GridNodePosition { row: row as usize, col: (origin.col + col_n - 1) as usize },
                tool,
                net,
            )
        };
        perimeter_applied(v1, origin, row_n, col_n, r + 1, tool, net)
    }
}

/// The effect of the area walk from relative row `r` on: every cell of
/// every row, row-major, each through the tool's per-cell validation.
pub open spec fn area_applied(
    v: GridView,
    origin: GridNodePosition,
    row_n: int,
    col_n: int,
    r: int,
    tool: GridNodeType,
    net: Net,
) -> GridView
    decreases row_n - r,
{
    if r < 0 || r >= row_n {
        v
    } else {
        area_applied(
            row_applied(v, origin.row + r, origin.col as int, col_n, tool, net),
            origin,
            row_n,
            col_n,
            r + 1,
            tool,
            net,
        )
    }
}

/// The full ring as a set of positions.
pub open spec fn ring_set(
    origin: GridNodePosition,
    row_n: usize,
    col_n: usize,
) -> Set<GridNodePosition> {
    Set::new(|p: GridNodePosition| on_ring(p, origin, row_n, col_n))
}

/// Whether `p` lies in the solid rectangle with the given origin and
/// extent.
pub open spec fn in_rect(
    p: GridNodePosition,
    origin: GridNodePosition,
    row_n: usize,
    col_n: usize,
) -> bool {
    &&& origin.row <= p.row < origin.row + row_n
    &&& origin.col <= p.col < origin.col + col_n
}

/// The solid rectangle as a set of positions.
pub open spec fn rect_set(
    origin: GridNodePosition,
    row_n: usize,
    col_n: usize,
) -> Set<GridNodePosition> {
    Set::new(|p: GridNodePosition| in_rect(p, origin, row_n, col_n))
}

/// The rectangle cells in rows strictly before `r`.
spec fn rect_below_row(
    origin: GridNodePosition,
    row_n: usize,
    col_n: usize,
    r: int,
) -> Set<GridNodePosition> {
    Set::new(|p: GridNodePosition| in_rect(p, origin, row_n, col_n) && p.row < r)
}

/// The rectangle cells before row `r`, plus those in row `r` before
/// column `c`.
spec fn rect_below_col(
    origin: GridNodePosition,
    row_n: usize,
    col_n: usize,
    r: int,
    c: int,
) -> Set<GridNodePosition> {
    Set::new(
        |p: GridNodePosition|
            in_rect(p, origin, row_n, col_n) && (p.row < r || (p.row == r && p.col < c)),
    )
}

/// The ring cells in rows strictly before `r`.
spec fn ring_below_row(
    origin: GridNodePosition,
    row_n: usize,
    col_n: usize,
    r: int,
) -> Set<GridNodePosition> {
    Set::new(|p: GridNodePosition| on_ring(p, origin, row_n, col_n) && p.row < r)
}

/// The ring cells before row `r`, plus those in row `r` before column `c`.
spec fn ring_below_col(
    origin: GridNodePosition,
    row_n: usize,
    col_n: usize,
    r: int,
    c: int,
) -> Set<GridNodePosition> {
    Set::new(
        |p: GridNodePosition|
            on_ring(p, origin, row_n, col_n) && (p.row < r || (p.row == r && p.col < c)),
    )
}

/// The invariant carried while wall-painting a ring: the processed cells
/// (except anchors) are walls, anchors have not moved, unprocessed and
/// off-ring cells are either untouched or were transient and got cleared,
/// no new transient cells appeared, the diff growth is bounded, and the
/// result is the exact wall overlay as long as no chosen-path cell lies on
/// the ring.
pub open spec fn paint_inv(
    v0: GridView,
    v: GridView,
    region: Set<GridNodePosition>,
    done: Set<GridNodePosition>,
) -> bool {
    &&& v.rows == v0.rows && v.cols == v0.cols
    &&& v.start == v0.start && v.end == v0.end
    &&& view_wf(v0)
    &&& view_wf(v)
    &&& forall|p: GridNodePosition| #[trigger] done.contains(p) ==> region.contains(p)
    &&& forall|p: GridNodePosition|
        #[trigger] done.contains(p) && p != v0.start && p != v0.end ==> v.cells.dom().contains(p)
            && v.cells[p] is Wall
    &&& v.cells.dom().contains(v0.start) && v.cells[v0.start] == v0.cells[v0.start]
    &&& v.cells.dom().contains(v0.end) && v.cells[v0.end] == v0.cells[v0.end]
    &&& forall|p: GridNodePosition|
        !(#[trigger] done.contains(p)) ==> cell_untouched_or_cleared(v0, v, p)
    &&& forall|p: GridNodePosition|
        #[trigger] v.cells.dom().contains(p) && is_transient(v.cells[p]) ==> v0.cells.dom().contains(
            p,
        ) && v0.cells[p] == v.cells[p]
    &&& v0.adds.subset_of(v.adds)
    &&& v.adds.subset_of(v0.adds.union(done))
    &&& v0.dels.subset_of(v.dels)
    &&& v.dels.subset_of(v0.dels.union(done).union(transient_positions(v0.cells)))
    &&& (no_chosen_in(v0, region) ==> v.cells == wall_overlay(
        v0.cells,
        done,
        v0.start,
        v0.end,
    ))
}

/// The cell at `p` is as it originally was, or held transient state and
/// was cleared along the way.
pub open spec fn cell_untouched_or_cleared(v0: GridView, v: GridView, p: GridNodePosition) -> bool {
    if v0.cells.dom().contains(p) {
        (v.cells.dom().contains(p) && v.cells[p] == v0.cells[p]) || (is_transient(v0.cells[p])
            && !v.cells.dom().contains(p))
    } else {
        !v.cells.dom().contains(p)
    }
}

/// No cell of the region currently holds a chosen-path classification.
pub open spec fn no_chosen_in(v: GridView, region: Set<GridNodePosition>) -> bool {
    forall|p: GridNodePosition|
        #[trigger] region.contains(p) ==> !(v.cells.dom().contains(p) && v.cells[p]
            is ChosenPath)
}

/// Painting one more region cell as a wall preserves the painting
/// invariant.
proof fn lemma_paint_step(
    v0: GridView,
    v: GridView,
    region: Set<GridNodePosition>,
    net: Net,
    done: Set<GridNodePosition>,
    q: GridNodePosition,
)
    requires
        paint_inv(v0, v, region, done),
        region.contains(q),
    ensures
        paint_inv(v0, add_node_view(v, q, GridNodeType::Wall, net), region, done.insert(q)),
{
    let v1 = if v.cells.dom().contains(q) && v.cells[q] is ChosenPath {
        clear_paths_view(v)
    } else {
        v
    };
    let vr = add_node_view(v, q, GridNodeType::Wall, net);
    // Transient cells of the intermediate state trace back to the start.
    assert forall|p: GridNodePosition| !(done.insert(q).contains(p)) implies cell_untouched_or_cleared(
        v0,
        vr,
        p,
    ) by {
        assert(!done.contains(p));
        assert(cell_untouched_or_cleared(v0, v, p));
        assert(p != q);
    }
    assert forall|p: GridNodePosition|
        #[trigger] vr.cells.dom().contains(p) && is_transient(vr.cells[p]) implies v0.cells.dom().contains(
        p,
    ) && v0.cells[p] == vr.cells[p] by {
        if p != q {
            assert(v1.cells.dom().contains(p) && v1.cells[p] == vr.cells[p]);
            assert(v.cells.dom().contains(p) && v.cells[p] == v1.cells[p]);
        }
    }
    assert(vr.adds.subset_of(v0.adds.union(done.insert(q))));
    assert forall|p: GridNodePosition| #[trigger] vr.dels.contains(p) implies v0.dels.union(
        done.insert(q),
    ).union(transient_positions(v0.cells)).contains(p) by {
        if !v.dels.contains(p) && p != q {
            assert(transient_positions(v.cells).contains(p));
            assert(v.cells.dom().contains(p) && is_transient(v.cells[p]));
            assert(v0.cells.dom().contains(p) && v0.cells[p] == v.cells[p]);
            assert(transient_positions(v0.cells).contains(p));
        }
    }
    if no_chosen_in(v0, region) {
        assert(v.cells == wall_overlay(v0.cells, done, v0.start, v0.end));
        if v.cells.dom().contains(q) && v.cells[q] is ChosenPath {
            assert(!done.contains(q));
            assert(v0.cells.dom().contains(q) && v0.cells[q] is ChosenPath);
            assert(region.contains(q));
            assert(false);
        }
        if v.cells.dom().contains(q) && is_anchor(v.cells[q]) {
            assert(q == v0.start || q == v0.end) by {
                assert(view_wf(v));
            }
            assert(vr.cells =~= wall_overlay(v0.cells, done.insert(q), v0.start, v0.end));
        } else {
            assert(vr.cells == v.cells.insert(q, GridNodeType::Wall));
            assert(q != v0.start) by {
                if q == v0.start {
                    assert(v.cells.dom().contains(v0.start) && v.cells[v0.start]
                        == v0.cells[v0.start]);
                    assert(is_anchor(v.cells[q]));
                }
            }
            assert(q != v0.end) by {
                if q == v0.end {
                    assert(is_anchor(v.cells[q]));
                }
            }
            assert(vr.cells =~= wall_overlay(v0.cells, done.insert(q), v0.start, v0.end));
        }
    }
    // Anchors are never overwritten by a wall, and clearing keeps them.
    assert(vr.cells.dom().contains(v0.start) && vr.cells[v0.start] == v0.cells[v0.start]) by {
        assert(view_wf(v0));
        assert(!is_transient(v.cells[v0.start]));
    }
    assert(vr.cells.dom().contains(v0.end) && vr.cells[v0.end] == v0.cells[v0.end]) by {
        assert(!is_transient(v.cells[v0.end]));
    }
    assert(view_wf(vr));
}

/// Clearing the transient cells twice is the same as clearing them once:
/// the second pass finds no transient cell, so neither the cell map nor
/// the diff sets change.
pub proof fn lemma_clear_paths_idempotent(v: GridView)
    ensures
        clear_paths_view(clear_paths_view(v)) == clear_paths_view(v),
{
    let v1 = clear_paths_view(v);
    assert(cleared_cells(v1.cells) =~= v1.cells);
    assert(transient_positions(v1.cells) =~= Set::<GridNodePosition>::empty());
    assert(v1.dels.union(Set::empty()) =~= v1.dels);
    assert(clear_paths_view(v1) =~= v1);
}

/// Dropping a wall on a cell that is currently on the chosen path clears
/// every transient cell in the grid.
pub proof fn lemma_wall_on_path_clears(v: GridView, pos: GridNodePosition, net: Net)
    requires
        v.cells.dom().contains(pos),
        v.cells[pos] is ChosenPath,
    ensures
        forall|p: GridNodePosition|
            !(#[trigger] add_node_view(v, pos, GridNodeType::Wall, net).cells.dom().contains(p)
                && is_transient(add_node_view(v, pos, GridNodeType::Wall, net).cells[p])),
{
    let v1 = clear_paths_view(v);
    assert(!(v1.cells.dom().contains(pos) && is_anchor(v1.cells[pos])));
}

/// After wall-painting the full boundary ring of a grid whose anchors are
/// interior, the grid is enclosed.
pub proof fn lemma_perimeter_encloses(v0: GridView, v: GridView, rows: usize, cols: usize)
    requires
        paint_inv(
            v0,
            v,
            ring_set(GridNodePosition { row: 0, col: 0 }, rows, cols),
            ring_set(GridNodePosition { row: 0, col: 0 }, rows, cols),
        ),
        interior(v0.start, rows, cols),
        interior(v0.end, rows, cols),
        v.rows == rows,
        v.cols == cols,
    ensures
        enclosed(v),
{
    let origin = GridNodePosition { row: 0, col: 0 };
    assert forall|p: GridNodePosition| on_boundary(p, rows, cols) implies #[trigger] v.cells.dom().contains(
        p,
    ) && v.cells[p] is Wall by {
        assert(on_ring(p, origin, rows, cols));
        assert(ring_set(origin, rows, cols).contains(p));
        assert(p != v0.start && p != v0.end);
    }
}

/// Applying the wall tool anywhere preserves enclosure: boundary walls
/// are never displaced (clearing removes only transient cells), and on
/// the boundary itself the tool can only leave or restore a wall.
pub proof fn lemma_wall_add_preserves_enclosed(v: GridView, w: GridNodePosition, net: Net)
    requires
        enclosed(v),
    ensures
        enclosed(add_node_view(v, w, GridNodeType::Wall, net)),
{
    let vr = add_node_view(v, w, GridNodeType::Wall, net);
    assert forall|p: GridNodePosition| on_boundary(p, vr.rows, vr.cols) implies #[trigger] vr.cells.dom().contains(
        p,
    ) && vr.cells[p] is Wall by {
        assert(enclosed(v));
        assert(on_boundary(p, v.rows, v.cols));
        assert(v.cells.dom().contains(p));
        assert(v.cells[p] is Wall);
        assert(!is_transient(v.cells[p]));
    }
}

/// Inside an enclosed grid, a walkable neighbor of an interior cell is
/// itself interior: the boundary is walled, so expansion cannot escape.
pub proof fn lemma_enclosed_neighbor(v: GridView, p: GridNodePosition, q: GridNodePosition)
    requires
        enclosed(v),
        interior(p, v.rows, v.cols),
        adjacent(p, q),
        walkable(v, q),
    ensures
        interior(q, v.rows, v.cols),
{
    assert(q.row < v.rows && q.col < v.cols);
    if !interior(q, v.rows, v.cols) {
        assert(on_boundary(q, v.rows, v.cols));
    }
}

/// How the host is currently interacting with the grid surface.
#[derive(Clone, Copy, PartialEq, Eq, Debug, Structural)]
pub enum Interaction {
    Idle,
    Drawing,
    LockedUI,
}

/// The grid together with the host-facing editing state: the selected
/// tool and net, the interaction mode, and whether axis annotations are
/// shown.
pub struct GridWidgetData {
    pub grid: Grid,
    pub interaction_state: Interaction,
    pub selected_tool: GridNodeType,
    pub show_grid_axis: bool,
    pub selected_net: Net,
}

impl GridWidgetData {
    /// Wraps a grid with the default editing state: no interaction, the
    /// wall tool, axis annotations shown, net 1 selected.
    pub fn new(grid: Grid) -> (r: GridWidgetData)
        ensures
            r.grid == grid,
            r.interaction_state is Idle,
            r.selected_tool is Wall,
            r.show_grid_axis,
            r.selected_net == 1,
    {
        GridWidgetData {
            grid,
            interaction_state: Interaction::Idle,
            show_grid_axis: true,
            selected_tool: GridNodeType::Wall,
            selected_net: 1,
        }
    }
}

/// Whether a cell holds transient search state, as executable code.
fn is_transient_cell(t: GridNodeType) -> (r: bool)
    ensures
        r == is_transient(t),
{
    match t {
        GridNodeType::UnexploredNodes(_) => true,
        GridNodeType::ExploredNodes(_) => true,
        GridNodeType::ChosenPath(_) => true,
        _ => false,
    }
}

/// Whether a cell holds an anchor, as executable code.
fn is_anchor_cell(t: GridNodeType) -> (r: bool)
    ensures
        r == is_anchor(t),
{
    match t {
        GridNodeType::StartNode(_) => true,
        GridNodeType::TargetNode(_) => true,
        _ => false,
    }
}

/// Whether a cell is a wall, as executable code.
fn is_wall_cell(t: GridNodeType) -> (r: bool)
    ensures
        r == (t is Wall),
{
    match t {
        GridNodeType::Wall => true,
        _ => false,
    }
}

/// Whether a cell is on the chosen path, as executable code.
fn is_chosen_path_cell(t: GridNodeType) -> (r: bool)
    ensures
        r == (t is ChosenPath),
{
    match t {
        GridNodeType::ChosenPath(_) => true,
        _ => false,
    }
}

} // verus!
