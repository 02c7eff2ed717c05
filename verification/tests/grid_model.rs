use grid_pathfinder::grid::{Grid, GridNodePosition, GridNodeType};

fn pos(row: usize, col: usize) -> GridNodePosition {
    GridNodePosition { row, col }
}

fn cell(grid: &Grid, row: usize, col: usize) -> Option<GridNodeType> {
    grid.get(&pos(row, col)).copied()
}

fn count_transients(grid: &Grid, rows: usize, cols: usize) -> usize {
    let mut n = 0;
    for row in 0..rows {
        for col in 0..cols {
            match cell(grid, row, col) {
                Some(GridNodeType::UnexploredNodes(_))
                | Some(GridNodeType::ExploredNodes(_))
                | Some(GridNodeType::ChosenPath(_)) => n += 1,
                _ => (),
            }
        }
    }
    n
}

#[test]
fn new_grid_holds_only_anchors() {
    let grid = Grid::new(pos(1, 1), pos(1, 3), 3, 5);
    assert_eq!(grid.len(), 2);
    assert_eq!(cell(&grid, 1, 1), Some(GridNodeType::StartNode(1)));
    assert_eq!(cell(&grid, 1, 3), Some(GridNodeType::TargetNode(1)));
    assert_eq!(cell(&grid, 1, 2), None);
    assert_eq!(grid.get_additions().len(), 2);
    assert_eq!(grid.get_deletions().len(), 0);
}

#[test]
fn wall_refuses_anchors() {
    let mut grid = Grid::new(pos(1, 1), pos(1, 3), 3, 5);
    grid.add_node(&pos(1, 1), GridNodeType::Wall, 1);
    grid.add_node(&pos(1, 3), GridNodeType::Wall, 1);
    assert_eq!(cell(&grid, 1, 1), Some(GridNodeType::StartNode(1)));
    assert_eq!(cell(&grid, 1, 3), Some(GridNodeType::TargetNode(1)));
    grid.add_node(&pos(1, 2), GridNodeType::Wall, 1);
    assert_eq!(cell(&grid, 1, 2), Some(GridNodeType::Wall));
}

#[test]
fn frontier_refuses_anchor_and_wall() {
    let mut grid = Grid::new(pos(1, 1), pos(1, 3), 3, 5);
    grid.add_node(&pos(1, 2), GridNodeType::Wall, 1);
    grid.add_node(&pos(1, 2), GridNodeType::UnexploredNodes(1), 1);
    assert_eq!(cell(&grid, 1, 2), Some(GridNodeType::Wall));
    grid.add_node(&pos(1, 1), GridNodeType::ExploredNodes(1), 1);
    assert_eq!(cell(&grid, 1, 1), Some(GridNodeType::StartNode(1)));
    grid.add_node(&pos(2, 2), GridNodeType::UnexploredNodes(7), 7);
    assert_eq!(cell(&grid, 2, 2), Some(GridNodeType::UnexploredNodes(7)));
}

#[test]
fn chosen_path_may_overwrite_wall() {
    let mut grid = Grid::new(pos(1, 1), pos(1, 3), 3, 5);
    grid.add_node(&pos(1, 2), GridNodeType::Wall, 1);
    grid.add_node(&pos(1, 2), GridNodeType::ChosenPath(1), 1);
    assert_eq!(cell(&grid, 1, 2), Some(GridNodeType::ChosenPath(1)));
}

#[test]
fn start_refuses_target_position_and_relocates() {
    let mut grid = Grid::new(pos(1, 1), pos(1, 3), 3, 5);
    grid.add_node(&pos(1, 3), GridNodeType::StartNode(1), 1);
    assert_eq!(cell(&grid, 1, 3), Some(GridNodeType::TargetNode(1)));
    assert_eq!(cell(&grid, 1, 1), Some(GridNodeType::StartNode(1)));
    grid.add_node(&pos(2, 2), GridNodeType::StartNode(1), 1);
    assert_eq!(cell(&grid, 1, 1), None);
    assert_eq!(cell(&grid, 2, 2), Some(GridNodeType::StartNode(1)));
}

#[test]
fn anchor_move_clears_transients() {
    let mut grid = Grid::new(pos(1, 1), pos(1, 3), 3, 5);
    grid.add_node(&pos(2, 1), GridNodeType::UnexploredNodes(1), 1);
    grid.add_node(&pos(2, 2), GridNodeType::ExploredNodes(1), 1);
    grid.add_node(&pos(2, 3), GridNodeType::ChosenPath(1), 1);
    assert_eq!(count_transients(&grid, 3, 5), 3);
    grid.add_node(&pos(1, 2), GridNodeType::TargetNode(1), 1);
    assert_eq!(count_transients(&grid, 3, 5), 0);
    assert_eq!(cell(&grid, 1, 2), Some(GridNodeType::TargetNode(1)));
    assert_eq!(cell(&grid, 1, 3), None);
}

#[test]
fn remove_node_spares_anchors() {
    let mut grid = Grid::new(pos(1, 1), pos(1, 3), 3, 5);
    grid.add_node(&pos(1, 2), GridNodeType::Wall, 1);
    grid.remove_node(&pos(1, 2));
    assert_eq!(cell(&grid, 1, 2), None);
    grid.remove_node(&pos(1, 1));
    grid.remove_node(&pos(1, 3));
    assert_eq!(cell(&grid, 1, 1), Some(GridNodeType::StartNode(1)));
    assert_eq!(cell(&grid, 1, 3), Some(GridNodeType::TargetNode(1)));
}

#[test]
fn clear_all_keeps_only_anchors() {
    let mut grid = Grid::new(pos(1, 1), pos(1, 3), 3, 5);
    grid.add_node(&pos(1, 2), GridNodeType::Wall, 1);
    grid.add_node(&pos(2, 2), GridNodeType::UnexploredNodes(1), 1);
    grid.clear_all();
    assert_eq!(grid.len(), 2);
    assert_eq!(cell(&grid, 1, 1), Some(GridNodeType::StartNode(1)));
    assert_eq!(cell(&grid, 1, 3), Some(GridNodeType::TargetNode(1)));
}

#[test]
fn clear_paths_is_idempotent() {
    let mut grid = Grid::new(pos(1, 1), pos(1, 3), 3, 5);
    grid.add_node(&pos(1, 2), GridNodeType::Wall, 1);
    grid.add_node(&pos(2, 1), GridNodeType::UnexploredNodes(1), 1);
    grid.add_node(&pos(2, 2), GridNodeType::ExploredNodes(1), 1);
    grid.add_node(&pos(2, 3), GridNodeType::ChosenPath(1), 1);
    grid.clear_paths();
    let len_once = grid.len();
    let adds_once = grid.get_additions().len();
    let dels_once = grid.get_deletions().len();
    assert_eq!(count_transients(&grid, 3, 5), 0);
    assert_eq!(cell(&grid, 1, 2), Some(GridNodeType::Wall));
    grid.clear_paths();
    assert_eq!(grid.len(), len_once);
    assert_eq!(grid.get_additions().len(), adds_once);
    assert_eq!(grid.get_deletions().len(), dels_once);
    assert_eq!(cell(&grid, 1, 2), Some(GridNodeType::Wall));
    assert_eq!(cell(&grid, 1, 1), Some(GridNodeType::StartNode(1)));
}

#[test]
fn wall_on_chosen_path_clears_all_transients() {
    let mut grid = Grid::new(pos(1, 1), pos(1, 3), 3, 5);
    grid.add_node(&pos(2, 1), GridNodeType::UnexploredNodes(1), 1);
    grid.add_node(&pos(2, 2), GridNodeType::ExploredNodes(1), 1);
    grid.add_node(&pos(2, 3), GridNodeType::ChosenPath(1), 1);
    grid.add_node(&pos(2, 3), GridNodeType::Wall, 1);
    assert_eq!(count_transients(&grid, 3, 5), 0);
    assert_eq!(cell(&grid, 2, 3), Some(GridNodeType::Wall));
}

#[test]
fn perimeter_walls_the_boundary() {
    let mut grid = Grid::new(pos(1, 1), pos(2, 3), 4, 6);
    grid.add_node_perimeter(pos(0, 0), 4, 6, GridNodeType::Wall, 1);
    for row in 0..4 {
        for col in 0..6 {
            let boundary = row == 0 || row == 3 || col == 0 || col == 5;
            if boundary {
                assert_eq!(cell(&grid, row, col), Some(GridNodeType::Wall));
            }
        }
    }
    assert_eq!(cell(&grid, 1, 1), Some(GridNodeType::StartNode(1)));
    assert_eq!(cell(&grid, 2, 3), Some(GridNodeType::TargetNode(1)));
    assert_eq!(cell(&grid, 1, 2), None);
}

#[test]
fn neighbours_skip_walls() {
    let mut grid = Grid::new(pos(1, 1), pos(1, 3), 4, 6);
    grid.add_node(&pos(1, 2), GridNodeType::Wall, 1);
    let ns = grid.neighbours_rectilinear(pos(2, 2));
    assert_eq!(ns[0], None); // above is walled
    assert_eq!(ns[1], Some(pos(3, 2)));
    assert_eq!(ns[2], Some(pos(2, 1)));
    assert_eq!(ns[3], Some(pos(2, 3)));
    let ns8 = grid.neighbours_octilinear(pos(2, 2));
    assert_eq!(ns8[0], None);
    assert_eq!(ns8[4], Some(pos(1, 1)));
    assert_eq!(ns8[7], Some(pos(3, 3)));
}

#[test]
fn diff_store_accumulates_and_clears() {
    let mut grid = Grid::new(pos(1, 1), pos(1, 3), 3, 5);
    grid.clear_store();
    assert_eq!(grid.get_additions().len(), 0);
    assert_eq!(grid.get_deletions().len(), 0);
    grid.add_node(&pos(2, 2), GridNodeType::Wall, 1);
    assert!(grid.get_additions().contains(&pos(2, 2)));
    grid.remove_node(&pos(2, 2));
    assert!(grid.get_deletions().contains(&pos(2, 2)));
    grid.clear_store();
    assert_eq!(grid.get_additions().len(), 0);
    assert_eq!(grid.get_deletions().len(), 0);
}

#[test]
fn position_steps() {
    let p = pos(3, 4);
    assert_eq!(p.above(), pos(2, 4));
    assert_eq!(p.below(), pos(4, 4));
    assert_eq!(p.left(), pos(3, 3));
    assert_eq!(p.right(), pos(3, 5));
    let r = p.neighbors_rectilinear();
    assert_eq!(r, [pos(2, 4), pos(4, 4), pos(3, 3), pos(3, 5)]);
    let o = p.neighbors_octilinear();
    assert_eq!(o[4], pos(2, 3));
    assert_eq!(o[5], pos(2, 5));
    assert_eq!(o[6], pos(4, 3));
    assert_eq!(o[7], pos(4, 5));
}

#[test]
fn area_paints_the_full_rectangle() {
    let mut grid = Grid::new(pos(1, 1), pos(2, 4), 5, 7);
    grid.add_node_area(pos(2, 2), 2, 3, GridNodeType::Wall, 1);
    for row in 2..4 {
        for col in 2..5 {
            let expected = if row == 2 && col == 4 {
                // The target anchor refuses the wall.
                GridNodeType::TargetNode(1)
            } else {
                GridNodeType::Wall
            };
            assert_eq!(cell(&grid, row, col), Some(expected));
        }
    }
    assert_eq!(cell(&grid, 1, 2), None);
    assert_eq!(cell(&grid, 4, 4), None);
}
