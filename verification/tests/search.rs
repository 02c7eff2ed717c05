use grid_pathfinder::astar::Astar;
use grid_pathfinder::grid::{Grid, GridNodePosition, GridNodeType};
use grid_pathfinder::pathfinding_algorithms::{AlgorithmState, PathAlgo};
use grid_pathfinder::pathfinding_types::{PathAlgorithmState, PathNodes, PathfinderConfig};

fn pos(row: usize, col: usize) -> GridNodePosition {
    GridNodePosition { row, col }
}

fn run_to_terminal(
    engine: &mut Astar,
    grid: &mut Grid,
    config: &mut PathfinderConfig,
    cap: usize,
) -> PathAlgorithmState {
    let mut state = PathAlgorithmState::Initialization;
    for _ in 0..cap {
        state = engine.next_step(grid, config, 1);
        if state == PathAlgorithmState::Finished || state == PathAlgorithmState::Failed {
            break;
        }
    }
    state
}

/// The corridor example: one interior row of five cells, start at one
/// end, target at the other, no internal walls.
#[test]
fn corridor_reaches_target_in_counted_steps() {
    // 3 rows x 7 columns: interior row 1, interior columns 1..=5.
    let mut grid = Grid::new(pos(1, 1), pos(1, 5), 3, 7);
    let mut config = PathfinderConfig::new();
    let mut engine = Astar::new();

    // Seeding step.
    assert_eq!(engine.next_step(&mut grid, &mut config, 1), PathAlgorithmState::Running);
    // Four expansions reach the target.
    for k in 0..4 {
        let state = engine.next_step(&mut grid, &mut config, 1);
        if k < 3 {
            assert_eq!(state, PathAlgorithmState::Running);
        } else {
            assert_eq!(state, PathAlgorithmState::PathConstruction);
        }
    }
    // Four unwind calls finish.
    for k in 0..4 {
        let state = engine.next_step(&mut grid, &mut config, 1);
        if k < 3 {
            assert_eq!(state, PathAlgorithmState::PathConstruction);
        } else {
            assert_eq!(state, PathAlgorithmState::Finished);
        }
    }
    let path: Vec<GridNodePosition> =
        engine.get_path_nodes().iter().map(|n| n.position).collect();
    assert_eq!(path, vec![pos(1, 2), pos(1, 3), pos(1, 4), pos(1, 5)]);
    // Path length equals the shortest rectilinear distance in the open
    // corridor, counting the start cell's successor through the target.
    assert_eq!(path.len(), 4);
    // The grid shows the chosen path.
    assert_eq!(grid.get(&pos(1, 3)).copied(), Some(GridNodeType::ChosenPath(1)));
}

#[test]
fn open_field_path_ends_at_target() {
    // 5 rows x 5 columns: interior 3 x 3 field.
    let mut grid = Grid::new(pos(1, 1), pos(3, 3), 5, 5);
    let mut config = PathfinderConfig::new();
    let mut engine = Astar::new();
    let state = run_to_terminal(&mut engine, &mut grid, &mut config, 100);
    assert_eq!(state, PathAlgorithmState::Finished);
    let path = engine.get_path_nodes();
    assert!(!path.is_empty());
    assert_eq!(path.last().unwrap().position, pos(3, 3));
    // The first path cell is adjacent to the start.
    let first = path.first().unwrap().position;
    let dr = first.row.abs_diff(1);
    let dc = first.col.abs_diff(1);
    assert_eq!(dr + dc, 1);
    // Shortest rectilinear distance across the open field.
    assert_eq!(path.len(), 4);
    // Cost ties are broken deterministically by the lowest position in
    // row-major order, which fixes the route exactly.
    let route: Vec<GridNodePosition> = path.iter().map(|n| n.position).collect();
    assert_eq!(route, vec![pos(1, 2), pos(2, 2), pos(2, 3), pos(3, 3)]);
}

#[test]
fn enclosed_target_fails_with_empty_path() {
    // 5 rows x 7 columns; the target at (3, 3) is boxed in by walls.
    let mut grid = Grid::new(pos(1, 1), pos(3, 3), 5, 7);
    for p in [pos(2, 3), pos(4, 3), pos(3, 2), pos(3, 4)] {
        grid.add_node(&p, GridNodeType::Wall, 1);
    }
    let mut config = PathfinderConfig::new();
    let mut engine = Astar::new();
    let state = run_to_terminal(&mut engine, &mut grid, &mut config, 1000);
    assert_eq!(state, PathAlgorithmState::Failed);
    assert!(engine.get_path_nodes().is_empty());
}

#[test]
fn replace_on_improve_keeps_lower_start_cost() {
    // 4 rows x 7 columns: interior rows 1..=2, columns 1..=5.  A wall at
    // (1, 3) forces the search to dip through row 2.  The cell (2, 1) is
    // reachable directly from the start (one step) and again from the
    // expansion of (2, 2) (three steps); the retained open entry must
    // reflect the lower cost.
    let mut grid = Grid::new(pos(1, 1), pos(1, 5), 4, 7);
    grid.add_node(&pos(1, 3), GridNodeType::Wall, 1);
    let mut config = PathfinderConfig::new();
    let mut engine = Astar::new();
    let state = run_to_terminal(&mut engine, &mut grid, &mut config, 100);
    assert_eq!(state, PathAlgorithmState::Finished);
    let open = engine.get_open_nodes();
    let entry: Vec<&PathNodes> =
        open.iter().filter(|n| n.position == pos(2, 1)).collect();
    assert_eq!(entry.len(), 1);
    assert_eq!(entry[0].cost_from_start, 1);
    // The detour path went around the wall.
    let path: Vec<GridNodePosition> =
        engine.get_path_nodes().iter().map(|n| n.position).collect();
    assert_eq!(
        path,
        vec![pos(1, 2), pos(2, 2), pos(2, 3), pos(2, 4), pos(1, 4), pos(1, 5)]
    );
}

#[test]
fn reset_returns_to_initialization() {
    let mut grid = Grid::new(pos(1, 1), pos(1, 5), 3, 7);
    let mut config = PathfinderConfig::new();
    let mut engine = Astar::new();
    let state = run_to_terminal(&mut engine, &mut grid, &mut config, 100);
    assert_eq!(state, PathAlgorithmState::Finished);
    engine.reset();
    assert!(engine.get_open_nodes().is_empty());
    assert!(engine.get_closed_nodes().is_empty());
    assert!(engine.get_path_nodes().is_empty());
    // A fresh run over the same grid succeeds again.
    let state = run_to_terminal(&mut engine, &mut grid, &mut config, 100);
    assert_eq!(state, PathAlgorithmState::Finished);
}

#[test]
fn path_algo_corridor_finishes() {
    // The older engine does not wall the field in itself; the caller
    // encloses the grid first.
    let mut grid = Grid::new(pos(1, 1), pos(1, 5), 3, 7);
    grid.add_node_perimeter(pos(0, 0), 3, 7, GridNodeType::Wall, 1);
    let mut engine = PathAlgo::new();
    let mut state = AlgorithmState::INITIALIZATION;
    for _ in 0..100 {
        state = engine.next_step(&grid);
        if state == AlgorithmState::FINISHED || state == AlgorithmState::FAILED {
            break;
        }
    }
    assert_eq!(state, AlgorithmState::FINISHED);
    let path: Vec<GridNodePosition> =
        engine.get_path_nodes().iter().map(|n| n.position).collect();
    assert_eq!(path, vec![pos(1, 2), pos(1, 3), pos(1, 4), pos(1, 5)]);
    // Unwinding withdraws each ancestor from the closed set.
    assert_eq!(engine.get_closed_nodes().len(), 0);
}

#[test]
fn path_algo_cancel_empties_sets() {
    let mut grid = Grid::new(pos(1, 1), pos(1, 5), 3, 7);
    grid.add_node_perimeter(pos(0, 0), 3, 7, GridNodeType::Wall, 1);
    let mut engine = PathAlgo::new();
    engine.next_step(&grid);
    engine.next_step(&grid);
    engine.cancel();
    assert!(engine.get_open_nodes().is_empty());
    assert!(engine.get_closed_nodes().is_empty());
    assert!(engine.get_path_nodes().is_empty());
}
