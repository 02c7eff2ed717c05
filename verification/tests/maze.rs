use grid_pathfinder::grid::{Grid, GridNodePosition, GridNodeType};
use grid_pathfinder::maze_generation_types::{MazeAlgorithmState, MazeNodes};
use grid_pathfinder::recursive_backtrace::RecursiveBacktrace;
use grid_pathfinder::recursive_subdivision::RecursiveSubdivision;

fn pos(row: usize, col: usize) -> GridNodePosition {
    GridNodePosition { row, col }
}

fn run_maze(grid: &mut Grid, cap: usize) -> (RecursiveBacktrace, MazeAlgorithmState) {
    let mut carver = RecursiveBacktrace::new();
    let mut state = MazeAlgorithmState::Initialization;
    for _ in 0..cap {
        state = carver.next_step(grid);
        if state == MazeAlgorithmState::Finished || state == MazeAlgorithmState::Failed {
            break;
        }
    }
    (carver, state)
}

/// Recursive backtrace on an enclosed interior terminates, visits each
/// carved cell exactly once (the visited set is position-keyed), and
/// leaves the outer perimeter entirely walled.
#[test]
fn backtrace_terminates_and_keeps_perimeter() {
    // 7 rows x 9 columns: interior 5 x 7, lattice cells at odd
    // coordinates.
    let mut grid = Grid::new(pos(1, 1), pos(5, 7), 7, 9);
    let (carver, state) = run_maze(&mut grid, 1000);
    assert_eq!(state, MazeAlgorithmState::Finished);
    // The perimeter is entirely wall.
    for row in 0..7 {
        for col in 0..9 {
            if row == 0 || row == 6 || col == 0 || col == 8 {
                assert_eq!(grid.get(&pos(row, col)).copied(), Some(GridNodeType::Wall));
            }
        }
    }
    // The carved spanning tree covers the whole 3 x 4 lattice: 12 lattice
    // cells plus the 11 connecting cells between them.
    let closed = carver.get_closed_nodes();
    assert_eq!(closed.len(), 23);
    for row in [1, 3, 5] {
        for col in [1, 3, 5, 7] {
            assert!(closed.iter().any(|n| n.position == pos(row, col)));
        }
    }
    // Each visited position occurs exactly once.
    for (i, a) in closed.iter().enumerate() {
        for b in closed.iter().skip(i + 1) {
            assert!(a.position != b.position);
        }
    }
}

#[test]
fn backtrace_runs_again_after_reset() {
    let mut grid = Grid::new(pos(1, 1), pos(3, 3), 5, 5);
    let (mut carver, state) = run_maze(&mut grid, 1000);
    assert_eq!(state, MazeAlgorithmState::Finished);
    carver.reset();
    assert!(carver.get_closed_nodes().is_empty());
    let mut state = MazeAlgorithmState::Initialization;
    for _ in 0..1000 {
        state = carver.next_step(&mut grid);
        if state == MazeAlgorithmState::Finished {
            break;
        }
    }
    assert_eq!(state, MazeAlgorithmState::Finished);
}

#[test]
fn subdivision_reports_failure() {
    let mut grid = Grid::new(pos(1, 1), pos(1, 3), 3, 5);
    let mut carver = RecursiveSubdivision::new();
    assert_eq!(carver.next_step(&mut grid), MazeAlgorithmState::Failed);
    assert_eq!(*carver.get_algorithm_state(), MazeAlgorithmState::Failed);
    assert!(carver.get_closed_nodes().is_empty());
}

#[test]
fn maze_nodes_compare_by_position() {
    let a = MazeNodes::new(pos(2, 3), None);
    let b = MazeNodes::new(pos(2, 3), Some(pos(1, 3)));
    let c = MazeNodes::new(pos(2, 4), None);
    assert!(a == b);
    assert!(a != c);
    assert_eq!(MazeNodes::empty().position, pos(0, 0));
}
