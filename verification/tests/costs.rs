use grid_pathfinder::grid::GridNodePosition;
use grid_pathfinder::heuristics::Heuristics;
use grid_pathfinder::maze_algorithms::MazeAlgorithmConfig;
use grid_pathfinder::maze_generation_types::{MazeAlgorithms, MazeGenerationConfig};
use grid_pathfinder::pathfinding_algorithms::AlgorithmState;
use grid_pathfinder::pathfinding_types::{PathAlgorithms, PathNodes, PathfinderConfig};

fn pos(row: usize, col: usize) -> GridNodePosition {
    GridNodePosition { row, col }
}

#[test]
fn manhattan_cost_sums_deltas() {
    assert_eq!(Heuristics::manhattan_cost(pos(2, 3), pos(5, 1)), 5);
    assert_eq!(Heuristics::manhattan_cost(pos(4, 4), pos(4, 4)), 0);
}

#[test]
fn chebyshev_and_octile_take_the_larger_delta() {
    assert_eq!(Heuristics::chebyshev_cost(pos(2, 3), pos(5, 1)), 3);
    assert_eq!(Heuristics::octile_cost(pos(2, 3), pos(5, 1)), 3);
    assert_eq!(
        Heuristics::chebyshev_cost(pos(0, 9), pos(0, 2)),
        Heuristics::octile_cost(pos(0, 9), pos(0, 2))
    );
}

#[test]
fn euclidean_cost_is_squared() {
    assert_eq!(Heuristics::euclidean_cost(pos(2, 3), pos(5, 1)), 13);
    assert_eq!(Heuristics::hamming_cost(pos(2, 3), pos(5, 1)), 13);
}

/// The dispatcher always evaluates the squared-Euclidean metric,
/// whichever strategy is nominally selected.
#[test]
fn target_cost_is_always_squared_euclidean() {
    assert_eq!(
        Heuristics::target_cost(pos(2, 3), pos(5, 1)),
        Heuristics::euclidean_cost(pos(2, 3), pos(5, 1))
    );
    assert_eq!(Heuristics::target_cost(pos(1, 1), pos(1, 5)), 16);
}

#[test]
fn path_nodes_carry_costs_and_compare_by_position() {
    let n = PathNodes::new(3, pos(1, 5), pos(1, 2), Some(pos(1, 1)));
    assert_eq!(n.cost_from_start, 3);
    assert_eq!(n.cost_to_target, 9);
    assert_eq!(n.total_cost, 12);
    assert_eq!(n.position, pos(1, 2));
    assert_eq!(n.parent, Some(pos(1, 1)));
    let same_place = PathNodes::reduced(pos(1, 2));
    assert!(n == same_place);
    assert!(n != PathNodes::empty());
    assert_eq!(PathNodes::empty().position, pos(0, 0));
    assert_eq!(PathNodes::reduced(pos(7, 8)).total_cost, 0);
}

#[test]
fn config_defaults() {
    let config = PathfinderConfig::new();
    assert!(!config.is_bidirectional);
    assert!(!config.allow_diagonal);
    let maze_config = MazeGenerationConfig::new();
    assert_eq!(maze_config.algorithm_state, grid_pathfinder::maze_generation_types::MazeAlgorithmState::Initialization);
    assert!(maze_config.open_list.is_empty());
    let bundle = MazeAlgorithmConfig::new();
    assert_eq!(bundle.algorithm_state, AlgorithmState::INITIALIZATION);
    assert!(bundle.get_open_nodes().is_empty());
    assert!(bundle.get_closed_nodes().is_empty());
}

#[test]
fn algorithm_variant_enums_compare() {
    assert!(PathAlgorithms::Astar != PathAlgorithms::BFS);
    assert!(MazeAlgorithms::RecursiveBacktrace != MazeAlgorithms::Random);
}
