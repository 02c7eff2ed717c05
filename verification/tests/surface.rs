use grid_pathfinder::greedy_best_first::GreedyBestFirstSearch;
use grid_pathfinder::grid::{Grid, GridNodePosition, GridNodeType, GridWidgetData, Interaction};
use grid_pathfinder::grid_axis::{GridNodes, GridPos};
use grid_pathfinder::jump_point::JumpPoint;

fn pos(row: usize, col: usize) -> GridNodePosition {
    GridNodePosition { row, col }
}

#[test]
fn widget_data_wraps_grid_with_defaults() {
    let grid = Grid::new(pos(1, 1), pos(1, 3), 3, 5);
    let data = GridWidgetData::new(grid);
    assert_eq!(data.interaction_state, Interaction::Idle);
    assert_eq!(data.selected_tool, GridNodeType::Wall);
    assert!(data.show_grid_axis);
    assert_eq!(data.selected_net, 1);
    assert_eq!(data.grid.len(), 2);
}

#[test]
fn variant_engines_construct() {
    let _ = GreedyBestFirstSearch::new();
    let _ = JumpPoint::new();
}

#[test]
fn axis_grid_types_compare() {
    let a = GridPos { row: 1, col: 2 };
    let b = GridPos { row: 1, col: 2 };
    assert_eq!(a, b);
    assert!(GridNodes::Wall != GridNodes::StartNode(1));
    assert!(GridNodes::SteinerNode(2) == GridNodes::SteinerNode(2));
    assert!(GridNodes::OpenPath(1) != GridNodes::ClosedPath(1));
    assert!(GridNodes::EndNode(1) != GridNodes::ChosenPath(1));
}
