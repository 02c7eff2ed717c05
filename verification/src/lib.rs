//! A stepwise pathfinding and maze-generation engine over a 2-D grid.
//!
//! The grid classifies each position as a wall, an anchor (start or target),
//! or transient search state (frontier, visited, chosen path), and tracks a
//! diff of touched positions for incremental repainting.  Search and maze
//! engines advance one bounded unit of work per `next_step` call, driven by
//! an external host.

pub mod assoc;
pub mod chain;
pub mod grid;
pub mod heuristics;
pub mod pathfinding_types;
pub mod astar;
pub mod pathfinding_algorithms;
pub mod maze_generation_types;
pub mod recursive_backtrace;
pub mod recursive_subdivision;
pub mod maze_algorithms;
pub mod grid_axis;
pub mod greedy_best_first;
pub mod jump_point;

pub use grid::GridNodePosition;
