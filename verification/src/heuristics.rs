//! Distance heuristics estimating the cost between two grid cells.
//!
//! Four named strategies exist, but the dispatcher always evaluates the
//! squared-Euclidean metric, whichever strategy is nominally selected,
//! and two of the named strategies compute identical results.  That looks
//! like an unfinished per-strategy dispatch; it is kept as observed
//! rather than silently rewired, pending a product decision.

use vstd::prelude::*;

use crate::grid::GridNodePosition;

verus! {

/// The absolute difference of two integers.
pub open spec fn abs_diff(a: int, b: int) -> int {
    if a >= b {
        a - b
    } else {
        b - a
    }
}

/// The larger of two integers.
pub open spec fn max_int(a: int, b: int) -> int {
    if a >= b {
        a
    } else {
        b
    }
}

/// Sum of the absolute row and column deltas.
pub open spec fn manhattan_spec(current: GridNodePosition, target: GridNodePosition) -> int {
    abs_diff(current.col as int, target.col as int) + abs_diff(
        current.row as int,
        target.row as int,
    )
}

/// The larger of the absolute row and column deltas.
pub open spec fn chebyshev_spec(current: GridNodePosition, target: GridNodePosition) -> int {
    max_int(
        abs_diff(current.col as int, target.col as int),
        abs_diff(current.row as int, target.row as int),
    )
}

/// Sum of the squared row and column deltas (squared Euclidean distance,
/// deliberately integer).
pub open spec fn squared_euclidean_spec(
    current: GridNodePosition,
    target: GridNodePosition,
) -> int {
    abs_diff(current.col as int, target.col as int) * abs_diff(
        current.col as int,
        target.col as int,
    ) + abs_diff(current.row as int, target.row as int) * abs_diff(
        current.row as int,
        target.row as int,
    )
}

/// A position whose coordinates stay within the supported grid extent, so
/// cost arithmetic cannot overflow.
pub open spec fn coord_bounded(p: GridNodePosition) -> bool {
    p.row <= 0x100000 && p.col <= 0x100000
}

/// The named distance strategies.
#[derive(Copy, Clone, Eq, PartialEq, Ord, PartialOrd, Debug, Structural)]
pub enum Heuristics {
    Manhattan,
    Euclidean,
    Octile,
    Chebyshev,
}

impl Heuristics {
    /// The cost estimate the engine actually uses: always the
    /// squared-Euclidean metric, regardless of the selected strategy.
    pub fn target_cost(current: GridNodePosition, target: GridNodePosition) -> (r: i64)
        requires
            coord_bounded(current),
            coord_bounded(target),
        ensures
            r == squared_euclidean_spec(current, target),
            0 <= r <= 0x200_0000_0000,
    {
        Heuristics::euclidean_cost(current, target)
    }

    /// Sum of absolute row and column deltas.
    pub fn manhattan_cost(current: GridNodePosition, target: GridNodePosition) -> (r: i64)
        requires
            coord_bounded(current),
            coord_bounded(target),
        ensures
            r == manhattan_spec(current, target),
            0 <= r <= 0x40_0000,
    {
        let current_x = current.col as i64;
        let current_y = current.row as i64;
        let target_x = target.col as i64;
        let target_y = target.row as i64;
        abs_i64(current_x - target_x) + abs_i64(current_y - target_y)
    }

    /// The larger absolute delta; identical to `chebyshev_cost`.
    pub fn octile_cost(current: GridNodePosition, target: GridNodePosition) -> (r: i64)
        requires
            coord_bounded(current),
            coord_bounded(target),
        ensures
            r == chebyshev_spec(current, target),
            0 <= r <= 0x10_0000,
    {
        let current_x = current.col as i64;
        let current_y = current.row as i64;
        let target_x = target.col as i64;
        let target_y = target.row as i64;
        let dx = abs_i64(current_x - target_x);
        let dy = abs_i64(current_y - target_y);
        if dx >= dy {
            dx
        } else {
            dy
        }
    }

    /// The larger absolute delta.
    pub fn chebyshev_cost(current: GridNodePosition, target: GridNodePosition) -> (r: i64)
        requires
            coord_bounded(current),
            coord_bounded(target),
        ensures
            r == chebyshev_spec(current, target),
            0 <= r <= 0x10_0000,
    {
        let current_x = current.col as i64;
        let current_y = current.row as i64;
        let target_x = target.col as i64;
        let target_y = target.row as i64;
        let dx = abs_i64(current_x - target_x);
        let dy = abs_i64(current_y - target_y);
        if dx >= dy {
            dx
        } else {
            dy
        }
    }

    /// Sum of squared deltas.
    pub fn euclidean_cost(current: GridNodePosition, target: GridNodePosition) -> (r: i64)
        requires
            coord_bounded(current),
            coord_bounded(target),
        ensures
            r == squared_euclidean_spec(current, target),
            0 <= r <= 0x200_0000_0000,
    {
        let current_x = current.col as i64;
        let current_y = current.row as i64;
        let target_x = target.col as i64;
        let target_y = target.row as i64;
        let dx = abs_i64(current_x - target_x);
        let dy = abs_i64(current_y - target_y);
        proof {
            lemma_square_monotonic(dx as int, 0x100000);
            lemma_square_monotonic(dy as int, 0x100000);
        }
        dx * dx + dy * dy
    }

    /// Identical to `euclidean_cost`.
    pub fn hamming_cost(current: GridNodePosition, target: GridNodePosition) -> (r: i64)
        requires
            coord_bounded(current),
            coord_bounded(target),
        ensures
            r == squared_euclidean_spec(current, target),
            0 <= r <= 0x200_0000_0000,
    {
        let current_x = current.col as i64;
        let current_y = current.row as i64;
        let target_x = target.col as i64;
        let target_y = target.row as i64;
        let dx = abs_i64(current_x - target_x);
        let dy = abs_i64(current_y - target_y);
        proof {
            lemma_square_monotonic(dx as int, 0x100000);
            lemma_square_monotonic(dy as int, 0x100000);
        }
        dx * dx + dy * dy
    }
}

/// The squared-Euclidean estimate between bounded coordinates is
/// non-negative and fits comfortably in 64 bits.
pub proof fn lemma_squared_euclidean_bounds(
    current: GridNodePosition,
    target: GridNodePosition,
)
    requires
        coord_bounded(current),
        coord_bounded(target),
    ensures
        0 <= squared_euclidean_spec(current, target) <= 0x200_0000_0000,
{
    let dx = abs_diff(current.col as int, target.col as int);
    let dy = abs_diff(current.row as int, target.row as int);
    lemma_square_monotonic(dx, 0x100000);
    lemma_square_monotonic(dy, 0x100000);
    lemma_square_nonneg(dx);
    lemma_square_nonneg(dy);
}

/// A square is non-negative.
proof fn lemma_square_nonneg(a: int)
    by (nonlinear_arith)
    ensures
        a * a >= 0,
{
}

/// Squaring is monotonic on non-negative integers.
proof fn lemma_square_monotonic(a: int, b: int)
    by (nonlinear_arith)
    requires
        0 <= a <= b,
    ensures
        a * a <= b * b,
{
}

/// The absolute value of a (small) signed delta.
fn abs_i64(d: i64) -> (r: i64)
    requires
        d > i64::MIN,
    ensures
        r == abs_diff(d as int, 0),
{
    if d < 0 {
        -d
    } else {
        d
    }
}

} // verus!
