//! The nine directions of the lattice and the two kinds of cell.

use vstd::prelude::*;

verus! {

/// The number of directions in which a cell's fluid moves: one at rest,
/// four along the axes and four along the diagonals.
pub const DIRECTIONS: usize = 9;

/// For each direction, the step that it takes along the two axes.
pub const E_I: [(isize, isize); 9] = [
    (0, 0),
    (1, 0),
    (0, 1),
    (-1, 0),
    (0, -1),
    (1, 1),
    (-1, 1),
    (-1, -1),
    (1, -1),
];

/// For each direction, the direction that points the other way.
pub const OPPOSITE: [usize; 9] = [0, 3, 4, 1, 2, 7, 8, 5, 6];

/// For each direction, its weight in the equilibrium distribution, in units
/// of one part in `WEIGHT_PARTS`.
pub const WEIGHT_NUMERATORS: [u8; 9] = [16, 4, 4, 4, 4, 1, 1, 1, 1];

/// The number of parts that the weights are measured in.
pub const WEIGHT_PARTS: u8 = 36;

/// A cell of the lattice: it holds fluid, or it is part of a solid obstacle.
#[derive(Copy, Clone, Debug, PartialEq, Eq, Structural)]
pub enum Cell {
    Fluid,
    Obstacle,
}

impl Default for Cell {
    /// A cell is an obstacle until it is given fluid.
    fn default() -> (c: Self)
        ensures
            c == Cell::Obstacle,
    {
        Cell::Obstacle
    }
}

/// The sum of `term(q)` over the nine directions `q`.
pub open spec fn sum_over_directions(term: spec_fn(int) -> int) -> int {
    term(0) + term(1) + term(2) + term(3) + term(4) + term(5) + term(6) + term(7) + term(8)
}

/// The opposite of a direction is a direction, and the opposite of the
/// opposite is the direction itself. The direction at rest is its own
/// opposite.
pub proof fn lemma_opposite_involution(q: int)
    requires
        0 <= q < 9,
    ensures
        OPPOSITE[q] < 9,
        OPPOSITE[OPPOSITE[q] as int] == q,
        OPPOSITE[q] == q <==> q == 0,
{
}

/// The opposite direction takes the reverse step along both axes, and has
/// the same weight.
pub proof fn lemma_opposite_reverses(q: int)
    requires
        0 <= q < 9,
    ensures
        E_I[OPPOSITE[q] as int].0 == -E_I[q].0,
        E_I[OPPOSITE[q] as int].1 == -E_I[q].1,
        WEIGHT_NUMERATORS[OPPOSITE[q] as int] == WEIGHT_NUMERATORS[q],
{
}

/// Every step moves by at most one cell along each axis; only the direction
/// at rest does not move, and no two directions take the same step.
pub proof fn lemma_steps_distinct(q: int, r: int)
    requires
        0 <= q < 9,
        0 <= r < 9,
    ensures
        -1 <= E_I[q].0 <= 1,
        -1 <= E_I[q].1 <= 1,
        E_I[q] == (0isize, 0isize) <==> q == 0,
        E_I[q] == E_I[r] ==> q == r,
{
}

/// The weights add up to one. Weighted by them, the steps average to zero
/// along each axis, their squares to one third along each axis, and the
/// product of the two components to zero.
pub proof fn lemma_weight_moments()
    ensures
        sum_over_directions(|q: int| WEIGHT_NUMERATORS[q] as int) == WEIGHT_PARTS,
        sum_over_directions(|q: int| WEIGHT_NUMERATORS[q] * E_I[q].0) == 0,
        sum_over_directions(|q: int| WEIGHT_NUMERATORS[q] * E_I[q].1) == 0,
        3 * sum_over_directions(|q: int| WEIGHT_NUMERATORS[q] * E_I[q].0 * E_I[q].0)
            == WEIGHT_PARTS,
        3 * sum_over_directions(|q: int| WEIGHT_NUMERATORS[q] * E_I[q].1 * E_I[q].1)
            == WEIGHT_PARTS,
        sum_over_directions(|q: int| WEIGHT_NUMERATORS[q] * E_I[q].0 * E_I[q].1) == 0,
{
}

} // verus!
