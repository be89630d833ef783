//! The lattice of fluid and obstacle cells, and the rule by which fluid
//! streams from cell to cell.

use vstd::prelude::*;
use ndarray::Array2;
use crate::lattice_state::Cell;
use crate::lattice_state::E_I;
use crate::lattice_state::OPPOSITE;
use crate::lattice_state::lemma_opposite_involution;
use crate::lattice_state::lemma_opposite_reverses;
use crate::lattice_state::lemma_steps_distinct;
use crate::obstacle_board::ObstacleBoard;

verus! {

/// A two-dimensional array of cells: an `ndarray::Array2`, whose contents
/// are known only through `cells` and the three functions below.
#[verifier::external_body]
pub struct CellGrid {
    inner: Array2<Cell>,
}

/// The cells that an array holds: one sequence for each index of the first
/// axis, which holds the cells along the second axis.
pub uninterp spec fn cells(a: CellGrid) -> Seq<Seq<Cell>>;

/// `Array2::from_elem`: an array of `rows` by `cols` cells, each equal to
/// `fill`. The constructor panics where the number of cells exceeds
/// `isize::MAX`.
#[verifier::external_body]
fn cells_from_elem(rows: usize, cols: usize, fill: Cell) -> (a: CellGrid)
    requires
        rows >= 1,
        cols >= 1,
        rows * cols <= isize::MAX,
    ensures
        cells(a) == Seq::new(rows as nat, |i: int| Seq::new(cols as nat, |j: int| fill)),
{
    CellGrid { inner: Array2::from_elem((rows, cols), fill) }
}

/// Indexing an array by `[i, j]`: the cell at that place, which must exist
/// (indexing panics out of bounds).
#[verifier::external_body]
fn cells_get(a: &CellGrid, i: usize, j: usize) -> (c: Cell)
    requires
        i < cells(*a).len(),
        j < cells(*a)[i as int].len(),
    ensures
        c == cells(*a)[i as int][j as int],
{
    a.inner[[i, j]]
}

/// Assigning to an array at `[i, j]`: the cell at that place, which must
/// exist, becomes `c`, and every other cell stays.
#[verifier::external_body]
fn cells_set(a: &mut CellGrid, i: usize, j: usize, c: Cell)
    requires
        i < cells(*old(a)).len(),
        j < cells(*old(a))[i as int].len(),
    ensures
        cells(*final(a)) == cells(*old(a)).update(
            i as int,
            cells(*old(a))[i as int].update(j as int, c),
        ),
    no_unwind
{
    a.inner[[i, j]] = c;
}

/// One of the nine components of the fluid in one cell: the fluid of cell
/// `(i, j)` that moves in direction `q`.
#[derive(Copy, Clone, Debug, PartialEq, Eq, Structural)]
pub struct Slot {
    pub i: usize,
    pub j: usize,
    pub q: usize,
}

/// One move of a streaming step: what slot `from` holds before the step is
/// added to slot `to` of the grid after the step.
#[derive(Copy, Clone, Debug, PartialEq, Eq, Structural)]
pub struct Deposit {
    pub from: Slot,
    pub to: Slot,
}

/// The index below `n` that `i` denotes on an axis of `n` cells that closes
/// on itself: index `n` is index zero again, and index `-1` is index `n - 1`.
pub open spec fn wrap(i: int, n: int) -> int
    recommends
        n > 0,
{
    i % n
}

/// The cell one step in direction `dir` from `cell`, on a grid of `shape`
/// cells whose two axes close on themselves.
pub open spec fn neighbor(cell: (usize, usize), dir: usize, shape: (usize, usize)) -> (
    usize,
    usize,
)
    recommends
        dir < 9,
        shape.0 > 0,
        shape.1 > 0,
{
    (
        wrap(cell.0 + E_I[dir as int].0, shape.0 as int) as usize,
        wrap(cell.1 + E_I[dir as int].1, shape.1 as int) as usize,
    )
}

/// On an axis of `n` cells, a step of at most one cell from index `i` leads
/// to the index next to it, and past either end to the other end.
pub proof fn lemma_wrap_step(i: int, d: int, n: int)
    requires
        0 <= i < n,
        -1 <= d <= 1,
    ensures
        0 <= wrap(i + d, n) < n,
        wrap(i + d, n) == if i + d < 0 {
            n - 1
        } else if i + d >= n {
            0
        } else {
            i + d
        },
{
    if i + d < 0 {
        vstd::arithmetic::div_mod::lemma_fundamental_div_mod_converse(i + d, n, -1, n - 1);
    } else if i + d >= n {
        vstd::arithmetic::div_mod::lemma_fundamental_div_mod_converse(i + d, n, 1, 0);
    } else {
        vstd::arithmetic::div_mod::lemma_small_mod((i + d) as nat, n as nat);
    }
}

/// A step and then the reverse step lead back to the index they began at.
pub proof fn lemma_wrap_back(i: int, d: int, n: int)
    requires
        0 <= i < n,
        -1 <= d <= 1,
    ensures
        wrap(wrap(i + d, n) - d, n) == i,
{
    lemma_wrap_step(i, d, n);
    lemma_wrap_step(wrap(i + d, n), -d, n);
}

/// The lattice of a simulation: which cells hold fluid and which are
/// obstacles, as laid out by an obstacle board.
pub struct LBFluidSim {
    states_curr: CellGrid,
    obstacle_board: ObstacleBoard,
    shape: (usize, usize),
}

impl LBFluidSim {
    /// Holds of every lattice: it has the shape of its board, and a cell is
    /// an obstacle exactly where the board marks it blocked.
    #[verifier::type_invariant]
    pub closed spec fn wf(&self) -> bool {
        &&& self.obstacle_board.wf()
        &&& self.shape == self.obstacle_board.dims()
        &&& cells(self.states_curr).len() == self.shape.0
        &&& forall|i: int|
            0 <= i < self.shape.0 ==> (#[trigger] cells(self.states_curr)[i]).len()
                == self.shape.1
        &&& forall|i: int, j: int|
            0 <= i < self.shape.0 && 0 <= j < self.shape.1 ==> (cells(self.states_curr)[i][j]
                == Cell::Obstacle <==> #[trigger] self.obstacle_board.blocked(i, j))
    }

    /// The number of cells along each of the two axes.
    pub closed spec fn dims(&self) -> (usize, usize) {
        self.shape
    }

    /// The board that laid out the obstacles.
    pub closed spec fn board(&self) -> ObstacleBoard {
        self.obstacle_board
    }

    /// The kind of cell `(i, j)`.
    pub closed spec fn cell(&self, i: int, j: int) -> Cell {
        cells(self.states_curr)[i][j]
    }

    /// Whether `(i, j)` names a cell of the grid.
    pub open spec fn in_grid(&self, i: int, j: int) -> bool {
        0 <= i < self.dims().0 && 0 <= j < self.dims().1
    }

    /// Whether `(i, j)` names a cell of the grid that holds fluid.
    pub open spec fn is_fluid(&self, i: int, j: int) -> bool {
        self.in_grid(i, j) && self.cell(i, j) == Cell::Fluid
    }

    /// Whether `s` is a component of a cell that holds fluid.
    pub open spec fn fluid_slot(&self, s: Slot) -> bool {
        self.is_fluid(s.i as int, s.j as int) && s.q < 9
    }

    /// Where a streaming step moves what slot `s` holds. Fluid that moves
    /// towards a cell that holds fluid arrives there, still moving in its
    /// direction. Fluid that moves towards an obstacle bounces back: it stays
    /// in its cell and moves in the opposite direction.
    pub open spec fn target(&self, s: Slot) -> Slot {
        let n = neighbor((s.i, s.j), s.q, self.dims());
        if self.is_fluid(n.0 as int, n.1 as int) {
            Slot { i: n.0, j: n.1, q: s.q }
        } else {
            Slot { i: s.i, j: s.j, q: OPPOSITE[s.q as int] }
        }
    }

    /// Where a streaming step takes from what it moves into slot `t`: from
    /// the cell one step behind, if that cell holds fluid, and else from the
    /// component of the same cell that moved towards the obstacle behind.
    pub open spec fn source(&self, t: Slot) -> Slot {
        let b = neighbor((t.i, t.j), OPPOSITE[t.q as int], self.dims());
        if self.is_fluid(b.0 as int, b.1 as int) {
            Slot { i: b.0, j: b.1, q: t.q }
        } else {
            Slot { i: t.i, j: t.j, q: OPPOSITE[t.q as int] }
        }
    }

    /// The slot with number `n` in the order of a sweep over the grid: cell
    /// by cell along the second axis, then along the first, and within a cell
    /// direction by direction.
    pub open spec fn slot_at(&self, n: int) -> Slot {
        Slot {
            i: (n / 9 / (self.dims().1 as int)) as usize,
            j: ((n / 9) % (self.dims().1 as int)) as usize,
            q: (n % 9) as usize,
        }
    }

    /// The moves that a streaming step makes for the first `n` slots of a
    /// sweep: one for each slot of a cell that holds fluid, in the order of
    /// the sweep, and none for an obstacle.
    pub open spec fn deposits(&self, n: nat) -> Seq<Deposit>
        decreases n,
    {
        if n == 0 {
            Seq::empty()
        } else {
            let s = self.slot_at(n - 1);
            let before = self.deposits((n - 1) as nat);
            if self.fluid_slot(s) {
                before.push(Deposit { from: s, to: self.target(s) })
            } else {
                before
            }
        }
    }

    /// The number of slots of the grid, obstacles included.
    pub open spec fn slot_count(&self) -> nat {
        (self.dims().0 * self.dims().1 * 9) as nat
    }

    /// The moves of one streaming step over the whole grid, in the order of
    /// the sweep.
    pub open spec fn plan(&self) -> Seq<Deposit> {
        self.deposits(self.slot_count())
    }

    /// The lattice that `obstacle_board` lays out: an obstacle where the
    /// board marks a cell blocked, and fluid everywhere else.
    pub fn new(obstacle_board: ObstacleBoard) -> (sim: Self)
        ensures
            sim.wf(),
            sim.board() == obstacle_board,
            sim.dims() == obstacle_board.dims(),
            forall|i: int, j: int|
                sim.in_grid(i, j) ==> #[trigger] sim.cell(i, j) == if obstacle_board.blocked(
                    i,
                    j,
                ) {
                    Cell::Obstacle
                } else {
                    Cell::Fluid
                },
    {
        proof {
            use_type_invariant(&obstacle_board);
            obstacle_board.lemma_wf();
        }
        let shape = obstacle_board.grid_stats().shape();
        let mut states_curr = cells_from_elem(shape.0, shape.1, Cell::Obstacle);
        let mut i: usize = 0;
        while i < shape.0
            invariant
                i <= shape.0,
                shape == obstacle_board.dims(),
                cells(states_curr).len() == shape.0,
                forall|a: int|
                    0 <= a < shape.0 ==> (#[trigger] cells(states_curr)[a]).len() == shape.1,
                forall|a: int, b: int|
                    0 <= a < i && 0 <= b < shape.1 ==> (cells(states_curr)[a][b] == Cell::Obstacle
                        <==> #[trigger] obstacle_board.blocked(a, b)),
                forall|a: int, b: int|
                    0 <= a < i && 0 <= b < shape.1 ==> (cells(states_curr)[a][b] == Cell::Fluid
                        <==> !#[trigger] obstacle_board.blocked(a, b)),
            decreases shape.0 - i,
        {
            let mut j: usize = 0;
            while j < shape.1
                invariant
                    i < shape.0,
                    j <= shape.1,
                    shape == obstacle_board.dims(),
                    cells(states_curr).len() == shape.0,
                    forall|a: int|
                        0 <= a < shape.0 ==> (#[trigger] cells(states_curr)[a]).len() == shape.1,
                    forall|a: int, b: int|
                        (0 <= a < i && 0 <= b < shape.1) || (a == i && 0 <= b < j) ==> (cells(
                            states_curr,
                        )[a][b] == Cell::Obstacle <==> #[trigger] obstacle_board.blocked(a, b)),
                    forall|a: int, b: int|
                        (0 <= a < i && 0 <= b < shape.1) || (a == i && 0 <= b < j) ==> (cells(
                            states_curr,
                        )[a][b] == Cell::Fluid <==> !#[trigger] obstacle_board.blocked(a, b)),
                decreases shape.1 - j,
            {
                if obstacle_board.exist_obstacle(i, j) {
                    cells_set(&mut states_curr, i, j, Cell::Obstacle);
                } else {
                    cells_set(&mut states_curr, i, j, Cell::Fluid);
                }
                j = j + 1;
            }
            i = i + 1;
        }
        LBFluidSim { states_curr, obstacle_board, shape }
    }

    /// The number of cells along each of the two axes.
    pub fn shape(&self) -> (s: (usize, usize))
        ensures
            s == self.dims(),
            shape_bounds(s),
    {
        proof {
            use_type_invariant(self);
            self.lemma_wf();
        }
        self.shape
    }

    /// The board that laid out the obstacles.
    pub fn obstacle_board(&self) -> (board: &ObstacleBoard)
        ensures
            *board == self.board(),
            board.wf(),
            board.dims() == self.dims(),
    {
        proof {
            use_type_invariant(self);
        }
        &self.obstacle_board
    }

    /// The kind of cell `(i, j)`.
    pub fn state(&self, i: usize, j: usize) -> (c: Cell)
        requires
            self.in_grid(i as int, j as int),
        ensures
            c == self.cell(i as int, j as int),
            c == Cell::Obstacle <==> self.board().blocked(i as int, j as int),
    {
        proof {
            use_type_invariant(self);
        }
        cells_get(&self.states_curr, i, j)
    }

    /// The index below `n` that `i` denotes on an axis of `n` cells that
    /// closes on itself.
    pub fn idx_wrap(i: isize, n: usize) -> (r: usize)
        requires
            0 < n <= isize::MAX,
        ensures
            r == wrap(i as int, n as int),
            r < n,
    {
        proof {
            vstd::arithmetic::div_mod::lemma_mod_bound(i as int, n as int);
        }
        let r = i.checked_rem_euclid(n as isize);
        r.unwrap() as usize
    }

    /// The cell one step in direction `dir` from `cell`, on a grid of `shape`
    /// cells whose two axes close on themselves.
    pub fn neighbor_coord(cell: (usize, usize), dir: usize, shape: (usize, usize)) -> (n: (
        usize,
        usize,
    ))
        requires
            dir < 9,
            0 < shape.0 <= isize::MAX,
            0 < shape.1 <= isize::MAX,
            cell.0 < isize::MAX,
            cell.1 < isize::MAX,
        ensures
            n == neighbor(cell, dir, shape),
            n.0 < shape.0,
            n.1 < shape.1,
    {
        let step = E_I[dir];
        let ni = Self::idx_wrap(cell.0 as isize + step.0, shape.0);
        let nj = Self::idx_wrap(cell.1 as isize + step.1, shape.1);
        (ni, nj)
    }

    /// Where a streaming step moves the fluid of cell `(i, j)` that moves in
    /// direction `q`; nothing for an obstacle, which holds no fluid.
    pub fn stream_target(&self, i: usize, j: usize, q: usize) -> (to: Option<Slot>)
        requires
            self.in_grid(i as int, j as int),
            q < 9,
        ensures
            to == if self.is_fluid(i as int, j as int) {
                Some(self.target(Slot { i, j, q }))
            } else {
                None
            },
    {
        proof {
            use_type_invariant(self);
            self.lemma_wf();
        }
        match cells_get(&self.states_curr, i, j) {
            Cell::Obstacle => None,
            Cell::Fluid => {
                let n = Self::neighbor_coord((i, j), q, self.shape);
                match cells_get(&self.states_curr, n.0, n.1) {
                    Cell::Obstacle => Some(Slot { i, j, q: OPPOSITE[q] }),
                    Cell::Fluid => Some(Slot { i: n.0, j: n.1, q }),
                }
            },
        }
    }

    /// The moves of one streaming step over the whole grid, in the order of
    /// the sweep. What each `from` slot holds before the step is to be added
    /// to the `to` slot of a grid whose fluid was set to zero.
    pub fn stream(&self) -> (plan: Vec<Deposit>)
        ensures
            plan@ == self.plan(),
    {
        let shape = self.shape();
        let mut plan: Vec<Deposit> = Vec::new();
        let mut i: usize = 0;
        while i < shape.0
            invariant
                i <= shape.0,
                shape == self.dims(),
                shape_bounds(shape),
                plan@ == self.deposits((i * shape.1 * 9) as nat),
            decreases shape.0 - i,
        {
            let mut j: usize = 0;
            while j < shape.1
                invariant
                    i < shape.0,
                    j <= shape.1,
                    shape == self.dims(),
                    shape_bounds(shape),
                    plan@ == self.deposits(((i * shape.1 + j) * 9) as nat),
                decreases shape.1 - j,
            {
                let mut q: usize = 0;
                while q < 9
                    invariant
                        i < shape.0,
                        j < shape.1,
                        q <= 9,
                        shape == self.dims(),
                        shape_bounds(shape),
                        plan@ == self.deposits(((i * shape.1 + j) * 9 + q) as nat),
                    decreases 9 - q,
                {
                    proof {
                        lemma_slot_number(i as int, j as int, q as int, shape.1 as int);
                    }
                    match self.stream_target(i, j, q) {
                        Some(to) => {
                            plan.push(Deposit { from: Slot { i, j, q }, to });
                        },
                        None => {},
                    }
                    q = q + 1;
                }
                proof {
                    assert((i * shape.1 + j) * 9 + 9 == (i * shape.1 + (j + 1)) * 9)
                        by (nonlinear_arith);
                }
                j = j + 1;
            }
            proof {
                assert((i * shape.1 + shape.1) * 9 == (i + 1) * shape.1 * 9) by (nonlinear_arith);
            }
            i = i + 1;
        }
        plan
    }

    /// What validity says in terms of `dims`, `board` and `cell`.
    pub proof fn lemma_wf(&self)
        requires
            self.wf(),
        ensures
            self.board().wf(),
            self.dims() == self.board().dims(),
            shape_bounds(self.dims()),
            forall|i: int, j: int|
                self.in_grid(i, j) ==> (self.cell(i, j) == Cell::Obstacle
                    <==> #[trigger] self.board().blocked(i, j)),
            forall|i: int, j: int|
                self.in_grid(i, j) ==> (#[trigger] self.is_fluid(i, j) <==> !self.board().blocked(
                    i,
                    j,
                )),
    {
        self.obstacle_board.lemma_wf();
        lemma_shape_bounds(self.shape);
    }
}

impl LBFluidSim {
    /// The number of slot `s` in the order of a sweep.
    pub open spec fn number_of(&self, s: Slot) -> int {
        (s.i * self.dims().1 + s.j) * 9 + s.q
    }

    /// What a streaming step moves never enters an obstacle: the target of a
    /// slot of a fluid cell is a slot of a fluid cell. And the step takes
    /// what it moves there from that slot alone.
    pub proof fn lemma_source_of_target(&self, s: Slot)
        requires
            self.wf(),
            self.fluid_slot(s),
        ensures
            self.fluid_slot(self.target(s)),
            self.source(self.target(s)) == s,
    {
        self.lemma_wf();
        let shape = self.dims();
        let q = s.q as int;
        lemma_opposite_involution(q);
        lemma_opposite_reverses(q);
        lemma_steps_distinct(q, q);
        lemma_wrap_step(s.i as int, E_I[q].0 as int, shape.0 as int);
        lemma_wrap_step(s.j as int, E_I[q].1 as int, shape.1 as int);
        lemma_wrap_back(s.i as int, E_I[q].0 as int, shape.0 as int);
        lemma_wrap_back(s.j as int, E_I[q].1 as int, shape.1 as int);
    }

    /// Every slot of a fluid cell is filled by a streaming step: it is the
    /// target of its source, which is a slot of a fluid cell.
    pub proof fn lemma_target_of_source(&self, t: Slot)
        requires
            self.wf(),
            self.fluid_slot(t),
        ensures
            self.fluid_slot(self.source(t)),
            self.target(self.source(t)) == t,
    {
        self.lemma_wf();
        let shape = self.dims();
        let q = t.q as int;
        let back = OPPOSITE[q] as int;
        lemma_opposite_involution(q);
        lemma_opposite_reverses(q);
        lemma_steps_distinct(back, back);
        lemma_wrap_step(t.i as int, E_I[back].0 as int, shape.0 as int);
        lemma_wrap_step(t.j as int, E_I[back].1 as int, shape.1 as int);
        lemma_wrap_back(t.i as int, E_I[back].0 as int, shape.0 as int);
        lemma_wrap_back(t.j as int, E_I[back].1 as int, shape.1 as int);
    }

    /// No two slots stream into the same slot.
    pub proof fn lemma_target_injective(&self, a: Slot, b: Slot)
        requires
            self.wf(),
            self.fluid_slot(a),
            self.fluid_slot(b),
            self.target(a) == self.target(b),
        ensures
            a == b,
    {
        self.lemma_source_of_target(a);
        self.lemma_source_of_target(b);
    }

    /// Bounce-back: the fluid of a cell that moves towards an obstacle stays
    /// in the cell and takes the opposite direction. The slot it arrives in
    /// receives nothing else, so it gains exactly that amount.
    pub proof fn lemma_bounce_back(&self, s: Slot, other: Slot)
        requires
            self.wf(),
            self.fluid_slot(s),
            !self.is_fluid(
                neighbor((s.i, s.j), s.q, self.dims()).0 as int,
                neighbor((s.i, s.j), s.q, self.dims()).1 as int,
            ),
            self.fluid_slot(other),
            self.target(other) == self.target(s),
        ensures
            self.target(s) == (Slot { i: s.i, j: s.j, q: OPPOSITE[s.q as int] }),
            other == s,
    {
        self.lemma_target_injective(s, other);
    }

    /// Periodicity: on a grid without obstacles every component moves one
    /// step in its own direction, and what leaves the grid on one side enters
    /// it on the other, along either axis.
    pub proof fn lemma_periodic(&self, s: Slot)
        requires
            self.wf(),
            self.fluid_slot(s),
            forall|i: int, j: int| self.in_grid(i, j) ==> #[trigger] self.is_fluid(i, j),
        ensures
            self.target(s).q == s.q,
            self.target(s).i == if s.i + E_I[s.q as int].0 < 0 {
                self.dims().0 - 1
            } else if s.i + E_I[s.q as int].0 >= self.dims().0 {
                0
            } else {
                s.i + E_I[s.q as int].0
            },
            self.target(s).j == if s.j + E_I[s.q as int].1 < 0 {
                self.dims().1 - 1
            } else if s.j + E_I[s.q as int].1 >= self.dims().1 {
                0
            } else {
                s.j + E_I[s.q as int].1
            },
    {
        self.lemma_wf();
        let shape = self.dims();
        let q = s.q as int;
        lemma_steps_distinct(q, q);
        lemma_wrap_step(s.i as int, E_I[q].0 as int, shape.0 as int);
        lemma_wrap_step(s.j as int, E_I[q].1 as int, shape.1 as int);
        let n = neighbor((s.i, s.j), s.q, shape);
        assert(self.is_fluid(n.0 as int, n.1 as int));
    }
}

/// What holds of the shape of every lattice: at least two cells along each
/// axis, and no more cells than can be addressed.
pub open spec fn shape_bounds(shape: (usize, usize)) -> bool {
    &&& 2 <= shape.0 <= isize::MAX
    &&& 2 <= shape.1 <= isize::MAX
    &&& shape.0 * shape.1 <= isize::MAX
}

/// The slot with number `(i * cols + j) * 9 + q` is component `q` of cell
/// `(i, j)`.
pub(crate) proof fn lemma_slot_number(i: int, j: int, q: int, cols: int)
    requires
        0 <= i,
        0 <= j < cols,
        0 <= q < 9,
    ensures
        (i * cols + j) * 9 + q >= 0,
        ((i * cols + j) * 9 + q) % 9 == q,
        ((i * cols + j) * 9 + q) / 9 == i * cols + j,
        (i * cols + j) / cols == i,
        (i * cols + j) % cols == j,
{
    assert(i * cols >= 0) by (nonlinear_arith)
        requires
            i >= 0,
            cols > 0,
    ;
    vstd::arithmetic::div_mod::lemma_fundamental_div_mod_converse(
        (i * cols + j) * 9 + q,
        9,
        i * cols + j,
        q,
    );
    vstd::arithmetic::div_mod::lemma_fundamental_div_mod_converse(i * cols + j, cols, i, j);
}

proof fn lemma_shape_bounds(shape: (usize, usize))
    requires
        shape.0 >= 2,
        shape.1 >= 2,
        shape.0 * shape.1 <= isize::MAX,
    ensures
        shape_bounds(shape),
{
    assert(shape.0 <= shape.0 * shape.1 && shape.1 <= shape.0 * shape.1) by (nonlinear_arith)
        requires
            shape.0 >= 2,
            shape.1 >= 2,
    ;
}

} // verus!
