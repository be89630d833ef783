//! Grid shape and the mask of blocked cells, with the rasterizer that
//! draws walls into the mask.

use vstd::prelude::*;
use bit_vec::BitVec;
use crate::tup2::Tup2;

verus! {

/// `bit_vec::BitVec`, a vector of flags packed into blocks of type `B`.
#[verifier::external_type_specification]
#[verifier::external_body]
#[verifier::reject_recursive_types(B)]
pub struct ExBitVec<B>(BitVec<B>);

/// The flags that a bit vector holds, from index zero upwards.
pub uninterp spec fn flags(v: BitVec) -> Seq<bool>;

/// `BitVec::from_elem`: a bit vector of `len` flags, each equal to `bit`.
#[verifier::external_body]
fn flags_from_elem(len: usize, bit: bool) -> (v: BitVec)
    ensures
        flags(v) == Seq::new(len as nat, |k: int| bit),
{
    BitVec::from_elem(len, bit)
}

/// `BitVec::set`: overwrites the flag at index `i`, which must exist (the
/// method panics on an index past the end), and leaves every other flag.
#[verifier::external_body]
fn flags_set(v: &mut BitVec, i: usize, x: bool)
    requires
        i < flags(*old(v)).len(),
    ensures
        flags(*final(v)) == flags(*old(v)).update(i as int, x),
    no_unwind
{
    v.set(i, x)
}

/// `BitVec::get`: the flag at index `i`, or `None` for an index past the end.
#[verifier::external_body]
fn flags_get(v: &BitVec, i: usize) -> (r: Option<bool>)
    ensures
        r == if i < flags(*v).len() {
            Some(flags(*v)[i as int])
        } else {
            None
        },
{
    v.get(i)
}

/// Why a grid could not be described.
#[derive(Clone, Copy, Debug, PartialEq, Eq)]
pub enum GridError {
    /// One of the two dimensions is below two, so the grid has no spacing.
    DimensionTooSmall,
}

/// The shape of a rectangular grid of cells.
#[derive(Clone, Copy, Debug)]
pub struct GridStats {
    shape: (usize, usize),
    max_dim: usize,
}

/// Whether `shape` describes a grid: both dimensions at least two.
pub open spec fn shape_accepted(shape: (usize, usize)) -> bool {
    shape.0 >= 2 && shape.1 >= 2
}

/// The larger of the two index spans of `shape`.
pub open spec fn largest_span(shape: (usize, usize)) -> int {
    if shape.0 >= shape.1 {
        shape.0 - 1
    } else {
        shape.1 - 1
    }
}

impl GridStats {
    /// Holds of every value of this type: both dimensions are at least two,
    /// the cell count fits the address space, and the stored span is the
    /// larger index span.
    #[verifier::type_invariant]
    pub closed spec fn wf(self) -> bool {
        &&& shape_accepted(self.shape)
        &&& self.shape.0 * self.shape.1 <= isize::MAX
        &&& self.max_dim == largest_span(self.shape)
    }

    /// The number of cells along each of the two axes.
    pub closed spec fn dims(self) -> (usize, usize) {
        self.shape
    }

    /// The largest index span along either axis.
    pub closed spec fn span(self) -> usize {
        self.max_dim
    }

    /// What validity says in terms of `dims` and `span`.
    pub proof fn lemma_wf(self)
        requires
            self.wf(),
        ensures
            shape_accepted(self.dims()),
            self.dims().0 * self.dims().1 <= isize::MAX,
            self.span() == largest_span(self.dims()),
            self.span() >= 1,
    {
    }

    /// Describes a grid of `shape.0` by `shape.1` cells. A dimension below
    /// two is refused, since such a grid has no spacing between cells. The
    /// cells of a grid must be few enough to be stored.
    pub fn new(shape: (usize, usize)) -> (r: Result<GridStats, GridError>)
        requires
            shape_accepted(shape) ==> shape.0 * shape.1 <= isize::MAX,
        ensures
            r is Ok <==> shape_accepted(shape),
            r matches Ok(g) ==> g.wf() && g.dims() == shape,
            r matches Err(e) ==> e == GridError::DimensionTooSmall,
    {
        if shape.0 < 2 || shape.1 < 2 {
            return Err(GridError::DimensionTooSmall);
        }
        let max_dim: usize = if shape.0 >= shape.1 { shape.0 - 1 } else { shape.1 - 1 };
        Ok(GridStats { shape, max_dim })
    }

    /// The number of cells along each of the two axes.
    pub fn shape(&self) -> (s: (usize, usize))
        ensures
            s == self.dims(),
            shape_accepted(s),
            s.0 * s.1 <= isize::MAX,
    {
        proof {
            use_type_invariant(self);
        }
        self.shape
    }

    /// The largest index span along either axis: the number of spacings
    /// that the grid's physical length is divided into.
    pub fn max_dim(&self) -> (m: usize)
        ensures
            m == self.span(),
            m == largest_span(self.dims()),
            m >= 1,
    {
        proof {
            use_type_invariant(self);
        }
        self.max_dim
    }
}

/// The distance between two indices.
pub open spec fn index_span(u: int, v: int) -> int {
    if u <= v {
        v - u
    } else {
        u - v
    }
}

/// Whether `x` lies between `u` and `v`, both included, in either order.
pub open spec fn between(u: int, v: int, x: int) -> bool {
    (u <= x && x <= v) || (v <= x && x <= u)
}

/// Whether `b` is the integer nearest to the ratio `num / den`; a ratio
/// exactly half way between two integers has the upper one as its nearest.
pub open spec fn nearest_to_ratio(num: int, den: int, b: int) -> bool
    recommends
        den > 0,
{
    2 * num - den < 2 * den * b && 2 * den * b <= 2 * num + den
}

/// The value at `a` of the straight line through `(al, bl)` and `(ah, bh)`,
/// multiplied by `ah - al`.
pub open spec fn line_numerator(al: int, bl: int, ah: int, bh: int, a: int) -> int {
    bl * (ah - al) + (bh - bl) * (a - al)
}

/// Whether `b` is the integer nearest to the value at `a` of the straight
/// line through `(a1, b1)` and `(a2, b2)`.
pub open spec fn rounds_line(a1: int, b1: int, a2: int, b2: int, a: int, b: int) -> bool
    recommends
        a1 != a2,
{
    if a1 < a2 {
        nearest_to_ratio(line_numerator(a1, b1, a2, b2, a), a2 - a1, b)
    } else {
        nearest_to_ratio(line_numerator(a2, b2, a1, b1, a), a1 - a2, b)
    }
}

/// Whether cell `(x, y)` belongs to the wall drawn from cell `start` to cell
/// `stop`. The axis along which the two cells lie further apart drives: the
/// wall has one cell at each index of that axis between the two ends, and
/// the cell's other index is the nearest integer to the straight line
/// through the ends. At equal spans the second axis drives.
pub open spec fn on_segment(start: Tup2<usize>, stop: Tup2<usize>, x: int, y: int) -> bool {
    if index_span(start.0 as int, stop.0 as int) > index_span(start.1 as int, stop.1 as int) {
        between(start.0 as int, stop.0 as int, x) && rounds_line(
            start.0 as int,
            start.1 as int,
            stop.0 as int,
            stop.1 as int,
            x,
            y,
        )
    } else if start.1 != stop.1 {
        between(start.1 as int, stop.1 as int, y) && rounds_line(
            start.1 as int,
            start.0 as int,
            stop.1 as int,
            stop.0 as int,
            y,
            x,
        )
    } else {
        x == start.0 && y == start.1
    }
}

/// Whether cell `(x, y)` belongs to one of the walls between consecutive
/// cells of `vertices`.
pub open spec fn on_polyline(vertices: Seq<Tup2<usize>>, x: int, y: int) -> bool {
    exists|k: int|
        0 <= k < vertices.len() - 1 && #[trigger] on_segment(vertices[k], vertices[k + 1], x, y)
}

proof fn lemma_nearest_unique(num: int, den: int, b: int, c: int)
    requires
        den > 0,
        nearest_to_ratio(num, den, b),
        nearest_to_ratio(num, den, c),
    ensures
        b == c,
{
    assert(b == c) by (nonlinear_arith)
        requires
            den > 0,
            2 * num - den < 2 * den * b,
            2 * den * b <= 2 * num + den,
            2 * num - den < 2 * den * c,
            2 * den * c <= 2 * num + den,
    ;
}

/// A wall holds both of the cells that it is drawn between.
pub proof fn lemma_segment_ends(start: Tup2<usize>, stop: Tup2<usize>)
    ensures
        on_segment(start, stop, start.0 as int, start.1 as int),
        on_segment(start, stop, stop.0 as int, stop.1 as int),
{
    let (x1, y1, x2, y2) = (start.0 as int, start.1 as int, stop.0 as int, stop.1 as int);
    if index_span(x1, x2) > index_span(y1, y2) {
        lemma_line_ends(x1, y1, x2, y2);
        lemma_line_ends(x2, y2, x1, y1);
    } else if y1 != y2 {
        lemma_line_ends(y1, x1, y2, x2);
        lemma_line_ends(y2, x2, y1, x1);
    }
}

/// A wall drawn from `stop` to `start` holds the same cells as the wall drawn
/// from `start` to `stop`.
pub proof fn lemma_segment_symmetric(start: Tup2<usize>, stop: Tup2<usize>, x: int, y: int)
    ensures
        on_segment(start, stop, x, y) == on_segment(stop, start, x, y),
{
}

/// A wall stays inside the rectangle spanned by the two cells that it is
/// drawn between.
pub proof fn lemma_segment_in_box(start: Tup2<usize>, stop: Tup2<usize>, x: int, y: int)
    requires
        on_segment(start, stop, x, y),
    ensures
        between(start.0 as int, stop.0 as int, x),
        between(start.1 as int, stop.1 as int, y),
{
    let (x1, y1, x2, y2) = (start.0 as int, start.1 as int, stop.0 as int, stop.1 as int);
    if index_span(x1, x2) > index_span(y1, y2) {
        if x1 < x2 {
            lemma_line_in_range(x1, y1, x2, y2, x, y);
        } else {
            lemma_line_in_range(x2, y2, x1, y1, x, y);
        }
    } else if y1 != y2 {
        if y1 < y2 {
            lemma_line_in_range(y1, x1, y2, x2, y, x);
        } else {
            lemma_line_in_range(y2, x2, y1, x1, y, x);
        }
    }
}

/// A wall has no gap: it holds a cell at every index `c` of the driving
/// axis between its ends.
pub proof fn lemma_segment_no_gap(start: Tup2<usize>, stop: Tup2<usize>, c: int)
    ensures
        index_span(start.0 as int, stop.0 as int) > index_span(start.1 as int, stop.1 as int) && between(
            start.0 as int,
            stop.0 as int,
            c,
        ) ==> exists|b: int| #[trigger] on_segment(start, stop, c, b),
        index_span(start.0 as int, stop.0 as int) <= index_span(start.1 as int, stop.1 as int) && between(
            start.1 as int,
            stop.1 as int,
            c,
        ) ==> exists|a: int| #[trigger] on_segment(start, stop, a, c),
{
    let (x1, y1, x2, y2) = (start.0 as int, start.1 as int, stop.0 as int, stop.1 as int);
    if index_span(x1, x2) > index_span(y1, y2) {
        if between(x1, x2, c) {
            let b = if x1 < x2 {
                lemma_line_value(x1, y1, x2, y2, c)
            } else {
                lemma_line_value(x2, y2, x1, y1, c)
            };
            assert(on_segment(start, stop, c, b));
        }
    } else if y1 != y2 {
        if between(y1, y2, c) {
            let a = if y1 < y2 {
                lemma_line_value(y1, x1, y2, x2, c)
            } else {
                lemma_line_value(y2, x2, y1, x1, c)
            };
            assert(on_segment(start, stop, a, c));
        }
    } else {
        if between(y1, y2, c) {
            assert(on_segment(start, stop, x1, c));
        }
    }
}

/// A wall is connected: two of its cells whose indices along the driving
/// axis differ by at most one differ by at most one along the other axis
/// too, and two of its cells at the same index of the driving axis are the
/// same cell.
pub proof fn lemma_segment_connected(
    start: Tup2<usize>,
    stop: Tup2<usize>,
    x: int,
    y: int,
    u: int,
    v: int,
)
    requires
        on_segment(start, stop, x, y),
        on_segment(start, stop, u, v),
    ensures
        index_span(start.0 as int, stop.0 as int) > index_span(start.1 as int, stop.1 as int)
            && index_span(x, u) <= 1 ==> index_span(y, v) <= 1,
        index_span(start.0 as int, stop.0 as int) > index_span(start.1 as int, stop.1 as int) && x == u
            ==> y == v,
        index_span(start.0 as int, stop.0 as int) <= index_span(start.1 as int, stop.1 as int)
            && index_span(y, v) <= 1 ==> index_span(x, u) <= 1,
        index_span(start.0 as int, stop.0 as int) <= index_span(start.1 as int, stop.1 as int) && y == v
            ==> x == u,
{
    let (x1, y1, x2, y2) = (start.0 as int, start.1 as int, stop.0 as int, stop.1 as int);
    if index_span(x1, x2) > index_span(y1, y2) {
        if x1 < x2 {
            lemma_line_steps(x1, y1, x2, y2, x, y, u, v);
            if x == u {
                lemma_nearest_unique(line_numerator(x1, y1, x2, y2, x), x2 - x1, y, v);
            }
        } else {
            lemma_line_steps(x2, y2, x1, y1, x, y, u, v);
            if x == u {
                lemma_nearest_unique(line_numerator(x2, y2, x1, y1, x), x1 - x2, y, v);
            }
        }
    } else if y1 != y2 {
        if y1 < y2 {
            lemma_line_steps(y1, x1, y2, x2, y, x, v, u);
            if y == v {
                lemma_nearest_unique(line_numerator(y1, x1, y2, x2, y), y2 - y1, x, u);
            }
        } else {
            lemma_line_steps(y2, x2, y1, x1, y, x, v, u);
            if y == v {
                lemma_nearest_unique(line_numerator(y2, x2, y1, x1, y), y1 - y2, x, u);
            }
        }
    }
}

proof fn lemma_line_ends(al: int, bl: int, ah: int, bh: int)
    requires
        al != ah,
    ensures
        rounds_line(al, bl, ah, bh, al, bl),
        rounds_line(al, bl, ah, bh, ah, bh),
{
    if al < ah {
        let den = ah - al;
        assert(line_numerator(al, bl, ah, bh, al) == bl * den) by (nonlinear_arith)
            requires
                den == ah - al,
        ;
        assert(line_numerator(al, bl, ah, bh, ah) == bh * den) by (nonlinear_arith)
            requires
                den == ah - al,
        ;
        assert(2 * den * bl == 2 * (bl * den) && 2 * den * bh == 2 * (bh * den))
            by (nonlinear_arith);
    } else {
        let den = al - ah;
        assert(line_numerator(ah, bh, al, bl, al) == bl * den) by (nonlinear_arith)
            requires
                den == al - ah,
        ;
        assert(line_numerator(ah, bh, al, bl, ah) == bh * den) by (nonlinear_arith)
            requires
                den == al - ah,
        ;
        assert(2 * den * bl == 2 * (bl * den) && 2 * den * bh == 2 * (bh * den))
            by (nonlinear_arith);
    }
}

proof fn lemma_line_in_range(al: int, bl: int, ah: int, bh: int, a: int, b: int)
    requires
        al < ah,
        al <= a <= ah,
        nearest_to_ratio(line_numerator(al, bl, ah, bh, a), ah - al, b),
    ensures
        between(bl, bh, b),
{
    let den = ah - al;
    let num = line_numerator(al, bl, ah, bh, a);
    assert(bl <= bh ==> bl * den <= num <= bh * den) by (nonlinear_arith)
        requires
            num == bl * den + (bh - bl) * (a - al),
            0 <= a - al <= den,
    ;
    assert(bh <= bl ==> bh * den <= num <= bl * den) by (nonlinear_arith)
        requires
            num == bl * den + (bh - bl) * (a - al),
            0 <= a - al <= den,
    ;
    assert(bl <= bh ==> bl <= b <= bh) by (nonlinear_arith)
        requires
            den > 0,
            2 * num - den < 2 * den * b,
            2 * den * b <= 2 * num + den,
            bl <= bh ==> bl * den <= num <= bh * den,
    ;
    assert(bh <= bl ==> bh <= b <= bl) by (nonlinear_arith)
        requires
            den > 0,
            2 * num - den < 2 * den * b,
            2 * den * b <= 2 * num + den,
            bh <= bl ==> bh * den <= num <= bl * den,
    ;
}

proof fn lemma_line_value(al: int, bl: int, ah: int, bh: int, a: int) -> (b: int)
    requires
        al < ah,
    ensures
        nearest_to_ratio(line_numerator(al, bl, ah, bh, a), ah - al, b),
{
    let den = ah - al;
    let num = line_numerator(al, bl, ah, bh, a);
    let b = (2 * num + den) / (2 * den);
    vstd::arithmetic::div_mod::lemma_fundamental_div_mod(2 * num + den, 2 * den);
    vstd::arithmetic::div_mod::lemma_mod_bound(2 * num + den, 2 * den);
    assert((2 * den) * b == 2 * den * b) by (nonlinear_arith);
    b
}

proof fn lemma_line_steps(
    al: int,
    bl: int,
    ah: int,
    bh: int,
    a: int,
    b: int,
    c: int,
    d: int,
)
    requires
        al < ah,
        index_span(bl, bh) <= ah - al,
        nearest_to_ratio(line_numerator(al, bl, ah, bh, a), ah - al, b),
        nearest_to_ratio(line_numerator(al, bl, ah, bh, c), ah - al, d),
    ensures
        index_span(a, c) <= 1 ==> index_span(b, d) <= 1,
{
    let den = ah - al;
    let rise = bh - bl;
    let na = line_numerator(al, bl, ah, bh, a);
    let nc = line_numerator(al, bl, ah, bh, c);
    if index_span(a, c) <= 1 {
        assert(nc - na == rise * (c - a)) by (nonlinear_arith)
            requires
                na == bl * den + rise * (a - al),
                nc == bl * den + rise * (c - al),
        ;
        assert(-den <= rise * (c - a) <= den) by (nonlinear_arith)
            requires
                -den <= rise <= den,
                -1 <= c - a <= 1,
        ;
        assert(-1 <= d - b <= 1) by (nonlinear_arith)
            requires
                den > 0,
                -den <= nc - na <= den,
                2 * na - den < 2 * den * b,
                2 * den * b <= 2 * na + den,
                2 * nc - den < 2 * den * d,
                2 * den * d <= 2 * nc + den,
        ;
    }
}

/// The nearest integer to the value at `a` of the line through `(al, bl)`
/// and `(ah, bh)`.
fn interpolate(al: usize, bl: usize, ah: usize, bh: usize, a: usize) -> (b: usize)
    requires
        al < ah,
        al <= a <= ah,
        (ah - al) * bl <= isize::MAX,
        (ah - al) * bh <= isize::MAX,
    ensures
        nearest_to_ratio(
            line_numerator(al as int, bl as int, ah as int, bh as int, a as int),
            ah - al,
            b as int,
        ),
        between(bl as int, bh as int, b as int),
{
    let den: i128 = (ah - al) as i128;
    let step: i128 = (a - al) as i128;
    let rise: i128 = bh as i128 - bl as i128;
    proof {
        assert(bl * den == den * bl) by (nonlinear_arith);
        assert(bh * den == den * bh) by (nonlinear_arith);
        assert(rise * step == bh * step - bl * step) by (nonlinear_arith)
            requires
                rise == bh - bl,
        ;
        assert(0 <= bh * step <= bh * den && 0 <= bl * step <= bl * den) by (nonlinear_arith)
            requires
                0 <= step <= den,
                0 <= bh,
                0 <= bl,
        ;
    }
    let num: i128 = bl as i128 * den + rise * step;
    proof {
        assert(num == line_numerator(al as int, bl as int, ah as int, bh as int, a as int));
        assert(bl <= bh ==> bl * den <= num <= bh * den) by (nonlinear_arith)
            requires
                num == bl * den + rise * step,
                rise == bh - bl,
                0 <= step <= den,
        ;
        assert(bh <= bl ==> bh * den <= num <= bl * den) by (nonlinear_arith)
            requires
                num == bl * den + rise * step,
                rise == bh - bl,
                0 <= step <= den,
        ;
    }
    let b: i128 = (2 * num + den) / (2 * den);
    proof {
        let top = 2 * num + den;
        let bottom = 2 * den;
        vstd::arithmetic::div_mod::lemma_fundamental_div_mod(top as int, bottom as int);
        vstd::arithmetic::div_mod::lemma_mod_bound(top as int, bottom as int);
        assert(bottom * b == 2 * den * b) by (nonlinear_arith)
            requires
                bottom == 2 * den,
        ;
        assert(bl <= bh ==> bl <= b <= bh) by (nonlinear_arith)
            requires
                den > 0,
                2 * num - den < 2 * den * b,
                2 * den * b <= 2 * num + den,
                bl <= bh ==> bl * den <= num <= bh * den,
        ;
        assert(bh <= bl ==> bh <= b <= bl) by (nonlinear_arith)
            requires
                den > 0,
                2 * num - den < 2 * den * b,
                2 * den * b <= 2 * num + den,
                bh <= bl ==> bh * den <= num <= bl * den,
        ;
    }
    b as usize
}

/// Whether cell `(x, y)` is one of the cells of a run: one cell for each
/// index `a` of the driving axis with `al <= a < end`, whose other index is
/// the rounded value of the line through `(al, bl)` and `(ah, bh)`. The
/// first axis drives where `along_first` holds, else the second.
spec fn on_run(
    al: int,
    bl: int,
    ah: int,
    bh: int,
    along_first: bool,
    end: int,
    x: int,
    y: int,
) -> bool {
    if along_first {
        al <= x < end && nearest_to_ratio(line_numerator(al, bl, ah, bh, x), ah - al, y)
    } else {
        al <= y < end && nearest_to_ratio(line_numerator(al, bl, ah, bh, y), ah - al, x)
    }
}

/// The cells of a grid that are blocked by a solid obstacle.
pub struct ObstacleBoard {
    grid_stats: GridStats,
    bit_vec: BitVec,
}

/// The place of cell `(i, j)` in the mask of a grid with `rows` cells along
/// the first axis.
pub open spec fn linear_index(rows: int, i: int, j: int) -> int {
    i + j * rows
}

proof fn lemma_linear_index_bound(rows: int, cols: int, i: int, j: int)
    requires
        0 <= i < rows,
        0 <= j < cols,
    ensures
        0 <= j * rows,
        0 <= linear_index(rows, i, j) < rows * cols,
{
    assert(0 <= j * rows && j * rows + rows <= rows * cols) by (nonlinear_arith)
        requires
            0 <= j < cols,
            0 < rows,
    ;
}

proof fn lemma_linear_index_injective(rows: int, i: int, j: int, a: int, b: int)
    requires
        0 <= i < rows,
        0 <= a < rows,
        linear_index(rows, i, j) == linear_index(rows, a, b),
    ensures
        i == a,
        j == b,
{
    assert(j == b) by (nonlinear_arith)
        requires
            0 <= i < rows,
            0 <= a < rows,
            i + j * rows == a + b * rows,
    ;
}

impl ObstacleBoard {
    /// Holds of every board: the shape is valid and the mask has one flag
    /// for each cell.
    #[verifier::type_invariant]
    pub closed spec fn wf(&self) -> bool {
        &&& self.grid_stats.wf()
        &&& flags(self.bit_vec).len() == self.grid_stats.dims().0 * self.grid_stats.dims().1
    }

    /// The number of cells along each of the two axes.
    pub closed spec fn dims(&self) -> (usize, usize) {
        self.grid_stats.dims()
    }

    /// The shape that the board was made for.
    pub closed spec fn stats(&self) -> GridStats {
        self.grid_stats
    }

    /// Whether `(i, j)` names a cell of the grid.
    pub open spec fn in_grid(&self, i: int, j: int) -> bool {
        0 <= i < self.dims().0 && 0 <= j < self.dims().1
    }

    /// Whether cell `(i, j)` is blocked.
    pub closed spec fn blocked(&self, i: int, j: int) -> bool {
        flags(self.bit_vec)[linear_index(self.grid_stats.dims().0 as int, i, j)]
    }

    /// What validity says in terms of `dims` and `stats`.
    pub proof fn lemma_wf(&self)
        requires
            self.wf(),
        ensures
            self.stats().wf(),
            self.stats().dims() == self.dims(),
            shape_accepted(self.dims()),
            self.dims().0 * self.dims().1 <= isize::MAX,
    {
        self.grid_stats.lemma_wf();
    }

    /// A board for the grid `grid_stats` on which every cell is open.
    pub fn new_empty(grid_stats: GridStats) -> (board: Self)
        ensures
            board.wf(),
            board.stats() == grid_stats,
            board.dims() == grid_stats.dims(),
            forall|i: int, j: int| board.in_grid(i, j) ==> !#[trigger] board.blocked(i, j),
    {
        proof {
            use_type_invariant(&grid_stats);
        }
        let shape = grid_stats.shape();
        let bit_vec = flags_from_elem(shape.0 * shape.1, false);
        let board = ObstacleBoard { grid_stats, bit_vec };
        proof {
            assert forall|i: int, j: int| board.in_grid(i, j) implies !#[trigger] board.blocked(
                i,
                j,
            ) by {
                lemma_linear_index_bound(shape.0 as int, shape.1 as int, i, j);
            }
        }
        board
    }

    /// The shape that the board was made for.
    pub fn grid_stats(&self) -> (g: GridStats)
        ensures
            g == self.stats(),
            g.wf(),
            g.dims() == self.dims(),
    {
        proof {
            use_type_invariant(self);
        }
        self.grid_stats
    }

    /// The place of cell `(i, j)` in the mask: cells follow each other along
    /// the first axis.
    pub fn get_index(&self, i: usize, j: usize) -> (index: usize)
        requires
            self.in_grid(i as int, j as int),
        ensures
            index == linear_index(self.dims().0 as int, i as int, j as int),
            index < self.dims().0 * self.dims().1,
    {
        proof {
            use_type_invariant(self);
            use_type_invariant(&self.grid_stats);
        }
        let shape = self.grid_stats.shape();
        proof {
            lemma_linear_index_bound(shape.0 as int, shape.1 as int, i as int, j as int);
        }
        i + j * shape.0
    }

    /// Blocks cell `(i, j)`; every other cell stays as it is.
    pub fn set_obstacle(&mut self, i: usize, j: usize)
        requires
            old(self).in_grid(i as int, j as int),
        ensures
            final(self).stats() == old(self).stats(),
            final(self).dims() == old(self).dims(),
            forall|a: int, b: int|
                old(self).in_grid(a, b) ==> (#[trigger] final(self).blocked(a, b) <==> (old(
                    self,
                ).blocked(a, b) || (a == i && b == j))),
    {
        proof {
            use_type_invariant(&*self);
        }
        let index = self.get_index(i, j);
        flags_set(&mut self.bit_vec, index, true);
        proof {
            let rows = self.grid_stats.dims().0 as int;
            let cols = self.grid_stats.dims().1 as int;
            assert forall|a: int, b: int| old(self).in_grid(a, b) implies (#[trigger] self.blocked(
                a,
                b,
            ) <==> (old(self).blocked(a, b) || (a == i && b == j))) by {
                lemma_linear_index_bound(rows, cols, a, b);
                if linear_index(rows, a, b) == index {
                    lemma_linear_index_injective(rows, a, b, i as int, j as int);
                }
            }
        }
    }

    /// A board for the grid `grid_stats` on which exactly the cells listed
    /// in `filled_index` are blocked.
    pub fn new(grid_stats: GridStats, filled_index: Vec<(usize, usize)>) -> (board: Self)
        requires
            forall|k: int|
                0 <= k < filled_index.len() ==> (#[trigger] filled_index[k]).0
                    < grid_stats.dims().0 && filled_index[k].1 < grid_stats.dims().1,
        ensures
            board.wf(),
            board.stats() == grid_stats,
            board.dims() == grid_stats.dims(),
            forall|i: int, j: int|
                board.in_grid(i, j) ==> (#[trigger] board.blocked(i, j) <==> exists|k: int|
                    0 <= k < filled_index.len() && #[trigger] filled_index[k] == (
                        i as usize,
                        j as usize,
                    )),
    {
        let mut board = ObstacleBoard::new_empty(grid_stats);
        let mut n: usize = 0;
        while n < filled_index.len()
            invariant
                n <= filled_index.len(),
                board.stats() == grid_stats,
                board.dims() == grid_stats.dims(),
                forall|k: int|
                    0 <= k < filled_index.len() ==> (#[trigger] filled_index[k]).0
                        < grid_stats.dims().0 && filled_index[k].1 < grid_stats.dims().1,
                forall|i: int, j: int|
                    board.in_grid(i, j) ==> (#[trigger] board.blocked(i, j) <==> exists|k: int|
                        0 <= k < n && #[trigger] filled_index[k] == (i as usize, j as usize)),
            decreases filled_index.len() - n,
        {
            let ghost before = board;
            let cell = filled_index[n];
            board.set_obstacle(cell.0, cell.1);
            proof {
                assert forall|i: int, j: int| board.in_grid(i, j) implies (#[trigger] board.blocked(
                    i,
                    j,
                ) <==> exists|k: int|
                    0 <= k < n + 1 && #[trigger] filled_index[k] == (i as usize, j as usize)) by {
                    if before.blocked(i, j) {
                        let k = choose|k: int|
                            0 <= k < n && #[trigger] filled_index[k] == (i as usize, j as usize);
                        assert(0 <= k < n + 1 && filled_index[k] == (i as usize, j as usize));
                    }
                    if i == cell.0 && j == cell.1 {
                        assert(filled_index[n as int] == (i as usize, j as usize));
                    }
                }
            }
            n = n + 1;
        }
        proof {
            use_type_invariant(&board);
        }
        board
    }

    /// Blocks one cell for each index of the driving axis from `al` to
    /// `ah`, following the line through `(al, bl)` and `(ah, bh)`.
    fn set_run(&mut self, al: usize, bl: usize, ah: usize, bh: usize, along_first: bool)
        requires
            al < ah,
            along_first ==> old(self).in_grid(ah as int, bl as int) && old(self).in_grid(
                ah as int,
                bh as int,
            ),
            !along_first ==> old(self).in_grid(bl as int, ah as int) && old(self).in_grid(
                bh as int,
                ah as int,
            ),
        ensures
            final(self).stats() == old(self).stats(),
            final(self).dims() == old(self).dims(),
            forall|x: int, y: int|
                old(self).in_grid(x, y) ==> (#[trigger] final(self).blocked(x, y) <==> (old(
                    self,
                ).blocked(x, y) || on_run(
                    al as int,
                    bl as int,
                    ah as int,
                    bh as int,
                    along_first,
                    ah + 1,
                    x,
                    y,
                ))),
    {
        proof {
            use_type_invariant(&*self);
            self.lemma_wf();
            let rows = self.dims().0 as int;
            let cols = self.dims().1 as int;
            assert((ah - al) * bl <= rows * cols && (ah - al) * bh <= rows * cols)
                by (nonlinear_arith)
                requires
                    0 <= al < ah,
                    0 <= bl,
                    0 <= bh,
                    (ah < rows && bl < cols && bh < cols) || (ah < cols && bl < rows && bh
                        < rows),
            ;
        }
        let mut a: usize = al;
        while a <= ah
            invariant
                al <= a <= ah + 1,
                al < ah,
                (ah - al) * bl <= isize::MAX,
                (ah - al) * bh <= isize::MAX,
                along_first ==> old(self).in_grid(ah as int, bl as int) && old(self).in_grid(
                    ah as int,
                    bh as int,
                ),
                !along_first ==> old(self).in_grid(bl as int, ah as int) && old(self).in_grid(
                    bh as int,
                    ah as int,
                ),
                self.stats() == old(self).stats(),
                self.dims() == old(self).dims(),
                forall|x: int, y: int|
                    old(self).in_grid(x, y) ==> (#[trigger] self.blocked(x, y) <==> (old(
                        self,
                    ).blocked(x, y) || on_run(
                        al as int,
                        bl as int,
                        ah as int,
                        bh as int,
                        along_first,
                        a as int,
                        x,
                        y,
                    ))),
            decreases ah + 1 - a,
        {
            let ghost before = *self;
            let b = interpolate(al, bl, ah, bh, a);
            if along_first {
                self.set_obstacle(a, b);
            } else {
                self.set_obstacle(b, a);
            }
            proof {
                let num = line_numerator(al as int, bl as int, ah as int, bh as int, a as int);
                assert forall|x: int, y: int| old(self).in_grid(x, y) implies (
                #[trigger] self.blocked(x, y) <==> (old(self).blocked(x, y) || on_run(
                    al as int,
                    bl as int,
                    ah as int,
                    bh as int,
                    along_first,
                    a + 1,
                    x,
                    y,
                ))) by {
                    if along_first && x == a && nearest_to_ratio(num, ah - al, y) {
                        lemma_nearest_unique(num, ah - al, y, b as int);
                    }
                    if !along_first && y == a && nearest_to_ratio(num, ah - al, x) {
                        lemma_nearest_unique(num, ah - al, x, b as int);
                    }
                }
            }
            a = a + 1;
        }
    }

    /// Draws a wall from cell `start` to cell `stop`: blocks the cells of
    /// `on_segment` and leaves every other cell as it is.
    pub fn set_line(&mut self, start: Tup2<usize>, stop: Tup2<usize>)
        requires
            old(self).in_grid(start.0 as int, start.1 as int),
            old(self).in_grid(stop.0 as int, stop.1 as int),
        ensures
            final(self).stats() == old(self).stats(),
            final(self).dims() == old(self).dims(),
            forall|x: int, y: int|
                old(self).in_grid(x, y) ==> (#[trigger] final(self).blocked(x, y) <==> (old(
                    self,
                ).blocked(x, y) || on_segment(start, stop, x, y))),
    {
        let span_x: usize = if start.0 <= stop.0 { stop.0 - start.0 } else { start.0 - stop.0 };
        let span_y: usize = if start.1 <= stop.1 { stop.1 - start.1 } else { start.1 - stop.1 };
        if span_x > span_y {
            if start.0 < stop.0 {
                self.set_run(start.0, start.1, stop.0, stop.1, true);
            } else {
                self.set_run(stop.0, stop.1, start.0, start.1, true);
            }
        } else if span_y > 0 {
            if start.1 < stop.1 {
                self.set_run(start.1, start.0, stop.1, stop.0, false);
            } else {
                self.set_run(stop.1, stop.0, start.1, start.0, false);
            }
        } else {
            self.set_obstacle(start.0, start.1);
        }
    }

    /// Draws a wall along `vertices`, from each cell to the next: blocks the
    /// cells of `on_polyline` and leaves every other cell as it is.
    pub fn set_piecewise_curve(&mut self, vertices: Vec<Tup2<usize>>)
        requires
            vertices.len() >= 2,
            forall|k: int|
                0 <= k < vertices.len() ==> old(self).in_grid(
                    (#[trigger] vertices[k]).0 as int,
                    vertices[k].1 as int,
                ),
        ensures
            final(self).stats() == old(self).stats(),
            final(self).dims() == old(self).dims(),
            forall|x: int, y: int|
                old(self).in_grid(x, y) ==> (#[trigger] final(self).blocked(x, y) <==> (old(
                    self,
                ).blocked(x, y) || on_polyline(vertices@, x, y))),
    {
        let mut n: usize = 0;
        while n < vertices.len() - 1
            invariant
                vertices.len() >= 2,
                n <= vertices.len() - 1,
                forall|k: int|
                    0 <= k < vertices.len() ==> old(self).in_grid(
                        (#[trigger] vertices[k]).0 as int,
                        vertices[k].1 as int,
                    ),
                self.stats() == old(self).stats(),
                self.dims() == old(self).dims(),
                forall|x: int, y: int|
                    old(self).in_grid(x, y) ==> (#[trigger] self.blocked(x, y) <==> (old(
                        self,
                    ).blocked(x, y) || on_polyline(vertices@.take(n + 1), x, y))),
            decreases vertices.len() - n,
        {
            let ghost before = *self;
            let from = vertices[n];
            let to = vertices[n + 1];
            self.set_line(from, to);
            proof {
                let shorter = vertices@.take(n + 1);
                let longer = vertices@.take(n + 2);
                assert forall|x: int, y: int| old(self).in_grid(x, y) implies (
                #[trigger] self.blocked(x, y) <==> (old(self).blocked(x, y) || on_polyline(
                    longer,
                    x,
                    y,
                ))) by {
                    if on_polyline(shorter, x, y) {
                        let k = choose|k: int|
                            0 <= k < shorter.len() - 1 && #[trigger] on_segment(
                                shorter[k],
                                shorter[k + 1],
                                x,
                                y,
                            );
                        assert(on_segment(longer[k], longer[k + 1], x, y));
                    }
                    if on_segment(from, to, x, y) {
                        assert(on_segment(longer[n as int], longer[n + 1], x, y));
                    }
                    if on_polyline(longer, x, y) {
                        let k = choose|k: int|
                            0 <= k < longer.len() - 1 && #[trigger] on_segment(
                                longer[k],
                                longer[k + 1],
                                x,
                                y,
                            );
                        if k < n {
                            assert(on_segment(shorter[k], shorter[k + 1], x, y));
                        }
                    }
                }
            }
            n = n + 1;
        }
        proof {
            assert(vertices@.take(n + 1) == vertices@);
        }
    }

    /// Whether cell `(i, j)` is blocked.
    pub fn exist_obstacle(&self, i: usize, j: usize) -> (blocked: bool)
        requires
            self.in_grid(i as int, j as int),
        ensures
            blocked == self.blocked(i as int, j as int),
    {
        proof {
            use_type_invariant(self);
        }
        let index = self.get_index(i, j);
        flags_get(&self.bit_vec, index).unwrap()
    }
}

} // verus!
