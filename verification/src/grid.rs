//! The mathematical model of the lattice: a square grid of cells, addressed as
//! `grid[x][y]`, and sums over its cells.
use crate::direction::VertexState;
use vstd::arithmetic::mul::lemma_mul_is_distributive_add;
use vstd::prelude::*;

verus! {

/// The contents of a lattice, column index first.
pub type Grid = Seq<Seq<VertexState>>;

/// The grid that nested vectors stand for.
pub open spec fn rows(cells: Vec<Vec<VertexState>>) -> Grid {
    Seq::new(cells@.len(), |x: int| cells@[x]@)
}

/// Whether the grid has `size` lines of `size` cells each.
pub open spec fn is_square(grid: Grid, size: nat) -> bool {
    &&& grid.len() == size
    &&& forall|x: int| 0 <= x < size ==> (#[trigger] grid[x]).len() == size
}

/// Whether `(x, y)` addresses a cell of a lattice of side `size`.
pub open spec fn on_lattice(x: int, y: int, size: nat) -> bool {
    0 <= x < size && 0 <= y < size
}

/// The grid with cell `(x, y)` replaced by `state`.
pub open spec fn put(grid: Grid, x: int, y: int, state: VertexState) -> Grid {
    grid.update(x, grid[x].update(y, state))
}

/// Whether no cell of the grid holds a particle.
pub open spec fn all_empty(grid: Grid) -> bool {
    forall|x: int, y: int|
        0 <= x < grid.len() && 0 <= y < grid[x].len() ==> !(#[trigger] grid[x][y]).occupied()
}

/// Whether every cell of the grid holds a particle.
pub open spec fn all_occupied(grid: Grid) -> bool {
    forall|x: int, y: int|
        0 <= x < grid.len() && 0 <= y < grid[x].len() ==> (#[trigger] grid[x][y]).occupied()
}

/// Whether two grids of the same shape hold particles in the same cells.
pub open spec fn same_occupancy(a: Grid, b: Grid) -> bool {
    &&& a.len() == b.len()
    &&& forall|x: int| 0 <= x < a.len() ==> (#[trigger] a[x]).len() == b[x].len()
    &&& forall|x: int, y: int|
        0 <= x < a.len() && 0 <= y < a[x].len() ==> (#[trigger] a[x][y]).occupied()
            == b[x][y].occupied()
}

/// The sum of `f(x, 0), ..., f(x, height - 1)`.
pub open spec fn sum_line(f: spec_fn(int, int) -> int, x: int, height: nat) -> int
    decreases height,
{
    if height == 0 {
        0
    } else {
        sum_line(f, x, (height - 1) as nat) + f(x, height - 1)
    }
}

/// The sum of `f` over the cells `(x, y)` with `x < width` and `y < height`.
pub open spec fn sum_cells(f: spec_fn(int, int) -> int, width: nat, height: nat) -> int
    decreases width,
{
    if width == 0 {
        0
    } else {
        sum_cells(f, (width - 1) as nat, height) + sum_line(f, width - 1, height)
    }
}

/// One for an occupied cell, zero for an empty one.
pub open spec fn occupancy(grid: Grid) -> spec_fn(int, int) -> int {
    |x: int, y: int| if grid[x][y].occupied() { 1int } else { 0int }
}

/// The number of particles on a square grid.
pub open spec fn count_occupied(grid: Grid) -> int {
    sum_cells(occupancy(grid), grid.len(), grid.len())
}

/// Sums of functions that agree on a line agree.
pub proof fn lemma_sum_line_equal(
    f: spec_fn(int, int) -> int,
    g: spec_fn(int, int) -> int,
    x: int,
    height: nat,
)
    requires
        forall|y: int| 0 <= y < height ==> #[trigger] f(x, y) == g(x, y),
    ensures
        sum_line(f, x, height) == sum_line(g, x, height),
    decreases height,
{
    if height > 0 {
        lemma_sum_line_equal(f, g, x, (height - 1) as nat);
    }
}

/// Sums of functions that agree on every cell agree.
pub proof fn lemma_sum_cells_equal(
    f: spec_fn(int, int) -> int,
    g: spec_fn(int, int) -> int,
    width: nat,
    height: nat,
)
    requires
        forall|x: int, y: int|
            0 <= x < width && 0 <= y < height ==> #[trigger] f(x, y) == g(x, y),
    ensures
        sum_cells(f, width, height) == sum_cells(g, width, height),
    decreases width,
{
    if width > 0 {
        lemma_sum_cells_equal(f, g, (width - 1) as nat, height);
        lemma_sum_line_equal(f, g, width - 1, height);
    }
}

/// Changing a function at one cell of a line changes the sum of that line by
/// the difference at that cell.
pub proof fn lemma_sum_line_change(
    f: spec_fn(int, int) -> int,
    g: spec_fn(int, int) -> int,
    x: int,
    height: nat,
    b: int,
)
    requires
        forall|y: int| 0 <= y < height && y != b ==> #[trigger] f(x, y) == g(x, y),
    ensures
        sum_line(g, x, height) == sum_line(f, x, height) + if 0 <= b < height {
            g(x, b) - f(x, b)
        } else {
            0
        },
    decreases height,
{
    if height > 0 {
        lemma_sum_line_change(f, g, x, (height - 1) as nat, b);
    }
}

/// Changing a function at one cell changes its sum over the cells by the
/// difference at that cell.
pub proof fn lemma_sum_cells_change(
    f: spec_fn(int, int) -> int,
    g: spec_fn(int, int) -> int,
    width: nat,
    height: nat,
    a: int,
    b: int,
)
    requires
        forall|x: int, y: int|
            0 <= x < width && 0 <= y < height && (x != a || y != b) ==> #[trigger] f(x, y) == g(
                x,
                y,
            ),
    ensures
        sum_cells(g, width, height) == sum_cells(f, width, height) + if 0 <= a < width && 0 <= b
            < height {
            g(a, b) - f(a, b)
        } else {
            0
        },
    decreases width,
{
    if width > 0 {
        lemma_sum_cells_change(f, g, (width - 1) as nat, height, a, b);
        if a == width - 1 {
            lemma_sum_line_change(f, g, width - 1, height, b);
        } else {
            lemma_sum_line_equal(f, g, width - 1, height);
        }
    }
}

/// A line sum of a function between 0 and `bound * g` lies between 0 and
/// `bound` times the line sum of `g`.
pub proof fn lemma_sum_line_bounded(
    f: spec_fn(int, int) -> int,
    g: spec_fn(int, int) -> int,
    x: int,
    height: nat,
    bound: int,
)
    requires
        forall|y: int| 0 <= y < height ==> 0 <= #[trigger] f(x, y) <= bound * g(x, y),
    ensures
        0 <= sum_line(f, x, height) <= bound * sum_line(g, x, height),
    decreases height,
{
    if height > 0 {
        lemma_sum_line_bounded(f, g, x, (height - 1) as nat, bound);
        lemma_mul_is_distributive_add(
            bound,
            sum_line(g, x, (height - 1) as nat),
            g(x, height - 1),
        );
    }
}

/// A sum over cells of a function between 0 and `bound * g` lies between 0
/// and `bound` times the sum of `g`.
pub proof fn lemma_sum_cells_bounded(
    f: spec_fn(int, int) -> int,
    g: spec_fn(int, int) -> int,
    width: nat,
    height: nat,
    bound: int,
)
    requires
        forall|x: int, y: int|
            0 <= x < width && 0 <= y < height ==> 0 <= #[trigger] f(x, y) <= bound * g(x, y),
    ensures
        0 <= sum_cells(f, width, height) <= bound * sum_cells(g, width, height),
    decreases width,
{
    if width > 0 {
        lemma_sum_cells_bounded(f, g, (width - 1) as nat, height, bound);
        lemma_sum_line_bounded(f, g, width - 1, height, bound);
        lemma_mul_is_distributive_add(
            bound,
            sum_cells(g, (width - 1) as nat, height),
            sum_line(g, width - 1, height),
        );
    }
}

/// A line of `height` cells holds between 0 and `height` particles.
pub proof fn lemma_line_count_bounded(grid: Grid, x: int, height: nat)
    ensures
        0 <= sum_line(occupancy(grid), x, height) <= height,
    decreases height,
{
    if height > 0 {
        lemma_line_count_bounded(grid, x, (height - 1) as nat);
    }
}

/// The first `width` lines of `height` cells hold between 0 and
/// `width * height` particles.
pub proof fn lemma_cells_count_bounded(grid: Grid, width: nat, height: nat)
    ensures
        0 <= sum_cells(occupancy(grid), width, height) <= width * height,
    decreases width,
{
    if width > 0 {
        lemma_cells_count_bounded(grid, (width - 1) as nat, height);
        lemma_line_count_bounded(grid, width - 1, height);
        assert(width * height == (width - 1) * height + height) by (nonlinear_arith);
    } else {
        assert(width * height == 0) by (nonlinear_arith)
            requires
                width == 0,
        ;
    }
}

/// The particles in the first `width` lines and the first `height` cells of
/// the next line are no more than all the particles of a lattice of side
/// `size`.
pub proof fn lemma_partial_count(grid: Grid, size: nat, width: nat, height: nat)
    requires
        width < size,
        height <= size,
    ensures
        0 <= sum_cells(occupancy(grid), width, size) + sum_line(occupancy(grid), width as int, height)
            <= sum_cells(occupancy(grid), size, size) <= size * size,
{
    lemma_cells_count_bounded(grid, width, size);
    lemma_cells_count_bounded(grid, size, size);
    lemma_line_count_bounded(grid, width as int, height);
    lemma_line_extends(grid, width as int, height, size);
    lemma_cells_extend(grid, (width + 1) as nat, size, size);
}

/// A longer stretch of a line holds at least as many particles.
pub proof fn lemma_line_extends(grid: Grid, x: int, shorter: nat, longer: nat)
    requires
        shorter <= longer,
    ensures
        sum_line(occupancy(grid), x, shorter) <= sum_line(occupancy(grid), x, longer),
    decreases longer,
{
    if shorter < longer {
        lemma_line_extends(grid, x, shorter, (longer - 1) as nat);
    }
}

/// More lines hold at least as many particles.
pub proof fn lemma_cells_extend(grid: Grid, fewer: nat, more: nat, height: nat)
    requires
        fewer <= more,
    ensures
        sum_cells(occupancy(grid), fewer, height) <= sum_cells(occupancy(grid), more, height),
    decreases more,
{
    if fewer < more {
        lemma_cells_extend(grid, fewer, (more - 1) as nat, height);
        lemma_line_count_bounded(grid, more - 1, height);
    }
}

/// A grid without particles counts zero.
pub proof fn lemma_count_of_empty(grid: Grid, size: nat)
    requires
        is_square(grid, size),
        all_empty(grid),
    ensures
        count_occupied(grid) == 0,
{
    let zero = |x: int, y: int| 0int;
    lemma_sum_cells_equal(occupancy(grid), zero, size, size);
    lemma_sum_cells_bounded(zero, zero, size, size, 0);
    assert(0 * sum_cells(zero, size, size) == 0) by (nonlinear_arith);
}

} // verus!
