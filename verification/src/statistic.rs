//! The pair-correlation statistic: how many of the cells in a shell around a
//! particle hold a particle too.
use crate::direction::{lemma_wrap_stay, wrap, VertexState};
use crate::grid::{
    all_empty, count_occupied, is_square, lemma_cells_count_bounded, lemma_count_of_empty,
    lemma_line_count_bounded, lemma_partial_count, lemma_sum_cells_bounded, lemma_sum_cells_equal,
    lemma_sum_line_bounded, occupancy, rows, sum_cells, sum_line, Grid,
};
use crate::shell::{shell, MAX_DISTANCE};
use vstd::arithmetic::div_mod::{lemma_fundamental_div_mod, lemma_fundamental_div_mod_converse};
use vstd::prelude::*;

verus! {

/// The value of the statistic as a fraction `numerator / denominator`.
#[derive(PartialEq, Eq, Structural, Clone, Copy, Debug)]
pub struct Ratio {
    /// The pairs that were found.
    pub numerator: u128,
    /// The pairs that could have been found.
    pub denominator: u128,
}

/// The number of occupied cells among those reached from `(x, y)` by the first
/// `k` of the offsets, on the periodic lattice.
pub open spec fn occupied_around(grid: Grid, offsets: Seq<(i32, i32)>, x: int, y: int, k: nat) -> int
    decreases k,
{
    if k == 0 {
        0
    } else {
        let tx = wrap(x, offsets[k - 1].0 as int, grid.len() as int);
        let ty = wrap(y, offsets[k - 1].1 as int, grid.len() as int);
        occupied_around(grid, offsets, x, y, (k - 1) as nat) + if grid[tx][ty].occupied() {
            1int
        } else {
            0int
        }
    }
}

/// For an occupied cell the number of occupied cells that the offsets reach
/// from it, for an empty cell zero.
pub open spec fn pairs_from(grid: Grid, offsets: Seq<(i32, i32)>) -> spec_fn(int, int) -> int {
    |x: int, y: int|
        if grid[x][y].occupied() {
            occupied_around(grid, offsets, x, y, offsets.len())
        } else {
            0int
        }
}

/// The number of pairs of an occupied cell and an offset that leads from it to
/// an occupied cell.
pub open spec fn pair_count(grid: Grid, offsets: Seq<(i32, i32)>) -> int {
    sum_cells(pairs_from(grid, offsets), grid.len(), grid.len())
}

/// The statistic at distance `d` as numerator and denominator: the pairs found
/// in the shell over the pairs that a full shell around every particle would
/// give, and zero over one for a lattice without particles.
pub open spec fn distribution(grid: Grid, d: u32) -> (int, int) {
    if count_occupied(grid) == 0 {
        (0, 1)
    } else {
        (pair_count(grid, shell(d)), shell(d).len() * count_occupied(grid))
    }
}

/// The offsets reach between 0 and `k` occupied cells.
pub proof fn lemma_occupied_around_bounded(
    grid: Grid,
    offsets: Seq<(i32, i32)>,
    x: int,
    y: int,
    k: nat,
)
    ensures
        0 <= occupied_around(grid, offsets, x, y, k) <= k,
    decreases k,
{
    if k > 0 {
        lemma_occupied_around_bounded(grid, offsets, x, y, (k - 1) as nat);
    }
}

/// The pairs from a cell are at most as many as the offsets, and none for an
/// empty cell.
pub proof fn lemma_pairs_from_bounded(grid: Grid, offsets: Seq<(i32, i32)>)
    ensures
        forall|x: int, y: int|
            0 <= #[trigger] pairs_from(grid, offsets)(x, y) <= offsets.len() * occupancy(grid)(
                x,
                y,
            ),
{
    assert forall|x: int, y: int|
        0 <= #[trigger] pairs_from(grid, offsets)(x, y) <= offsets.len() * occupancy(grid)(
            x,
            y,
        ) by {
        lemma_occupied_around_bounded(grid, offsets, x, y, offsets.len());
    }
}

/// The statistic is a fraction between 0 and 1: the pairs found are at most
/// the pairs that full shells would give.
pub proof fn lemma_distribution_is_a_fraction(grid: Grid, d: u32)
    requires
        is_square(grid, grid.len()),
        d <= MAX_DISTANCE,
    ensures
        0 <= distribution(grid, d).0 <= distribution(grid, d).1,
        0 < distribution(grid, d).1,
{
    let size = grid.len();
    lemma_pairs_from_bounded(grid, shell(d));
    lemma_sum_cells_bounded(
        pairs_from(grid, shell(d)),
        occupancy(grid),
        size,
        size,
        shell(d).len() as int,
    );
    lemma_cells_count_bounded(grid, size, size);
    if count_occupied(grid) > 0 {
        assert(0 < shell(d).len() * count_occupied(grid)) by (nonlinear_arith)
            requires
                shell(d).len() > 0,
                count_occupied(grid) > 0,
        ;
    }
}

/// At distance 0 every particle is paired with itself and with nothing else,
/// so the statistic of a lattice that holds a particle is one.
pub proof fn lemma_self_correlation(grid: Grid)
    requires
        is_square(grid, grid.len()),
        count_occupied(grid) > 0,
    ensures
        distribution(grid, 0).0 == distribution(grid, 0).1,
        distribution(grid, 0).0 == count_occupied(grid),
{
    let size = grid.len();
    let offsets = shell(0);
    assert forall|x: int, y: int| 0 <= x < size && 0 <= y < size implies #[trigger] pairs_from(
        grid,
        offsets,
    )(x, y) == occupancy(grid)(x, y) by {
        lemma_wrap_stay(x, size as int);
        lemma_wrap_stay(y, size as int);
        assert(occupied_around(grid, offsets, x, y, 0) == 0);
        assert(occupied_around(grid, offsets, x, y, 1) == occupancy(grid)(x, y));
    }
    lemma_sum_cells_equal(pairs_from(grid, offsets), occupancy(grid), size, size);
}

/// A lattice without particles has the statistic zero at every distance.
pub proof fn lemma_empty_lattice_is_uncorrelated(grid: Grid, d: u32)
    requires
        is_square(grid, grid.len()),
        all_empty(grid),
    ensures
        distribution(grid, d) == (0int, 1int),
{
    lemma_count_of_empty(grid, grid.len());
}

/// Computes the coordinate `delta` cells from `x` on a ring of `size` cells.
pub fn wrapped(x: usize, delta: i32, size: usize) -> (r: usize)
    requires
        x < size,
    ensures
        r == wrap(x as int, delta as int, size as int),
        r < size,
{
    if delta >= 0 {
        let step: usize = (delta as usize) % size;
        proof {
            let q = (delta as int) / (size as int);
            lemma_fundamental_div_mod(delta as int, size as int);
            if x >= size - step {
                assert(x + delta == (q + 1) * size + (x - (size - step))) by (nonlinear_arith)
                    requires
                        delta == size * q + step,
                ;
                lemma_fundamental_div_mod_converse(
                    x + delta,
                    size as int,
                    q + 1,
                    x - (size - step),
                );
            } else {
                assert(x + delta == q * size + (x + step)) by (nonlinear_arith)
                    requires
                        delta == size * q + step,
                ;
                lemma_fundamental_div_mod_converse(x + delta, size as int, q, x + step);
            }
        }
        if x >= size - step {
            x - (size - step)
        } else {
            x + step
        }
    } else {
        let back: usize = ((-(delta as i64)) as usize) % size;
        proof {
            let q = (-(delta as int)) / (size as int);
            lemma_fundamental_div_mod(-(delta as int), size as int);
            if x >= back {
                assert(x + delta == (-q) * size + (x - back)) by (nonlinear_arith)
                    requires
                        -delta == size * q + back,
                ;
                lemma_fundamental_div_mod_converse(x + delta, size as int, -q, x - back);
            } else {
                assert(x + delta == (-q - 1) * size + (x + (size - back))) by (nonlinear_arith)
                    requires
                        -delta == size * q + back,
                ;
                lemma_fundamental_div_mod_converse(
                    x + delta,
                    size as int,
                    -q - 1,
                    x + (size - back),
                );
            }
        }
        if x >= back {
            x - back
        } else {
            x + (size - back)
        }
    }
}

/// Counts the particles on the lattice.
pub fn count_particles(cells: &Vec<Vec<VertexState>>) -> (count: usize)
    requires
        is_square(rows(*cells), cells@.len() as nat),
        cells@.len() * cells@.len() <= usize::MAX,
    ensures
        count == count_occupied(rows(*cells)),
{
    let size = cells.len();
    let ghost grid = rows(*cells);
    let mut count: usize = 0;
    let mut x: usize = 0;
    while x < size
        invariant
            x <= size,
            size == cells@.len(),
            grid == rows(*cells),
            is_square(grid, size as nat),
            size * size <= usize::MAX,
            count == sum_cells(occupancy(grid), x as nat, size as nat),
        decreases size - x,
    {
        let mut y: usize = 0;
        while y < size
            invariant
                x < size,
                y <= size,
                size == cells@.len(),
                grid == rows(*cells),
                is_square(grid, size as nat),
                size * size <= usize::MAX,
                count == sum_cells(occupancy(grid), x as nat, size as nat) + sum_line(
                    occupancy(grid),
                    x as int,
                    y as nat,
                ),
            decreases size - y,
        {
            proof {
                lemma_partial_count(grid, size as nat, x as nat, (y + 1) as nat);
            }
            assert(grid[x as int].len() == size);
            if cells[x][y].is_occupied() {
                count += 1;
            }
            y += 1;
        }
        x += 1;
    }
    count
}

/// Counts the occupied cells that the offsets reach from cell `(x, y)`.
pub fn count_around(cells: &Vec<Vec<VertexState>>, offsets: &Vec<(i32, i32)>, x: usize, y: usize) -> (found:
    usize)
    requires
        is_square(rows(*cells), cells@.len() as nat),
        x < cells@.len(),
        y < cells@.len(),
    ensures
        found == occupied_around(rows(*cells), offsets@, x as int, y as int, offsets@.len()),
{
    let size = cells.len();
    let ghost grid = rows(*cells);
    let mut found: usize = 0;
    let mut k: usize = 0;
    while k < offsets.len()
        invariant
            k <= offsets@.len(),
            size == cells@.len(),
            grid == rows(*cells),
            is_square(grid, size as nat),
            x < size,
            y < size,
            found == occupied_around(grid, offsets@, x as int, y as int, k as nat),
            found <= k,
        decreases offsets@.len() - k,
    {
        let (dx, dy) = offsets[k];
        let tx = wrapped(x, dx, size);
        let ty = wrapped(y, dy, size);
        assert(grid[tx as int].len() == size);
        if cells[tx][ty].is_occupied() {
            found += 1;
        }
        k += 1;
    }
    found
}

/// Counts the pairs of an occupied cell and an offset that leads from it to
/// an occupied cell.
pub fn count_pairs(cells: &Vec<Vec<VertexState>>, offsets: &Vec<(i32, i32)>) -> (pairs: u128)
    requires
        is_square(rows(*cells), cells@.len() as nat),
        cells@.len() * cells@.len() <= usize::MAX,
    ensures
        pairs == pair_count(rows(*cells), offsets@),
{
    let size = cells.len();
    let ghost grid = rows(*cells);
    let ghost weight = pairs_from(grid, offsets@);
    let limit = offsets.len();
    let mut pairs: u128 = 0;
    let mut x: usize = 0;
    while x < size
        invariant
            x <= size,
            size == cells@.len(),
            grid == rows(*cells),
            weight == pairs_from(grid, offsets@),
            limit == offsets@.len(),
            is_square(grid, size as nat),
            size * size <= usize::MAX,
            pairs == sum_cells(weight, x as nat, size as nat),
        decreases size - x,
    {
        let mut y: usize = 0;
        while y < size
            invariant
                x < size,
                y <= size,
                size == cells@.len(),
                grid == rows(*cells),
                weight == pairs_from(grid, offsets@),
                limit == offsets@.len(),
                is_square(grid, size as nat),
                size * size <= usize::MAX,
                pairs == sum_cells(weight, x as nat, size as nat) + sum_line(
                    weight,
                    x as int,
                    y as nat,
                ),
            decreases size - y,
        {
            proof {
                let partial = sum_cells(occupancy(grid), x as nat, size as nat) + sum_line(
                    occupancy(grid),
                    x as int,
                    (y + 1) as nat,
                );
                lemma_pairs_from_bounded(grid, offsets@);
                lemma_sum_cells_bounded(
                    weight,
                    occupancy(grid),
                    x as nat,
                    size as nat,
                    limit as int,
                );
                lemma_sum_line_bounded(
                    weight,
                    occupancy(grid),
                    x as int,
                    (y + 1) as nat,
                    limit as int,
                );
                lemma_partial_count(grid, size as nat, x as nat, (y + 1) as nat);
                lemma_cells_count_bounded(grid, x as nat, size as nat);
                lemma_line_count_bounded(grid, x as int, (y + 1) as nat);
                assert(limit * sum_cells(occupancy(grid), x as nat, size as nat) + limit
                    * sum_line(occupancy(grid), x as int, (y + 1) as nat) <= usize::MAX
                    * usize::MAX) by (nonlinear_arith)
                    requires
                        0 <= limit <= usize::MAX,
                        0 <= sum_cells(occupancy(grid), x as nat, size as nat),
                        0 <= sum_line(occupancy(grid), x as int, (y + 1) as nat),
                        partial == sum_cells(occupancy(grid), x as nat, size as nat) + sum_line(
                            occupancy(grid),
                            x as int,
                            (y + 1) as nat,
                        ),
                        partial <= usize::MAX,
                ;
                assert(usize::MAX * usize::MAX <= u128::MAX) by (nonlinear_arith)
                    requires
                        usize::MAX <= 0xffff_ffff_ffff_ffff,
                ;
            }
            assert(grid[x as int].len() == size);
            if cells[x][y].is_occupied() {
                let found = count_around(cells, offsets, x, y);
                pairs += found as u128;
            }
            y += 1;
        }
        x += 1;
    }
    pairs
}

} // verus!
