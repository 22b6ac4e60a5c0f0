//! The movement phase of a step: one pass over the cells in which every
//! particle tries to move one cell along its direction.
use crate::direction::{lemma_neighbour_on_lattice, VertexState};
use crate::grid::{
    count_occupied, is_square, lemma_sum_cells_change, occupancy, on_lattice, put, rows, Grid,
};
use vstd::prelude::*;

verus! {

/// The state of a pass: the lattice so far, and the cells that have received a
/// particle during the pass.
pub struct Sweep {
    pub grid: Grid,
    pub settled: Set<(int, int)>,
}

/// The state after the pass has come by cell `(x, y)`. A particle that did not
/// arrive during this pass moves on to the cell it heads for if that cell is
/// empty, and the cell it lands in is settled; everything else stays.
pub open spec fn visit(state: Sweep, x: int, y: int) -> Sweep {
    let particle = state.grid[x][y];
    let (tx, ty) = particle.neighbour(x, y, state.grid.len() as int);
    if !state.settled.contains((x, y)) && particle.occupied() && !state.grid[tx][ty].occupied() {
        Sweep {
            grid: put(put(state.grid, tx, ty, particle), x, y, VertexState::Empty),
            settled: state.settled.insert((tx, ty)),
        }
    } else {
        state
    }
}

/// The state of the pass over `grid` once it has come by every cell before
/// `(x, y)`: all of the lines before `x` and the first `y` cells of line `x`.
pub open spec fn sweep(grid: Grid, x: nat, y: nat) -> Sweep
    decreases x, y,
{
    if y > 0 {
        visit(sweep(grid, x, (y - 1) as nat), x as int, y - 1)
    } else if x > 0 {
        sweep(grid, (x - 1) as nat, grid.len())
    } else {
        Sweep { grid, settled: Set::empty() }
    }
}

/// The lattice after a whole pass.
pub open spec fn moved(grid: Grid) -> Grid {
    sweep(grid, grid.len(), 0).grid
}

/// Whether every settled cell lies on the lattice and holds a particle.
pub open spec fn settled_hold(state: Sweep, size: nat) -> bool {
    forall|c: (int, int)| #[trigger]
        state.settled.contains(c) ==> on_lattice(c.0, c.1, size) && state.grid[c.0][c.1].occupied()
}

/// Whether `(x, y)` is a position of a pass over a lattice of side `size`: in
/// front of a cell, behind the last cell of a line, or behind the last line.
pub open spec fn in_pass(size: nat, x: nat, y: nat) -> bool {
    x < size && y <= size || x == size && y == 0
}

/// Whether position `(x1, y1)` of a pass comes no later than `(x2, y2)`.
pub open spec fn no_later(x1: nat, y1: nat, x2: nat, y2: nat) -> bool {
    x1 < x2 || (x1 == x2 && y1 <= y2)
}

/// Coming by a cell keeps the lattice square.
pub proof fn lemma_visit_keeps_shape(state: Sweep, x: int, y: int, size: nat)
    requires
        is_square(state.grid, size),
        on_lattice(x, y, size),
    ensures
        is_square(visit(state, x, y).grid, size),
{
    lemma_neighbour_on_lattice(state.grid[x][y], x, y, size as int);
}

/// Coming by a cell moves at most one particle and never lets it land on
/// another: a cell that held a particle either still holds the same particle
/// or has been left, and a cell that holds another state than before and is
/// occupied was empty.
pub proof fn lemma_visit_never_overwrites(state: Sweep, x: int, y: int, size: nat, a: int, b: int)
    requires
        is_square(state.grid, size),
        on_lattice(x, y, size),
        on_lattice(a, b, size),
    ensures
        state.grid[a][b].occupied() ==> visit(state, x, y).grid[a][b] == state.grid[a][b] || !visit(
            state,
            x,
            y,
        ).grid[a][b].occupied(),
        visit(state, x, y).grid[a][b].occupied() && visit(state, x, y).grid[a][b] != state.grid[a][b]
            ==> !state.grid[a][b].occupied() && visit(state, x, y).grid[a][b] == state.grid[x][y]
            && (a, b) == state.grid[x][y].neighbour(x, y, size as int),
{
    lemma_neighbour_on_lattice(state.grid[x][y], x, y, size as int);
}

/// Coming by a cell neither creates nor destroys a particle.
pub proof fn lemma_visit_keeps_count(state: Sweep, x: int, y: int, size: nat)
    requires
        is_square(state.grid, size),
        on_lattice(x, y, size),
    ensures
        count_occupied(visit(state, x, y).grid) == count_occupied(state.grid),
{
    let particle = state.grid[x][y];
    let (tx, ty) = particle.neighbour(x, y, size as int);
    lemma_neighbour_on_lattice(particle, x, y, size as int);
    if !state.settled.contains((x, y)) && particle.occupied() && !state.grid[tx][ty].occupied() {
        let landed = put(state.grid, tx, ty, particle);
        let left = put(landed, x, y, VertexState::Empty);
        assert(left == visit(state, x, y).grid);
        lemma_sum_cells_change(occupancy(state.grid), occupancy(landed), size, size, tx, ty);
        lemma_sum_cells_change(occupancy(landed), occupancy(left), size, size, x, y);
    }
}

/// A settled cell stays settled and keeps its particle when the pass comes by
/// any cell, and all settled cells hold particles afterwards.
pub proof fn lemma_visit_keeps_settled(state: Sweep, x: int, y: int, size: nat)
    requires
        is_square(state.grid, size),
        on_lattice(x, y, size),
        settled_hold(state, size),
    ensures
        settled_hold(visit(state, x, y), size),
        forall|c: (int, int)| #[trigger]
            state.settled.contains(c) ==> visit(state, x, y).settled.contains(c) && visit(
                state,
                x,
                y,
            ).grid[c.0][c.1] == state.grid[c.0][c.1],
{
    lemma_neighbour_on_lattice(state.grid[x][y], x, y, size as int);
}

/// At every position of a pass the lattice is square, holds as many particles
/// as at the start, and every settled cell holds a particle.
pub proof fn lemma_sweep_invariant(grid: Grid, x: nat, y: nat)
    requires
        is_square(grid, grid.len()),
        in_pass(grid.len(), x, y),
    ensures
        is_square(sweep(grid, x, y).grid, grid.len()),
        count_occupied(sweep(grid, x, y).grid) == count_occupied(grid),
        settled_hold(sweep(grid, x, y), grid.len()),
    decreases x, y,
{
    if y > 0 {
        let before = sweep(grid, x, (y - 1) as nat);
        lemma_sweep_invariant(grid, x, (y - 1) as nat);
        lemma_visit_keeps_shape(before, x as int, y - 1, grid.len());
        lemma_visit_keeps_count(before, x as int, y - 1, grid.len());
        lemma_visit_keeps_settled(before, x as int, y - 1, grid.len());
    } else if x > 0 {
        lemma_sweep_invariant(grid, (x - 1) as nat, grid.len());
    }
}

/// The movement phase keeps the lattice square and conserves the number of
/// particles.
pub proof fn lemma_moved_conserves(grid: Grid)
    requires
        is_square(grid, grid.len()),
    ensures
        is_square(moved(grid), grid.len()),
        count_occupied(moved(grid)) == count_occupied(grid),
{
    lemma_sweep_invariant(grid, grid.len(), 0);
}

/// A cell that has received a particle during a pass stays settled and holds
/// that same particle at every later position of the pass: the particle is
/// neither lost nor moved a second time.
pub proof fn lemma_settled_stay(grid: Grid, x1: nat, y1: nat, x2: nat, y2: nat, c: (int, int))
    requires
        is_square(grid, grid.len()),
        in_pass(grid.len(), x1, y1),
        in_pass(grid.len(), x2, y2),
        no_later(x1, y1, x2, y2),
        sweep(grid, x1, y1).settled.contains(c),
    ensures
        sweep(grid, x2, y2).settled.contains(c),
        sweep(grid, x2, y2).grid[c.0][c.1] == sweep(grid, x1, y1).grid[c.0][c.1],
        sweep(grid, x2, y2).grid[c.0][c.1].occupied(),
    decreases x2, y2,
{
    lemma_sweep_invariant(grid, x1, y1);
    if x1 == x2 && y1 == y2 {
    } else if y2 > 0 {
        let before = sweep(grid, x2, (y2 - 1) as nat);
        lemma_settled_stay(grid, x1, y1, x2, (y2 - 1) as nat, c);
        lemma_sweep_invariant(grid, x2, (y2 - 1) as nat);
        lemma_visit_keeps_settled(before, x2 as int, y2 - 1, grid.len());
    } else {
        lemma_settled_stay(grid, x1, y1, (x2 - 1) as nat, grid.len(), c);
    }
}

/// A particle that has moved during the movement phase is found in the cell it
/// moved to when the phase is over.
pub proof fn lemma_settled_exclusion(grid: Grid, x: nat, y: nat, c: (int, int))
    requires
        is_square(grid, grid.len()),
        in_pass(grid.len(), x, y),
        sweep(grid, x, y).settled.contains(c),
    ensures
        moved(grid)[c.0][c.1] == sweep(grid, x, y).grid[c.0][c.1],
        moved(grid)[c.0][c.1].occupied(),
{
    lemma_settled_stay(grid, x, y, grid.len(), 0, c);
}

/// Whether the cell `(sx, sy)` of `grid` holds a particle that heads for the
/// cell `(x, y)`.
pub open spec fn heads_for(grid: Grid, sx: int, sy: int, x: int, y: int) -> bool {
    &&& on_lattice(sx, sy, grid.len())
    &&& grid[sx][sy].occupied()
    &&& grid[sx][sy].neighbour(sx, sy, grid.len() as int) == (x, y)
}

/// Whether every particle of `state` is accounted for by the lattice `start`
/// that the pass began with: a particle in a cell that is not settled is the
/// one that `start` has there, and a particle in a settled cell has come from
/// a cell of `start` that heads for the settled one.
pub open spec fn particles_traced(start: Grid, state: Sweep) -> bool {
    &&& forall|x: int, y: int|
        on_lattice(x, y, start.len()) && (#[trigger] state.grid[x][y]).occupied()
            && !state.settled.contains((x, y)) ==> state.grid[x][y] == start[x][y]
    &&& forall|c: (int, int)| #[trigger]
        state.settled.contains(c) ==> exists|sx: int, sy: int| #[trigger]
            heads_for(start, sx, sy, c.0, c.1) && start[sx][sy] == state.grid[c.0][c.1]
}

/// Whether the cell `(sx, sy)` comes before position `(x, y)` of a pass.
pub open spec fn passed(sx: int, sy: int, x: nat, y: nat) -> bool {
    sx < x || (sx == x && sy < y)
}

/// Whether the particle that `start` holds in cell `(sx, sy)` is found in
/// `state`: in its cell, which is not settled, as long as the pass at position
/// `(x, y)` has not come by; afterwards in its cell, or settled in the cell it
/// headed for.
pub open spec fn particle_kept(start: Grid, state: Sweep, x: nat, y: nat, sx: int, sy: int) -> bool {
    let target = start[sx][sy].neighbour(sx, sy, start.len() as int);
    if passed(sx, sy, x, y) {
        state.grid[sx][sy] == start[sx][sy] || (state.settled.contains(target)
            && state.grid[target.0][target.1] == start[sx][sy])
    } else {
        state.grid[sx][sy] == start[sx][sy] && !state.settled.contains((sx, sy))
    }
}

/// At every position of a pass each particle is accounted for by the lattice
/// at the start.
proof fn lemma_sweep_traces(grid: Grid, x: nat, y: nat)
    requires
        is_square(grid, grid.len()),
        in_pass(grid.len(), x, y),
    ensures
        particles_traced(grid, sweep(grid, x, y)),
    decreases x, y,
{
    if y > 0 {
        let before = sweep(grid, x, (y - 1) as nat);
        let after = sweep(grid, x, y);
        let px = x as int;
        let py = y - 1;
        lemma_sweep_traces(grid, x, (y - 1) as nat);
        lemma_sweep_invariant(grid, x, (y - 1) as nat);
        lemma_visit_keeps_settled(before, px, py, grid.len());
        lemma_neighbour_on_lattice(before.grid[px][py], px, py, grid.len() as int);
        assert forall|c: (int, int)| #[trigger] after.settled.contains(c) implies exists|
            sx: int,
            sy: int,
        | #[trigger]
            heads_for(grid, sx, sy, c.0, c.1) && grid[sx][sy] == after.grid[c.0][c.1] by {
            if before.settled.contains(c) {
                let (sx, sy) = choose|sx: int, sy: int| #[trigger]
                    heads_for(grid, sx, sy, c.0, c.1) && grid[sx][sy] == before.grid[c.0][c.1];
                assert(heads_for(grid, sx, sy, c.0, c.1));
            } else {
                assert(c == before.grid[px][py].neighbour(px, py, grid.len() as int));
                assert(before.grid[px][py] == grid[px][py]);
                assert(heads_for(grid, px, py, c.0, c.1));
            }
        }
    } else if x > 0 {
        lemma_sweep_traces(grid, (x - 1) as nat, grid.len());
    }
}

/// At every position of a pass each particle of the lattice at the start is
/// found in its cell or in the cell it headed for.
proof fn lemma_sweep_keeps_particles(grid: Grid, x: nat, y: nat, sx: int, sy: int)
    requires
        is_square(grid, grid.len()),
        in_pass(grid.len(), x, y),
        on_lattice(sx, sy, grid.len()),
        grid[sx][sy].occupied(),
    ensures
        particle_kept(grid, sweep(grid, x, y), x, y, sx, sy),
    decreases x, y,
{
    if y > 0 {
        let before = sweep(grid, x, (y - 1) as nat);
        let px = x as int;
        let py = y - 1;
        lemma_sweep_keeps_particles(grid, x, (y - 1) as nat, sx, sy);
        lemma_sweep_invariant(grid, x, (y - 1) as nat);
        lemma_visit_keeps_settled(before, px, py, grid.len());
        lemma_neighbour_on_lattice(before.grid[px][py], px, py, grid.len() as int);
        lemma_neighbour_on_lattice(grid[sx][sy], sx, sy, grid.len() as int);
    } else if x > 0 {
        lemma_sweep_keeps_particles(grid, (x - 1) as nat, grid.len(), sx, sy);
    }
}

/// The movement phase moves a particle by one cell at most, and only along its
/// direction: each particle is afterwards in its cell or in the cell it headed
/// for.
pub proof fn lemma_particles_move_one_cell(grid: Grid, x: int, y: int)
    requires
        is_square(grid, grid.len()),
        on_lattice(x, y, grid.len()),
        grid[x][y].occupied(),
    ensures
        ({
            let target = grid[x][y].neighbour(x, y, grid.len() as int);
            moved(grid)[x][y] == grid[x][y] || moved(grid)[target.0][target.1] == grid[x][y]
        }),
{
    lemma_sweep_keeps_particles(grid, grid.len(), 0, x, y);
}

/// The movement phase brings no particle from further than one cell away: a
/// particle that is in a cell afterwards was in that cell before, or in a cell
/// from which it headed for that cell.
pub proof fn lemma_particles_come_from_one_cell(grid: Grid, x: int, y: int)
    requires
        is_square(grid, grid.len()),
        on_lattice(x, y, grid.len()),
        moved(grid)[x][y].occupied(),
    ensures
        moved(grid)[x][y] == grid[x][y] || exists|sx: int, sy: int| #[trigger]
            heads_for(grid, sx, sy, x, y) && grid[sx][sy] == moved(grid)[x][y],
{
    lemma_sweep_traces(grid, grid.len(), 0);
}

/// The cells that a grid of flags marks.
pub open spec fn marked(flags: Vec<Vec<bool>>) -> Set<(int, int)> {
    Set::new(
        |c: (int, int)|
            0 <= c.0 < flags@.len() && 0 <= c.1 < flags@[c.0]@.len() && flags@[c.0]@[c.1],
    )
}

/// Whether the flags form a square of side `size`.
pub open spec fn flags_square(flags: Vec<Vec<bool>>, size: nat) -> bool {
    &&& flags@.len() == size
    &&& forall|x: int| 0 <= x < size ==> (#[trigger] flags@[x])@.len() == size
}

/// A square of cleared flags.
fn cleared_flags(size: usize) -> (flags: Vec<Vec<bool>>)
    ensures
        flags_square(flags, size as nat),
        marked(flags) =~= Set::<(int, int)>::empty(),
{
    let mut flags: Vec<Vec<bool>> = Vec::new();
    let mut x: usize = 0;
    while x < size
        invariant
            x <= size,
            flags@.len() == x,
            forall|a: int| 0 <= a < x ==> (#[trigger] flags@[a])@.len() == size,
            forall|a: int, b: int| 0 <= a < x && 0 <= b < size ==> !(#[trigger] flags@[a]@[b]),
        decreases size - x,
    {
        let mut line: Vec<bool> = Vec::new();
        let mut y: usize = 0;
        while y < size
            invariant
                y <= size,
                line@.len() == y,
                forall|b: int| 0 <= b < y ==> !(#[trigger] line@[b]),
            decreases size - y,
        {
            line.push(false);
            y += 1;
        }
        flags.push(line);
        x += 1;
    }
    flags
}

/// Lets the pass come by cell `(x, y)`.
fn visit_cell(cells: &mut Vec<Vec<VertexState>>, flags: &mut Vec<Vec<bool>>, x: usize, y: usize)
    requires
        is_square(rows(*old(cells)), old(cells)@.len() as nat),
        flags_square(*old(flags), old(cells)@.len() as nat),
        x < old(cells)@.len(),
        y < old(cells)@.len(),
    ensures
        rows(*final(cells)) == visit(
            Sweep { grid: rows(*old(cells)), settled: marked(*old(flags)) },
            x as int,
            y as int,
        ).grid,
        marked(*final(flags)) == visit(
            Sweep { grid: rows(*old(cells)), settled: marked(*old(flags)) },
            x as int,
            y as int,
        ).settled,
        final(cells)@.len() == old(cells)@.len(),
        is_square(rows(*final(cells)), old(cells)@.len() as nat),
        flags_square(*final(flags), old(cells)@.len() as nat),
{
    let size = cells.len();
    assert(rows(*cells)[x as int].len() == size);
    assert(flags@[x as int]@.len() == size);
    if !flags[x][y] {
        let particle = cells[x][y];
        if particle.is_occupied() {
            let (tx, ty) = particle.get_index(x, y, size);
            assert(rows(*cells)[tx as int].len() == size);
            assert(flags@[tx as int]@.len() == size);
            if !cells[tx][ty].is_occupied() {
                cells[tx][ty] = particle;
                cells[x][y] = VertexState::Empty;
                flags[tx][ty] = true;
                assert(rows(*cells) =~= put(
                    put(rows(*old(cells)), tx as int, ty as int, particle),
                    x as int,
                    y as int,
                    VertexState::Empty,
                ));
                assert(marked(*flags) =~= marked(*old(flags)).insert((tx as int, ty as int)));
            }
        }
    }
}

/// Runs the movement phase on the lattice: one pass over the cells, line by
/// line, in which each particle that has not arrived during the pass moves to
/// the cell ahead if that cell is empty.
pub fn advance(cells: &mut Vec<Vec<VertexState>>)
    requires
        is_square(rows(*old(cells)), old(cells)@.len() as nat),
    ensures
        rows(*final(cells)) == moved(rows(*old(cells))),
        is_square(rows(*final(cells)), old(cells)@.len() as nat),
        count_occupied(rows(*final(cells))) == count_occupied(rows(*old(cells))),
{
    let size = cells.len();
    let ghost start = rows(*cells);
    let mut flags = cleared_flags(size);
    let mut x: usize = 0;
    while x < size
        invariant
            x <= size,
            size == start.len(),
            cells@.len() == size,
            is_square(rows(*cells), size as nat),
            flags_square(flags, size as nat),
            rows(*cells) == sweep(start, x as nat, 0).grid,
            marked(flags) == sweep(start, x as nat, 0).settled,
        decreases size - x,
    {
        let mut y: usize = 0;
        while y < size
            invariant
                x < size,
                y <= size,
                size == start.len(),
                cells@.len() == size,
                is_square(rows(*cells), size as nat),
                flags_square(flags, size as nat),
                rows(*cells) == sweep(start, x as nat, y as nat).grid,
                marked(flags) == sweep(start, x as nat, y as nat).settled,
            decreases size - y,
        {
            visit_cell(cells, &mut flags, x, y);
            y += 1;
        }
        x += 1;
    }
    proof {
        lemma_moved_conserves(start);
    }
}

} // verus!
