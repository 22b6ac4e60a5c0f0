//! The state of one lattice cell and the periodic neighbourhood it induces.
use vstd::arithmetic::div_mod::lemma_fundamental_div_mod_converse;
use vstd::prelude::*;

verus! {

/// What a lattice cell holds: nothing, or one particle heading in one of the
/// four axis directions.
#[derive(PartialEq, Eq, Structural, Clone, Copy, Debug)]
pub enum VertexState {
    Left,
    Right,
    Top,
    Bottom,
    Empty,
}

/// The coordinate reached from `x` by `delta` cells on a ring of `size` cells.
pub open spec fn wrap(x: int, delta: int, size: int) -> int {
    (x + delta) % size
}

/// One cell back on the ring: the last cell follows cell 0.
pub proof fn lemma_wrap_back(x: int, size: int)
    requires
        0 <= x < size,
    ensures
        wrap(x, -1, size) == if x == 0 { size - 1 } else { x - 1 },
{
    if x == 0 {
        lemma_fundamental_div_mod_converse(x - 1, size, -1, size - 1);
    } else {
        lemma_fundamental_div_mod_converse(x - 1, size, 0, x - 1);
    }
}

/// One cell forward on the ring: cell 0 follows the last cell.
pub proof fn lemma_wrap_forward(x: int, size: int)
    requires
        0 <= x < size,
    ensures
        wrap(x, 1, size) == if x == size - 1 { 0 } else { x + 1 },
{
    if x == size - 1 {
        lemma_fundamental_div_mod_converse(x + 1, size, 1, 0);
    } else {
        lemma_fundamental_div_mod_converse(x + 1, size, 0, x + 1);
    }
}

/// Staying in place on the ring.
pub proof fn lemma_wrap_stay(x: int, size: int)
    requires
        0 <= x < size,
    ensures
        wrap(x, 0, size) == x,
{
    lemma_fundamental_div_mod_converse(x, size, 0, x);
}

impl VertexState {
    /// Whether the cell holds a particle.
    pub open spec fn occupied(self) -> bool {
        self != VertexState::Empty
    }

    /// The displacement of one move, as (columns, rows). An empty cell does
    /// not move.
    pub open spec fn offset(self) -> (int, int) {
        match self {
            VertexState::Left => (-1, 0),
            VertexState::Right => (1, 0),
            VertexState::Top => (0, -1),
            VertexState::Bottom => (0, 1),
            VertexState::Empty => (0, 0),
        }
    }

    /// The cell that a particle at `(x, y)` heads for on a periodic lattice of
    /// side `size`.
    pub open spec fn neighbour(self, x: int, y: int, size: int) -> (int, int) {
        (wrap(x, self.offset().0, size), wrap(y, self.offset().1, size))
    }

    /// The position of a direction in the order Left, Right, Top, Bottom; an
    /// empty cell comes last.
    pub open spec fn rank(self) -> nat {
        match self {
            VertexState::Left => 0,
            VertexState::Right => 1,
            VertexState::Top => 2,
            VertexState::Bottom => 3,
            VertexState::Empty => 4,
        }
    }

    /// The direction at position `k` of the order Left, Right, Top, Bottom;
    /// every position past the third is Bottom.
    pub open spec fn ranked(k: nat) -> VertexState {
        if k == 0 {
            VertexState::Left
        } else if k == 1 {
            VertexState::Right
        } else if k == 2 {
            VertexState::Top
        } else {
            VertexState::Bottom
        }
    }

    /// The direction at position `k mod 3` among the three directions other
    /// than `self`, kept in the order Left, Right, Top, Bottom.
    pub open spec fn other(self, k: nat) -> VertexState {
        let i = k % 3;
        if i < self.rank() {
            Self::ranked(i)
        } else {
            Self::ranked(i + 1)
        }
    }

    /// Computes the cell that a particle at `(x, y)` moves to, wrapping around
    /// at the four edges of the lattice.
    pub fn get_index(&self, x: usize, y: usize, size: usize) -> (r: (usize, usize))
        requires
            x < size,
            y < size,
        ensures
            (r.0 as int, r.1 as int) == self.neighbour(x as int, y as int, size as int),
            r.0 < size,
            r.1 < size,
    {
        proof {
            lemma_wrap_back(x as int, size as int);
            lemma_wrap_back(y as int, size as int);
            lemma_wrap_forward(x as int, size as int);
            lemma_wrap_forward(y as int, size as int);
            lemma_wrap_stay(x as int, size as int);
            lemma_wrap_stay(y as int, size as int);
        }
        match self {
            VertexState::Left => if x == 0 {
                (size - 1, y)
            } else {
                (x - 1, y)
            },
            VertexState::Right => if x == size - 1 {
                (0, y)
            } else {
                (x + 1, y)
            },
            VertexState::Top => if y == 0 {
                (x, size - 1)
            } else {
                (x, y - 1)
            },
            VertexState::Bottom => if y == size - 1 {
                (x, 0)
            } else {
                (x, y + 1)
            },
            VertexState::Empty => (x, y),
        }
    }

    /// Whether the cell holds a particle.
    pub fn is_occupied(&self) -> (r: bool)
        ensures
            r == self.occupied(),
    {
        match self {
            VertexState::Empty => false,
            _ => true,
        }
    }

    /// Turns a number drawn from 0, 1, 2, 3 into the direction at that
    /// position; larger numbers give Bottom.
    pub fn from_index(k: u64) -> (r: VertexState)
        ensures
            r == Self::ranked(k as nat),
            r.occupied(),
    {
        match k {
            0 => VertexState::Left,
            1 => VertexState::Right,
            2 => VertexState::Top,
            _ => VertexState::Bottom,
        }
    }

    /// Turns a number drawn from 0, 1, 2 into a direction other than the
    /// current one.
    pub fn turned(&self, k: u64) -> (r: VertexState)
        ensures
            r == self.other(k as nat),
            r.occupied(),
            r != *self,
    {
        let i: u64 = k % 3;
        let skip: u64 = match self {
            VertexState::Left => 0,
            VertexState::Right => 1,
            VertexState::Top => 2,
            VertexState::Bottom => 3,
            VertexState::Empty => 4,
        };
        if i < skip {
            Self::from_index(i)
        } else {
            Self::from_index(i + 1)
        }
    }
}

/// A particle that leaves the lattice over one edge comes back in over the
/// opposite edge, in the same row or column: Left from column 0 leads to the
/// last column, Right from the last column to column 0, Top from row 0 to the
/// last row and Bottom from the last row to row 0.
pub proof fn lemma_wraparound(x: int, y: int, size: int)
    requires
        0 <= x < size,
        0 <= y < size,
    ensures
        VertexState::Left.neighbour(0, y, size) == (size - 1, y),
        VertexState::Right.neighbour(size - 1, y, size) == (0int, y),
        VertexState::Top.neighbour(x, 0, size) == (x, size - 1),
        VertexState::Bottom.neighbour(x, size - 1, size) == (x, 0int),
{
    lemma_wrap_back(0, size);
    lemma_wrap_forward(size - 1, size);
    lemma_wrap_stay(x, size);
    lemma_wrap_stay(y, size);
}

/// Away from the edges a move changes one coordinate by one and keeps the
/// other.
pub proof fn lemma_interior_move(x: int, y: int, size: int)
    requires
        0 <= x < size,
        0 <= y < size,
    ensures
        x > 0 ==> VertexState::Left.neighbour(x, y, size) == (x - 1, y),
        x < size - 1 ==> VertexState::Right.neighbour(x, y, size) == (x + 1, y),
        y > 0 ==> VertexState::Top.neighbour(x, y, size) == (x, y - 1),
        y < size - 1 ==> VertexState::Bottom.neighbour(x, y, size) == (x, y + 1),
        VertexState::Empty.neighbour(x, y, size) == (x, y),
{
    lemma_wrap_back(x, size);
    lemma_wrap_back(y, size);
    lemma_wrap_forward(x, size);
    lemma_wrap_forward(y, size);
    lemma_wrap_stay(x, size);
    lemma_wrap_stay(y, size);
}

/// The target of a move lies on the lattice.
pub proof fn lemma_neighbour_on_lattice(dir: VertexState, x: int, y: int, size: int)
    requires
        0 <= x < size,
        0 <= y < size,
    ensures
        0 <= dir.neighbour(x, y, size).0 < size,
        0 <= dir.neighbour(x, y, size).1 < size,
{
    lemma_wrap_back(x, size);
    lemma_wrap_back(y, size);
    lemma_wrap_forward(x, size);
    lemma_wrap_forward(y, size);
    lemma_wrap_stay(x, size);
    lemma_wrap_stay(y, size);
}

/// Turning never keeps the direction and never empties the cell, and each of
/// the three other directions is reached from exactly one of the draws 0, 1, 2.
pub proof fn lemma_other_covers_the_rest(dir: VertexState, target: VertexState)
    requires
        dir.occupied(),
        target.occupied(),
        target != dir,
    ensures
        exists|k: nat| k < 3 && #[trigger] dir.other(k) == target,
        forall|k: nat, l: nat| k < 3 && l < 3 && dir.other(k) == dir.other(l) ==> k == l,
        forall|k: nat| #[trigger] dir.other(k) != dir && dir.other(k).occupied(),
{
    assert(dir.other(0) == target || dir.other(1) == target || dir.other(2) == target);
}

} // verus!
