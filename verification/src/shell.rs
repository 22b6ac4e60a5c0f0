//! The shells of the square lattice: the offsets at a given lattice distance.
use vstd::prelude::*;

verus! {

/// The error for a lattice distance that has no shell.
#[derive(PartialEq, Eq, Structural, Clone, Copy, Debug)]
pub struct UnsupportedDistance {
    /// The distance that was asked for.
    pub distance: u32,
}

/// The largest distance that has a shell.
pub const MAX_DISTANCE: u32 = 3;

/// The offsets `(dx, dy)` of the shell at distance `d`, in the order in which
/// they are visited; no offsets for a distance without a shell.
pub open spec fn shell(d: u32) -> Seq<(i32, i32)> {
    if d == 0 {
        seq![(0i32, 0i32)]
    } else if d == 1 {
        seq![(0i32, 1i32), (0i32, -1i32), (1i32, 0i32), (-1i32, 0i32)]
    } else if d == 2 {
        seq![
            (0i32, 2i32),
            (0i32, -2i32),
            (2i32, 0i32),
            (-2i32, 0i32),
            (1i32, 1i32),
            (1i32, -1i32),
            (-1i32, 1i32),
            (-1i32, -1i32),
        ]
    } else if d == 3 {
        seq![
            (0i32, 3i32),
            (0i32, -3i32),
            (3i32, 0i32),
            (-3i32, 0i32),
            (1i32, 2i32),
            (1i32, -2i32),
            (-1i32, 2i32),
            (-1i32, -2i32),
            (2i32, 1i32),
            (2i32, -1i32),
            (-2i32, 1i32),
            (-2i32, -1i32),
        ]
    } else {
        Seq::empty()
    }
}

/// The absolute value of a coordinate difference.
pub open spec fn magnitude(delta: int) -> int {
    if delta < 0 {
        -delta
    } else {
        delta
    }
}

/// Lists the offsets of the shell at distance `d`. Only the distances 0 to 3
/// have a shell.
pub fn indexes_in_distance(d: u32) -> (r: Result<Vec<(i32, i32)>, UnsupportedDistance>)
    ensures
        match r {
            Ok(offsets) => d <= MAX_DISTANCE && offsets@ == shell(d),
            Err(e) => d > MAX_DISTANCE && e.distance == d,
        },
{
    match d {
        0 => Ok(vec![(0, 0)]),
        1 => Ok(vec![(0, 1), (0, -1), (1, 0), (-1, 0)]),
        2 => Ok(vec![(0, 2), (0, -2), (2, 0), (-2, 0), (1, 1), (1, -1), (-1, 1), (-1, -1)]),
        3 => Ok(
            vec![
                (0, 3),
                (0, -3),
                (3, 0),
                (-3, 0),
                (1, 2),
                (1, -2),
                (-1, 2),
                (-1, -2),
                (2, 1),
                (2, -1),
                (-2, 1),
                (-2, -1),
            ],
        ),
        _ => Err(UnsupportedDistance { distance: d }),
    }
}

/// The shell at distance `d` holds exactly the offsets whose components add up
/// to `d` in absolute value, each of them once: one offset at distance 0 and
/// `4 * d` offsets at the distances 1 to 3.
pub proof fn lemma_shell_is_sphere(d: u32)
    requires
        d <= MAX_DISTANCE,
    ensures
        forall|dx: i32, dy: i32|
            shell(d).contains((dx, dy)) <==> magnitude(dx as int) + magnitude(dy as int) == d,
        shell(d).no_duplicates(),
        shell(d).len() == if d == 0 { 1int } else { 4 * d },
{
    let s = shell(d);
    assert forall|dx: i32, dy: i32| magnitude(dx as int) + magnitude(dy as int) == d implies s.contains(
        (dx, dy),
    ) by {
        if d == 0 {
            assert(s[0] == (dx, dy));
        } else if d == 1 {
            assert(s[0] == (dx, dy) || s[1] == (dx, dy) || s[2] == (dx, dy) || s[3] == (dx, dy));
        } else if d == 2 {
            assert(s[0] == (dx, dy) || s[1] == (dx, dy) || s[2] == (dx, dy) || s[3] == (dx, dy)
                || s[4] == (dx, dy) || s[5] == (dx, dy) || s[6] == (dx, dy) || s[7] == (dx, dy));
        } else {
            assert(s[0] == (dx, dy) || s[1] == (dx, dy) || s[2] == (dx, dy) || s[3] == (dx, dy)
                || s[4] == (dx, dy) || s[5] == (dx, dy) || s[6] == (dx, dy) || s[7] == (dx, dy)
                || s[8] == (dx, dy) || s[9] == (dx, dy) || s[10] == (dx, dy) || s[11] == (dx, dy));
        }
    }
}

} // verus!
