use lattice_gas::direction::VertexState;
use lattice_gas::movement::advance;

fn empty(size: usize) -> Vec<Vec<VertexState>> {
    vec![vec![VertexState::Empty; size]; size]
}

fn occupied(cells: &Vec<Vec<VertexState>>) -> usize {
    cells.iter().flatten().filter(|state| state.is_occupied()).count()
}

#[test]
fn a_free_particle_moves_one_cell() {
    let mut cells = empty(4);
    cells[1][2] = VertexState::Bottom;
    advance(&mut cells);
    let mut expected = empty(4);
    expected[1][3] = VertexState::Bottom;
    assert_eq!(cells, expected);
}

#[test]
fn a_particle_that_has_moved_is_not_moved_again_in_the_same_pass() {
    // The particle lands in a cell that the pass comes by later.
    let mut cells = empty(4);
    cells[0][0] = VertexState::Right;
    advance(&mut cells);
    let mut expected = empty(4);
    expected[1][0] = VertexState::Right;
    assert_eq!(cells, expected);
}

#[test]
fn a_particle_that_wrapped_ahead_of_the_pass_stays_where_it_landed() {
    let mut cells = empty(4);
    cells[0][0] = VertexState::Left;
    advance(&mut cells);
    let mut expected = empty(4);
    expected[3][0] = VertexState::Left;
    assert_eq!(cells, expected);

    let mut cells = empty(4);
    cells[2][0] = VertexState::Top;
    advance(&mut cells);
    let mut expected = empty(4);
    expected[2][3] = VertexState::Top;
    assert_eq!(cells, expected);
}

#[test]
fn a_particle_wraps_over_each_edge() {
    let mut cells = empty(3);
    cells[2][1] = VertexState::Right;
    advance(&mut cells);
    assert_eq!(cells[0][1], VertexState::Right);
    assert_eq!(occupied(&cells), 1);

    let mut cells = empty(3);
    cells[1][2] = VertexState::Bottom;
    advance(&mut cells);
    assert_eq!(cells[1][0], VertexState::Bottom);
    assert_eq!(occupied(&cells), 1);
}

#[test]
fn a_particle_yields_to_the_one_ahead() {
    let mut cells = empty(4);
    cells[0][0] = VertexState::Right;
    cells[1][0] = VertexState::Right;
    advance(&mut cells);
    // The first is blocked when the pass comes by; the second moves on later.
    let mut expected = empty(4);
    expected[0][0] = VertexState::Right;
    expected[2][0] = VertexState::Right;
    assert_eq!(cells, expected);
}

#[test]
fn particles_facing_each_other_stay() {
    let mut cells = empty(4);
    cells[0][0] = VertexState::Right;
    cells[1][0] = VertexState::Left;
    let before = cells.clone();
    advance(&mut cells);
    assert_eq!(cells, before);
}

#[test]
fn the_first_to_arrive_takes_the_cell() {
    let mut cells = empty(4);
    cells[0][1] = VertexState::Top;
    cells[1][0] = VertexState::Left;
    advance(&mut cells);
    let mut expected = empty(4);
    expected[0][0] = VertexState::Top;
    expected[1][0] = VertexState::Left;
    assert_eq!(cells, expected);
}

#[test]
fn a_cell_that_was_left_can_be_taken_in_the_same_pass() {
    let mut cells = empty(4);
    cells[1][1] = VertexState::Bottom;
    cells[2][1] = VertexState::Left;
    advance(&mut cells);
    let mut expected = empty(4);
    expected[1][2] = VertexState::Bottom;
    expected[1][1] = VertexState::Left;
    assert_eq!(cells, expected);
}

#[test]
fn a_full_lattice_does_not_move() {
    let mut cells = vec![vec![VertexState::Right; 3]; 3];
    cells[1][1] = VertexState::Top;
    let before = cells.clone();
    advance(&mut cells);
    assert_eq!(cells, before);
}

#[test]
fn a_single_cell_keeps_its_particle() {
    for direction in
        [VertexState::Left, VertexState::Right, VertexState::Top, VertexState::Bottom]
    {
        let mut cells = vec![vec![direction]];
        advance(&mut cells);
        assert_eq!(cells, vec![vec![direction]]);
    }
}

#[test]
fn an_empty_lattice_stays_empty() {
    let mut cells = empty(3);
    advance(&mut cells);
    assert_eq!(cells, empty(3));
    let mut none: Vec<Vec<VertexState>> = Vec::new();
    advance(&mut none);
    assert!(none.is_empty());
}

#[test]
fn a_pass_keeps_the_number_of_particles() {
    let directions =
        [VertexState::Left, VertexState::Right, VertexState::Top, VertexState::Bottom];
    let mut cells = empty(5);
    let mut k = 0;
    for x in 0..5 {
        for y in 0..5 {
            if (x * 7 + y * 3) % 5 < 3 {
                cells[x][y] = directions[k % 4];
                k += 1;
            }
        }
    }
    let count = occupied(&cells);
    assert_eq!(count, 15);
    for _ in 0..20 {
        advance(&mut cells);
        assert_eq!(occupied(&cells), count);
        assert_eq!(cells.len(), 5);
        assert!(cells.iter().all(|line| line.len() == 5));
    }
}

#[test]
fn a_lone_particle_returns_after_as_many_passes_as_the_lattice_is_wide() {
    for direction in
        [VertexState::Left, VertexState::Right, VertexState::Top, VertexState::Bottom]
    {
        let mut cells = empty(5);
        cells[2][3] = direction;
        let start = cells.clone();
        for _ in 0..5 {
            advance(&mut cells);
        }
        assert_eq!(cells, start);
    }
}
