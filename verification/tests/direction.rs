use lattice_gas::direction::VertexState;

const DIRECTIONS: [VertexState; 4] =
    [VertexState::Left, VertexState::Right, VertexState::Top, VertexState::Bottom];

#[test]
fn left_wraps_from_the_first_column_to_the_last() {
    assert_eq!(VertexState::Left.get_index(0, 2, 5), (4, 2));
}

#[test]
fn right_wraps_from_the_last_column_to_the_first() {
    assert_eq!(VertexState::Right.get_index(4, 2, 5), (0, 2));
}

#[test]
fn top_wraps_from_the_first_row_to_the_last() {
    assert_eq!(VertexState::Top.get_index(3, 0, 5), (3, 4));
}

#[test]
fn bottom_wraps_from_the_last_row_to_the_first() {
    assert_eq!(VertexState::Bottom.get_index(3, 4, 5), (3, 0));
}

#[test]
fn moves_inside_the_lattice_change_one_coordinate_by_one() {
    assert_eq!(VertexState::Left.get_index(2, 3, 5), (1, 3));
    assert_eq!(VertexState::Right.get_index(2, 3, 5), (3, 3));
    assert_eq!(VertexState::Top.get_index(2, 3, 5), (2, 2));
    assert_eq!(VertexState::Bottom.get_index(2, 3, 5), (2, 4));
}

#[test]
fn an_empty_cell_points_at_itself() {
    assert_eq!(VertexState::Empty.get_index(2, 3, 5), (2, 3));
    assert_eq!(VertexState::Empty.get_index(0, 0, 1), (0, 0));
}

#[test]
fn on_a_single_cell_every_move_leads_back() {
    for direction in DIRECTIONS {
        assert_eq!(direction.get_index(0, 0, 1), (0, 0));
    }
}

#[test]
fn every_target_stays_on_the_lattice() {
    for size in 1..6usize {
        for x in 0..size {
            for y in 0..size {
                for direction in DIRECTIONS {
                    let (tx, ty) = direction.get_index(x, y, size);
                    assert!(tx < size && ty < size);
                }
            }
        }
    }
}

#[test]
fn moving_forth_and_back_returns_to_the_start() {
    for size in 1..6usize {
        for x in 0..size {
            for y in 0..size {
                let (rx, ry) = VertexState::Right.get_index(x, y, size);
                assert_eq!(VertexState::Left.get_index(rx, ry, size), (x, y));
                let (bx, by) = VertexState::Bottom.get_index(x, y, size);
                assert_eq!(VertexState::Top.get_index(bx, by, size), (x, y));
            }
        }
    }
}

#[test]
fn works_at_the_largest_side() {
    let size = usize::MAX;
    assert_eq!(VertexState::Right.get_index(size - 1, 0, size), (0, 0));
    assert_eq!(VertexState::Right.get_index(size - 2, 0, size), (size - 1, 0));
    assert_eq!(VertexState::Left.get_index(0, 7, size), (size - 1, 7));
    assert_eq!(VertexState::Bottom.get_index(1, size - 1, size), (1, 0));
}

#[test]
fn occupied_is_everything_but_empty() {
    for direction in DIRECTIONS {
        assert!(direction.is_occupied());
    }
    assert!(!VertexState::Empty.is_occupied());
}

#[test]
fn from_index_follows_the_order_of_the_directions() {
    assert_eq!(VertexState::from_index(0), VertexState::Left);
    assert_eq!(VertexState::from_index(1), VertexState::Right);
    assert_eq!(VertexState::from_index(2), VertexState::Top);
    assert_eq!(VertexState::from_index(3), VertexState::Bottom);
}

#[test]
fn from_index_gives_bottom_past_the_last_direction() {
    assert_eq!(VertexState::from_index(4), VertexState::Bottom);
    assert_eq!(VertexState::from_index(u64::MAX), VertexState::Bottom);
}

#[test]
fn turned_skips_the_current_direction() {
    assert_eq!(VertexState::Left.turned(0), VertexState::Right);
    assert_eq!(VertexState::Left.turned(1), VertexState::Top);
    assert_eq!(VertexState::Left.turned(2), VertexState::Bottom);
    assert_eq!(VertexState::Right.turned(0), VertexState::Left);
    assert_eq!(VertexState::Right.turned(1), VertexState::Top);
    assert_eq!(VertexState::Right.turned(2), VertexState::Bottom);
    assert_eq!(VertexState::Top.turned(0), VertexState::Left);
    assert_eq!(VertexState::Top.turned(1), VertexState::Right);
    assert_eq!(VertexState::Top.turned(2), VertexState::Bottom);
    assert_eq!(VertexState::Bottom.turned(0), VertexState::Left);
    assert_eq!(VertexState::Bottom.turned(1), VertexState::Right);
    assert_eq!(VertexState::Bottom.turned(2), VertexState::Top);
}

#[test]
fn turned_reaches_each_other_direction_once() {
    for current in DIRECTIONS {
        let reached = [current.turned(0), current.turned(1), current.turned(2)];
        for target in DIRECTIONS {
            let hits = reached.iter().filter(|r| **r == target).count();
            assert_eq!(hits, if target == current { 0 } else { 1 });
        }
    }
}

#[test]
fn turned_counts_draws_modulo_three() {
    for current in DIRECTIONS {
        for k in 0..3u64 {
            assert_eq!(current.turned(k + 3), current.turned(k));
            assert_eq!(current.turned(k + 300), current.turned(k));
        }
    }
    assert_eq!(VertexState::Bottom.turned(u64::MAX), VertexState::Left);
}

#[test]
fn turned_never_empties_a_cell() {
    for current in DIRECTIONS {
        for k in 0..6u64 {
            assert!(current.turned(k).is_occupied());
            assert_ne!(current.turned(k), current);
        }
    }
    for k in 0..6u64 {
        assert!(VertexState::Empty.turned(k).is_occupied());
    }
}
