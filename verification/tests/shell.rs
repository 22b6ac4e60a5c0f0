use lattice_gas::shell::{indexes_in_distance, UnsupportedDistance, MAX_DISTANCE};

#[test]
fn the_shell_at_distance_zero_is_the_cell_itself() {
    assert_eq!(indexes_in_distance(0), Ok(vec![(0, 0)]));
}

#[test]
fn the_shell_at_distance_one() {
    assert_eq!(indexes_in_distance(1), Ok(vec![(0, 1), (0, -1), (1, 0), (-1, 0)]));
}

#[test]
fn the_shell_at_distance_two() {
    assert_eq!(
        indexes_in_distance(2),
        Ok(vec![(0, 2), (0, -2), (2, 0), (-2, 0), (1, 1), (1, -1), (-1, 1), (-1, -1)])
    );
}

#[test]
fn the_shell_at_distance_three() {
    assert_eq!(
        indexes_in_distance(3),
        Ok(vec![
            (0, 3),
            (0, -3),
            (3, 0),
            (-3, 0),
            (1, 2),
            (1, -2),
            (-1, 2),
            (-1, -2),
            (2, 1),
            (2, -1),
            (-2, 1),
            (-2, -1)
        ])
    );
}

#[test]
fn distance_four_has_no_shell() {
    assert_eq!(indexes_in_distance(4), Err(UnsupportedDistance { distance: 4 }));
}

#[test]
fn large_distances_have_no_shell() {
    assert_eq!(indexes_in_distance(5), Err(UnsupportedDistance { distance: 5 }));
    assert_eq!(indexes_in_distance(u32::MAX), Err(UnsupportedDistance { distance: u32::MAX }));
}

#[test]
fn the_largest_supported_distance_is_three() {
    assert_eq!(MAX_DISTANCE, 3);
    assert!(indexes_in_distance(MAX_DISTANCE).is_ok());
    assert!(indexes_in_distance(MAX_DISTANCE + 1).is_err());
}

#[test]
fn shells_have_one_four_eight_and_twelve_offsets() {
    let sizes: Vec<usize> = (0..4).map(|d| indexes_in_distance(d).unwrap().len()).collect();
    assert_eq!(sizes, vec![1, 4, 8, 12]);
}

#[test]
fn a_shell_holds_the_offsets_at_its_distance_and_no_others() {
    for d in 0..4u32 {
        let offsets = indexes_in_distance(d).unwrap();
        for dx in -5..6i32 {
            for dy in -5..6i32 {
                let at_distance = dx.unsigned_abs() + dy.unsigned_abs() == d;
                assert_eq!(offsets.contains(&(dx, dy)), at_distance);
            }
        }
    }
}

#[test]
fn a_shell_holds_no_offset_twice() {
    for d in 0..4u32 {
        let offsets = indexes_in_distance(d).unwrap();
        for (i, a) in offsets.iter().enumerate() {
            for b in offsets.iter().skip(i + 1) {
                assert_ne!(a, b);
            }
        }
    }
}
