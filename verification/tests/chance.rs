use lattice_gas::chance::Probability;

#[test]
fn a_fraction_between_zero_and_one_is_valid() {
    assert!(Probability { numerator: 0, denominator: 1 }.is_valid());
    assert!(Probability { numerator: 1, denominator: 1 }.is_valid());
    assert!(Probability { numerator: 1, denominator: 2 }.is_valid());
    assert!(Probability { numerator: u64::MAX, denominator: u64::MAX }.is_valid());
}

#[test]
fn a_zero_denominator_is_not_valid() {
    assert!(!Probability { numerator: 0, denominator: 0 }.is_valid());
    assert!(!Probability { numerator: 1, denominator: 0 }.is_valid());
}

#[test]
fn a_fraction_above_one_is_not_valid() {
    assert!(!Probability { numerator: 2, denominator: 1 }.is_valid());
    assert!(!Probability { numerator: u64::MAX, denominator: u64::MAX - 1 }.is_valid());
}

#[test]
fn the_draws_below_the_numerator_are_admitted() {
    let p = Probability { numerator: 3, denominator: 10 };
    let admitted: Vec<bool> = (0..10).map(|draw| p.admits(draw)).collect();
    assert_eq!(
        admitted,
        vec![true, true, true, false, false, false, false, false, false, false]
    );
}

#[test]
fn nothing_is_admitted_at_probability_zero() {
    let p = Probability { numerator: 0, denominator: 4 };
    for draw in 0..4 {
        assert!(!p.admits(draw));
    }
}

#[test]
fn everything_is_admitted_at_probability_one() {
    let p = Probability { numerator: 4, denominator: 4 };
    for draw in 0..4 {
        assert!(p.admits(draw));
    }
}
