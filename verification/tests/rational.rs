use measurements::Rational;

fn parts(r: Rational) -> (i32, i32) {
    (r.numer(), r.denom())
}

#[test]
fn new_reduces_and_keeps_the_denominator_positive() {
    assert_eq!(parts(Rational::new(6, 8)), (3, 4));
    assert_eq!(parts(Rational::new(3, -4)), (-3, 4));
    assert_eq!(parts(Rational::new(-3, -4)), (3, 4));
    assert_eq!(parts(Rational::new(0, 5)), (0, 1));
    assert_eq!(parts(Rational::new(7, 7)), (1, 1));
    assert_eq!(parts(Rational::new(2147483647, 2147483647)), (1, 1));
    assert_eq!(parts(Rational::new(-2147483647, 2147483647)), (-1, 1));
    assert_eq!(parts(Rational::new(1012, 1000)), (253, 250));
    assert_eq!(Rational::new(2, 4), Rational::new(1, 2));
}

#[test]
fn whole_numbers() {
    assert_eq!(parts(Rational::from_integer(5)), (5, 1));
    assert_eq!(parts(Rational::from_integer(-5)), (-5, 1));
    assert_eq!(parts(Rational::zero()), (0, 1));
    assert_eq!(parts(Rational::one()), (1, 1));
    assert!(Rational::from_integer(5).is_integer());
    assert!(Rational::new(10, 5).is_integer());
    assert!(!Rational::new(1, 2).is_integer());
    assert!(Rational::zero().is_zero());
    assert!(Rational::new(0, 3).is_zero());
    assert!(!Rational::new(1, 3).is_zero());
}

#[test]
fn products_quotients_and_sums_are_exact() {
    assert_eq!(
        Rational::new(2, 3).mul(Rational::new(3, 4)),
        Rational::new(1, 2)
    );
    assert_eq!(
        Rational::new(-2, 3).mul(Rational::new(3, 4)),
        Rational::new(-1, 2)
    );
    assert_eq!(
        Rational::new(2, 3).mul(Rational::zero()),
        Rational::zero()
    );
    assert_eq!(
        Rational::new(2, 3).div(Rational::new(4, 3)),
        Rational::new(1, 2)
    );
    assert_eq!(
        Rational::new(2, 3).div(Rational::new(-4, 3)),
        Rational::new(-1, 2)
    );
    assert_eq!(
        Rational::new(1, 6).add(Rational::new(1, 3)),
        Rational::new(1, 2)
    );
    assert_eq!(
        Rational::new(1, 2).add(Rational::new(-1, 2)),
        Rational::zero()
    );
    assert_eq!(
        Rational::from_integer(1).add(Rational::new(3, 4)),
        Rational::new(7, 4)
    );
}

#[test]
fn products_are_formed_without_overflow_where_the_result_can_be_held() {
    // the parts cancel before they are multiplied
    assert_eq!(
        Rational::new(1, 73728).mul(Rational::from_integer(73728)),
        Rational::one()
    );
    assert_eq!(
        Rational::new(2147483647, 3).mul(Rational::new(3, 2147483647)),
        Rational::one()
    );
    assert_eq!(
        Rational::new(2147483647, 2).div(Rational::new(2147483647, 4)),
        Rational::from_integer(2)
    );
}

#[test]
fn checked_add_gives_nothing_where_the_sum_cannot_be_formed() {
    assert_eq!(
        Rational::from_integer(1).checked_add(Rational::new(1, 2)),
        Some(Rational::new(3, 2))
    );
    assert_eq!(
        Rational::from_integer(2147483647).checked_add(Rational::from_integer(1)),
        None
    );
    assert_eq!(
        Rational::from_integer(2147483646).checked_add(Rational::from_integer(1)),
        Some(Rational::from_integer(2147483647))
    );
    assert_eq!(
        Rational::new(1, 65536).checked_add(Rational::new(1, 65537)),
        None
    );
    assert_eq!(
        Rational::from_integer(-2147483647).checked_add(Rational::from_integer(-1)),
        None
    );
}

#[test]
fn whole_part_and_the_rest() {
    let value = Rational::new(7, 4);
    assert_eq!(value.to_integer(), 1);
    assert_eq!(value.trunc(), Rational::from_integer(1));
    assert_eq!(value.fract(), Rational::new(3, 4));
    let negative = Rational::new(-7, 4);
    assert_eq!(negative.to_integer(), -1);
    assert_eq!(negative.trunc(), Rational::from_integer(-1));
    assert_eq!(negative.fract(), Rational::new(-3, 4));
    assert_eq!(Rational::new(3, 4).to_integer(), 0);
    assert_eq!(Rational::new(3, 4).fract(), Rational::new(3, 4));
    assert_eq!(Rational::from_integer(4).fract(), Rational::zero());
    assert_eq!(parts(Rational::from_integer(4).fract()), (0, 1));
}

#[test]
fn order() {
    assert!(Rational::new(3, 4).gt(&Rational::new(2, 3)));
    assert!(!Rational::new(2, 3).gt(&Rational::new(3, 4)));
    assert!(!Rational::new(1, 2).gt(&Rational::new(2, 4)));
    assert!(Rational::new(-1, 2).gt(&Rational::new(-2, 3)));
    assert!(Rational::new(2147483647, 1).gt(&Rational::new(2147483646, 1)));
    assert!(Rational::new(1, 2147483646).gt(&Rational::new(1, 2147483647)));
}

#[test]
fn sums_are_formed_over_the_least_common_multiple() {
    assert_eq!(
        Rational::new(1, 65536).add(Rational::new(1, 65536)),
        Rational::new(1, 32768)
    );
    assert_eq!(
        Rational::new(1, 65536).checked_add(Rational::new(1, 65536)),
        Some(Rational::new(1, 32768))
    );
    assert_eq!(
        Rational::new(1, 65536).checked_add(Rational::new(1, 131072)),
        Some(Rational::new(3, 131072))
    );
    assert_eq!(
        Rational::new(1, 1073741824).checked_add(Rational::new(1, 1073741824)),
        Some(Rational::new(1, 536870912))
    );
    // the least common multiple of 2^30 and 3 is beyond the limit
    assert_eq!(
        Rational::new(1, 1073741824).checked_add(Rational::new(1, 3)),
        None
    );
    assert_eq!(
        Rational::from_integer(2147483647).checked_add(Rational::from_integer(-1)),
        Some(Rational::from_integer(2147483646))
    );
    assert_eq!(
        Rational::from_integer(-2147483647).checked_add(Rational::from_integer(2147483647)),
        Some(Rational::zero())
    );
    // a numerator brought over the common multiple is beyond the limit
    assert_eq!(
        Rational::from_integer(1073741824).checked_add(Rational::new(1, 2)),
        None
    );
    assert_eq!(
        Rational::from_integer(1073741823).checked_add(Rational::new(-1, 2)),
        Some(Rational::new(2147483645, 2))
    );
}
