use measurements::Dimension;
use measurements::Magnitude;
use measurements::Measure;
use measurements::MeasureLike;
use measurements::MultiMeasure;
use measurements::Rational;
use measurements::SingleMeasure;
use measurements::Unit;
use measurements::VolumeDimension;

fn volume(base: i32) -> Magnitude {
    Magnitude::single(
        Rational::from_integer(base),
        Dimension::Volume(VolumeDimension),
    )
}

fn teaspoons(count: i32) -> Magnitude {
    Measure::single(Rational::from_integer(count), Unit::Teaspoon).magnitude()
}

fn single(numer: i32, denom: i32, unit: Unit) -> Measure {
    Measure::single(Rational::new(numer, denom), unit)
}

fn multi(parts: Vec<(i32, i32, Unit)>) -> Measure {
    let mut measures = Vec::new();
    for (numer, denom, unit) in parts {
        measures.push(SingleMeasure::new(Rational::new(numer, denom), unit));
    }
    Measure::Multi(MultiMeasure { measures })
}

#[test]
fn test_best_quantities() {
    for i in 0..400 {
        let best = teaspoons(i).best_measure();
        let all = teaspoons(i).best_measures();
        assert_eq!(best.is_none(), all.is_empty());
        if let Some(best) = best {
            assert!(all.contains(&best));
            assert_eq!(best.magnitude(), teaspoons(i));
        }
        for (k, measure) in all.iter().enumerate() {
            assert_eq!(measure.magnitude(), teaspoons(i));
            if k > 0 {
                if let Measure::Single(single) = measure {
                    assert!(!(single.value.is_integer() && single.unit.is_common()));
                }
            }
        }
    }
}

#[test]
fn best_measures_of_one_cup() {
    // 4608 drops: whole in every unit up to the cup, a half pint, a
    // quarter of a quart, a sixteenth of a gallon
    assert_eq!(
        volume(4608).best_measures(),
        vec![
            single(1, 1, Unit::Cup),
            single(1, 2, Unit::Pint),
            single(1, 4, Unit::Quart),
        ]
    );
    assert_eq!(volume(4608).best_measure(), Some(single(1, 1, Unit::Cup)));
}

#[test]
fn best_measures_keep_nothing_below_a_whole_common_unit() {
    // 400 teaspoons: the drops, smidgens, pinches and dashes are whole
    // numbers too, and all of them go
    assert_eq!(
        teaspoons(400).best_measures(),
        vec![
            single(400, 1, Unit::Teaspoon),
            single(400, 3, Unit::Tablespoon),
            single(25, 3, Unit::Cup),
            multi(vec![(4, 1, Unit::Pint), (1, 3, Unit::Cup)]),
            multi(vec![(2, 1, Unit::Quart), (1, 3, Unit::Cup)]),
        ]
    );
    assert_eq!(
        teaspoons(400).best_measure(),
        Some(single(25, 3, Unit::Cup))
    );
}

#[test]
fn best_measures_of_four_hundred_base_units() {
    // 400 drops make no whole number of a common unit, so every unit that
    // reads naturally stays
    assert_eq!(
        volume(400).best_measures(),
        vec![
            single(400, 1, Unit::Drop),
            single(400, 3, Unit::Smidgen),
            single(200, 3, Unit::Pinch),
            single(100, 3, Unit::Dash),
            multi(vec![(4, 1, Unit::Teaspoon), (4, 3, Unit::Dash)]),
            multi(vec![(1, 1, Unit::Tablespoon), (28, 3, Unit::Dash)]),
        ]
    );
    assert_eq!(
        volume(400).best_measure(),
        Some(multi(vec![(1, 1, Unit::Tablespoon), (28, 3, Unit::Dash)]))
    );
}

#[test]
fn best_measure_falls_back_to_the_first() {
    // a third of a drop reads naturally in drops alone
    let tiny = Magnitude::single(Rational::new(1, 3), Dimension::Volume(VolumeDimension));
    assert_eq!(tiny.best_measures(), vec![single(1, 3, Unit::Drop)]);
    assert_eq!(tiny.best_measure(), Some(single(1, 3, Unit::Drop)));
}

#[test]
fn best_measures_of_nothing() {
    assert_eq!(volume(0).best_measures(), vec![]);
    assert_eq!(volume(0).best_measure(), None);
    let fifth = Magnitude::single(Rational::new(1, 5), Dimension::Volume(VolumeDimension));
    assert_eq!(fifth.best_measures(), vec![]);
    assert_eq!(fifth.best_measure(), None);
}

#[test]
fn a_unitless_magnitude_has_no_best_measure() {
    let cloves = Measure::single(
        Rational::from_integer(3),
        Unit::unitless("cloves".to_string()),
    )
    .magnitude();
    assert_eq!(cloves.best_measures(), vec![]);
    assert_eq!(cloves.best_measure(), None);
}

#[test]
fn a_range_has_no_best_measure() {
    let range = Magnitude::range(
        Rational::from_integer(96),
        Rational::from_integer(192),
        Dimension::Volume(VolumeDimension),
    );
    assert_eq!(range.best_measures(), vec![]);
    assert_eq!(range.best_measure(), None);
}

#[test]
fn measure_divides_by_the_multiple() {
    assert_eq!(
        volume(4608).measure(Unit::Tablespoon),
        single(16, 1, Unit::Tablespoon)
    );
    assert_eq!(volume(400).measure(Unit::Teaspoon), single(25, 6, Unit::Teaspoon));
    assert_eq!(volume(400).measure(Unit::Gallon), single(25, 4608, Unit::Gallon));
    let range = Magnitude::range(
        Rational::from_integer(600),
        Rational::from_integer(720),
        Dimension::Time(measurements::TimeDimension),
    );
    assert_eq!(
        range.measure(Unit::Minute),
        Measure::Range(measurements::RangeMeasure::new(
            Rational::from_integer(10),
            Unit::Minute,
            Rational::from_integer(12),
            Unit::Minute
        ))
    );
}

#[test]
fn scaling_multiplies_the_base_value() {
    assert_eq!(volume(96).mul(Rational::new(3, 2)), volume(144));
    assert_eq!(
        volume(1).mul(Rational::new(1, 3)),
        Magnitude::single(Rational::new(1, 3), Dimension::Volume(VolumeDimension))
    );
    let range = Magnitude::range(
        Rational::from_integer(2),
        Rational::from_integer(3),
        Dimension::Volume(VolumeDimension),
    );
    assert_eq!(
        range.mul(Rational::from_integer(4)),
        Magnitude::range(
            Rational::from_integer(8),
            Rational::from_integer(12),
            Dimension::Volume(VolumeDimension)
        )
    );
}

#[test]
fn magnitudes_are_equal_whatever_the_unit() {
    assert_eq!(
        single(3, 1, Unit::Teaspoon).magnitude(),
        single(1, 1, Unit::Tablespoon).magnitude()
    );
    assert_eq!(
        single(1, 1, Unit::Gallon).magnitude(),
        single(16, 1, Unit::Cup).magnitude()
    );
    assert_ne!(
        single(1, 1, Unit::Second).magnitude(),
        single(1, 1, Unit::Drop).magnitude()
    );
    assert_ne!(
        single(1, 1, Unit::Fahrenheit).magnitude(),
        single(1, 1, Unit::unitless("degree".to_string())).magnitude()
    );
    assert_eq!(
        single(90, 1, Unit::Minute).magnitude(),
        single(3, 2, Unit::Hour).magnitude()
    );
}

#[test]
fn a_multi_measure_is_the_sum_of_its_parts() {
    let composite = multi(vec![(1, 1, Unit::Cup), (2, 1, Unit::Tablespoon)]);
    assert_eq!(composite.magnitude(), volume(4608 + 576));
    assert_eq!(composite.dimension(), Dimension::Volume(VolumeDimension));
    assert_eq!(
        multi(vec![(4, 1, Unit::Pint), (1, 3, Unit::Cup)]).magnitude(),
        teaspoons(400)
    );
}

#[test]
fn a_range_measure_keeps_both_ends() {
    let range = measurements::RangeMeasure::new(
        Rational::from_integer(10),
        Unit::Minute,
        Rational::from_integer(1),
        Unit::Hour,
    );
    assert_eq!(
        range.magnitude(),
        Magnitude::range(
            Rational::from_integer(600),
            Rational::from_integer(3600),
            Dimension::Time(measurements::TimeDimension)
        )
    );
    assert_eq!(range.dimension(), Dimension::Time(measurements::TimeDimension));
}

#[test]
fn presentable_magnitudes() {
    assert!(volume(400).is_presentable());
    assert!(teaspoons(400).is_presentable());
    // 29127 * 73728 is just within the limit, 29128 * 73728 is beyond it
    let near = Magnitude::single(Rational::new(1, 29127), Dimension::Volume(VolumeDimension));
    assert!(near.is_presentable());
    let far = Magnitude::single(Rational::new(1, 29128), Dimension::Volume(VolumeDimension));
    assert!(!far.is_presentable());
    let seconds = Magnitude::single(
        Rational::new(1, 596523),
        Dimension::Time(measurements::TimeDimension),
    );
    assert!(seconds.is_presentable());
    let fewer = Magnitude::single(
        Rational::new(1, 596524),
        Dimension::Time(measurements::TimeDimension),
    );
    assert!(!fewer.is_presentable());
    let unitless = Magnitude::single(
        Rational::new(1, 2147483647),
        Dimension::Unitless(measurements::UnitlessDimension),
    );
    assert!(unitless.is_presentable());
    let range = Magnitude::range(
        Rational::new(1, 2147483647),
        Rational::from_integer(1),
        Dimension::Volume(VolumeDimension),
    );
    assert!(range.is_presentable());
}

#[test]
fn best_measures_of_a_small_denominator_at_the_limit() {
    let near = Magnitude::single(Rational::new(1, 29127), Dimension::Volume(VolumeDimension));
    assert_eq!(near.best_measures(), vec![]);
    let third = Magnitude::single(
        Rational::new(73728, 3),
        Dimension::Volume(VolumeDimension),
    );
    assert_eq!(third.best_measure(), Some(single(16, 3, Unit::Cup)));
}

#[test]
fn measures_are_cloned_whole() {
    let composite = multi(vec![(1, 1, Unit::Cup), (2, 1, Unit::Tablespoon)]);
    assert_eq!(composite.clone(), composite);
    let named = single(3, 1, Unit::unitless("cloves".to_string()));
    assert_eq!(named.clone(), named);
    let range = Measure::Range(measurements::RangeMeasure::new(
        Rational::from_integer(10),
        Unit::Minute,
        Rational::from_integer(12),
        Unit::Minute,
    ));
    assert_eq!(range.clone(), range);
}

#[test]
fn a_magnitude_is_presentable_where_its_values_can_be_held() {
    // 73728/29129 drops: the numerator cancels against every multiple
    let base = Rational::new(73728, 29129);
    let magnitude = Magnitude::single(base, Dimension::Volume(VolumeDimension));
    assert!(magnitude.is_presentable());
    assert_eq!(
        magnitude.measure(Unit::Gallon),
        single(1, 29129, Unit::Gallon)
    );
    assert_eq!(magnitude.measure(Unit::Cup), single(16, 29129, Unit::Cup));
    for measure in magnitude.best_measures() {
        assert_eq!(measure.magnitude(), magnitude);
    }
    // 3/29128 drops cancel against the three in every multiple
    let third = Magnitude::single(Rational::new(3, 29128), Dimension::Volume(VolumeDimension));
    assert!(third.is_presentable());
    assert_eq!(
        third.measure(Unit::Gallon),
        single(1, 715849728, Unit::Gallon)
    );
    // 5/29128 drops cancel against none: the smidgen holds them, the gallon
    // does not
    let odd = Magnitude::single(Rational::new(5, 29128), Dimension::Volume(VolumeDimension));
    assert!(Unit::Smidgen.holds_from_base(Rational::new(5, 29128)));
    assert!(!Unit::Gallon.holds_from_base(Rational::new(5, 29128)));
    assert!(!odd.is_presentable());
    // 2147483647/2 drops: two pints and a half drop, and so on
    let large = Magnitude::single(
        Rational::new(2147483647, 2),
        Dimension::Volume(VolumeDimension),
    );
    assert!(large.is_presentable());
    for measure in large.best_measures() {
        assert_eq!(measure.magnitude(), large);
    }
}

#[test]
fn a_unit_holds_what_divides_within_the_limit() {
    assert!(Unit::Gallon.holds_from_base(Rational::from_integer(1)));
    assert!(Unit::Gallon.holds_from_base(Rational::new(1, 29127)));
    assert!(!Unit::Gallon.holds_from_base(Rational::new(1, 29128)));
    assert!(Unit::Gallon.holds_from_base(Rational::new(73728, 2147483647)));
    assert!(!Unit::Gallon.holds_from_base(Rational::new(36864, 2147483647)));
    assert!(Unit::Drop.holds_from_base(Rational::new(1, 2147483647)));
    assert!(Unit::Hour.holds_from_base(Rational::new(-3600, 2147483647)));
    assert!(!Unit::Hour.holds_from_base(Rational::new(-1, 2147483647)));
}
