use measurements::parser::unit_resolver::match_alias;
use measurements::parser::unit_resolver::AliasMatch;
use measurements::Dimension;
use measurements::Measure;
use measurements::MeasureLike;
use measurements::ParseError;
use measurements::Rational;
use measurements::SingleMeasure;
use measurements::Unit;

#[test]
fn a_value_comes_back_exactly_from_the_base() {
    let values = [
        Rational::new(1, 3),
        Rational::new(7, 4),
        Rational::from_integer(12),
        Rational::new(5, 7),
        Rational::new(1, 1000),
    ];
    for unit in Unit::unitful_units() {
        for value in values {
            let base = unit.value_to_base(value);
            assert_eq!(unit.value_from_base(base), value);
        }
    }
}

#[test]
fn a_value_comes_back_exactly_through_another_unit() {
    let values = [
        Rational::new(1, 3),
        Rational::new(7, 4),
        Rational::from_integer(12),
        Rational::new(5, 7),
    ];
    let volume = Dimension::Volume(measurements::VolumeDimension);
    for unit in Unit::unitful_units() {
        for other in Unit::unitful_units() {
            if unit.dimension() != other.dimension() || unit.dimension() != volume {
                continue;
            }
            for value in values {
                let base = unit.value_to_base(value);
                let there = other.value_from_base(base);
                let back = unit.value_from_base(other.value_to_base(there));
                assert_eq!(back, value);
            }
        }
    }
}

#[test]
fn good_values() {
    let good = |numer: i32, denom: i32| {
        SingleMeasure::new(Rational::new(numer, denom), Unit::Cup).is_good()
    };
    assert!(good(1, 1));
    assert!(good(12, 1));
    assert!(good(1, 8));
    assert!(good(3, 8));
    assert!(good(2, 3));
    assert!(good(1, 3));
    assert!(good(1, 2));
    assert!(good(3, 4));
    assert!(good(17, 8));
    assert!(good(-3, 8));
    assert!(!good(0, 1));
    assert!(!good(5, 7));
    assert!(!good(1, 6));
    assert!(!good(1, 16));
    assert!(!good(1, 24));
    assert!(!good(1, 5));
}

#[test]
fn single_measures_as_text() {
    let text = |numer: i32, denom: i32, unit: Unit| {
        SingleMeasure::new(Rational::new(numer, denom), unit).to_string()
    };
    assert_eq!(text(2, 1, Unit::Cup), "2 C");
    assert_eq!(text(0, 1, Unit::Cup), "0 C");
    assert_eq!(text(7, 4, Unit::Teaspoon), "1 3/4 tsp");
    assert_eq!(text(3, 4, Unit::Teaspoon), "3/4 tsp");
    assert_eq!(text(-3, 4, Unit::Teaspoon), "-3/4 tsp");
    assert_eq!(text(-7, 4, Unit::Teaspoon), "-7/4 tsp");
    assert_eq!(text(1205, 1, Unit::Second), "1205 sec");
    assert_eq!(text(2147483647, 2, Unit::Drop), "1073741823 1/2 dr");
    assert_eq!(
        text(3, 1, Unit::unitless("cloves".to_string())),
        "3 cloves"
    );
}

#[test]
fn single_measures_as_text_in_full() {
    let text = |numer: i32, denom: i32, unit: Unit| {
        SingleMeasure::new(Rational::new(numer, denom), unit).render(true)
    };
    assert_eq!(text(2, 1, Unit::Cup), "2 cups");
    assert_eq!(text(1, 1, Unit::Cup), "1 cup");
    assert_eq!(text(7, 4, Unit::Teaspoon), "1 3/4 teaspoons");
    assert_eq!(text(3, 4, Unit::Pinch), "3/4 pinch");
    assert_eq!(text(10, 1, Unit::Pinch), "10 pinches");
    assert_eq!(
        SingleMeasure::new(Rational::new(3, 4), Unit::Pinch).render(false),
        "3/4 pn"
    );
}

#[test]
fn errors_in_words() {
    assert_eq!(
        ParseError::UnknownUnit("furlong".to_string()).to_string(),
        "Unknown unit: `furlong`"
    );
    assert_eq!(
        ParseError::InfiniteNumber.to_string(),
        "Found an infinite number when parsing"
    );
}

#[test]
fn how_a_word_stands_to_an_alias() {
    assert_eq!(match_alias("t", "t", "t", "t"), AliasMatch::Exact);
    assert_eq!(match_alias("T", "t", "t", "t"), AliasMatch::IgnoringCase);
    assert_eq!(match_alias("T", "c", "t", "c"), AliasMatch::Different);
    // the exact match does not look at the lower-case forms
    assert_eq!(match_alias("t", "t", "x", "y"), AliasMatch::Exact);
    assert_eq!(match_alias("ab", "a", "a", "a"), AliasMatch::IgnoringCase);
}

#[test]
fn a_measure_has_the_dimension_of_its_unit() {
    assert_eq!(
        Measure::single(Rational::one(), Unit::Celsius).dimension(),
        Dimension::Temperature(measurements::TemperatureDimension)
    );
    assert_eq!(
        Measure::single(Rational::one(), Unit::Hour).dimension(),
        Dimension::Time(measurements::TimeDimension)
    );
    assert_eq!(
        Measure::single(Rational::one(), Unit::Quart).dimension(),
        Dimension::Volume(measurements::VolumeDimension)
    );
}
