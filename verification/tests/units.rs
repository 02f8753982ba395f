use measurements::parser::resolve_unit;
use measurements::CommonUnit;
use measurements::Dimension;
use measurements::DimensionLike;
use measurements::Rational;
use measurements::TemperatureDimension;
use measurements::TimeDimension;
use measurements::Unit;
use measurements::Unitless;
use measurements::UnitlessDimension;
use measurements::VolumeDimension;

#[test]
fn exact_case_wins_over_any_other_match() {
    assert_eq!(resolve_unit("t"), Unit::Teaspoon);
    assert_eq!(resolve_unit("T"), Unit::Tablespoon);
    assert_eq!(resolve_unit("c"), Unit::Cup);
    assert_eq!(resolve_unit("C"), Unit::Cup);
    assert_eq!(resolve_unit("F"), Unit::Fahrenheit);
    assert_eq!(resolve_unit("Tb"), Unit::Tablespoon);
    assert_eq!(resolve_unit("tbsp"), Unit::Tablespoon);
    assert_eq!(resolve_unit("tsp"), Unit::Teaspoon);
}

#[test]
fn the_last_match_but_for_case_wins() {
    // "TB" is "Tb" of the tablespoon but for case, and of nothing else
    assert_eq!(resolve_unit("TB"), Unit::Tablespoon);
    // "f" is "F" of fahrenheit but for case
    assert_eq!(resolve_unit("f"), Unit::Fahrenheit);
    assert_eq!(resolve_unit("CUPS"), Unit::Cup);
    assert_eq!(resolve_unit("Teaspoon"), Unit::Teaspoon);
    assert_eq!(resolve_unit("MIN"), Unit::Minute);
    assert_eq!(resolve_unit("Hours"), Unit::Hour);
    assert_eq!(resolve_unit("DEGREES"), Unit::Fahrenheit);
    // "Gt" matches only the drop
    assert_eq!(resolve_unit("Gt"), Unit::Drop);
}

#[test]
fn an_unknown_word_names_a_unitless_unit() {
    assert_eq!(
        resolve_unit("cloves"),
        Unit::unitless("cloves".to_string())
    );
    assert_eq!(resolve_unit("cloves").abbreviation(), "cloves");
    assert_eq!(resolve_unit("Cloves").description(true), "Cloves");
    assert_eq!(
        resolve_unit("cloves").dimension(),
        Dimension::Unitless(UnitlessDimension)
    );
    assert_eq!(resolve_unit(""), Unit::unitless(String::new()));
    assert_eq!(Unitless::new("times").as_str(), "times");
    assert_eq!(
        Unit::Unitless(Unitless::new("times")),
        Unit::unitless("times".to_string())
    );
}

#[test]
fn names_of_units() {
    assert_eq!(
        Unit::Drop.aliases(),
        vec!["drop", "drops", "dr", "gt", "gtt"]
    );
    assert_eq!(
        Unit::Smidgen.aliases(),
        vec!["smidgen", "smidgens", "smdg", "smi"]
    );
    assert_eq!(
        Unit::Teaspoon.aliases(),
        vec!["teaspoon", "teaspoons", "tsp", "t"]
    );
    assert_eq!(
        Unit::Tablespoon.aliases(),
        vec!["tablespoon", "tablespoons", "tbsp", "Tb", "T"]
    );
    assert_eq!(Unit::Cup.aliases(), vec!["cup", "cups", "C", "c"]);
    assert_eq!(
        Unit::Fahrenheit.aliases(),
        vec!["fahrenheit", "fahrenheit", "F", "degrees", "°F"]
    );
    assert_eq!(Unit::Celsius.aliases(), vec!["celsius", "celsius", "C", "°C"]);
    assert_eq!(Unit::Minute.aliases(), vec!["minute", "minutes", "min"]);
    assert_eq!(Unit::Hour.aliases(), vec!["hour", "hours", "hours"]);
    assert_eq!(
        Unit::unitless("cloves".to_string()).aliases(),
        Vec::<&str>::new()
    );
    assert_eq!(Unit::Teaspoon.abbreviation(), "tsp");
    assert_eq!(Unit::Cup.abbreviation(), "C");
    assert_eq!(Unit::Hour.abbreviation(), "hours");
    assert_eq!(Unit::Teaspoon.description(false), "teaspoon");
    assert_eq!(Unit::Teaspoon.description(true), "teaspoons");
    assert_eq!(Unit::Pinch.description(true), "pinches");
    assert_eq!(Unit::Gallon.to_string(), "gal");
}

#[test]
fn aliases_begin_with_name_plural_and_abbreviation() {
    let abbreviations = [
        "dr", "smdg", "pn", "ds", "tsp", "tbsp", "C", "pt", "qt", "gal", "F", "C", "sec", "min",
        "hours",
    ];
    for (unit, short) in Unit::unitful_units().iter().zip(abbreviations) {
        let names = unit.aliases();
        assert!(names.len() >= 3);
        assert_eq!(names[0], unit.description(false));
        assert_eq!(names[1], unit.description(true));
        assert_eq!(names[2], unit.abbreviation());
        assert_eq!(unit.abbreviation(), short);
    }
}

#[test]
fn multiples_of_units() {
    let expected = [
        (Unit::Drop, 1),
        (Unit::Smidgen, 3),
        (Unit::Pinch, 6),
        (Unit::Dash, 12),
        (Unit::Teaspoon, 96),
        (Unit::Tablespoon, 288),
        (Unit::Cup, 4608),
        (Unit::Pint, 9216),
        (Unit::Quart, 18432),
        (Unit::Gallon, 73728),
        (Unit::Fahrenheit, 1),
        (Unit::Celsius, 1),
        (Unit::Second, 1),
        (Unit::Minute, 60),
        (Unit::Hour, 3600),
        (Unit::unitless("cloves".to_string()), 1),
    ];
    for (unit, multiple) in expected {
        assert_eq!(unit.multiple(), Rational::from_integer(multiple));
    }
}

#[test]
fn common_units() {
    for unit in Unit::unitful_units() {
        let common = matches!(unit, Unit::Teaspoon | Unit::Tablespoon | Unit::Cup);
        assert_eq!(unit.is_common(), common);
    }
    assert!(!Unit::unitless("cup".to_string()).is_common());
    let common: Vec<CommonUnit> = VolumeDimension.common_units();
    assert_eq!(common.len(), 3);
    assert_eq!(common[0].unit, Unit::Teaspoon);
    assert_eq!(common[0].fractions, vec![Rational::new(1, 8)]);
    assert_eq!(common[1].unit, Unit::Tablespoon);
    assert_eq!(common[1].fractions, vec![Rational::new(1, 2)]);
    assert_eq!(common[2].unit, Unit::Cup);
    assert_eq!(
        common[2].fractions,
        vec![Rational::new(1, 4), Rational::new(1, 3)]
    );
    assert_eq!(TemperatureDimension.common_units().len(), 0);
    assert_eq!(TimeDimension.common_units().len(), 0);
    assert_eq!(UnitlessDimension.common_units().len(), 0);
}

#[test]
fn units_of_dimensions() {
    let volume = Dimension::Volume(VolumeDimension).units();
    assert_eq!(
        volume,
        vec![
            Unit::Drop,
            Unit::Smidgen,
            Unit::Pinch,
            Unit::Dash,
            Unit::Teaspoon,
            Unit::Tablespoon,
            Unit::Cup,
            Unit::Pint,
            Unit::Quart,
            Unit::Gallon
        ]
    );
    assert_eq!(
        Dimension::Temperature(TemperatureDimension).units(),
        vec![Unit::Fahrenheit, Unit::Celsius]
    );
    assert_eq!(
        Dimension::Time(TimeDimension).units(),
        vec![Unit::Second, Unit::Minute, Unit::Hour]
    );
    assert_eq!(Dimension::Unitless(UnitlessDimension).units(), vec![]);
    let mut all = Vec::new();
    all.extend(VolumeDimension.units());
    all.extend(TemperatureDimension.units());
    all.extend(TimeDimension.units());
    assert_eq!(Unit::unitful_units(), all);
    for unit in Unit::unitful_units() {
        assert!(unit.dimension().units().contains(&unit));
    }
}

#[test]
fn no_unit_is_smaller_than_the_one_before() {
    for dimension in [
        Dimension::Volume(VolumeDimension),
        Dimension::Time(TimeDimension),
    ] {
        let units = dimension.units();
        for pair in units.windows(2) {
            assert!(pair[1].multiple().gt(&pair[0].multiple()));
        }
    }
    // the two units of temperature count the same
    assert_eq!(Unit::Fahrenheit.multiple(), Unit::Celsius.multiple());
    for dimension in [
        Dimension::Volume(VolumeDimension),
        Dimension::Temperature(TemperatureDimension),
        Dimension::Time(TimeDimension),
    ] {
        let units = dimension.units();
        for (i, large) in units.iter().enumerate() {
            for small in &units[..i] {
                assert!(large.multiple().div(small.multiple()).is_integer());
            }
        }
    }
}

#[test]
fn conversion_goes_through_the_multiple() {
    assert_eq!(
        Unit::Cup.value_to_base(Rational::new(3, 2)),
        Rational::from_integer(6912)
    );
    assert_eq!(
        Unit::Cup.value_from_base(Rational::from_integer(6912)),
        Rational::new(3, 2)
    );
    assert_eq!(
        Unit::Gallon.value_from_base(Rational::from_integer(1)),
        Rational::new(1, 73728)
    );
    assert_eq!(
        Unit::Hour.value_to_base(Rational::new(1, 60)),
        Rational::from_integer(60)
    );
}

#[test]
fn the_default_unit_is_unitless_without_a_name() {
    assert_eq!(Unit::default(), Unit::unitless(String::new()));
    assert_eq!(Unit::default().abbreviation(), "");
    assert_eq!(
        Unit::default().dimension(),
        Dimension::Unitless(UnitlessDimension)
    );
    assert_eq!(Unit::Cup.clone(), Unit::Cup);
    assert_eq!(
        Unit::unitless("cloves".to_string()).clone(),
        Unit::unitless("cloves".to_string())
    );
}
