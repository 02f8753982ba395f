use measurements::parser::parse_recipe;
use measurements::parser::ParserInput;
use measurements::Measure;
use measurements::Rational;
use measurements::Unit;

#[test]
fn test_parse() {
    let recipe = parse_recipe(ParserInput::from("½2 cup cooked red lentils")).unwrap();
    assert_eq!(recipe.raw, "½2 cup cooked red lentils");
    assert_eq!(recipe.tokens.len(), 1);
    assert_eq!(recipe.tokens[0].full_range(), 1..6);
}

#[test]
fn a_recipe_holds_every_measurement_of_the_text() {
    let text = "Mix 1 ½ cups flour with 2 tsp salt, then bake 40 min at 350 F.";
    let recipe = parse_recipe(ParserInput::from(text)).unwrap();
    let found: Vec<(Measure, std::ops::Range<usize>, String)> = recipe
        .tokens
        .iter()
        .map(|token| {
            (
                token.measure.clone(),
                token.full_range(),
                token.raw.to_string(),
            )
        })
        .collect();
    assert_eq!(
        found,
        vec![
            (
                Measure::single(Rational::new(3, 2), Unit::Cup),
                4..12,
                "1 ½ cups".to_string()
            ),
            (
                Measure::single(Rational::from_integer(2), Unit::Teaspoon),
                24..29,
                "2 tsp".to_string()
            ),
            (
                Measure::single(Rational::from_integer(40), Unit::Minute),
                46..52,
                "40 min".to_string()
            ),
            (
                Measure::single(Rational::from_integer(350), Unit::Fahrenheit),
                56..61,
                "350 F".to_string()
            ),
        ]
    );
}

#[test]
fn a_recipe_passes_over_what_is_no_measurement() {
    let recipe = parse_recipe(ParserInput::from("3. Line up the 1/0 cups")).unwrap();
    // "3." is a list number; "1/0" is no number, and the scan goes on behind
    // its first character, where "0 cups" is a measurement
    assert_eq!(recipe.tokens.len(), 1);
    assert_eq!(
        recipe.tokens[0].measure,
        Measure::single(Rational::zero(), Unit::Cup)
    );
    assert_eq!(recipe.tokens[0].full_range(), 17..23);
    assert_eq!(parse_recipe(ParserInput::from("")).unwrap().tokens.len(), 0);
    assert_eq!(
        parse_recipe(ParserInput::from("no numbers here"))
            .unwrap()
            .tokens
            .len(),
        0
    );
}

#[test]
fn a_recipe_counts_from_the_offset_of_its_cursor() {
    let recipe = parse_recipe(ParserInput::new("(2 large lemons)", 100)).unwrap();
    assert_eq!(recipe.tokens.len(), 1);
    assert_eq!(
        recipe.tokens[0].measure,
        Measure::single(
            Rational::from_integer(2),
            Unit::unitless("large".to_string())
        )
    );
    assert_eq!(recipe.tokens[0].number_range, 101..102);
    assert_eq!(recipe.tokens[0].unit_range, 103..108);
}

#[test]
fn a_measurement_is_read_where_it_begins() {
    use_parse_measure_at("add 2 cups", 4, Some((10, "2 cups", 24..25, 26..30)));
    use_parse_measure_at("add 2 cups", 0, None);
    use_parse_measure_at("add 2 cups", 5, None);
    use_parse_measure_at("add 2 cups", 10, None);
    use_parse_measure_at("⅛ tsp ½ cup", 6, Some((11, "½ cup", 26..27, 28..31)));
}

fn use_parse_measure_at(
    text: &str,
    from: usize,
    expected: Option<(usize, &str, std::ops::Range<usize>, std::ops::Range<usize>)>,
) {
    let input = ParserInput::new(text, 20);
    let chars: Vec<char> = text.chars().collect();
    let found = measurements::parser::parse_measure_at(input, &chars, from).ok();
    let found = found.map(|(end, token)| {
        (
            end,
            token.raw.to_string(),
            token.number_range.clone(),
            token.unit_range.clone(),
        )
    });
    let expected = expected.map(|(end, raw, number, unit)| (end, raw.to_string(), number, unit));
    assert_eq!(found, expected);
}

#[test]
fn a_long_text_is_read_through() {
    let mut text = String::new();
    for i in 0..400 {
        text.push_str("Stir in ");
        text.push_str(&i.to_string());
        text.push_str(" ½ cups of water, slowly. ");
    }
    let recipe = parse_recipe(ParserInput::from(text.as_str())).unwrap();
    assert_eq!(recipe.tokens.len(), 400);
    assert_eq!(
        recipe.tokens[399].measure,
        Measure::single(Rational::new(799, 2), Unit::Cup)
    );
    assert_eq!(recipe.tokens[7].number_text(), "7 ½");
    assert_eq!(recipe.tokens[7].unit_text(), "cups");
}
