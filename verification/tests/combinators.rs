use measurements::parser::parse_decimal;
use measurements::parser::parse_integer;
use measurements::parser::parse_measure;
use measurements::parser::parse_rational;
use measurements::parser::resolve_unit;
use measurements::parser::ParseFailure;
use measurements::parser::ParserInput;
use measurements::Measure;
use measurements::Rational;
use measurements::Unit;
use nom::branch::alt;
use nom::character::complete::alpha1;
use nom::character::complete::char;
use nom::character::complete::digit1;
use nom::character::complete::multispace0;
use nom::character::complete::one_of;
use nom::character::complete::u32;
use nom::combinator::consumed;
use nom::combinator::map_res;
use nom::combinator::value;
use nom::sequence::separated_pair;
use nom::sequence::tuple;
use nom::IResult;
use num_rational::Rational32;

// The grammar once more, written with parser combinators over plain text.

fn integer(input: &str) -> IResult<&str, Rational32> {
    nom::combinator::map(u32, |i| Rational32::from_integer(i as i32))(input)
}

fn decimal(input: &str) -> IResult<&str, Rational32> {
    map_res(
        separated_pair(u32, tuple((multispace0, char('.'), multispace0)), digit1),
        |(whole, digits): (u32, &str)| {
            let part = digits.parse::<u32>()?;
            let part = Rational32::new(part as i32, 10_i32.pow(digits.len() as u32));
            Ok::<_, std::num::ParseIntError>(Rational32::from_integer(whole as i32) + part)
        },
    )(input)
}

fn with_slash(input: &str) -> IResult<&str, Rational32> {
    map_res(
        separated_pair(u32, tuple((multispace0, one_of("/⁄"), multispace0)), u32),
        |(numer, denom)| {
            if denom != 0 {
                Ok(Rational32::new(numer as i32, denom as i32))
            } else {
                Err(())
            }
        },
    )(input)
}

fn glyph(input: &str) -> IResult<&str, Rational32> {
    alt((
        value(Rational32::new(1, 4), char('¼')),
        value(Rational32::new(1, 2), char('½')),
        value(Rational32::new(3, 4), char('¾')),
        value(Rational32::new(1, 7), char('⅐')),
        value(Rational32::new(1, 9), char('⅑')),
        value(Rational32::new(1, 10), char('⅒')),
        value(Rational32::new(1, 3), char('⅓')),
        value(Rational32::new(2, 3), char('⅔')),
        value(Rational32::new(1, 5), char('⅕')),
        value(Rational32::new(2, 5), char('⅖')),
        value(Rational32::new(3, 5), char('⅗')),
        value(Rational32::new(4, 5), char('⅘')),
        value(Rational32::new(1, 6), char('⅙')),
        value(Rational32::new(5, 6), char('⅚')),
        value(Rational32::new(1, 8), char('⅛')),
        value(Rational32::new(3, 8), char('⅜')),
        value(Rational32::new(5, 8), char('⅝')),
        value(Rational32::new(7, 8), char('⅞')),
    ))(input)
}

fn simple(input: &str) -> IResult<&str, Rational32> {
    alt((with_slash, glyph))(input)
}

fn mixed(input: &str) -> IResult<&str, Rational32> {
    nom::combinator::map(separated_pair(u32, multispace0, simple), |(whole, part)| {
        Rational32::from_integer(whole as i32) + part
    })(input)
}

fn rational(input: &str) -> IResult<&str, Rational32> {
    alt((mixed, simple))(input)
}

fn unit(input: &str) -> IResult<&str, Unit> {
    nom::combinator::map(alpha1, resolve_unit)(input)
}

type Parts<'a> = ((&'a str, Rational32), &'a str, (&'a str, Unit));

fn token(input: &str) -> IResult<&str, Parts> {
    alt((
        tuple((consumed(integer), multispace0, consumed(unit))),
        tuple((consumed(decimal), multispace0, consumed(unit))),
        tuple((consumed(rational), multispace0, consumed(unit))),
    ))(input)
}

fn same(value: Rational, ratio: Rational32) -> bool {
    value.numer() == *ratio.numer() && value.denom() == *ratio.denom()
}

fn agree(
    text: &str,
    ours: Result<(ParserInput, Rational), ParseFailure>,
    theirs: IResult<&str, Rational32>,
) {
    match (ours, theirs) {
        (Ok((rest, value)), Ok((their_rest, ratio))) => {
            assert_eq!(rest.input(), their_rest, "what is left of {text:?}");
            assert!(same(value, ratio), "the value of {text:?}");
        }
        (Err(_), Err(_)) => {}
        (ours, theirs) => panic!("{text:?} read as {ours:?} and as {theirs:?}"),
    }
}

/// Every text of up to `length` characters of the alphabet.
fn texts(alphabet: &[char], length: usize) -> Vec<String> {
    let mut all = vec![String::new()];
    let mut last = vec![String::new()];
    for _ in 0..length {
        let mut next = Vec::new();
        for text in &last {
            for c in alphabet {
                let mut longer = text.clone();
                longer.push(*c);
                next.push(longer);
            }
        }
        all.extend(next.iter().cloned());
        last = next;
    }
    all
}

#[test]
fn numbers_are_read_as_the_combinators_read_them() {
    let alphabet = ['0', '1', '7', ' ', '.', '/', '⁄', '½', '⅞', 'c', '\n'];
    for text in texts(&alphabet, 5) {
        let input = ParserInput::from(text.as_str());
        agree(&text, parse_integer(input), integer(&text));
        agree(&text, parse_decimal(input), decimal(&text));
        agree(&text, parse_rational(input), rational(&text));
    }
}

#[test]
fn tokens_are_read_as_the_combinators_read_them() {
    let alphabet = ['2', '0', ' ', '.', '/', '¾', 'c', 'T', 't'];
    for text in texts(&alphabet, 6) {
        let input = ParserInput::new(text.as_str(), 7);
        match (parse_measure(input), token(&text)) {
            (Ok((rest, found)), Ok((their_rest, ((number, ratio), space, (word, unit))))) => {
                assert_eq!(rest.input(), their_rest, "what is left of {text:?}");
                assert_eq!(
                    found.measure,
                    Measure::single(Rational::new(*ratio.numer(), *ratio.denom()), unit),
                    "the measure of {text:?}"
                );
                let number_end = 7 + number.chars().count();
                let unit_start = number_end + space.chars().count();
                let unit_end = unit_start + word.chars().count();
                assert_eq!(found.number_range, 7..number_end, "the number of {text:?}");
                assert_eq!(found.unit_range, unit_start..unit_end, "the unit of {text:?}");
                assert_eq!(found.number_text(), number);
                assert_eq!(found.unit_text(), word);
                assert_eq!(rest.range().start, unit_end);
            }
            (Err(_), Err(_)) => {}
            (ours, theirs) => panic!("{text:?} read as {ours:?} and as {theirs:?}"),
        }
    }
}
