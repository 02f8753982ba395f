//! The grammar of a measurement: a number, then a unit.

use std::borrow::Cow;
use std::ops::Range;

use vstd::prelude::*;

use crate::fraction::Fraction;
use crate::fraction::lemma_reduced_by_combination;
use crate::measure::Measure;
use crate::ParseError;
use crate::parser::char_indexing::CharIndexing;
use crate::parser::unit_resolver::resolve_unit;
use crate::parser::unit_resolver::resolves_to;
use crate::parser::ParserInput;
use crate::rational::LIMIT;
use crate::rational::Rational;
use crate::rational::sum_fits;
use crate::text::chars_of;
use crate::text::digit_of;
use crate::text::is_digit;
use crate::unit::Unit;

verus! {

/// Why no token came of an attempt.
#[derive(Debug, PartialEq, Eq)]
pub enum ParseFailure {
    /// The text does not begin with what was looked for. This is an ordinary
    /// answer: the caller moves on and tries elsewhere.
    NoParse,
    /// The text begins with what was looked for, and it cannot stand.
    Invalid(ParseError),
}

/// The kinds of character that the grammar takes in runs.
#[derive(Clone, Copy, Debug, PartialEq, Eq, Structural)]
pub enum CharClass {
    /// `0` to `9`.
    Digit,
    /// Space, tab, carriage return, line feed.
    Space,
    /// `a` to `z` and `A` to `Z`.
    Letter,
}

/// The character belongs to the class.
pub open spec fn in_class(c: char, class: CharClass) -> bool {
    match class {
        CharClass::Digit => is_digit(c),
        CharClass::Space => c == ' ' || c == '\t' || c == '\r' || c == '\n',
        CharClass::Letter => ('a' <= c <= 'z') || ('A' <= c <= 'Z'),
    }
}

/// Where the longest run of characters of a class that begins at `from`
/// ends.
pub open spec fn run_end(text: Seq<char>, from: int, class: CharClass) -> int
    decreases text.len() - from,
{
    if 0 <= from < text.len() && in_class(text[from], class) {
        run_end(text, from + 1, class)
    } else {
        from
    }
}

/// The number that the digits from `from` up to `to` write in base ten.
pub open spec fn decimal_value(text: Seq<char>, from: int, to: int) -> int
    decreases to - from,
{
    if to <= from {
        0
    } else {
        decimal_value(text, from, to - 1) * 10 + ((text[to - 1] as u32) - ('0' as u32))
    }
}

/// Ten to the power `n`.
pub open spec fn pow10(n: nat) -> int
    decreases n,
{
    if n == 0 {
        1
    } else {
        10 * pow10((n - 1) as nat)
    }
}

/// What a recognizer makes of the text from some position on.
pub enum Outcome<T> {
    /// It recognized the text up to `end` and read `value` from it.
    Match { value: T, end: int },
    /// The text does not begin with what it recognizes.
    NoMatch,
    /// The text writes a fraction over zero.
    Infinite,
}

/// The first outcome unless it is no match; then the second.
pub open spec fn or_else<T>(first: Outcome<T>, second: Outcome<T>) -> Outcome<T> {
    match first {
        Outcome::NoMatch => second,
        _ => first,
    }
}

/// A run of digits whose number can be held: the number and where the run
/// ends.
pub open spec fn integer_token(text: Seq<char>, from: int) -> Option<(int, int)> {
    let end = run_end(text, from, CharClass::Digit);
    if end > from && decimal_value(text, from, end) <= LIMIT {
        Some((decimal_value(text, from, end), end))
    } else {
        None
    }
}

/// An integer: one or more digits.
pub open spec fn integer_number(text: Seq<char>, from: int) -> Outcome<Fraction> {
    match integer_token(text, from) {
        Some((value, end)) => Outcome::Match { value: Fraction::whole(value), end },
        None => Outcome::NoMatch,
    }
}

/// A decimal: an integer, a point with optional space around it, and up to
/// nine digits, read as the integer plus the digits over a power of ten. It
/// is no match where the sum cannot be held.
pub open spec fn decimal_number(text: Seq<char>, from: int) -> Outcome<Fraction> {
    match integer_token(text, from) {
        Some((whole, whole_end)) => {
            let point = run_end(text, whole_end, CharClass::Space);
            let digits = run_end(text, point + 1, CharClass::Space);
            let end = run_end(text, digits, CharClass::Digit);
            let part = (Fraction {
                num: decimal_value(text, digits, end),
                den: pow10((end - digits) as nat),
            }).reduced();
            if point < text.len() && text[point] == '.' && digits < end <= digits + 9 && sum_fits(
                Fraction::whole(whole),
                part,
            ) {
                Outcome::Match { value: Fraction::whole(whole).plus(part).reduced(), end }
            } else {
                Outcome::NoMatch
            }
        },
        None => Outcome::NoMatch,
    }
}

/// The fraction that a single character writes.
pub open spec fn glyph_value(c: char) -> Option<Fraction> {
    if c == '¼' {
        Some(Fraction { num: 1, den: 4 })
    } else if c == '½' {
        Some(Fraction { num: 1, den: 2 })
    } else if c == '¾' {
        Some(Fraction { num: 3, den: 4 })
    } else if c == '⅐' {
        Some(Fraction { num: 1, den: 7 })
    } else if c == '⅑' {
        Some(Fraction { num: 1, den: 9 })
    } else if c == '⅒' {
        Some(Fraction { num: 1, den: 10 })
    } else if c == '⅓' {
        Some(Fraction { num: 1, den: 3 })
    } else if c == '⅔' {
        Some(Fraction { num: 2, den: 3 })
    } else if c == '⅕' {
        Some(Fraction { num: 1, den: 5 })
    } else if c == '⅖' {
        Some(Fraction { num: 2, den: 5 })
    } else if c == '⅗' {
        Some(Fraction { num: 3, den: 5 })
    } else if c == '⅘' {
        Some(Fraction { num: 4, den: 5 })
    } else if c == '⅙' {
        Some(Fraction { num: 1, den: 6 })
    } else if c == '⅚' {
        Some(Fraction { num: 5, den: 6 })
    } else if c == '⅛' {
        Some(Fraction { num: 1, den: 8 })
    } else if c == '⅜' {
        Some(Fraction { num: 3, den: 8 })
    } else if c == '⅝' {
        Some(Fraction { num: 5, den: 8 })
    } else if c == '⅞' {
        Some(Fraction { num: 7, den: 8 })
    } else {
        None
    }
}

/// The character separates the two parts of a fraction.
pub open spec fn is_slash(c: char) -> bool {
    c == '/' || c == '⁄'
}

/// A fraction written with a slash: an integer, a slash with optional space
/// around it, an integer. Over zero it is no number.
pub open spec fn ascii_rational_number(text: Seq<char>, from: int) -> Outcome<Fraction> {
    match integer_token(text, from) {
        Some((numer, numer_end)) => {
            let slash = run_end(text, numer_end, CharClass::Space);
            if slash < text.len() && is_slash(text[slash]) {
                match integer_token(text, run_end(text, slash + 1, CharClass::Space)) {
                    Some((denom, end)) => if denom == 0 {
                        Outcome::Infinite
                    } else {
                        Outcome::Match { value: (Fraction { num: numer, den: denom }).reduced(), end }
                    },
                    None => Outcome::NoMatch,
                }
            } else {
                Outcome::NoMatch
            }
        },
        None => Outcome::NoMatch,
    }
}

/// A fraction written with one character.
pub open spec fn unicode_rational_number(text: Seq<char>, from: int) -> Outcome<Fraction> {
    if 0 <= from < text.len() && glyph_value(text[from]) is Some {
        Outcome::Match { value: glyph_value(text[from])->0, end: from + 1 }
    } else {
        Outcome::NoMatch
    }
}

/// A fraction alone: written with a slash, or else with one character.
pub open spec fn simple_rational_number(text: Seq<char>, from: int) -> Outcome<Fraction> {
    or_else(ascii_rational_number(text, from), unicode_rational_number(text, from))
}

/// A mixed number: an integer, optional space, a fraction; read as their
/// sum. It is no match where the sum cannot be held.
pub open spec fn multi_rational_number(text: Seq<char>, from: int) -> Outcome<Fraction> {
    match integer_token(text, from) {
        Some((whole, whole_end)) => {
            match simple_rational_number(text, run_end(text, whole_end, CharClass::Space)) {
                Outcome::Match { value, end } => if sum_fits(Fraction::whole(whole), value) {
                    Outcome::Match { value: Fraction::whole(whole).plus(value).reduced(), end }
                } else {
                    Outcome::NoMatch
                },
                Outcome::NoMatch => Outcome::NoMatch,
                Outcome::Infinite => Outcome::Infinite,
            }
        },
        None => Outcome::NoMatch,
    }
}

/// A rational: a mixed number, or else a fraction alone.
pub open spec fn rational_number(text: Seq<char>, from: int) -> Outcome<Fraction> {
    or_else(multi_rational_number(text, from), simple_rational_number(text, from))
}

/// What a recognizer made of the characters from some position on.
enum Scan<T> {
    Match { value: T, end: usize },
    NoMatch,
    Infinite,
}

/// What a scan for a number says.
spec fn number_view(scan: Scan<Rational>) -> Outcome<Fraction> {
    match scan {
        Scan::Match { value, end } => Outcome::Match { value: value@, end: end as int },
        Scan::NoMatch => Outcome::NoMatch,
        Scan::Infinite => Outcome::Infinite,
    }
}

/// Every character of a run is of its class, and the one after it is not.
pub proof fn lemma_run(text: Seq<char>, from: int, class: CharClass)
    requires
        0 <= from <= text.len(),
    ensures
        from <= run_end(text, from, class) <= text.len(),
        forall|k: int| from <= k < run_end(text, from, class) ==> in_class(#[trigger] text[k], class),
        run_end(text, from, class) < text.len() ==> !in_class(
            text[run_end(text, from, class)],
            class,
        ),
    decreases text.len() - from,
{
    if from < text.len() && in_class(text[from], class) {
        lemma_run(text, from + 1, class);
    }
}

/// Digits write a number that is not negative and is below the power of ten
/// of their count.
pub proof fn lemma_decimal_value_bound(text: Seq<char>, from: int, to: int)
    requires
        0 <= from <= to <= text.len(),
        forall|k: int| from <= k < to ==> is_digit(#[trigger] text[k]),
    ensures
        0 <= decimal_value(text, from, to) < pow10((to - from) as nat),
    decreases to - from,
{
    if to > from {
        lemma_decimal_value_bound(text, from, to - 1);
        assert(is_digit(text[to - 1]));
    }
}

/// The character belongs to the class.
fn char_in_class(c: char, class: CharClass) -> (b: bool)
    ensures
        b == in_class(c, class),
{
    match class {
        CharClass::Digit => c >= '0' && c <= '9',
        CharClass::Space => c == ' ' || c == '\t' || c == '\r' || c == '\n',
        CharClass::Letter => (c >= 'a' && c <= 'z') || (c >= 'A' && c <= 'Z'),
    }
}

/// Where the run of a class that begins at `from` ends.
fn scan_run(chars: &Vec<char>, from: usize, class: CharClass) -> (end: usize)
    requires
        from <= chars@.len(),
    ensures
        end == run_end(chars@, from as int, class),
        from <= end <= chars@.len(),
{
    let mut i: usize = from;
    while i < chars.len() && char_in_class(chars[i], class)
        invariant
            from <= i <= chars@.len(),
            run_end(chars@, from as int, class) == run_end(chars@, i as int, class),
        decreases chars@.len() - i,
    {
        i = i + 1;
    }
    i
}

/// The run of digits at `from`, as a number that can be held.
fn scan_integer(chars: &Vec<char>, from: usize) -> (r: Option<(i32, usize)>)
    requires
        from <= chars@.len(),
    ensures
        match r {
            Some((value, end)) => integer_token(chars@, from as int) == Some(
                (value as int, end as int),
            ) && 0 <= value && from < end <= chars@.len(),
            None => integer_token(chars@, from as int) is None,
        },
{
    let end = scan_run(chars, from, CharClass::Digit);
    if end == from {
        return None;
    }
    proof {
        lemma_run(chars@, from as int, CharClass::Digit);
    }
    let mut value: i64 = 0;
    let mut i: usize = from;
    while i < end
        invariant
            from <= i <= end <= chars@.len(),
            forall|k: int| from <= k < end ==> is_digit(#[trigger] chars@[k]),
            0 <= decimal_value(chars@, from as int, i as int),
            value == if decimal_value(chars@, from as int, i as int) > LIMIT {
                LIMIT + 1
            } else {
                decimal_value(chars@, from as int, i as int)
            },
        decreases end - i,
    {
        assert(is_digit(chars@[i as int]));
        let digit = digit_of(chars[i]).unwrap();
        let next: i64 = value * 10 + (digit as i64);
        value = if next > LIMIT as i64 {
            LIMIT as i64 + 1
        } else {
            next
        };
        i = i + 1;
    }
    if value > LIMIT as i64 {
        None
    } else {
        Some((value as i32, end))
    }
}

/// Powers of ten grow with the exponent; the ninth is a thousand millions.
proof fn lemma_pow10_grows(n: nat, m: nat)
    requires
        n <= m,
    ensures
        0 < pow10(n) <= pow10(m),
        pow10(8) == 100_000_000,
        pow10(9) == 1_000_000_000,
    decreases m,
{
    reveal_with_fuel(pow10, 10);
    if n < m {
        lemma_pow10_grows(n, (m - 1) as nat);
    } else if n > 0 {
        lemma_pow10_grows((n - 1) as nat, (m - 1) as nat);
    }
}

/// Ten to the power `n`.
fn power_of_ten(n: usize) -> (p: i32)
    requires
        n <= 9,
    ensures
        p == pow10(n as nat),
        0 < p <= 1_000_000_000,
{
    let mut p: i32 = 1;
    let mut i: usize = 0;
    while i < n
        invariant
            0 <= i <= n <= 9,
            p == pow10(i as nat),
        decreases n - i,
    {
        proof {
            lemma_pow10_grows(i as nat, 8);
        }
        p = p * 10;
        i = i + 1;
    }
    proof {
        lemma_pow10_grows(n as nat, 9);
    }
    p
}

/// An integer at `from`.
fn scan_integer_number(chars: &Vec<char>, from: usize) -> (r: Scan<Rational>)
    requires
        from <= chars@.len(),
    ensures
        number_view(r) == integer_number(chars@, from as int),
        r matches Scan::Match { end, .. } ==> from < end <= chars@.len(),
{
    match scan_integer(chars, from) {
        Some((value, end)) => Scan::Match { value: Rational::from_integer(value), end },
        None => Scan::NoMatch,
    }
}

/// A decimal at `from`.
fn scan_decimal(chars: &Vec<char>, from: usize) -> (r: Scan<Rational>)
    requires
        from <= chars@.len(),
    ensures
        number_view(r) == decimal_number(chars@, from as int),
        r matches Scan::Match { end, .. } ==> from < end <= chars@.len(),
{
    let (whole, whole_end) = match scan_integer(chars, from) {
        Some(found) => found,
        None => {
            return Scan::NoMatch;
        },
    };
    let point = scan_run(chars, whole_end, CharClass::Space);
    if point >= chars.len() || chars[point] != '.' {
        return Scan::NoMatch;
    }
    let digits = scan_run(chars, point + 1, CharClass::Space);
    let end = scan_run(chars, digits, CharClass::Digit);
    if end == digits || end - digits > 9 {
        return Scan::NoMatch;
    }
    proof {
        lemma_run(chars@, digits as int, CharClass::Digit);
        lemma_decimal_value_bound(chars@, digits as int, end as int);
        lemma_pow10_grows((end - digits) as nat, 9);
    }
    let (part_value, _) = match scan_integer(chars, digits) {
        Some(found) => found,
        None => {
            return Scan::NoMatch;
        },
    };
    let part = Rational::new(part_value, power_of_ten(end - digits));
    match Rational::from_integer(whole).checked_add(part) {
        Some(value) => Scan::Match { value, end },
        None => Scan::NoMatch,
    }
}

/// The rational `numer / denom`, known to be in lowest terms by a whole
/// combination of its parts that makes one.
fn lowest_terms(numer: i32, denom: i32, x: Ghost<int>, y: Ghost<int>) -> (r: Rational)
    requires
        0 <= numer <= 10,
        0 < denom <= 10,
        x@ * numer + y@ * denom == 1,
    ensures
        r@ == (Fraction { num: numer as int, den: denom as int }),
{
    proof {
        lemma_reduced_by_combination(Fraction { num: numer as int, den: denom as int }, x@, y@);
    }
    Rational::new(numer, denom)
}

/// The fraction that a single character writes.
fn glyph(c: char) -> (r: Option<Rational>)
    ensures
        match r {
            Some(value) => glyph_value(c) == Some(value@),
            None => glyph_value(c) is None,
        },
{
    if c == '¼' {
        Some(lowest_terms(1, 4, Ghost(1), Ghost(0)))
    } else if c == '½' {
        Some(lowest_terms(1, 2, Ghost(1), Ghost(0)))
    } else if c == '¾' {
        Some(lowest_terms(3, 4, Ghost(-1), Ghost(1)))
    } else if c == '⅐' {
        Some(lowest_terms(1, 7, Ghost(1), Ghost(0)))
    } else if c == '⅑' {
        Some(lowest_terms(1, 9, Ghost(1), Ghost(0)))
    } else if c == '⅒' {
        Some(lowest_terms(1, 10, Ghost(1), Ghost(0)))
    } else if c == '⅓' {
        Some(lowest_terms(1, 3, Ghost(1), Ghost(0)))
    } else if c == '⅔' {
        Some(lowest_terms(2, 3, Ghost(-1), Ghost(1)))
    } else if c == '⅕' {
        Some(lowest_terms(1, 5, Ghost(1), Ghost(0)))
    } else if c == '⅖' {
        Some(lowest_terms(2, 5, Ghost(-2), Ghost(1)))
    } else if c == '⅗' {
        Some(lowest_terms(3, 5, Ghost(2), Ghost(-1)))
    } else if c == '⅘' {
        Some(lowest_terms(4, 5, Ghost(-1), Ghost(1)))
    } else if c == '⅙' {
        Some(lowest_terms(1, 6, Ghost(1), Ghost(0)))
    } else if c == '⅚' {
        Some(lowest_terms(5, 6, Ghost(-1), Ghost(1)))
    } else if c == '⅛' {
        Some(lowest_terms(1, 8, Ghost(1), Ghost(0)))
    } else if c == '⅜' {
        Some(lowest_terms(3, 8, Ghost(3), Ghost(-1)))
    } else if c == '⅝' {
        Some(lowest_terms(5, 8, Ghost(-3), Ghost(2)))
    } else if c == '⅞' {
        Some(lowest_terms(7, 8, Ghost(-1), Ghost(1)))
    } else {
        None
    }
}

/// A fraction written with a slash at `from`.
fn scan_ascii_rational(chars: &Vec<char>, from: usize) -> (r: Scan<Rational>)
    requires
        from <= chars@.len(),
    ensures
        number_view(r) == ascii_rational_number(chars@, from as int),
        r matches Scan::Match { end, .. } ==> from < end <= chars@.len(),
{
    let (numer, numer_end) = match scan_integer(chars, from) {
        Some(found) => found,
        None => {
            return Scan::NoMatch;
        },
    };
    let slash = scan_run(chars, numer_end, CharClass::Space);
    if slash >= chars.len() || !(chars[slash] == '/' || chars[slash] == '⁄') {
        return Scan::NoMatch;
    }
    let denom_at = scan_run(chars, slash + 1, CharClass::Space);
    match scan_integer(chars, denom_at) {
        Some((denom, end)) => if denom == 0 {
            Scan::Infinite
        } else {
            Scan::Match { value: Rational::new(numer, denom), end }
        },
        None => Scan::NoMatch,
    }
}

/// A fraction written with one character at `from`.
fn scan_unicode_rational(chars: &Vec<char>, from: usize) -> (r: Scan<Rational>)
    requires
        from <= chars@.len(),
    ensures
        number_view(r) == unicode_rational_number(chars@, from as int),
        r matches Scan::Match { end, .. } ==> from < end <= chars@.len(),
{
    if from >= chars.len() {
        return Scan::NoMatch;
    }
    match glyph(chars[from]) {
        Some(value) => Scan::Match { value, end: from + 1 },
        None => Scan::NoMatch,
    }
}

/// A fraction alone at `from`.
fn scan_simple_rational(chars: &Vec<char>, from: usize) -> (r: Scan<Rational>)
    requires
        from <= chars@.len(),
    ensures
        number_view(r) == simple_rational_number(chars@, from as int),
        r matches Scan::Match { end, .. } ==> from < end <= chars@.len(),
{
    match scan_ascii_rational(chars, from) {
        Scan::NoMatch => scan_unicode_rational(chars, from),
        found => found,
    }
}

/// A mixed number at `from`.
fn scan_multi_rational(chars: &Vec<char>, from: usize) -> (r: Scan<Rational>)
    requires
        from <= chars@.len(),
    ensures
        number_view(r) == multi_rational_number(chars@, from as int),
        r matches Scan::Match { end, .. } ==> from < end <= chars@.len(),
{
    let (whole, whole_end) = match scan_integer(chars, from) {
        Some(found) => found,
        None => {
            return Scan::NoMatch;
        },
    };
    let rational_at = scan_run(chars, whole_end, CharClass::Space);
    match scan_simple_rational(chars, rational_at) {
        Scan::Match { value, end } => match Rational::from_integer(whole).checked_add(value) {
            Some(sum) => Scan::Match { value: sum, end },
            None => Scan::NoMatch,
        },
        Scan::NoMatch => Scan::NoMatch,
        Scan::Infinite => Scan::Infinite,
    }
}

/// A rational at `from`.
fn scan_rational(chars: &Vec<char>, from: usize) -> (r: Scan<Rational>)
    requires
        from <= chars@.len(),
    ensures
        number_view(r) == rational_number(chars@, from as int),
        r matches Scan::Match { end, .. } ==> from < end <= chars@.len(),
{
    match scan_multi_rational(chars, from) {
        Scan::NoMatch => scan_simple_rational(chars, from),
        found => found,
    }
}

/// The result says of the cursor what the outcome says of its text: a match
/// comes with the cursor over what follows it, no match is `NoParse`, and a
/// fraction over zero is the error `InfiniteNumber`.
pub open spec fn parsed_as<'a>(
    input: ParserInput<'a>,
    outcome: Outcome<Fraction>,
    result: Result<(ParserInput<'a>, Rational), ParseFailure>,
) -> bool {
    match outcome {
        Outcome::Match { value, end } => result matches Ok(found) && found.1@ == value
            && found.0.text() == input.text().skip(end) && found.0.offset() == input.offset()
            + end,
        Outcome::NoMatch => result matches Err(ParseFailure::NoParse),
        Outcome::Infinite => result matches Err(ParseFailure::Invalid(ParseError::InfiniteNumber)),
    }
}

/// The result of a public parser for what a scan from the start found.
fn number_result<'a>(input: ParserInput<'a>, scan: Scan<Rational>) -> (r: Result<
    (ParserInput<'a>, Rational),
    ParseFailure,
>)
    requires
        scan matches Scan::Match { end, .. } ==> end <= input.text().len(),
    ensures
        parsed_as(input, number_view(scan), r),
{
    match scan {
        Scan::Match { value, end } => Ok((input.skip_chars(end), value)),
        Scan::NoMatch => Err(ParseFailure::NoParse),
        Scan::Infinite => Err(ParseFailure::Invalid(ParseError::InfiniteNumber)),
    }
}

/// Reads an integer at the start of the cursor.
pub fn parse_integer<'a>(input: ParserInput<'a>) -> (r: Result<
    (ParserInput<'a>, Rational),
    ParseFailure,
>)
    ensures
        parsed_as(input, integer_number(input.text(), 0), r),
{
    let chars = chars_of(input.input());
    number_result(input, scan_integer_number(&chars, 0))
}

/// Reads a decimal at the start of the cursor.
pub fn parse_decimal<'a>(input: ParserInput<'a>) -> (r: Result<
    (ParserInput<'a>, Rational),
    ParseFailure,
>)
    ensures
        parsed_as(input, decimal_number(input.text(), 0), r),
{
    let chars = chars_of(input.input());
    number_result(input, scan_decimal(&chars, 0))
}

/// Reads a rational at the start of the cursor: a mixed number, or else a
/// fraction alone.
pub fn parse_rational<'a>(input: ParserInput<'a>) -> (r: Result<
    (ParserInput<'a>, Rational),
    ParseFailure,
>)
    ensures
        parsed_as(input, rational_number(input.text(), 0), r),
{
    let chars = chars_of(input.input());
    number_result(input, scan_rational(&chars, 0))
}

/// Reads a fraction alone at the start of the cursor.
pub fn simple_rational<'a>(input: ParserInput<'a>) -> (r: Result<
    (ParserInput<'a>, Rational),
    ParseFailure,
>)
    ensures
        parsed_as(input, simple_rational_number(input.text(), 0), r),
{
    let chars = chars_of(input.input());
    number_result(input, scan_simple_rational(&chars, 0))
}

/// Reads a mixed number at the start of the cursor.
pub fn multi_rational<'a>(input: ParserInput<'a>) -> (r: Result<
    (ParserInput<'a>, Rational),
    ParseFailure,
>)
    ensures
        parsed_as(input, multi_rational_number(input.text(), 0), r),
{
    let chars = chars_of(input.input());
    number_result(input, scan_multi_rational(&chars, 0))
}

/// Reads a fraction written with a slash at the start of the cursor.
pub fn ascii_rational<'a>(input: ParserInput<'a>) -> (r: Result<
    (ParserInput<'a>, Rational),
    ParseFailure,
>)
    ensures
        parsed_as(input, ascii_rational_number(input.text(), 0), r),
{
    let chars = chars_of(input.input());
    number_result(input, scan_ascii_rational(&chars, 0))
}

/// Reads a fraction written with one character at the start of the cursor.
pub fn unicode_rational<'a>(input: ParserInput<'a>) -> (r: Result<
    (ParserInput<'a>, Rational),
    ParseFailure,
>)
    ensures
        parsed_as(input, unicode_rational_number(input.text(), 0), r),
{
    let chars = chars_of(input.input());
    number_result(input, scan_unicode_rational(&chars, 0))
}

/// Reads a word of letters at the start of the cursor and finds the unit it
/// names. Any word names a unit; only where no letter stands at the start is
/// there none.
pub fn parse_unit<'a>(input: ParserInput<'a>) -> (r: Result<(ParserInput<'a>, Unit), ParseFailure>)
    ensures
        match r {
            Ok(found) => {
                let end = run_end(input.text(), 0, CharClass::Letter);
                &&& end > 0
                &&& resolves_to(input.text().take(end), found.1)
                &&& found.0.text() == input.text().skip(end)
                &&& found.0.offset() == input.offset() + end
            },
            Err(failure) => failure is NoParse && run_end(input.text(), 0, CharClass::Letter) == 0,
        },
{
    let chars = chars_of(input.input());
    let end = scan_run(&chars, 0, CharClass::Letter);
    if end == 0 {
        return Err(ParseFailure::NoParse);
    }
    let word = input.take_chars(end).input();
    Ok((input.skip_chars(end), resolve_unit(word)))
}

/// One measurement found in a text: what it measures, where its number and
/// its unit stand in the document, and the text it was read from.
#[derive(Debug, PartialEq, Eq)]
pub struct MeasureToken<'a> {
    pub measure: Measure,
    pub number_range: Range<usize>,
    pub unit_range: Range<usize>,
    pub raw: Cow<'a, str>,
}

/// What a token says and where its parts stand in the text that was read.
pub struct TokenView {
    pub value: Fraction,
    pub number_start: int,
    pub number_end: int,
    pub unit_start: int,
    pub unit_end: int,
}

/// The token that a number read from `from` on makes with what follows it:
/// optional space, then a word of letters.
pub open spec fn token_after(number: Outcome<Fraction>, text: Seq<char>, from: int) -> Outcome<
    TokenView,
> {
    match number {
        Outcome::Match { value, end } => {
            let unit_start = run_end(text, end, CharClass::Space);
            let unit_end = run_end(text, unit_start, CharClass::Letter);
            if unit_end > unit_start {
                Outcome::Match {
                    value: TokenView {
                        value,
                        number_start: from,
                        number_end: end,
                        unit_start,
                        unit_end,
                    },
                    end: unit_end,
                }
            } else {
                Outcome::NoMatch
            }
        },
        Outcome::NoMatch => Outcome::NoMatch,
        Outcome::Infinite => Outcome::Infinite,
    }
}

/// The token that begins at `from`: an integer with its unit; else a
/// decimal with its unit; else a rational with its unit.
pub open spec fn measure_token(text: Seq<char>, from: int) -> Outcome<TokenView> {
    or_else(
        token_after(integer_number(text, from), text, from),
        or_else(
            token_after(decimal_number(text, from), text, from),
            token_after(rational_number(text, from), text, from),
        ),
    )
}

impl<'a> MeasureToken<'a> {
    /// The number comes before the unit and both lie within the text read.
    pub open spec fn wf(&self) -> bool {
        &&& self.number_range.start <= self.number_range.end <= self.unit_range.start
            <= self.unit_range.end
        &&& self.unit_range.end - self.number_range.start <= self.raw@.len()
    }

    /// The token is what the view says of a text that begins at `offset` in
    /// its document: a single measure of the value in the unit that the word
    /// names, the ranges of number and unit counted in the document, and the
    /// text from the start of the number to the end of the unit.
    pub open spec fn reads(&self, text: Seq<char>, offset: nat, view: TokenView) -> bool {
        &&& self.measure matches Measure::Single(single) && single.value@ == view.value
            && resolves_to(text.subrange(view.unit_start, view.unit_end), single.unit)
        &&& self.number_range.start == offset + view.number_start
        &&& self.number_range.end == offset + view.number_end
        &&& self.unit_range.start == offset + view.unit_start
        &&& self.unit_range.end == offset + view.unit_end
        &&& self.raw@ == text.subrange(view.number_start, view.unit_end)
    }

    /// A token of the given parts.
    pub fn new(
        measure: Measure,
        number_range: Range<usize>,
        unit_range: Range<usize>,
        raw: Cow<'a, str>,
    ) -> (r: MeasureToken<'a>)
        ensures
            r.measure == measure,
            r.number_range == number_range,
            r.unit_range == unit_range,
            r.raw == raw,
    {
        MeasureToken { measure, number_range, unit_range, raw }
    }

    /// The same token, holding its text itself.
    pub fn into_owned(self) -> (r: MeasureToken<'static>)
        ensures
            r.measure == self.measure,
            r.number_range == self.number_range,
            r.unit_range == self.unit_range,
            r.raw@ == self.raw@,
    {
        let text: String = match self.raw {
            Cow::Borrowed(text) => text.to_owned(),
            Cow::Owned(text) => text,
        };
        MeasureToken {
            measure: self.measure,
            number_range: self.number_range,
            unit_range: self.unit_range,
            raw: Cow::Owned(text),
        }
    }

    /// From the first character of the number to the last of the unit.
    pub fn full_range(&self) -> (r: Range<usize>)
        ensures
            r.start == self.number_range.start,
            r.end == self.unit_range.end,
    {
        self.number_range.start..self.unit_range.end
    }

    /// The text of the number.
    pub fn number_text(&self) -> (r: Cow<'a, str>)
        requires
            self.wf(),
        ensures
            r@ == self.raw@.take(self.number_range.end - self.number_range.start),
    {
        let n = self.number_range.end - self.number_range.start;
        assert(self.raw@.subrange(0, n as int) =~= self.raw@.take(n as int));
        assert(self.raw@.take(0) =~= Seq::<char>::empty());
        self.raw.char_slice(0..n).unwrap()
    }

    /// The text of the unit.
    pub fn unit_text(&self) -> (r: Cow<'a, str>)
        requires
            self.wf(),
        ensures
            r@ == self.raw@.subrange(
                self.unit_range.start - self.number_range.start,
                self.unit_range.end - self.number_range.start,
            ),
    {
        let from = self.unit_range.start - self.number_range.start;
        let to = self.unit_range.end - self.number_range.start;
        assert(self.raw@.subrange(from as int, from as int) =~= Seq::<char>::empty());
        self.raw.char_slice(from..to).unwrap()
    }
}

/// A token in the making: the value and where the parts stand.
struct TokenScan {
    value: Rational,
    number_start: usize,
    number_end: usize,
    unit_start: usize,
    unit_end: usize,
}

/// What a scan for a token says.
spec fn token_scan_view(scan: Scan<TokenScan>) -> Outcome<TokenView> {
    match scan {
        Scan::Match { value, end } => Outcome::Match {
            value: TokenView {
                value: value.value@,
                number_start: value.number_start as int,
                number_end: value.number_end as int,
                unit_start: value.unit_start as int,
                unit_end: value.unit_end as int,
            },
            end: end as int,
        },
        Scan::NoMatch => Outcome::NoMatch,
        Scan::Infinite => Outcome::Infinite,
    }
}

/// The token that a number read from `from` on makes with what follows.
fn scan_token_after(chars: &Vec<char>, number: Scan<Rational>, from: usize) -> (r: Scan<TokenScan>)
    requires
        number matches Scan::Match { end, .. } ==> from < end <= chars@.len(),
    ensures
        token_scan_view(r) == token_after(number_view(number), chars@, from as int),
        r matches Scan::Match { value, end } ==> from == value.number_start < value.number_end
            <= value.unit_start < value.unit_end == end <= chars@.len(),
{
    match number {
        Scan::Match { value, end } => {
            let unit_start = scan_run(chars, end, CharClass::Space);
            let unit_end = scan_run(chars, unit_start, CharClass::Letter);
            if unit_end > unit_start {
                Scan::Match {
                    value: TokenScan {
                        value,
                        number_start: from,
                        number_end: end,
                        unit_start,
                        unit_end,
                    },
                    end: unit_end,
                }
            } else {
                Scan::NoMatch
            }
        },
        Scan::NoMatch => Scan::NoMatch,
        Scan::Infinite => Scan::Infinite,
    }
}

/// The token that begins at `from`.
fn scan_token(chars: &Vec<char>, from: usize) -> (r: Scan<TokenScan>)
    requires
        from <= chars@.len(),
    ensures
        token_scan_view(r) == measure_token(chars@, from as int),
        r matches Scan::Match { value, end } ==> from == value.number_start < value.number_end
            <= value.unit_start < value.unit_end == end <= chars@.len(),
{
    match scan_token_after(chars, scan_integer_number(chars, from), from) {
        Scan::NoMatch => match scan_token_after(chars, scan_decimal(chars, from), from) {
            Scan::NoMatch => scan_token_after(chars, scan_rational(chars, from), from),
            found => found,
        },
        found => found,
    }
}

/// What reading a token at some character of a cursor came to: on a match
/// the token, with the index behind it; else why there is none.
pub open spec fn token_read_as<'a>(
    input: ParserInput<'a>,
    outcome: Outcome<TokenView>,
    result: Result<(usize, MeasureToken<'a>), ParseFailure>,
) -> bool {
    match outcome {
        Outcome::Match { value, end } => result matches Ok(found) && found.0 == end
            && found.1.reads(input.text(), input.offset(), value) && found.1.wf()
            && value.number_start < end <= input.text().len(),
        Outcome::NoMatch => result matches Err(ParseFailure::NoParse),
        Outcome::Infinite => result matches Err(ParseFailure::Invalid(ParseError::InfiniteNumber)),
    }
}

/// Reads the measurement that begins at the character `from` of the cursor,
/// whose characters are given in `chars`. On a match the index of the
/// character behind the token comes back with it.
pub fn parse_measure_at<'a>(input: ParserInput<'a>, chars: &Vec<char>, from: usize) -> (r: Result<
    (usize, MeasureToken<'a>),
    ParseFailure,
>)
    requires
        chars@ == input.text(),
        from <= chars@.len(),
    ensures
        token_read_as(input, measure_token(input.text(), from as int), r),
{
    match scan_token(chars, from) {
        Scan::Match { value: token, end } => {
            let number = input.skip_chars(from).take_chars(token.number_end - from);
            let word = input.skip_chars(token.unit_start).take_chars(
                token.unit_end - token.unit_start,
            );
            let raw = input.skip_chars(from).take_chars(token.unit_end - from);
            proof {
                let text = input.text();
                assert(text.skip(token.unit_start as int).take(token.unit_end - token.unit_start)
                    =~= text.subrange(token.unit_start as int, token.unit_end as int));
                assert(text.skip(from as int).take(token.unit_end - from) =~= text.subrange(
                    from as int,
                    token.unit_end as int,
                ));
                assert(text.skip(from as int).take(token.number_end - from).len()
                    == token.number_end - from);
            }
            let unit = resolve_unit(word.input());
            let found = MeasureToken {
                measure: Measure::single(token.value, unit),
                number_range: number.range(),
                unit_range: word.range(),
                raw: Cow::Borrowed(raw.input()),
            };
            Ok((end, found))
        },
        Scan::NoMatch => Err(ParseFailure::NoParse),
        Scan::Infinite => Err(ParseFailure::Invalid(ParseError::InfiniteNumber)),
    }
}

/// Reads one measurement at the start of the cursor: a number, optional
/// space, and the word of a unit. The integer is tried first, then the
/// decimal, then the rational, each with the unit after it. On a match the
/// cursor over what follows comes back with the token.
pub fn parse_measure<'a>(input: ParserInput<'a>) -> (r: Result<
    (ParserInput<'a>, MeasureToken<'a>),
    ParseFailure,
>)
    ensures
        match measure_token(input.text(), 0) {
            Outcome::Match { value, end } => r matches Ok(found) && found.1.reads(
                input.text(),
                input.offset(),
                value,
            ) && found.1.wf() && found.0.text() == input.text().skip(end) && found.0.offset()
                == input.offset() + end && 0 < end <= input.text().len(),
            Outcome::NoMatch => r matches Err(ParseFailure::NoParse),
            Outcome::Infinite => r matches Err(ParseFailure::Invalid(ParseError::InfiniteNumber)),
        },
{
    let chars = chars_of(input.input());
    match parse_measure_at(input, &chars, 0) {
        Ok((end, token)) => Ok((input.skip_chars(end), token)),
        Err(failure) => Err(failure),
    }
}

} // verus!
