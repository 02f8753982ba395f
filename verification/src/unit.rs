//! Units: their names, the dimension each belongs to, and how many base
//! units make one of them.

use vstd::prelude::*;

use crate::dimension::Dimension;
use crate::dimension::TemperatureDimension;
use crate::dimension::TimeDimension;
use crate::dimension::UnitlessDimension;
use crate::dimension::VolumeDimension;
use crate::fraction::Fraction;
use crate::fraction::lemma_reduced_exists;
use crate::fraction::lemma_reduced_is;
use crate::fraction::lemma_reduced_over_whole;
use crate::rational::fits;
use crate::rational::LIMIT;
use crate::rational::Rational;

verus! {

/// A counting unit with a name of the caller's choice ("cloves", "times").
#[derive(Debug, PartialEq, Eq)]
pub struct Unitless {
    unit: String,
}

impl Unitless {
    /// The name.
    pub closed spec fn name(&self) -> Seq<char> {
        self.unit@
    }

    /// A unitless unit with the given name.
    pub fn new(unit: &str) -> (r: Unitless)
        ensures
            r.name() == unit@,
    {
        Unitless { unit: unit.to_owned() }
    }

    /// The name.
    pub fn as_str(&self) -> (r: &str)
        ensures
            r@ == self.name(),
    {
        self.unit.as_str()
    }
}

impl Clone for Unitless {
    fn clone(&self) -> (r: Unitless)
        ensures
            r == *self,
    {
        Unitless { unit: self.unit.clone() }
    }
}

/// A unit of measure.
#[derive(Debug, PartialEq, Eq)]
pub enum Unit {
    Drop,
    Smidgen,
    Pinch,
    Dash,
    Teaspoon,
    Tablespoon,
    Cup,
    Pint,
    Quart,
    Gallon,
    Fahrenheit,
    Celsius,
    Second,
    Minute,
    Hour,
    Unitless(Unitless),
}

impl Clone for Unit {
    fn clone(&self) -> (r: Unit)
        ensures
            r == *self,
    {
        match self {
            Unit::Drop => Unit::Drop,
            Unit::Smidgen => Unit::Smidgen,
            Unit::Pinch => Unit::Pinch,
            Unit::Dash => Unit::Dash,
            Unit::Teaspoon => Unit::Teaspoon,
            Unit::Tablespoon => Unit::Tablespoon,
            Unit::Cup => Unit::Cup,
            Unit::Pint => Unit::Pint,
            Unit::Quart => Unit::Quart,
            Unit::Gallon => Unit::Gallon,
            Unit::Fahrenheit => Unit::Fahrenheit,
            Unit::Celsius => Unit::Celsius,
            Unit::Second => Unit::Second,
            Unit::Minute => Unit::Minute,
            Unit::Hour => Unit::Hour,
            Unit::Unitless(u) => Unit::Unitless(u.clone()),
        }
    }
}

impl Default for Unit {
    /// The unitless unit without a name.
    fn default() -> (r: Unit)
        ensures
            r matches Unit::Unitless(u) && u.name() == Seq::<char>::empty(),
    {
        Unit::Unitless(Unitless { unit: String::new() })
    }
}

/// A unit that people reach for first, with the fractions of it that read
/// naturally.
pub struct CommonUnit {
    pub unit: Unit,
    pub fractions: Vec<Rational>,
}

/// What a common unit says: the unit and its fractions.
pub struct CommonUnitView {
    pub unit: Unit,
    pub fractions: Seq<Fraction>,
}

impl View for CommonUnit {
    type V = CommonUnitView;

    open spec fn view(&self) -> CommonUnitView {
        CommonUnitView { unit: self.unit, fractions: self.fractions@.map_values(|r: Rational| r@) }
    }
}

impl CommonUnit {
    /// A common unit with its fractions.
    pub fn new(unit: Unit, fractions: Vec<Rational>) -> (r: CommonUnit)
        ensures
            r.unit == unit,
            r.fractions == fractions,
    {
        CommonUnit { unit, fractions }
    }
}

/// The text of each entry of a list of names.
pub open spec fn texts(names: Seq<&'static str>) -> Seq<Seq<char>> {
    names.map_values(|s: &'static str| s@)
}

impl Unit {
    /// The primary name: the unit in the singular, or the name of a unitless
    /// unit.
    pub open spec fn singular_spec(&self) -> Seq<char> {
        match self {
            Unit::Drop => "drop"@,
            Unit::Smidgen => "smidgen"@,
            Unit::Pinch => "pinch"@,
            Unit::Dash => "dash"@,
            Unit::Teaspoon => "teaspoon"@,
            Unit::Tablespoon => "tablespoon"@,
            Unit::Cup => "cup"@,
            Unit::Pint => "pint"@,
            Unit::Quart => "quart"@,
            Unit::Gallon => "gallon"@,
            Unit::Fahrenheit => "fahrenheit"@,
            Unit::Celsius => "celsius"@,
            Unit::Second => "second"@,
            Unit::Minute => "minute"@,
            Unit::Hour => "hour"@,
            Unit::Unitless(u) => u.name(),
        }
    }

    /// The unit in the plural, or the name of a unitless unit.
    pub open spec fn plural_spec(&self) -> Seq<char> {
        match self {
            Unit::Drop => "drops"@,
            Unit::Smidgen => "smidgens"@,
            Unit::Pinch => "pinches"@,
            Unit::Dash => "dashes"@,
            Unit::Teaspoon => "teaspoons"@,
            Unit::Tablespoon => "tablespoons"@,
            Unit::Cup => "cups"@,
            Unit::Pint => "pints"@,
            Unit::Quart => "quarts"@,
            Unit::Gallon => "gallons"@,
            Unit::Fahrenheit => "fahrenheit"@,
            Unit::Celsius => "celsius"@,
            Unit::Second => "seconds"@,
            Unit::Minute => "minutes"@,
            Unit::Hour => "hours"@,
            Unit::Unitless(u) => u.name(),
        }
    }

    /// The short name, or the name of a unitless unit. The hour has no
    /// shorter name than its plural.
    pub open spec fn abbreviation_spec(&self) -> Seq<char> {
        match self {
            Unit::Drop => "dr"@,
            Unit::Smidgen => "smdg"@,
            Unit::Pinch => "pn"@,
            Unit::Dash => "ds"@,
            Unit::Teaspoon => "tsp"@,
            Unit::Tablespoon => "tbsp"@,
            Unit::Cup => "C"@,
            Unit::Pint => "pt"@,
            Unit::Quart => "qt"@,
            Unit::Gallon => "gal"@,
            Unit::Fahrenheit => "F"@,
            Unit::Celsius => "C"@,
            Unit::Second => "sec"@,
            Unit::Minute => "min"@,
            Unit::Hour => "hours"@,
            Unit::Unitless(u) => u.name(),
        }
    }

    /// The further spellings that a unit is recognized by.
    pub open spec fn extra_aliases_spec(&self) -> Seq<Seq<char>> {
        match self {
            Unit::Drop => seq!["gt"@, "gtt"@],
            Unit::Smidgen => seq!["smi"@],
            Unit::Teaspoon => seq!["t"@],
            Unit::Tablespoon => seq!["Tb"@, "T"@],
            Unit::Cup => seq!["c"@],
            Unit::Fahrenheit => seq!["degrees"@, "°F"@],
            Unit::Celsius => seq!["°C"@],
            _ => Seq::empty(),
        }
    }

    /// The names a unit is recognized by, in their fixed order: the primary
    /// name, the plural, the abbreviation, then the further spellings. A
    /// unitless unit has none.
    pub open spec fn aliases_spec(&self) -> Seq<Seq<char>> {
        if self is Unitless {
            Seq::empty()
        } else {
            seq![self.singular_spec(), self.plural_spec(), self.abbreviation_spec()]
                + self.extra_aliases_spec()
        }
    }

    /// How many base units make one of this unit.
    pub open spec fn multiple_spec(&self) -> int {
        match self {
            Unit::Drop => 1,
            Unit::Smidgen => 3,
            Unit::Pinch => 6,
            Unit::Dash => 12,
            Unit::Teaspoon => 96,
            Unit::Tablespoon => 288,
            Unit::Cup => 4608,
            Unit::Pint => 9216,
            Unit::Quart => 18432,
            Unit::Gallon => 73728,
            Unit::Fahrenheit => 1,
            Unit::Celsius => 1,
            Unit::Second => 1,
            Unit::Minute => 60,
            Unit::Hour => 3600,
            Unit::Unitless(_) => 1,
        }
    }

    /// The dimension the unit belongs to.
    pub open spec fn dimension_spec(&self) -> Dimension {
        match self {
            Unit::Drop
            | Unit::Smidgen
            | Unit::Pinch
            | Unit::Dash
            | Unit::Teaspoon
            | Unit::Tablespoon
            | Unit::Cup
            | Unit::Pint
            | Unit::Quart
            | Unit::Gallon => Dimension::Volume(VolumeDimension),
            Unit::Fahrenheit | Unit::Celsius => Dimension::Temperature(TemperatureDimension),
            Unit::Second | Unit::Minute | Unit::Hour => Dimension::Time(TimeDimension),
            Unit::Unitless(_) => Dimension::Unitless(UnitlessDimension),
        }
    }

    /// The unit is one that people reach for first in its dimension.
    pub open spec fn is_common_spec(&self) -> bool {
        self is Teaspoon || self is Tablespoon || self is Cup
    }

    /// The long name: the primary name, or the plural.
    pub open spec fn description_spec(&self, plural: bool) -> Seq<char> {
        if plural {
            self.plural_spec()
        } else {
            self.singular_spec()
        }
    }

    /// The aliases of every unit but a unitless one begin with the primary
    /// name, the plural and the abbreviation, in this order.
    pub proof fn lemma_named_has_aliases(&self)
        ensures
            !(self is Unitless) ==> self.aliases_spec().len() >= 3 && self.aliases_spec()[0]
                == self.singular_spec() && self.aliases_spec()[1] == self.plural_spec()
                && self.aliases_spec()[2] == self.abbreviation_spec(),
            self is Unitless ==> self.aliases_spec().len() == 0,
    {
    }

    /// The names the unit is recognized by: the primary name, the plural,
    /// the abbreviation, then the further spellings.
    pub fn aliases(&self) -> (r: Vec<&'static str>)
        ensures
            texts(r@) == self.aliases_spec(),
    {
        let r = match self {
            Unit::Drop => vec!["drop", "drops", "dr", "gt", "gtt"],
            Unit::Smidgen => vec!["smidgen", "smidgens", "smdg", "smi"],
            Unit::Pinch => vec!["pinch", "pinches", "pn"],
            Unit::Dash => vec!["dash", "dashes", "ds"],
            Unit::Teaspoon => vec!["teaspoon", "teaspoons", "tsp", "t"],
            Unit::Tablespoon => vec!["tablespoon", "tablespoons", "tbsp", "Tb", "T"],
            Unit::Cup => vec!["cup", "cups", "C", "c"],
            Unit::Pint => vec!["pint", "pints", "pt"],
            Unit::Quart => vec!["quart", "quarts", "qt"],
            Unit::Gallon => vec!["gallon", "gallons", "gal"],
            Unit::Fahrenheit => vec!["fahrenheit", "fahrenheit", "F", "degrees", "°F"],
            Unit::Celsius => vec!["celsius", "celsius", "C", "°C"],
            Unit::Second => vec!["second", "seconds", "sec"],
            Unit::Minute => vec!["minute", "minutes", "min"],
            Unit::Hour => vec!["hour", "hours", "hours"],
            Unit::Unitless(_) => Vec::new(),
        };
        assert(texts(r@) =~= self.aliases_spec());
        r
    }

    /// The short name of the unit.
    pub fn abbreviation(&self) -> (r: &str)
        ensures
            r@ == self.abbreviation_spec(),
    {
        match self {
            Unit::Unitless(u) => u.as_str(),
            _ => {
                let names = self.aliases();
                proof {
                    self.lemma_named_has_aliases();
                    assert(texts(names@).len() == names@.len());
                    assert(texts(names@)[2] == names@[2]@);
                }
                names[2]
            },
        }
    }

    /// The long name of the unit, in the singular or the plural.
    pub fn description(&self, plural: bool) -> (r: &str)
        ensures
            r@ == self.description_spec(plural),
    {
        match self {
            Unit::Unitless(u) => u.as_str(),
            _ => {
                let names = self.aliases();
                proof {
                    self.lemma_named_has_aliases();
                    assert(texts(names@).len() == names@.len());
                    assert(texts(names@)[0] == names@[0]@);
                    assert(texts(names@)[1] == names@[1]@);
                }
                if plural {
                    names[1]
                } else {
                    names[0]
                }
            },
        }
    }

    /// The unit as text: its abbreviation.
    pub fn to_string(&self) -> (r: String)
        ensures
            r@ == self.abbreviation_spec(),
    {
        self.abbreviation().to_owned()
    }

    /// The unit is one that people reach for first in its dimension.
    pub fn is_common(&self) -> (b: bool)
        ensures
            b == self.is_common_spec(),
    {
        match self {
            Unit::Teaspoon | Unit::Tablespoon | Unit::Cup => true,
            _ => false,
        }
    }

    /// The dimension the unit belongs to.
    pub fn dimension(&self) -> (d: Dimension)
        ensures
            d == self.dimension_spec(),
    {
        match self {
            Unit::Drop
            | Unit::Smidgen
            | Unit::Pinch
            | Unit::Dash
            | Unit::Teaspoon
            | Unit::Tablespoon
            | Unit::Cup
            | Unit::Pint
            | Unit::Quart
            | Unit::Gallon => Dimension::Volume(VolumeDimension),
            Unit::Fahrenheit | Unit::Celsius => Dimension::Temperature(TemperatureDimension),
            Unit::Second | Unit::Minute | Unit::Hour => Dimension::Time(TimeDimension),
            Unit::Unitless(_) => Dimension::Unitless(UnitlessDimension),
        }
    }

    /// How many base units make one of this unit: always a whole number
    /// above zero.
    pub fn multiple(&self) -> (m: Rational)
        ensures
            m@ == Fraction::whole(self.multiple_spec()),
            m.wf(),
    {
        match self {
            Unit::Drop => Rational::from_integer(1),
            Unit::Smidgen => Rational::from_integer(3),
            Unit::Pinch => Rational::from_integer(6),
            Unit::Dash => Rational::from_integer(12),
            Unit::Teaspoon => Rational::from_integer(96),
            Unit::Tablespoon => Rational::from_integer(288),
            Unit::Cup => Rational::from_integer(4608),
            Unit::Pint => Rational::from_integer(9216),
            Unit::Quart => Rational::from_integer(18432),
            Unit::Gallon => Rational::from_integer(73728),
            Unit::Fahrenheit | Unit::Celsius => Rational::from_integer(1),
            Unit::Second => Rational::from_integer(1),
            Unit::Minute => Rational::from_integer(60),
            Unit::Hour => Rational::from_integer(3600),
            Unit::Unitless(_) => Rational::from_integer(1),
        }
    }

    /// A value in this unit, as a reduced quantity of base units.
    pub open spec fn to_base_spec(&self, value: Fraction) -> Fraction {
        value.times(Fraction::whole(self.multiple_spec())).reduced()
    }

    /// A quantity of base units, as a reduced value in this unit.
    pub open spec fn from_base_spec(&self, base: Fraction) -> Fraction {
        base.over(Fraction::whole(self.multiple_spec())).reduced()
    }

    /// Converts a value in this unit to base units.
    pub fn value_to_base(&self, value: Rational) -> (r: Rational)
        requires
            fits(value@.times(Fraction::whole(self.multiple_spec()))),
        ensures
            r@ == self.to_base_spec(value@),
            r.wf(),
    {
        value.mul(self.multiple())
    }

    /// Converts a quantity of base units to a value in this unit.
    pub fn value_from_base(&self, base_value: Rational) -> (r: Rational)
        requires
            fits(base_value@.over(Fraction::whole(self.multiple_spec()))),
        ensures
            r@ == self.from_base_spec(base_value@),
            r.wf(),
    {
        base_value.div(self.multiple())
    }

    /// The value of a quantity of base units in this unit can be held: what
    /// `value_from_base` asks for.
    pub fn holds_from_base(&self, base_value: Rational) -> (b: bool)
        ensures
            b == fits(base_value@.over(Fraction::whole(self.multiple_spec()))),
    {
        proof {
            use_type_invariant(base_value);
            lemma_multiple_positive(*self);
        }
        let multiple = self.multiple().numer();
        let low = Rational::new(base_value.numer(), multiple);
        proof {
            use_type_invariant(low);
            lemma_reduced_over_whole(base_value@, multiple as int);
            let quotient = base_value@.over(Fraction::whole(self.multiple_spec()));
            assert(quotient == (Fraction {
                num: base_value@.num,
                den: base_value@.den * multiple,
            }));
            assert(quotient.den != 0) by (nonlinear_arith)
                requires
                    quotient.den == base_value@.den * multiple,
                    base_value@.den > 0,
                    multiple >= 1,
            ;
            assert(quotient.reduced() == (Fraction {
                num: low@.num,
                den: base_value@.den * low@.den,
            }));
            assert(0 < base_value@.den * low@.den <= 0x7fff_ffff * 0x7fff_ffff)
                by (nonlinear_arith)
                requires
                    0 < base_value@.den <= 0x7fff_ffff,
                    0 < low@.den <= 0x7fff_ffff,
            ;
        }
        (base_value.denom() as i64) * (low.denom() as i64) <= LIMIT as i64
    }

    /// A unitless unit with the given name.
    pub fn unitless(unit: String) -> (r: Unit)
        ensures
            r matches Unit::Unitless(u) && u.name() == unit@,
    {
        Unit::Unitless(Unitless::new(unit.as_str()))
    }

    /// Every unit that has a dimension of its own, in the order of its
    /// dimension: those of volume, then of temperature, then of time.
    pub open spec fn unitful_units_spec() -> Seq<Unit> {
        seq![
            Unit::Drop,
            Unit::Smidgen,
            Unit::Pinch,
            Unit::Dash,
            Unit::Teaspoon,
            Unit::Tablespoon,
            Unit::Cup,
            Unit::Pint,
            Unit::Quart,
            Unit::Gallon,
            Unit::Fahrenheit,
            Unit::Celsius,
            Unit::Second,
            Unit::Minute,
            Unit::Hour,
        ]
    }

    /// Every unit that has a dimension of its own.
    pub fn unitful_units() -> (r: Vec<Unit>)
        ensures
            r@ == Unit::unitful_units_spec(),
    {
        let r = vec![
            Unit::Drop,
            Unit::Smidgen,
            Unit::Pinch,
            Unit::Dash,
            Unit::Teaspoon,
            Unit::Tablespoon,
            Unit::Cup,
            Unit::Pint,
            Unit::Quart,
            Unit::Gallon,
            Unit::Fahrenheit,
            Unit::Celsius,
            Unit::Second,
            Unit::Minute,
            Unit::Hour,
        ];
        assert(r@ =~= Unit::unitful_units_spec());
        r
    }
}

/// Every unit counts a whole number of base units, one at least.
pub proof fn lemma_multiple_positive(unit: Unit)
    ensures
        1 <= unit.multiple_spec() <= 73728,
{
}

/// A value taken to base units and back out in the same unit is the value it
/// was, exactly.
pub proof fn lemma_round_trip(value: Fraction, unit: Unit)
    requires
        value.is_reduced(),
    ensures
        unit.from_base_spec(unit.to_base_spec(value)) == value,
{
    let m = unit.multiple_spec();
    let up = value.times(Fraction::whole(m));
    assert(up.den == value.den && up.den != 0) by (nonlinear_arith)
        requires
            up.den == value.den * 1,
            value.den > 0,
    ;
    lemma_reduced_exists(up);
    let base = up.reduced();
    let down = base.over(Fraction::whole(m));
    assert(down.den != 0 && value.same_value(down)) by (nonlinear_arith)
        requires
            down.num == base.num * 1,
            down.den == base.den * m,
            base.num * up.den == up.num * base.den,
            up.num == value.num * m,
            up.den == value.den,
            base.den > 0,
            value.den > 0,
            m >= 1,
    ;
    lemma_reduced_is(down, value);
}

/// A quantity of base units shown in a unit names the same quantity when it
/// is taken back to base units.
pub proof fn lemma_base_round_trip(base: Fraction, unit: Unit)
    requires
        base.is_reduced(),
    ensures
        unit.to_base_spec(unit.from_base_spec(base)) == base,
{
    let m = unit.multiple_spec();
    let down = base.over(Fraction::whole(m));
    assert(down.den != 0) by (nonlinear_arith)
        requires
            down.den == base.den * m,
            base.den > 0,
            m >= 1,
    ;
    lemma_reduced_exists(down);
    let value = down.reduced();
    let up = value.times(Fraction::whole(m));
    assert(up.den != 0 && base.same_value(up)) by (nonlinear_arith)
        requires
            up.num == value.num * m,
            up.den == value.den * 1,
            value.num * down.den == down.num * value.den,
            down.num == base.num * 1,
            down.den == base.den * m,
            base.den > 0,
            value.den > 0,
            m >= 1,
    ;
    lemma_reduced_is(up, base);
}

/// A value in one unit, taken to base units, shown in a second unit, taken
/// to base units again and shown in the first unit, is the value it was,
/// exactly: no precision is lost on the way.
pub proof fn lemma_round_trip_through(value: Fraction, unit: Unit, other: Unit)
    requires
        value.is_reduced(),
    ensures
        unit.from_base_spec(other.to_base_spec(other.from_base_spec(unit.to_base_spec(value))))
            == value,
{
    let m = unit.multiple_spec();
    let up = value.times(Fraction::whole(m));
    assert(up.den != 0) by (nonlinear_arith)
        requires
            up.den == value.den * 1,
            value.den > 0,
    ;
    lemma_reduced_exists(up);
    lemma_base_round_trip(unit.to_base_spec(value), other);
    lemma_round_trip(value, unit);
}

} // verus!
