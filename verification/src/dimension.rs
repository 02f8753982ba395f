//! Dimensions: families of units that convert into one another.

use vstd::prelude::*;

use crate::fraction::Fraction;
use crate::fraction::lemma_reduced_by_combination;
use crate::rational::Rational;
use crate::unit::CommonUnit;
use crate::unit::CommonUnitView;
use crate::unit::Unit;

verus! {

/// What every dimension offers: its units, none smaller than the one before,
/// and those among them that people reach for first.
pub trait DimensionLike {
    /// The units of the dimension, as `units` returns them.
    spec fn units_spec(&self) -> Seq<Unit>;

    /// The common units of the dimension with their fractions, as
    /// `common_units` returns them.
    spec fn common_spec(&self) -> Seq<CommonUnitView>;

    /// The units of the dimension, none smaller than the one before.
    fn units(&self) -> (r: Vec<Unit>)
        ensures
            r@ == self.units_spec(),
    ;

    /// The units of the dimension that people reach for first.
    fn common_units(&self) -> (r: Vec<CommonUnit>)
        ensures
            common_views(r@) == self.common_spec(),
    ;
}

/// Each unit is a whole number of every unit listed before it, so none is
/// smaller than the one before.
pub open spec fn is_chain(units: Seq<Unit>) -> bool {
    forall|j: int, i: int|
        0 <= j <= i < units.len() ==> (#[trigger] units[i]).multiple_spec() % (
        #[trigger] units[j]).multiple_spec() == 0
}

/// The units of every dimension are listed so that each is a whole number
/// of every one before it.
pub proof fn lemma_units_chain(dimension: Dimension)
    ensures
        is_chain(dimension.units_spec()),
        forall|j: int, i: int|
            0 <= j <= i < dimension.units_spec().len() ==> (
            #[trigger] dimension.units_spec()[j]).multiple_spec() <= (
            #[trigger] dimension.units_spec()[i]).multiple_spec(),
{
    let units = dimension.units_spec();
    assert forall|j: int, i: int| 0 <= j <= i < units.len() implies (
    #[trigger] units[i]).multiple_spec() % (#[trigger] units[j]).multiple_spec() == 0 && units[j].multiple_spec()
        <= units[i].multiple_spec() by {
        lemma_multiples_of(dimension, i);
        lemma_multiples_of(dimension, j);
    }
}

/// The multiple of the unit at each place of a dimension's list.
proof fn lemma_multiples_of(dimension: Dimension, i: int)
    requires
        0 <= i < dimension.units_spec().len(),
    ensures
        dimension is Volume ==> dimension.units_spec()[i].multiple_spec() == (if i == 0 {
            1int
        } else if i == 1 {
            3int
        } else if i == 2 {
            6int
        } else if i == 3 {
            12int
        } else if i == 4 {
            96int
        } else if i == 5 {
            288int
        } else if i == 6 {
            4608int
        } else if i == 7 {
            9216int
        } else if i == 8 {
            18432int
        } else {
            73728int
        }),
        dimension is Temperature ==> dimension.units_spec()[i].multiple_spec() == 1,
        dimension is Time ==> dimension.units_spec()[i].multiple_spec() == (if i == 0 {
            1int
        } else if i == 1 {
            60int
        } else {
            3600int
        }),
{
}

/// What each of a list of common units says.
pub open spec fn common_views(units: Seq<CommonUnit>) -> Seq<CommonUnitView> {
    units.map_values(|u: CommonUnit| u@)
}

/// The common units of the volume: the teaspoon by eighths, the tablespoon
/// by halves, the cup by quarters and thirds.
pub open spec fn common_volume_units() -> Seq<CommonUnitView> {
    seq![
        CommonUnitView { unit: Unit::Teaspoon, fractions: seq![Fraction { num: 1, den: 8 }] },
        CommonUnitView { unit: Unit::Tablespoon, fractions: seq![Fraction { num: 1, den: 2 }] },
        CommonUnitView {
            unit: Unit::Cup,
            fractions: seq![Fraction { num: 1, den: 4 }, Fraction { num: 1, den: 3 }],
        },
    ]
}

/// One over `denom`, which is in lowest terms as it stands.
fn unit_fraction(denom: i32) -> (r: Rational)
    requires
        0 < denom,
    ensures
        r@ == (Fraction { num: 1, den: denom as int }),
{
    proof {
        lemma_reduced_by_combination(Fraction { num: 1, den: denom as int }, 1, 0);
    }
    Rational::new(1, denom)
}

/// A unit is common exactly when its dimension lists it among its common
/// units.
pub proof fn lemma_common_units_are_listed(unit: Unit)
    ensures
        unit.is_common_spec() <==> exists|i: int|
            0 <= i < unit.dimension_spec().common_spec().len()
                && #[trigger] unit.dimension_spec().common_spec()[i].unit == unit,
{
    let listed = unit.dimension_spec().common_spec();
    if unit is Teaspoon {
        assert(listed[0].unit == unit);
    }
    if unit is Tablespoon {
        assert(listed[1].unit == unit);
    }
    if unit is Cup {
        assert(listed[2].unit == unit);
    }
}

/// Volumes, counted in drops.
#[derive(Clone, Copy, Debug, PartialEq, Eq, Structural)]
pub struct VolumeDimension;

/// Temperatures, counted in degrees.
#[derive(Clone, Copy, Debug, PartialEq, Eq, Structural)]
pub struct TemperatureDimension;

/// Times, counted in seconds.
#[derive(Clone, Copy, Debug, PartialEq, Eq, Structural)]
pub struct TimeDimension;

/// Counts of things that have a name and no unit.
#[derive(Clone, Copy, Debug, PartialEq, Eq, Structural)]
pub struct UnitlessDimension;

/// A family of mutually convertible units.
#[derive(Clone, Copy, Debug, PartialEq, Eq, Structural)]
pub enum Dimension {
    Volume(VolumeDimension),
    Temperature(TemperatureDimension),
    Time(TimeDimension),
    Unitless(UnitlessDimension),
}

impl DimensionLike for VolumeDimension {
    open spec fn units_spec(&self) -> Seq<Unit> {
        seq![
            Unit::Drop,
            Unit::Smidgen,
            Unit::Pinch,
            Unit::Dash,
            Unit::Teaspoon,
            Unit::Tablespoon,
            Unit::Cup,
            Unit::Pint,
            Unit::Quart,
            Unit::Gallon,
        ]
    }

    open spec fn common_spec(&self) -> Seq<CommonUnitView> {
        common_volume_units()
    }

    fn units(&self) -> (r: Vec<Unit>) {
        let r = vec![
            Unit::Drop,
            Unit::Smidgen,
            Unit::Pinch,
            Unit::Dash,
            Unit::Teaspoon,
            Unit::Tablespoon,
            Unit::Cup,
            Unit::Pint,
            Unit::Quart,
            Unit::Gallon,
        ];
        assert(r@ =~= self.units_spec());
        r
    }

    fn common_units(&self) -> (r: Vec<CommonUnit>) {
        let eighths = vec![unit_fraction(8)];
        let halves = vec![unit_fraction(2)];
        let quarters_and_thirds = vec![unit_fraction(4), unit_fraction(3)];
        let teaspoon = CommonUnit::new(Unit::Teaspoon, eighths);
        let tablespoon = CommonUnit::new(Unit::Tablespoon, halves);
        let cup = CommonUnit::new(Unit::Cup, quarters_and_thirds);
        proof {
            assert(teaspoon@.fractions =~= seq![Fraction { num: 1, den: 8 }]);
            assert(tablespoon@.fractions =~= seq![Fraction { num: 1, den: 2 }]);
            assert(cup@.fractions =~= seq![Fraction { num: 1, den: 4 }, Fraction { num: 1, den: 3 }]);
        }
        let r = vec![teaspoon, tablespoon, cup];
        assert(common_views(r@) =~= common_volume_units());
        r
    }
}

impl DimensionLike for TemperatureDimension {
    open spec fn units_spec(&self) -> Seq<Unit> {
        seq![Unit::Fahrenheit, Unit::Celsius]
    }

    open spec fn common_spec(&self) -> Seq<CommonUnitView> {
        Seq::empty()
    }

    fn units(&self) -> (r: Vec<Unit>) {
        let r = vec![Unit::Fahrenheit, Unit::Celsius];
        assert(r@ =~= self.units_spec());
        r
    }

    fn common_units(&self) -> (r: Vec<CommonUnit>) {
        let r: Vec<CommonUnit> = Vec::new();
        assert(common_views(r@) =~= Seq::<CommonUnitView>::empty());
        r
    }
}

impl DimensionLike for TimeDimension {
    open spec fn units_spec(&self) -> Seq<Unit> {
        seq![Unit::Second, Unit::Minute, Unit::Hour]
    }

    open spec fn common_spec(&self) -> Seq<CommonUnitView> {
        Seq::empty()
    }

    fn units(&self) -> (r: Vec<Unit>) {
        let r = vec![Unit::Second, Unit::Minute, Unit::Hour];
        assert(r@ =~= self.units_spec());
        r
    }

    fn common_units(&self) -> (r: Vec<CommonUnit>) {
        let r: Vec<CommonUnit> = Vec::new();
        assert(common_views(r@) =~= Seq::<CommonUnitView>::empty());
        r
    }
}

impl DimensionLike for UnitlessDimension {
    open spec fn units_spec(&self) -> Seq<Unit> {
        Seq::empty()
    }

    open spec fn common_spec(&self) -> Seq<CommonUnitView> {
        Seq::empty()
    }

    fn units(&self) -> (r: Vec<Unit>) {
        Vec::new()
    }

    fn common_units(&self) -> (r: Vec<CommonUnit>) {
        let r: Vec<CommonUnit> = Vec::new();
        assert(common_views(r@) =~= Seq::<CommonUnitView>::empty());
        r
    }
}

impl DimensionLike for Dimension {
    open spec fn units_spec(&self) -> Seq<Unit> {
        match self {
            Dimension::Volume(d) => d.units_spec(),
            Dimension::Temperature(d) => d.units_spec(),
            Dimension::Time(d) => d.units_spec(),
            Dimension::Unitless(d) => d.units_spec(),
        }
    }

    open spec fn common_spec(&self) -> Seq<CommonUnitView> {
        match self {
            Dimension::Volume(d) => d.common_spec(),
            Dimension::Temperature(d) => d.common_spec(),
            Dimension::Time(d) => d.common_spec(),
            Dimension::Unitless(d) => d.common_spec(),
        }
    }

    fn units(&self) -> (r: Vec<Unit>) {
        match self {
            Dimension::Volume(d) => d.units(),
            Dimension::Temperature(d) => d.units(),
            Dimension::Time(d) => d.units(),
            Dimension::Unitless(d) => d.units(),
        }
    }

    fn common_units(&self) -> (r: Vec<CommonUnit>) {
        match self {
            Dimension::Volume(d) => d.common_units(),
            Dimension::Temperature(d) => d.common_units(),
            Dimension::Time(d) => d.common_units(),
            Dimension::Unitless(d) => d.common_units(),
        }
    }
}

} // verus!
