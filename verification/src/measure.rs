//! Measures: a quantity written in one or more units of display.

use vstd::arithmetic::div_mod::lemma_fundamental_div_mod;
use vstd::arithmetic::div_mod::lemma_mod_multiples_basic;
use vstd::prelude::*;
use vstd::string::StringExecFns;

use crate::dimension::Dimension;
use crate::fraction::Fraction;
use crate::fraction::lemma_reduced_divides;
use crate::magnitude::Magnitude;
use crate::magnitude::MagnitudeView;
use crate::rational::fits;
use crate::rational::Rational;
use crate::rational::sum_fits;
use crate::text::integer_text;
use crate::text::write_integer;
use crate::unit::Unit;

verus! {

/// What every measure offers: the dimension it lies in and the quantity it
/// stands for.
pub trait MeasureLike {
    /// The measure names at least one unit.
    spec fn has_dimension(&self) -> bool;

    /// The quantity of the measure can be held in base units.
    spec fn has_magnitude(&self) -> bool;

    /// The dimension of the measure: that of its first unit.
    spec fn dimension_spec(&self) -> Dimension;

    /// The quantity of the measure in base units, with its dimension.
    spec fn magnitude_spec(&self) -> MagnitudeView;

    /// The dimension the measure lies in.
    fn dimension(&self) -> (d: Dimension)
        requires
            self.has_dimension(),
        ensures
            d == self.dimension_spec(),
    ;

    /// The quantity the measure stands for.
    fn magnitude(&self) -> (m: Magnitude)
        requires
            self.has_magnitude(),
        ensures
            m@ == self.magnitude_spec(),
    ;
}

/// One value in one unit.
#[derive(Debug, PartialEq, Eq)]
pub struct SingleMeasure {
    pub value: Rational,
    pub unit: Unit,
}

impl Clone for SingleMeasure {
    fn clone(&self) -> (r: SingleMeasure)
        ensures
            r == *self,
    {
        SingleMeasure { value: self.value, unit: self.unit.clone() }
    }
}

/// What a single measure says: a quantity and a unit.
pub struct SingleView {
    pub value: Fraction,
    pub unit: Unit,
}

impl View for SingleMeasure {
    type V = SingleView;

    open spec fn view(&self) -> SingleView {
        SingleView { value: self.value@, unit: self.unit }
    }
}

/// A value reads naturally: it is not zero, and it is a whole number or a
/// whole multiple of a common fraction, the eighth or the third.
pub open spec fn is_good_value(value: Fraction) -> bool {
    &&& !value.is_zero()
    &&& (value.is_whole() || value.over(Fraction { num: 1, den: 8 }).is_whole() || value.over(
        Fraction { num: 1, den: 3 },
    ).is_whole())
}

/// A reduced value is a whole multiple of `1/c` exactly when its denominator
/// divides `c`.
pub proof fn lemma_multiple_of_unit_fraction(value: Fraction, c: int)
    requires
        value.is_reduced(),
        c > 0,
    ensures
        value.over(Fraction { num: 1, den: c }).is_whole() <==> c % value.den == 0,
{
    let q = value.over(Fraction { num: 1, den: c });
    assert(q.den == value.den) by (nonlinear_arith)
        requires
            q.den == value.den * 1,
    ;
    if q.is_whole() {
        lemma_fundamental_div_mod(q.num, q.den);
        let w = q.num / q.den;
        assert(value.same_value(Fraction { num: w, den: c })) by (nonlinear_arith)
            requires
                value.num * c == value.den * w,
        ;
        let k = lemma_reduced_divides(value, Fraction { num: w, den: c });
        lemma_mod_multiples_basic(k, value.den);
    }
    if c % value.den == 0 {
        lemma_fundamental_div_mod(c, value.den);
        let k = c / value.den;
        assert(q.num == (value.num * k) * value.den) by (nonlinear_arith)
            requires
                q.num == value.num * c,
                c == value.den * k,
        ;
        lemma_mod_multiples_basic(value.num * k, value.den);
    }
}

impl SingleView {
    /// The quantity in base units, reduced.
    pub open spec fn base(self) -> Fraction {
        self.unit.to_base_spec(self.value)
    }

    /// The quantity in base units can be held.
    pub open spec fn base_fits(self) -> bool {
        fits(self.value.times(Fraction::whole(self.unit.multiple_spec())))
    }

    /// The name of the unit as it is shown: the abbreviation, or in the
    /// alternate form the description, in the plural where the value
    /// exceeds one.
    pub open spec fn unit_text(self, alternate: bool) -> Seq<char> {
        if alternate {
            self.unit.description_spec(self.value.exceeds(Fraction::whole(1)))
        } else {
            self.unit.abbreviation_spec()
        }
    }

    /// The measure as it is shown: a whole value as an integer; a value
    /// above one as its whole part and the fraction left; any other as a
    /// fraction; then a space and the name of the unit.
    pub open spec fn render(self, alternate: bool) -> Seq<char> {
        let number = if self.value.is_whole() {
            integer_text(self.value.num)
        } else if self.value.exceeds(Fraction::whole(1)) {
            integer_text(self.value.whole_part()) + seq![' '] + integer_text(
                self.value.fract().num,
            ) + seq!['/'] + integer_text(self.value.fract().den)
        } else {
            integer_text(self.value.num) + seq!['/'] + integer_text(self.value.den)
        };
        number + seq![' '] + self.unit_text(alternate)
    }

    /// The measure that a quantity of base units makes in a unit.
    pub open spec fn of_base(base: Fraction, unit: Unit) -> SingleView {
        SingleView { value: unit.from_base_spec(base), unit }
    }
}

impl SingleMeasure {
    /// The measure of `value` in `unit`.
    pub fn new(value: Rational, unit: Unit) -> (r: SingleMeasure)
        ensures
            r.value == value,
            r.unit == unit,
    {
        SingleMeasure { value, unit }
    }

    /// The measure of a quantity of base units in `unit`.
    pub fn from_base(base_value: Rational, unit: Unit) -> (r: SingleMeasure)
        requires
            fits(base_value@.over(Fraction::whole(unit.multiple_spec()))),
        ensures
            r@ == SingleView::of_base(base_value@, unit),
            r.value.wf(),
    {
        let value = unit.value_from_base(base_value);
        SingleMeasure { value, unit }
    }

    /// The value reads naturally in its unit.
    pub fn is_good(&self) -> (b: bool)
        ensures
            b == is_good_value(self.value@),
    {
        proof {
            use_type_invariant(self.value);
            lemma_multiple_of_unit_fraction(self.value@, 8);
            lemma_multiple_of_unit_fraction(self.value@, 3);
        }
        let d = self.value.denom();
        !self.value.is_zero() && (self.value.is_integer() || 8 % d == 0 || 3 % d == 0)
    }

    /// The measure as text; the alternate form names the unit in full.
    pub fn render(&self, alternate: bool) -> (r: String)
        ensures
            r@ == self@.render(alternate),
    {
        proof {
            reveal_strlit(" ");
            reveal_strlit("/");
        }
        let one = Rational::one();
        let above_one = self.value.gt(&one);
        let unit_text = if alternate {
            self.unit.description(above_one)
        } else {
            self.unit.abbreviation()
        };
        let mut r = if self.value.is_integer() {
            write_integer(self.value.numer())
        } else if above_one {
            let rest = self.value.fract();
            let mut r = write_integer(self.value.to_integer());
            r.append(" ");
            r.append(write_integer(rest.numer()).as_str());
            r.append("/");
            r.append(write_integer(rest.denom()).as_str());
            r
        } else {
            let mut r = write_integer(self.value.numer());
            r.append("/");
            r.append(write_integer(self.value.denom()).as_str());
            r
        };
        r.append(" ");
        r.append(unit_text);
        assert(r@ =~= self@.render(alternate));
        r
    }

    /// The measure as text, with the unit abbreviated.
    pub fn to_string(&self) -> (r: String)
        ensures
            r@ == self@.render(false),
    {
        self.render(false)
    }

    /// The quantity in base units.
    pub fn base_value(&self) -> (r: Rational)
        requires
            self@.base_fits(),
        ensures
            r@ == self@.base(),
            r.wf(),
    {
        self.unit.value_to_base(self.value)
    }
}

impl MeasureLike for SingleMeasure {
    open spec fn has_dimension(&self) -> bool {
        true
    }

    open spec fn has_magnitude(&self) -> bool {
        self@.base_fits()
    }

    open spec fn dimension_spec(&self) -> Dimension {
        self.unit.dimension_spec()
    }

    open spec fn magnitude_spec(&self) -> MagnitudeView {
        MagnitudeView::Single { base: self@.base(), dimension: self.unit.dimension_spec() }
    }

    fn dimension(&self) -> (d: Dimension) {
        self.unit.dimension()
    }

    fn magnitude(&self) -> (m: Magnitude) {
        Magnitude::single(self.base_value(), self.dimension())
    }
}

/// Several single measures that add up to one quantity ("1 cup 2 tablespoons").
#[derive(Debug, PartialEq, Eq)]
pub struct MultiMeasure {
    pub measures: Vec<SingleMeasure>,
}

impl Clone for MultiMeasure {
    fn clone(&self) -> (r: MultiMeasure)
        ensures
            r.measures@ == self.measures@,
    {
        let mut measures: Vec<SingleMeasure> = Vec::new();
        let mut i: usize = 0;
        while i < self.measures.len()
            invariant
                0 <= i <= self.measures@.len(),
                measures@ == self.measures@.take(i as int),
            decreases self.measures@.len() - i,
        {
            measures.push(self.measures[i].clone());
            assert(self.measures@.take(i as int).push(self.measures@[i as int])
                =~= self.measures@.take(i as int + 1));
            i = i + 1;
        }
        assert(self.measures@.take(i as int) =~= self.measures@);
        MultiMeasure { measures }
    }
}

/// What each of a list of single measures says.
pub open spec fn single_views(measures: Seq<SingleMeasure>) -> Seq<SingleView> {
    measures.map_values(|m: SingleMeasure| m@)
}

/// The sum of the parts in base units, reduced after each part is added.
pub open spec fn total_base(parts: Seq<SingleView>) -> Fraction
    decreases parts.len(),
{
    if parts.len() == 0 {
        Fraction::whole(0)
    } else {
        total_base(parts.drop_last()).plus(parts.last().base()).reduced()
    }
}

/// Every part can be held in base units, and so can every sum on the way.
pub open spec fn total_fits(parts: Seq<SingleView>) -> bool
    decreases parts.len(),
{
    parts.len() == 0 || {
        &&& total_fits(parts.drop_last())
        &&& parts.last().base_fits()
        &&& sum_fits(total_base(parts.drop_last()), parts.last().base())
    }
}

impl View for MultiMeasure {
    type V = Seq<SingleView>;

    open spec fn view(&self) -> Seq<SingleView> {
        single_views(self.measures@)
    }
}

impl MultiMeasure {
    /// The sum of the parts in base units.
    pub fn base_value(&self) -> (r: Rational)
        requires
            total_fits(self@),
        ensures
            r@ == total_base(self@),
            r.wf(),
    {
        let mut sum = Rational::zero();
        let mut i: usize = 0;
        assert(self@.take(0) =~= Seq::<SingleView>::empty());
        while i < self.measures.len()
            invariant
                0 <= i <= self.measures@.len(),
                total_fits(self@),
                total_fits(self@.take(i as int)),
                sum@ == total_base(self@.take(i as int)),
                sum.wf(),
            decreases self.measures@.len() - i,
        {
            proof {
                lemma_total_fits_prefix(self@, i as int + 1);
                assert(self@.take(i as int + 1).drop_last() =~= self@.take(i as int));
                assert(self@.take(i as int + 1).last() == self.measures@[i as int]@);
            }
            let part = self.measures[i].base_value();
            sum = sum.add(part);
            i = i + 1;
        }
        assert(self@.take(i as int) =~= self@);
        sum
    }
}

/// Where all parts fit, the parts up to any point fit too.
pub proof fn lemma_total_fits_prefix(parts: Seq<SingleView>, n: int)
    requires
        total_fits(parts),
        0 <= n <= parts.len(),
    ensures
        total_fits(parts.take(n)),
    decreases parts.len(),
{
    if n == parts.len() {
        assert(parts.take(n) =~= parts);
    } else {
        lemma_total_fits_prefix(parts.drop_last(), n);
        assert(parts.drop_last().take(n) =~= parts.take(n));
    }
}

impl MeasureLike for MultiMeasure {
    open spec fn has_dimension(&self) -> bool {
        self@.len() > 0
    }

    open spec fn has_magnitude(&self) -> bool {
        self@.len() > 0 && total_fits(self@)
    }

    open spec fn dimension_spec(&self) -> Dimension {
        self@[0].unit.dimension_spec()
    }

    open spec fn magnitude_spec(&self) -> MagnitudeView {
        MagnitudeView::Single { base: total_base(self@), dimension: self.dimension_spec() }
    }

    fn dimension(&self) -> (d: Dimension) {
        self.measures[0].dimension()
    }

    fn magnitude(&self) -> (m: Magnitude) {
        Magnitude::single(self.base_value(), self.dimension())
    }
}

/// Two single measures as the ends of a range ("10 to 12 minutes").
#[derive(Debug, PartialEq, Eq)]
pub struct RangeMeasure {
    pub from: SingleMeasure,
    pub to: SingleMeasure,
}

impl Clone for RangeMeasure {
    fn clone(&self) -> (r: RangeMeasure)
        ensures
            r == *self,
    {
        RangeMeasure { from: self.from.clone(), to: self.to.clone() }
    }
}

impl RangeMeasure {
    /// The range between two values, each in its unit.
    pub fn new(from_value: Rational, from_unit: Unit, to_value: Rational, to_unit: Unit) -> (r:
        RangeMeasure)
        ensures
            r.from == (SingleMeasure { value: from_value, unit: from_unit }),
            r.to == (SingleMeasure { value: to_value, unit: to_unit }),
    {
        RangeMeasure {
            from: SingleMeasure::new(from_value, from_unit),
            to: SingleMeasure::new(to_value, to_unit),
        }
    }

    /// The range between two quantities of base units, each in its unit.
    pub fn from_base(
        from_base_value: Rational,
        from_unit: Unit,
        to_base_value: Rational,
        to_unit: Unit,
    ) -> (r: RangeMeasure)
        requires
            fits(from_base_value@.over(Fraction::whole(from_unit.multiple_spec()))),
            fits(to_base_value@.over(Fraction::whole(to_unit.multiple_spec()))),
        ensures
            r.from@ == SingleView::of_base(from_base_value@, from_unit),
            r.to@ == SingleView::of_base(to_base_value@, to_unit),
    {
        let from_value = from_unit.value_from_base(from_base_value);
        let to_value = to_unit.value_from_base(to_base_value);
        RangeMeasure::new(from_value, from_unit, to_value, to_unit)
    }
}

impl MeasureLike for RangeMeasure {
    open spec fn has_dimension(&self) -> bool {
        true
    }

    open spec fn has_magnitude(&self) -> bool {
        self.from@.base_fits() && self.to@.base_fits()
    }

    open spec fn dimension_spec(&self) -> Dimension {
        self.from.unit.dimension_spec()
    }

    open spec fn magnitude_spec(&self) -> MagnitudeView {
        MagnitudeView::Range {
            from: self.from@.base(),
            to: self.to@.base(),
            dimension: self.from.unit.dimension_spec(),
        }
    }

    fn dimension(&self) -> (d: Dimension) {
        self.from.dimension()
    }

    fn magnitude(&self) -> (m: Magnitude) {
        Magnitude::range(self.from.base_value(), self.to.base_value(), self.dimension())
    }
}

/// A quantity as people write it: in one unit, in several, or as a range.
#[derive(Debug, PartialEq, Eq)]
pub enum Measure {
    Single(SingleMeasure),
    Multi(MultiMeasure),
    Range(RangeMeasure),
}

impl Clone for Measure {
    fn clone(&self) -> (r: Measure)
        ensures
            r@ == self@,
    {
        match self {
            Measure::Single(m) => Measure::Single(m.clone()),
            Measure::Multi(m) => Measure::Multi(m.clone()),
            Measure::Range(m) => Measure::Range(m.clone()),
        }
    }
}

/// What a measure says.
pub enum MeasureView {
    Single(SingleView),
    Multi(Seq<SingleView>),
    Range(SingleView, SingleView),
}

impl View for Measure {
    type V = MeasureView;

    open spec fn view(&self) -> MeasureView {
        match self {
            Measure::Single(m) => MeasureView::Single(m@),
            Measure::Multi(m) => MeasureView::Multi(m@),
            Measure::Range(m) => MeasureView::Range(m.from@, m.to@),
        }
    }
}

impl Measure {
    /// The measure of one value in one unit.
    pub fn single(value: Rational, unit: Unit) -> (r: Measure)
        ensures
            r == Measure::Single(SingleMeasure { value, unit }),
    {
        Measure::Single(SingleMeasure::new(value, unit))
    }
}

impl MeasureLike for Measure {
    open spec fn has_dimension(&self) -> bool {
        match self {
            Measure::Single(m) => m.has_dimension(),
            Measure::Multi(m) => m.has_dimension(),
            Measure::Range(m) => m.has_dimension(),
        }
    }

    open spec fn has_magnitude(&self) -> bool {
        match self {
            Measure::Single(m) => m.has_magnitude(),
            Measure::Multi(m) => m.has_magnitude(),
            Measure::Range(m) => m.has_magnitude(),
        }
    }

    open spec fn dimension_spec(&self) -> Dimension {
        match self {
            Measure::Single(m) => m.dimension_spec(),
            Measure::Multi(m) => m.dimension_spec(),
            Measure::Range(m) => m.dimension_spec(),
        }
    }

    open spec fn magnitude_spec(&self) -> MagnitudeView {
        match self {
            Measure::Single(m) => m.magnitude_spec(),
            Measure::Multi(m) => m.magnitude_spec(),
            Measure::Range(m) => m.magnitude_spec(),
        }
    }

    fn dimension(&self) -> (d: Dimension) {
        match self {
            Measure::Single(m) => m.dimension(),
            Measure::Multi(m) => m.dimension(),
            Measure::Range(m) => m.dimension(),
        }
    }

    fn magnitude(&self) -> (m: Magnitude) {
        match self {
            Measure::Single(s) => s.magnitude(),
            Measure::Multi(s) => s.magnitude(),
            Measure::Range(s) => s.magnitude(),
        }
    }
}

/// What each of a list of measures says.
pub open spec fn measure_views(measures: Seq<Measure>) -> Seq<MeasureView> {
    measures.map_values(|m: Measure| m@)
}

/// What a measure says, if there is one.
pub open spec fn measure_view_of(found: Option<Measure>) -> Option<MeasureView> {
    match found {
        Some(m) => Some(m@),
        None => None,
    }
}

} // verus!
