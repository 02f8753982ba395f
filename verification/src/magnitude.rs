//! Magnitudes: exact quantities in the base unit of a dimension.

use vstd::prelude::*;

use crate::dimension::Dimension;
use crate::fraction::Fraction;
use crate::measure::Measure;
use crate::measure::MeasureView;
use crate::measure::RangeMeasure;
use crate::measure::SingleMeasure;
use crate::measure::SingleView;
use crate::rational::fits;
use crate::rational::lemma_view_decides;
use crate::rational::Rational;
use crate::unit::Unit;

verus! {

/// An exact quantity in the base unit of its dimension: one value, or the
/// two ends of a range. Two magnitudes are equal when their base values and
/// dimensions are, whatever unit they were first written in.
#[derive(Clone, Copy, Debug, PartialEq, Eq, Structural)]
pub enum Magnitude {
    Single { base_value: Rational, dimension: Dimension },
    Range { from_base_value: Rational, to_base_value: Rational, dimension: Dimension },
}

/// What a magnitude says: its base quantities and its dimension.
pub enum MagnitudeView {
    Single { base: Fraction, dimension: Dimension },
    Range { from: Fraction, to: Fraction, dimension: Dimension },
}

impl View for Magnitude {
    type V = MagnitudeView;

    open spec fn view(&self) -> MagnitudeView {
        match self {
            Magnitude::Single { base_value, dimension } => MagnitudeView::Single {
                base: base_value@,
                dimension: *dimension,
            },
            Magnitude::Range { from_base_value, to_base_value, dimension } => MagnitudeView::Range {
                from: from_base_value@,
                to: to_base_value@,
                dimension: *dimension,
            },
        }
    }
}

impl MagnitudeView {
    /// The value in `unit` can be held.
    pub open spec fn measurable_in(self, unit: Unit) -> bool {
        match self {
            MagnitudeView::Single { base, .. } => fits(
                base.over(Fraction::whole(unit.multiple_spec())),
            ),
            MagnitudeView::Range { from, to, .. } => fits(
                from.over(Fraction::whole(unit.multiple_spec())),
            ) && fits(to.over(Fraction::whole(unit.multiple_spec()))),
        }
    }

    /// The product with `factor` can be held.
    pub open spec fn scalable_by(self, factor: Fraction) -> bool {
        match self {
            MagnitudeView::Single { base, .. } => fits(base.times(factor)),
            MagnitudeView::Range { from, to, .. } => fits(from.times(factor)) && fits(
                to.times(factor),
            ),
        }
    }

    /// The magnitude scaled by `factor`.
    pub open spec fn scaled(self, factor: Fraction) -> MagnitudeView {
        match self {
            MagnitudeView::Single { base, dimension } => MagnitudeView::Single {
                base: base.times(factor).reduced(),
                dimension,
            },
            MagnitudeView::Range { from, to, dimension } => MagnitudeView::Range {
                from: from.times(factor).reduced(),
                to: to.times(factor).reduced(),
                dimension,
            },
        }
    }

    /// The magnitude as a measure in `unit`.
    pub open spec fn measure_spec(self, unit: Unit) -> MeasureView {
        match self {
            MagnitudeView::Single { base, .. } => MeasureView::Single(
                SingleView::of_base(base, unit),
            ),
            MagnitudeView::Range { from, to, .. } => MeasureView::Range(
                SingleView::of_base(from, unit),
                SingleView::of_base(to, unit),
            ),
        }
    }
}

/// Two magnitudes are equal exactly when their base quantities and their
/// dimensions are; the units they were first written in play no part.
pub proof fn lemma_magnitude_equality(a: Magnitude, b: Magnitude)
    ensures
        (a == b) <==> (a@ == b@),
{
    match (a, b) {
        (
            Magnitude::Single { base_value: x, .. },
            Magnitude::Single { base_value: y, .. },
        ) => {
            lemma_view_decides(x, y);
        },
        (
            Magnitude::Range { from_base_value: x, to_base_value: v, .. },
            Magnitude::Range { from_base_value: y, to_base_value: w, .. },
        ) => {
            lemma_view_decides(x, y);
            lemma_view_decides(v, w);
        },
        _ => {},
    }
}

impl Magnitude {
    /// The magnitude of one quantity of base units.
    pub fn single(base_value: Rational, dimension: Dimension) -> (m: Magnitude)
        ensures
            m == (Magnitude::Single { base_value, dimension }),
    {
        Magnitude::Single { base_value, dimension }
    }

    /// The magnitude of a range between two quantities of base units.
    pub fn range(from_base_value: Rational, to_base_value: Rational, dimension: Dimension) -> (m:
        Magnitude)
        ensures
            m == (Magnitude::Range { from_base_value, to_base_value, dimension }),
    {
        Magnitude::Range { from_base_value, to_base_value, dimension }
    }

    /// The magnitude as a measure in `unit`: each base value divided by the
    /// unit's multiple.
    pub fn measure(&self, unit: Unit) -> (r: Measure)
        requires
            self@.measurable_in(unit),
        ensures
            r@ == self@.measure_spec(unit),
    {
        match self {
            Magnitude::Single { base_value, .. } => Measure::Single(
                SingleMeasure::from_base(*base_value, unit),
            ),
            Magnitude::Range { from_base_value, to_base_value, .. } => Measure::Range(
                RangeMeasure::from_base(*from_base_value, unit.clone(), *to_base_value, unit),
            ),
        }
    }

    /// The magnitude scaled by `multiple`.
    pub fn mul(self, multiple: Rational) -> (r: Magnitude)
        requires
            self@.scalable_by(multiple@),
        ensures
            r@ == self@.scaled(multiple@),
    {
        match self {
            Magnitude::Single { base_value, dimension } => Magnitude::Single {
                base_value: base_value.mul(multiple),
                dimension,
            },
            Magnitude::Range { from_base_value, to_base_value, dimension } => Magnitude::Range {
                from_base_value: from_base_value.mul(multiple),
                to_base_value: to_base_value.mul(multiple),
                dimension,
            },
        }
    }
}

} // verus!
