//! Exact quantities for cooking text: measurements are read out of free-form
//! lines, held as rationals in a base unit, and rendered back in the unit that
//! reads most naturally.

pub mod best_measure;
pub mod dimension;
pub mod fraction;
pub mod magnitude;
pub mod measure;
pub mod parser;
pub mod rational;
pub mod text;
pub mod unit;

pub use dimension::Dimension;
pub use dimension::DimensionLike;
pub use dimension::TemperatureDimension;
pub use dimension::TimeDimension;
pub use dimension::UnitlessDimension;
pub use dimension::VolumeDimension;
pub use magnitude::Magnitude;
pub use measure::Measure;
pub use measure::MeasureLike;
pub use measure::MultiMeasure;
pub use measure::RangeMeasure;
pub use measure::SingleMeasure;
pub use rational::Rational;
pub use unit::CommonUnit;
pub use unit::Unit;
pub use unit::Unitless;

use vstd::prelude::*;
use vstd::string::StringExecFns;

verus! {

/// What makes a token fail for good.
#[derive(Debug, PartialEq, Eq)]
pub enum ParseError {
    /// A word names no unit.
    UnknownUnit(String),
    /// A fraction is written over zero.
    InfiniteNumber,
}

impl ParseError {
    /// The error in words.
    pub open spec fn message(&self) -> Seq<char> {
        match self {
            ParseError::UnknownUnit(unit) => "Unknown unit: `"@ + unit@ + "`"@,
            ParseError::InfiniteNumber => "Found an infinite number when parsing"@,
        }
    }

    /// The error in words.
    pub fn to_string(&self) -> (r: String)
        ensures
            r@ == self.message(),
    {
        match self {
            ParseError::UnknownUnit(unit) => {
                let mut r = "Unknown unit: `".to_owned();
                r.append(unit.as_str());
                r.append("`");
                r
            },
            ParseError::InfiniteNumber => "Found an infinite number when parsing".to_owned(),
        }
    }
}

} // verus!
