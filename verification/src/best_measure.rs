//! The choice of the measures that show a magnitude best.

use vstd::arithmetic::div_mod::lemma_fundamental_div_mod;
use vstd::prelude::*;

use crate::dimension::Dimension;
use crate::dimension::DimensionLike;
use crate::dimension::is_chain;
use crate::dimension::lemma_units_chain;
use crate::fraction::Fraction;
use crate::fraction::lemma_reduced_exists;
use crate::fraction::lemma_reduced_is;
use crate::fraction::lemma_reduced_same;
use crate::fraction::lemma_reduced_within;
use crate::magnitude::Magnitude;
use crate::magnitude::MagnitudeView;
use crate::measure::is_good_value;
use crate::measure::Measure;
use crate::measure::measure_view_of;
use crate::measure::measure_views;
use crate::measure::MeasureView;
use crate::measure::MultiMeasure;
use crate::measure::single_views;
use crate::measure::SingleMeasure;
use crate::measure::SingleView;
use crate::measure::total_base;
use crate::rational::abs;
use crate::rational::fits;
use crate::rational::lemma_whole_part_bound;
use crate::rational::LIMIT;
use crate::rational::Rational;
use crate::unit::lemma_base_round_trip;
use crate::unit::lemma_multiple_positive;
use crate::unit::Unit;

verus! {

/// What is left of the base quantity, in base units, after the whole part of
/// its value in `unit` is taken away.
pub open spec fn rest_base(base: Fraction, unit: Unit) -> Fraction {
    unit.to_base_spec(unit.from_base_spec(base).fract())
}

/// What is left of the base quantity after the whole part of its value in
/// `unit` is taken away, as a value in the unit `sub`.
pub open spec fn remainder_in(base: Fraction, unit: Unit, sub: Unit) -> Fraction {
    sub.from_base_spec(rest_base(base, unit))
}

/// Among the first `upto` units, the last in which the remainder of the
/// value in `units[i]` reads naturally.
pub open spec fn sub_unit(base: Fraction, units: Seq<Unit>, i: int, upto: int) -> Option<int>
    decreases upto,
{
    if upto <= 0 {
        None
    } else if is_good_value(remainder_in(base, units[i], units[upto - 1])) {
        Some(upto - 1)
    } else {
        sub_unit(base, units, i, upto - 1)
    }
}

/// The measure that `units[i]` offers for the base quantity: the value alone
/// where it reads naturally; else its whole part with the remainder in a
/// smaller unit, where both read naturally; else nothing.
pub open spec fn candidate(base: Fraction, units: Seq<Unit>, i: int) -> Option<MeasureView> {
    let value = units[i].from_base_spec(base);
    let main = Fraction::whole(value.whole_part());
    if is_good_value(value) {
        Some(MeasureView::Single(SingleView { value, unit: units[i] }))
    } else if !is_good_value(main) {
        None
    } else {
        match sub_unit(base, units, i, i) {
            Some(j) => Some(
                MeasureView::Multi(
                    seq![
                        SingleView { value: main, unit: units[i] },
                        SingleView { value: remainder_in(base, units[i], units[j]), unit: units[j] },
                    ],
                ),
            ),
            None => None,
        }
    }
}

/// What the first `n` units offer, in the order of the units.
pub open spec fn candidates(base: Fraction, units: Seq<Unit>, n: int) -> Seq<MeasureView>
    decreases n,
{
    if n <= 0 {
        Seq::empty()
    } else {
        match candidate(base, units, n - 1) {
            Some(c) => candidates(base, units, n - 1).push(c),
            None => candidates(base, units, n - 1),
        }
    }
}

/// A whole number of a common unit.
pub open spec fn is_clean(m: MeasureView) -> bool {
    m matches MeasureView::Single(s) && s.value.is_whole() && s.unit.is_common_spec()
}

/// The measure leads with a common unit.
pub open spec fn leads_common(m: MeasureView) -> bool {
    match m {
        MeasureView::Single(s) => s.unit.is_common_spec(),
        MeasureView::Multi(parts) => parts.len() > 0 && parts[0].unit.is_common_spec(),
        MeasureView::Range(from, _) => from.unit.is_common_spec(),
    }
}

/// The last of the first `upto` measures that is clean.
pub open spec fn last_clean(found: Seq<MeasureView>, upto: int) -> Option<int>
    decreases upto,
{
    if upto <= 0 {
        None
    } else if is_clean(found[upto - 1]) {
        Some(upto - 1)
    } else {
        last_clean(found, upto - 1)
    }
}

/// The measures from the last clean one on, or all of them where none is
/// clean.
pub open spec fn pruned(found: Seq<MeasureView>) -> Seq<MeasureView> {
    match last_clean(found, found.len() as int) {
        Some(k) => found.subrange(k, found.len() as int),
        None => found,
    }
}

/// The last of the first `upto` measures that leads with a common unit.
pub open spec fn last_common(found: Seq<MeasureView>, upto: int) -> Option<int>
    decreases upto,
{
    if upto <= 0 {
        None
    } else if leads_common(found[upto - 1]) {
        Some(upto - 1)
    } else {
        last_common(found, upto - 1)
    }
}

/// The measure to prefer: the last that leads with a common unit, else the
/// first, else none.
pub open spec fn preferred(found: Seq<MeasureView>) -> Option<MeasureView> {
    if found.len() == 0 {
        None
    } else {
        match last_common(found, found.len() as int) {
            Some(k) => Some(found[k]),
            None => Some(found[0]),
        }
    }
}

/// The value of the base quantity in each of the units can be held.
pub open spec fn units_fit(base: Fraction, units: Seq<Unit>) -> bool {
    forall|j: int|
        0 <= j < units.len() ==> fits(
            base.over(Fraction::whole((#[trigger] units[j]).multiple_spec())),
        )
}

/// What `units[i]` is asked for can be held: the value of the base quantity
/// in it, and what is left of that value in each unit before it.
pub open spec fn candidate_fits(base: Fraction, units: Seq<Unit>, i: int) -> bool {
    &&& fits(base.over(Fraction::whole(units[i].multiple_spec())))
    &&& forall|j: int|
        0 <= j < i ==> fits(
            rest_base(base, units[i]).over(Fraction::whole((#[trigger] units[j]).multiple_spec())),
        )
}


impl MagnitudeView {
    /// The value of the magnitude in each unit of its dimension can be
    /// held. A range is always presentable: nothing is asked of it.
    pub open spec fn presentable(self) -> bool {
        match self {
            MagnitudeView::Single { base, dimension } => units_fit(base, dimension.units_spec()),
            MagnitudeView::Range { .. } => true,
        }
    }

    /// The measures that show a single magnitude well, smallest unit first;
    /// none for a range.
    pub open spec fn best_measures_spec(self) -> Seq<MeasureView> {
        match self {
            MagnitudeView::Single { base, dimension } => pruned(
                candidates(base, dimension.units_spec(), dimension.units_spec().len() as int),
            ),
            MagnitudeView::Range { .. } => Seq::empty(),
        }
    }

    /// The one measure to show, if any reads well.
    pub open spec fn best_measure_spec(self) -> Option<MeasureView> {
        preferred(self.best_measures_spec())
    }
}

/// What `last_clean` finds is clean and nothing after it is; where it finds
/// nothing, nothing is clean.
pub proof fn lemma_last_clean(found: Seq<MeasureView>, upto: int)
    requires
        0 <= upto <= found.len(),
    ensures
        match last_clean(found, upto) {
            Some(k) => 0 <= k < upto && is_clean(found[k]) && forall|i: int|
                k < i < upto ==> !is_clean(#[trigger] found[i]),
            None => forall|i: int| 0 <= i < upto ==> !is_clean(#[trigger] found[i]),
        },
    decreases upto,
{
    if upto > 0 && !is_clean(found[upto - 1]) {
        lemma_last_clean(found, upto - 1);
    }
}

/// Once a whole number of a common unit is among the measures, it is the
/// first that stays: nothing of a smaller unit stays before it, and nothing
/// after it is such a whole number.
pub proof fn lemma_pruned_leads_with_clean(found: Seq<MeasureView>)
    ensures
        forall|i: int| 0 < i < pruned(found).len() ==> !is_clean(#[trigger] pruned(found)[i]),
        (exists|i: int| 0 <= i < found.len() && is_clean(found[i])) ==> pruned(found).len() > 0
            && is_clean(pruned(found)[0]),
{
    lemma_last_clean(found, found.len() as int);
}

/// Of the best measures of any magnitude, only the first can be a whole
/// number of a common unit. Where the units of the dimension offer such a
/// whole number at all, the best measures are what the units offer from the
/// last such one on: it comes first, and nothing that a smaller unit offers
/// stays.
pub proof fn lemma_best_measures_lead_with_clean(magnitude: MagnitudeView)
    ensures
        forall|i: int|
            0 < i < magnitude.best_measures_spec().len() ==> !is_clean(
                #[trigger] magnitude.best_measures_spec()[i],
            ),
        (exists|i: int|
            0 <= i < magnitude.best_measures_spec().len() && is_clean(
                magnitude.best_measures_spec()[i],
            )) ==> is_clean(magnitude.best_measures_spec()[0]),
        magnitude matches MagnitudeView::Single { base, dimension } ==> ({
            let offered = candidates(
                base,
                dimension.units_spec(),
                dimension.units_spec().len() as int,
            );
            match last_clean(offered, offered.len() as int) {
                Some(k) => 0 <= k < offered.len() && is_clean(offered[k])
                    && magnitude.best_measures_spec() == offered.subrange(
                    k,
                    offered.len() as int,
                ),
                None => magnitude.best_measures_spec() == offered && forall|i: int|
                    0 <= i < offered.len() ==> !is_clean(#[trigger] offered[i]),
            }
        }),
{
    match magnitude {
        MagnitudeView::Single { base, dimension } => {
            let offered = candidates(
                base,
                dimension.units_spec(),
                dimension.units_spec().len() as int,
            );
            lemma_last_clean(offered, offered.len() as int);
            lemma_pruned_leads_with_clean(offered);
        },
        MagnitudeView::Range { .. } => {},
    }
}

/// What a measure of one or several parts amounts to in base units; for a
/// range, what its lower end amounts to.
pub open spec fn quantity(m: MeasureView) -> Fraction {
    match m {
        MeasureView::Single(s) => s.base(),
        MeasureView::Multi(parts) => total_base(parts),
        MeasureView::Range(from, _) => from.base(),
    }
}

/// A whole number of a unit and a rest of it, each taken to base units and
/// added, make the quantity that the two were cut from.
proof fn lemma_sum_of_parts(base: Fraction, m: int, value: Fraction, main: Fraction, rest: Fraction)
    requires
        base.den > 0,
        value.den > 0,
        main.den > 0,
        rest.den > 0,
        m >= 1,
        value.num * (base.den * m) == base.num * value.den,
        main.num == (value.whole_part() * m) * main.den,
        rest.num * value.den == (value.fract().num * m) * rest.den,
    ensures
        main.plus(rest).same_value(base),
        main.plus(rest).den != 0,
{
    let t = value.whole_part();
    let sum = main.plus(rest);
    assert(sum.den > 0) by (nonlinear_arith)
        requires
            sum.den == main.den * rest.den,
            main.den > 0,
            rest.den > 0,
    ;
    let rest_part = value.fract().num;
    assert(rest_part == value.num - t * value.den);
    let main_term = (main.num * rest.den) * value.den;
    let rest_term = (rest.num * main.den) * value.den;
    assert(main_term == ((t * value.den) * m) * sum.den) by (nonlinear_arith)
        requires
            main_term == (main.num * rest.den) * value.den,
            main.num == (t * m) * main.den,
            sum.den == main.den * rest.den,
    ;
    assert(rest_term == (rest_part * m) * sum.den) by (nonlinear_arith)
        requires
            rest_term == (rest.num * main.den) * value.den,
            rest.num * value.den == (rest_part * m) * rest.den,
            sum.den == main.den * rest.den,
    ;
    assert(sum.num * value.den == main_term + rest_term) by (nonlinear_arith)
        requires
            sum.num == main.num * rest.den + rest.num * main.den,
            main_term == (main.num * rest.den) * value.den,
            rest_term == (rest.num * main.den) * value.den,
    ;
    assert(sum.num * value.den == (value.num * m) * sum.den) by (nonlinear_arith)
        requires
            sum.num * value.den == main_term + rest_term,
            main_term == ((t * value.den) * m) * sum.den,
            rest_term == (rest_part * m) * sum.den,
            rest_part == value.num - t * value.den,
    ;
    assert((sum.num * base.den) * value.den == (base.num * sum.den) * value.den)
        by (nonlinear_arith)
        requires
            sum.num * value.den == (value.num * m) * sum.den,
            value.num * (base.den * m) == base.num * value.den,
    ;
    assert(sum.num * base.den == base.num * sum.den) by (nonlinear_arith)
        requires
            (sum.num * base.den) * value.den == (base.num * sum.den) * value.den,
            value.den > 0,
    ;
}

/// The measure that a unit offers amounts to the base quantity it was made
/// for: a single measure converts back to it, and the parts of a composite
/// add up to it.
pub proof fn lemma_candidate_keeps_quantity(base: Fraction, units: Seq<Unit>, i: int)
    requires
        base.is_reduced(),
        0 <= i < units.len(),
    ensures
        candidate(base, units, i) matches Some(m) ==> quantity(m) == base,
{
    let unit = units[i];
    let m = unit.multiple_spec();
    lemma_multiple_positive(unit);
    match candidate(base, units, i) {
        Some(MeasureView::Single(s)) => {
            lemma_base_round_trip(base, unit);
        },
        Some(MeasureView::Multi(parts)) => {
            let j = sub_unit(base, units, i, i)->0;
            lemma_sub_unit_in_range(base, units, i, i);
            let sub = units[j];
            let down = base.over(Fraction::whole(m));
            assert(down.den != 0 && down.num == base.num && down.den == base.den * m)
                by (nonlinear_arith)
                requires
                    down.num == base.num * 1,
                    down.den == base.den * m,
                    base.den > 0,
                    m >= 1,
            ;
            lemma_reduced_exists(down);
            let value = down.reduced();
            // the whole part, in base units
            let main_up = Fraction::whole(value.whole_part()).times(Fraction::whole(m));
            assert(main_up.den == 1 && main_up.num == value.whole_part() * m) by (nonlinear_arith)
                requires
                    main_up.den == 1 * 1,
                    main_up.num == value.whole_part() * m,
            ;
            lemma_reduced_exists(main_up);
            let main = main_up.reduced();
            // the rest, in base units
            let rest_up = value.fract().times(Fraction::whole(m));
            assert(rest_up.den == value.den && rest_up.num == value.fract().num * m)
                by (nonlinear_arith)
                requires
                    rest_up.den == value.den * 1,
                    rest_up.num == value.fract().num * m,
            ;
            lemma_reduced_exists(rest_up);
            let rest = rest_up.reduced();
            lemma_base_round_trip(rest, sub);
            assert(parts[1].base() == rest);
            assert(parts[0].base() == main);
            // nothing plus the whole part is the whole part
            let first = Fraction::whole(0).plus(main);
            assert(first.den != 0 && main.same_value(first)) by (nonlinear_arith)
                requires
                    first.num == 0 * main.den + main.num * 1,
                    first.den == 1 * main.den,
                    main.den > 0,
            ;
            lemma_reduced_is(first, main);
            assert(parts.drop_last() =~= seq![parts[0]]);
            assert(parts.drop_last().drop_last() =~= Seq::<SingleView>::empty());
            assert(total_base(parts.drop_last()) == main) by {
                reveal_with_fuel(total_base, 3);
            }
            assert(main.num == (value.whole_part() * m) * main.den) by (nonlinear_arith)
                requires
                    main.num * main_up.den == main_up.num * main.den,
                    main_up.den == 1,
                    main_up.num == value.whole_part() * m,
            ;
            assert(rest.num * value.den == (value.fract().num * m) * rest.den)
                by (nonlinear_arith)
                requires
                    rest.num * rest_up.den == rest_up.num * rest.den,
                    rest_up.den == value.den,
                    rest_up.num == value.fract().num * m,
            ;
            assert(value.num * (base.den * m) == base.num * value.den) by (nonlinear_arith)
                requires
                    value.num * down.den == down.num * value.den,
                    down.num == base.num,
                    down.den == base.den * m,
            ;
            lemma_sum_of_parts(base, m, value, main, rest);
            lemma_reduced_is(main.plus(rest), base);
            assert(total_base(parts) == main.plus(rest).reduced()) by {
                reveal_with_fuel(total_base, 3);
            }
        },
        _ => {},
    }
}

/// What `sub_unit` finds lies among the units it was asked to look at.
proof fn lemma_sub_unit_in_range(base: Fraction, units: Seq<Unit>, i: int, upto: int)
    ensures
        sub_unit(base, units, i, upto) matches Some(j) ==> 0 <= j < upto,
    decreases upto,
{
    if upto > 0 {
        lemma_sub_unit_in_range(base, units, i, upto - 1);
    }
}

/// Every one of the first `n` units' offers amounts to the base quantity.
pub proof fn lemma_candidates_keep_quantity(base: Fraction, units: Seq<Unit>, n: int)
    requires
        base.is_reduced(),
        0 <= n <= units.len(),
    ensures
        forall|k: int|
            0 <= k < candidates(base, units, n).len() ==> quantity(
                #[trigger] candidates(base, units, n)[k],
            ) == base,
    decreases n,
{
    if n > 0 {
        lemma_candidates_keep_quantity(base, units, n - 1);
        lemma_candidate_keeps_quantity(base, units, n - 1);
        let before = candidates(base, units, n - 1);
        assert forall|k: int| 0 <= k < candidates(base, units, n).len() implies quantity(
            #[trigger] candidates(base, units, n)[k],
        ) == base by {
            if k < before.len() {
                assert(candidates(base, units, n)[k] == before[k]);
            }
        }
    }
}

/// Every best measure of a single magnitude amounts to the magnitude's base
/// quantity.
pub proof fn lemma_best_measures_keep_quantity(base: Fraction, dimension: Dimension)
    requires
        base.is_reduced(),
    ensures
        ({
            let best = (MagnitudeView::Single { base, dimension }).best_measures_spec();
            forall|k: int| 0 <= k < best.len() ==> quantity(#[trigger] best[k]) == base
        }),
{
    let units = dimension.units_spec();
    lemma_candidates_keep_quantity(base, units, units.len() as int);
    lemma_last_clean(candidates(base, units, units.len() as int), candidates(base, units, units.len() as int).len() as int);
}

/// What is left of a base quantity after the whole part of its value in a
/// unit is taken away is no larger than the quantity itself, so it can be
/// held in base units again.
proof fn lemma_rest_fits(base: Fraction, m: int)
    requires
        base.den > 0,
        base.within(LIMIT as int),
        m >= 1,
    ensures
        fits(base.over(Fraction::whole(m)).reduced().fract().times(Fraction::whole(m))),
{
    let form = base.over(Fraction::whole(m));
    assert(form.num == base.num && form.den == base.den * m && form.den > 0) by (nonlinear_arith)
        requires
            form.num == base.num * 1,
            form.den == base.den * m,
            base.den > 0,
            m >= 1,
    ;
    let k = lemma_reduced_exists(form);
    let value = form.reduced();
    let t = value.whole_part();
    let rest = value.fract();
    let back = rest.times(Fraction::whole(m));
    lemma_whole_part_bound(value);
    assert(k > 0) by (nonlinear_arith)
        requires
            form.den == k * value.den,
            form.den > 0,
            value.den > 0,
    ;
    let g = Fraction { num: k * rest.num, den: base.den };
    assert(back.same_value(g)) by (nonlinear_arith)
        requires
            back.num == rest.num * m,
            back.den == value.den * 1,
            g.num == k * rest.num,
            g.den == base.den,
            base.den * m == k * value.den,
    ;
    assert(abs(g.num) <= abs(base.num)) by (nonlinear_arith)
        requires
            g.num == k * rest.num,
            base.num == k * value.num,
            rest.num == value.num - t * value.den,
            k > 0,
            value.den > 0,
            value.num >= 0 ==> t >= 0 && rest.num >= 0,
            value.num <= 0 ==> t <= 0 && rest.num <= 0,
    ;
    assert(back.den != 0) by (nonlinear_arith)
        requires
            back.den == value.den * 1,
            value.den > 0,
    ;
    lemma_reduced_same(back, g);
    lemma_reduced_within(g, LIMIT as int);
}

/// Where a unit is a whole number of a smaller one, and the base quantity
/// can be held as a value in the smaller one, so can what is left of the
/// quantity after the whole part of its value in the larger unit is taken
/// away: it has the same denominator there and a numerator no larger.
pub proof fn lemma_rest_fits_in(base: Fraction, m: int, s: int)
    requires
        base.den > 0,
        base.within(LIMIT as int),
        m >= 1,
        s >= 1,
        m % s == 0,
        fits(base.over(Fraction::whole(s))),
    ensures
        fits(
            base.over(Fraction::whole(m)).reduced().fract().times(
                Fraction::whole(m),
            ).reduced().over(Fraction::whole(s)),
        ),
{
    let form = base.over(Fraction::whole(m));
    assert(form.num == base.num && form.den == base.den * m && form.den > 0) by (nonlinear_arith)
        requires
            form.num == base.num * 1,
            form.den == base.den * m,
            base.den > 0,
            m >= 1,
    ;
    let k = lemma_reduced_exists(form);
    let value = form.reduced();
    let t = value.whole_part();
    let part = value.fract();
    lemma_whole_part_bound(value);
    assert(k > 0) by (nonlinear_arith)
        requires
            form.den == k * value.den,
            form.den > 0,
            value.den > 0,
    ;
    // what is left, written over the denominator of the base quantity
    let left = k * part.num;
    assert(abs(left) <= abs(base.num)) by (nonlinear_arith)
        requires
            left == k * part.num,
            base.num == k * value.num,
            part.num == value.num - t * value.den,
            k > 0,
            value.den > 0,
            value.num >= 0 ==> t >= 0 && part.num >= 0,
            value.num <= 0 ==> t <= 0 && part.num <= 0,
    ;
    let back = part.times(Fraction::whole(m));
    assert(back.num == part.num * m && back.den == value.den && back.den > 0) by (nonlinear_arith)
        requires
            back.num == part.num * m,
            back.den == value.den * 1,
            value.den > 0,
    ;
    lemma_reduced_exists(back);
    let rest = back.reduced();
    assert(back.num * base.den == left * back.den) by (nonlinear_arith)
        requires
            back.num == part.num * m,
            back.den == value.den,
            base.den * m == k * value.den,
            left == k * part.num,
    ;
    assert((rest.num * base.den) * back.den == (left * rest.den) * back.den) by (nonlinear_arith)
        requires
            rest.num * back.den == back.num * rest.den,
            back.num * base.den == left * back.den,
    ;
    assert(rest.num * base.den == left * rest.den) by (nonlinear_arith)
        requires
            (rest.num * base.den) * back.den == (left * rest.den) * back.den,
            back.den > 0,
    ;
    // the base quantity in the smaller unit
    let below = base.over(Fraction::whole(s));
    assert(below.num == base.num && below.den == base.den * s && below.den > 0)
        by (nonlinear_arith)
        requires
            below.num == base.num * 1,
            below.den == base.den * s,
            base.den > 0,
            s >= 1,
    ;
    let ks = lemma_reduced_exists(below);
    let low = below.reduced();
    assert(ks > 0) by (nonlinear_arith)
        requires
            below.den == ks * low.den,
            below.den > 0,
            low.den > 0,
    ;
    lemma_fundamental_div_mod(m, s);
    let c = m / s;
    let whole = t * c;
    let h = Fraction { num: low.num - whole * low.den, den: low.den };
    assert(left == base.num - t * (base.den * m)) by (nonlinear_arith)
        requires
            left == k * part.num,
            part.num == value.num - t * value.den,
            base.num == k * value.num,
            base.den * m == k * value.den,
    ;
    let under = ks * low.den;
    assert(ks * h.num == ks * low.num - whole * under) by (nonlinear_arith)
        requires
            h.num == low.num - whole * low.den,
            under == ks * low.den,
    ;
    assert(whole * under == t * (base.den * m)) by (nonlinear_arith)
        requires
            whole == t * c,
            under == base.den * s,
            m == s * c,
    ;
    assert(ks * h.num == base.num - t * (base.den * m));
    assert(abs(h.num) <= abs(low.num)) by (nonlinear_arith)
        requires
            ks * h.num == left,
            ks * low.num == base.num,
            abs(left) <= abs(base.num),
            ks > 0,
    ;
    let target = rest.over(Fraction::whole(s));
    assert(target.num == rest.num && target.den == rest.den * s && target.den > 0)
        by (nonlinear_arith)
        requires
            target.num == rest.num * 1,
            target.den == rest.den * s,
            rest.den > 0,
            s >= 1,
    ;
    assert((rest.num * low.den) * ks == (h.num * (rest.den * s)) * ks) by (nonlinear_arith)
        requires
            rest.num * base.den == left * rest.den,
            ks * h.num == left,
            base.den * s == ks * low.den,
    ;
    assert(rest.num * low.den == h.num * (rest.den * s)) by (nonlinear_arith)
        requires
            (rest.num * low.den) * ks == (h.num * (rest.den * s)) * ks,
            ks > 0,
    ;
    assert(target.same_value(h));
    lemma_reduced_same(target, h);
    lemma_reduced_within(h, LIMIT as int);
}

/// Where the base quantity can be held as a value in each of the units, and
/// each unit is a whole number of those before it, everything that a unit is
/// asked for can be held.
pub proof fn lemma_candidate_fits(base: Fraction, units: Seq<Unit>, i: int)
    requires
        base.den > 0,
        base.within(LIMIT as int),
        is_chain(units),
        units_fit(base, units),
        0 <= i < units.len(),
    ensures
        candidate_fits(base, units, i),
{
    lemma_multiple_positive(units[i]);
    assert forall|j: int| 0 <= j < i implies fits(
        rest_base(base, units[i]).over(Fraction::whole((#[trigger] units[j]).multiple_spec())),
    ) by {
        lemma_multiple_positive(units[j]);
        lemma_rest_fits_in(base, units[i].multiple_spec(), units[j].multiple_spec());
    }
}

/// The measure that `units[i]` offers for a base value.
pub fn unit_candidate(base_value: Rational, units: &Vec<Unit>, i: usize) -> (r: Option<Measure>)
    requires
        i < units@.len(),
        candidate_fits(base_value@, units@, i as int),
    ensures
        measure_view_of(r) == candidate(base_value@, units@, i as int),
{
    let unit = &units[i];
    proof {
        use_type_invariant(base_value);
        lemma_multiple_positive(*unit);
        lemma_rest_fits(base_value@, unit.multiple_spec());
    }
    let single = SingleMeasure::from_base(base_value, unit.clone());
    if single.is_good() {
        return Some(Measure::Single(single));
    }
    let main = SingleMeasure::new(single.value.trunc(), unit.clone());
    if !main.is_good() {
        return None;
    }
    let rest_base = unit.value_to_base(single.value.fract());
    let mut j: usize = i;
    while j > 0
        invariant
            0 <= j <= i < units@.len(),
            *unit == units@[i as int],
            candidate_fits(base_value@, units@, i as int),
            rest_base.wf(),
            rest_base@ == crate::best_measure::rest_base(base_value@, units@[i as int]),
            sub_unit(base_value@, units@, i as int, i as int) == sub_unit(
                base_value@,
                units@,
                i as int,
                j as int,
            ),
            main@ == (SingleView {
                value: Fraction::whole(units@[i as int].from_base_spec(base_value@).whole_part()),
                unit: units@[i as int],
            }),
            !is_good_value(units@[i as int].from_base_spec(base_value@)),
            is_good_value(main@.value),
        decreases j,
    {
        j = j - 1;
        let sub_unit_here = &units[j];
        assert(fits(rest_base@.over(Fraction::whole(units@[j as int].multiple_spec()))));
        let sub = SingleMeasure::from_base(rest_base, sub_unit_here.clone());
        if sub.is_good() {
            let parts = vec![main, sub];
            let found = Measure::Multi(MultiMeasure { measures: parts });
            proof {
                assert(sub@.value == remainder_in(base_value@, units@[i as int], units@[j as int]));
                assert(sub_unit(base_value@, units@, i as int, j as int + 1) == Some(j as int));
                assert(single_views(parts@) =~= seq![main@, sub@]);
            }
            return Some(found);
        }
    }
    None
}

impl Magnitude {
    /// The magnitude can be shown in every unit of its dimension, which is
    /// what `best_measures` and `best_measure` ask for.
    pub fn is_presentable(&self) -> (b: bool)
        ensures
            b == self@.presentable(),
    {
        match self {
            Magnitude::Range { .. } => true,
            Magnitude::Single { base_value, dimension } => {
                let units = dimension.units();
                let mut i: usize = 0;
                while i < units.len()
                    invariant
                        0 <= i <= units@.len(),
                        units@ == dimension.units_spec(),
                        *self == (Magnitude::Single { base_value: *base_value, dimension: *dimension }),
                        forall|j: int|
                            0 <= j < i ==> fits(
                                base_value@.over(
                                    Fraction::whole((#[trigger] units@[j]).multiple_spec()),
                                ),
                            ),
                    decreases units@.len() - i,
                {
                    if !units[i].holds_from_base(*base_value) {
                        assert(!fits(
                            base_value@.over(Fraction::whole(units@[i as int].multiple_spec())),
                        ));
                        return false;
                    }
                    i = i + 1;
                }
                true
            },
        }
    }

    /// The measures that show the magnitude well, smallest unit first. Once
    /// a whole number of a common unit is among them, nothing smaller stays.
    pub fn best_measures(&self) -> (r: Vec<Measure>)
        requires
            self@.presentable(),
        ensures
            measure_views(r@) == self@.best_measures_spec(),
            forall|i: int| 0 < i < r@.len() ==> !is_clean(#[trigger] r@[i]@),
    {
        match self {
            Magnitude::Range { .. } => {
                let none: Vec<Measure> = Vec::new();
                assert(measure_views(none@) =~= Seq::<MeasureView>::empty());
                none
            },
            Magnitude::Single { base_value, dimension } => {
                let units = dimension.units();
                assert(measure_views(Seq::<Measure>::empty()) =~= Seq::<MeasureView>::empty());
                let mut found: Vec<Measure> = Vec::new();
                let mut i: usize = 0;
                proof {
                    lemma_units_chain(*dimension);
                }
                while i < units.len()
                    invariant
                        0 <= i <= units@.len(),
                        is_chain(units@),
                        units_fit(base_value@, units@),
                        measure_views(found@) == candidates(base_value@, units@, i as int),
                    decreases units@.len() - i,
                {
                    proof {
                        use_type_invariant(*base_value);
                        lemma_candidate_fits(base_value@, units@, i as int);
                    }
                    match unit_candidate(*base_value, &units, i) {
                        Some(m) => {
                            proof {
                                assert(measure_views(found@.push(m)) =~= measure_views(found@).push(
                                    m@,
                                ));
                            }
                            found.push(m);
                        },
                        None => {},
                    }
                    i = i + 1;
                }
                let mut k: usize = found.len();
                while k > 0
                    invariant
                        0 <= k <= found@.len(),
                        units@ == dimension.units_spec(),
                        *self == (Magnitude::Single { base_value: *base_value, dimension: *dimension }),
                        measure_views(found@) == candidates(
                            base_value@,
                            units@,
                            units@.len() as int,
                        ),
                        last_clean(measure_views(found@), found@.len() as int) == last_clean(
                            measure_views(found@),
                            k as int,
                        ),
                    decreases k,
                {
                    k = k - 1;
                    if measure_is_clean(&found[k]) {
                        let ghost all = measure_views(found@);
                        proof {
                            assert(all[k as int] == found@[k as int]@);
                            assert(last_clean(all, k as int + 1) == Some(k as int));
                        }
                        let kept = found.split_off(k);
                        proof {
                            assert(measure_views(kept@) =~= all.subrange(k as int, all.len() as int));
                            lemma_pruned_leads_with_clean(all);
                            assert forall|i: int| 0 < i < kept@.len() implies !is_clean(
                                #[trigger] kept@[i]@,
                            ) by {
                                assert(measure_views(kept@)[i] == kept@[i]@);
                            }
                        }
                        return kept;
                    }
                }
                proof {
                    lemma_pruned_leads_with_clean(measure_views(found@));
                    assert forall|i: int| 0 < i < found@.len() implies !is_clean(
                        #[trigger] found@[i]@,
                    ) by {
                        assert(measure_views(found@)[i] == found@[i]@);
                    }
                }
                found
            },
        }
    }

    /// The one measure to show: the last of the best measures that leads
    /// with a common unit, else the first of them, else none.
    pub fn best_measure(self) -> (r: Option<Measure>)
        requires
            self@.presentable(),
        ensures
            measure_view_of(r) == self@.best_measure_spec(),
    {
        let mut measures = self.best_measures();
        if measures.len() == 0 {
            return None;
        }
        let mut k: usize = measures.len();
        while k > 0
            invariant
                0 <= k <= measures@.len(),
                measures@.len() > 0,
                measure_views(measures@) == self@.best_measures_spec(),
                last_common(measure_views(measures@), measures@.len() as int) == last_common(
                    measure_views(measures@),
                    k as int,
                ),
            decreases k,
        {
            k = k - 1;
            if measure_leads_common(&measures[k]) {
                proof {
                    assert(measure_views(measures@)[k as int] == measures@[k as int]@);
                    assert(last_common(measure_views(measures@), k as int + 1) == Some(k as int));
                }
                return Some(measures.swap_remove(k));
            }
        }
        proof {
            assert(measure_views(measures@)[0] == measures@[0]@);
        }
        Some(measures.swap_remove(0))
    }
}

/// The measure is a whole number of a common unit.
pub fn measure_is_clean(m: &Measure) -> (b: bool)
    ensures
        b == is_clean(m@),
{
    match m {
        Measure::Single(s) => s.value.is_integer() && s.unit.is_common(),
        _ => false,
    }
}

/// The measure leads with a common unit.
pub fn measure_leads_common(m: &Measure) -> (b: bool)
    ensures
        b == leads_common(m@),
{
    match m {
        Measure::Single(s) => s.unit.is_common(),
        Measure::Multi(parts) => parts.measures.len() > 0 && parts.measures[0].unit.is_common(),
        Measure::Range(range) => range.from.unit.is_common(),
    }
}

} // verus!
