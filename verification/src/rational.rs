//! Exact rational numbers in lowest terms, computed by `num_rational`.

use vstd::arithmetic::div_mod::lemma_div_pos_is_pos;
use vstd::arithmetic::div_mod::lemma_fundamental_div_mod;
use vstd::arithmetic::div_mod::lemma_mod_bound;
use vstd::arithmetic::div_mod::lemma_mod_multiples_basic;
use vstd::prelude::*;

use crate::fraction::Fraction;
use crate::fraction::lemma_reduced_by_combination;
use crate::fraction::lemma_reduced_is;
use crate::fraction::lemma_reduced_within;

verus! {

/// The largest magnitude a numerator or denominator may have.
pub const LIMIT: i32 = 2147483647;

/// An exact rational number, always held in lowest terms with a positive
/// denominator. Both parts stay within `-LIMIT ..= LIMIT`.
#[derive(Clone, Copy, Debug, PartialEq, Eq, Structural, Hash)]
pub struct Rational {
    numer: i32,
    denom: i32,
}

impl View for Rational {
    type V = Fraction;

    closed spec fn view(&self) -> Fraction {
        Fraction { num: self.numer as int, den: self.denom as int }
    }
}

/// The integer fits a numerator or a denominator.
pub open spec fn in_limit(n: int) -> bool {
    -LIMIT <= n <= LIMIT
}

/// The magnitude of an integer.
pub open spec fn abs(n: int) -> int {
    if n < 0 {
        -n
    } else {
        n
    }
}

/// The fraction written with the two parts of a pair.
pub open spec fn pair_fraction(p: (i32, i32)) -> Fraction {
    Fraction { num: p.0 as int, den: p.1 as int }
}

/// A pair holds a fraction the way a `Rational` does.
pub open spec fn pair_wf(p: (i32, i32)) -> bool {
    pair_fraction(p).is_reduced() && pair_fraction(p).within(LIMIT as int)
}

/// The reduced form of the quantity can be held.
pub open spec fn fits(f: Fraction) -> bool {
    f.den != 0 && f.reduced().within(LIMIT as int)
}

/// The two denominators with what they share taken out of both: the
/// reduced form of one over the other.
pub open spec fn shares(a: Fraction, b: Fraction) -> Fraction {
    (Fraction { num: a.den, den: b.den }).reduced()
}

/// The sum can be formed over the least common multiple of the two
/// denominators: that multiple, each numerator brought over it, and the sum
/// of the two stay within the limit.
pub open spec fn sum_fits(a: Fraction, b: Fraction) -> bool {
    &&& in_limit(a.den * shares(a, b).den)
    &&& in_limit(a.num * shares(a, b).den)
    &&& in_limit(b.num * shares(a, b).num)
    &&& in_limit(a.num * shares(a, b).den + b.num * shares(a, b).num)
}

/// Reduces `numer / denom` with `Ratio::new`. The result is in lowest terms
/// with a positive denominator and names the same quantity as the input.
#[verifier::external_body]
fn ratio_new(numer: i32, denom: i32) -> (r: (i32, i32))
    requires
        denom != 0,
        (Fraction { num: numer as int, den: denom as int }).within(LIMIT as int),
    ensures
        pair_wf(r),
        pair_fraction(r).same_value(Fraction { num: numer as int, den: denom as int }),
{
    let q = num_rational::Ratio::new(numer, denom);
    (*q.numer(), *q.denom())
}

/// Multiplies two ratios with `Ratio::mul`. For operands in lowest terms the
/// products it forms are the parts of the reduced result, so it is free of
/// overflow exactly when that result can be held; the result is in lowest
/// terms and names the product.
#[verifier::external_body]
fn ratio_mul(a: (i32, i32), b: (i32, i32)) -> (r: (i32, i32))
    requires
        pair_wf(a),
        pair_wf(b),
        fits(pair_fraction(a).times(pair_fraction(b))),
    ensures
        pair_wf(r),
        pair_fraction(r).same_value(pair_fraction(a).times(pair_fraction(b))),
{
    let q = num_rational::Ratio::new_raw(a.0, a.1) * num_rational::Ratio::new_raw(b.0, b.1);
    (*q.numer(), *q.denom())
}

/// Divides two ratios with `Ratio::div`. For operands in lowest terms and a
/// divisor other than zero the products it forms are, up to sign, the parts
/// of the reduced result, so it is free of overflow exactly when that result
/// can be held; the result is in lowest terms and names the quotient.
#[verifier::external_body]
fn ratio_div(a: (i32, i32), b: (i32, i32)) -> (r: (i32, i32))
    requires
        pair_wf(a),
        pair_wf(b),
        b.0 != 0,
        fits(pair_fraction(a).over(pair_fraction(b))),
    ensures
        pair_wf(r),
        pair_fraction(r).same_value(pair_fraction(a).over(pair_fraction(b))),
{
    let q = num_rational::Ratio::new_raw(a.0, a.1) / num_rational::Ratio::new_raw(b.0, b.1);
    (*q.numer(), *q.denom())
}

/// Adds two ratios with `Ratio::add`. It forms the least common multiple of
/// the denominators, brings each numerator over it and adds the two; with
/// equal denominators it adds the numerators as they are. `sum_fits` keeps
/// each of these within the limit. The result is in lowest terms and names
/// the sum.
#[verifier::external_body]
fn ratio_add(a: (i32, i32), b: (i32, i32)) -> (r: (i32, i32))
    requires
        pair_wf(a),
        pair_wf(b),
        sum_fits(pair_fraction(a), pair_fraction(b)),
    ensures
        pair_wf(r),
        pair_fraction(r).same_value(pair_fraction(a).plus(pair_fraction(b))),
{
    let q = num_rational::Ratio::new_raw(a.0, a.1) + num_rational::Ratio::new_raw(b.0, b.1);
    (*q.numer(), *q.denom())
}

impl Rational {
    /// The invariant of every value: lowest terms, a positive denominator,
    /// both parts within the limit.
    #[verifier::type_invariant]
    pub open spec fn wf(self) -> bool {
        &&& self@.is_reduced()
        &&& self@.within(LIMIT as int)
    }

    /// The rational `numer / denom`, reduced.
    pub fn new(numer: i32, denom: i32) -> (r: Rational)
        requires
            denom != 0,
            in_limit(numer as int),
            in_limit(denom as int),
        ensures
            r@ == (Fraction { num: numer as int, den: denom as int }).reduced(),
            r.wf(),
    {
        let p = ratio_new(numer, denom);
        let r = Rational { numer: p.0, denom: p.1 };
        proof {
            lemma_reduced_is(Fraction { num: numer as int, den: denom as int }, r@);
        }
        r
    }

    /// The whole number `t`.
    pub fn from_integer(t: i32) -> (r: Rational)
        requires
            in_limit(t as int),
        ensures
            r@ == Fraction::whole(t as int),
            r.wf(),
    {
        proof {
            lemma_reduced_by_combination(Fraction::whole(t as int), 0, 1);
        }
        Rational { numer: t, denom: 1 }
    }

    /// Zero.
    pub fn zero() -> (r: Rational)
        ensures
            r@ == Fraction::whole(0),
            r.wf(),
    {
        Rational::from_integer(0)
    }

    /// One.
    pub fn one() -> (r: Rational)
        ensures
            r@ == Fraction::whole(1),
            r.wf(),
    {
        Rational::from_integer(1)
    }

    /// The numerator of the reduced form.
    pub fn numer(&self) -> (n: i32)
        ensures
            n == self@.num,
    {
        self.numer
    }

    /// The denominator of the reduced form.
    pub fn denom(&self) -> (d: i32)
        ensures
            d == self@.den,
            d > 0,
    {
        proof {
            use_type_invariant(self);
        }
        self.denom
    }

    /// The product, reduced. It is asked for only where it can be held.
    pub fn mul(self, rhs: Rational) -> (r: Rational)
        requires
            fits(self@.times(rhs@)),
        ensures
            r@ == self@.times(rhs@).reduced(),
            r.wf(),
    {
        proof {
            use_type_invariant(self);
            use_type_invariant(rhs);
        }
        let p = ratio_mul((self.numer, self.denom), (rhs.numer, rhs.denom));
        let r = Rational { numer: p.0, denom: p.1 };
        proof {
            lemma_reduced_is(self@.times(rhs@), r@);
        }
        r
    }

    /// The quotient, reduced. It is asked for only where the divisor is not
    /// zero and the quotient can be held.
    pub fn div(self, rhs: Rational) -> (r: Rational)
        requires
            fits(self@.over(rhs@)),
        ensures
            r@ == self@.over(rhs@).reduced(),
            r.wf(),
    {
        proof {
            use_type_invariant(self);
            use_type_invariant(rhs);
            assert(rhs@.num != 0) by (nonlinear_arith)
                requires
                    self@.over(rhs@).den != 0,
                    self@.over(rhs@).den == self@.den * rhs@.num,
            ;
        }
        let p = ratio_div((self.numer, self.denom), (rhs.numer, rhs.denom));
        let r = Rational { numer: p.0, denom: p.1 };
        proof {
            lemma_reduced_is(self@.over(rhs@), r@);
        }
        r
    }

    /// The sum, reduced. It is asked for only where it can be formed over
    /// the least common multiple of the two denominators; `checked_add`
    /// tests that.
    pub fn add(self, rhs: Rational) -> (r: Rational)
        requires
            sum_fits(self@, rhs@),
        ensures
            r@ == self@.plus(rhs@).reduced(),
            r.wf(),
    {
        proof {
            use_type_invariant(self);
            use_type_invariant(rhs);
        }
        let p = ratio_add((self.numer, self.denom), (rhs.numer, rhs.denom));
        let r = Rational { numer: p.0, denom: p.1 };
        proof {
            assert(self@.den * rhs@.den != 0) by (nonlinear_arith)
                requires
                    self@.den > 0,
                    rhs@.den > 0,
            ;
            lemma_reduced_is(self@.plus(rhs@), r@);
        }
        r
    }

    /// The sum, reduced, where it can be formed over the least common
    /// multiple of the two denominators; else nothing.
    pub fn checked_add(self, rhs: Rational) -> (r: Option<Rational>)
        ensures
            r is Some <==> sum_fits(self@, rhs@),
            r matches Some(sum) ==> sum@ == self@.plus(rhs@).reduced() && sum.wf(),
    {
        proof {
            use_type_invariant(self);
            use_type_invariant(rhs);
        }
        let share = Rational::new(self.denom, rhs.denom);
        proof {
            use_type_invariant(share);
            lemma_product_bound(self.denom as int, share.denom as int);
            lemma_product_bound(self.numer as int, share.denom as int);
            lemma_product_bound(rhs.numer as int, share.numer as int);
        }
        let multiple: i64 = (self.denom as i64) * (share.denom as i64);
        let left: i64 = (self.numer as i64) * (share.denom as i64);
        let right: i64 = (rhs.numer as i64) * (share.numer as i64);
        let limit: i64 = LIMIT as i64;
        if multiple <= limit && -limit <= left && left <= limit && -limit <= right && right
            <= limit && -limit <= left + right && left + right <= limit {
            Some(self.add(rhs))
        } else {
            None
        }
    }

    /// The value is a whole number.
    pub fn is_integer(&self) -> (b: bool)
        ensures
            b == self@.is_whole(),
            b == (self@.den == 1),
    {
        proof {
            use_type_invariant(self);
            lemma_whole_iff_unit_denominator(self@);
        }
        self.denom == 1
    }

    /// The value is zero.
    pub fn is_zero(&self) -> (b: bool)
        ensures
            b == self@.is_zero(),
    {
        self.numer == 0
    }

    /// The value is larger than `other`.
    pub fn gt(&self, other: &Rational) -> (b: bool)
        ensures
            b == self@.exceeds(other@),
    {
        proof {
            use_type_invariant(self);
            use_type_invariant(other);
            lemma_product_bound(self.numer as int, other.denom as int);
            lemma_product_bound(other.numer as int, self.denom as int);
        }
        let left: i64 = (self.numer as i64) * (other.denom as i64);
        let right: i64 = (other.numer as i64) * (self.denom as i64);
        left > right
    }

    /// The whole part, rounded towards zero.
    pub fn to_integer(&self) -> (t: i32)
        ensures
            t == self@.whole_part(),
            in_limit(t as int),
    {
        proof {
            use_type_invariant(self);
            lemma_whole_part_bound(self@);
        }
        self.numer / self.denom
    }

    /// The whole part, rounded towards zero, as a rational.
    pub fn trunc(&self) -> (r: Rational)
        ensures
            r@ == Fraction::whole(self@.whole_part()),
            r.wf(),
    {
        Rational::from_integer(self.to_integer())
    }

    /// What is left after the whole part is taken away; it has the sign of
    /// the value.
    pub fn fract(&self) -> (r: Rational)
        ensures
            r@ == self@.fract(),
            r.wf(),
    {
        proof {
            use_type_invariant(self);
            lemma_whole_part_bound(self@);
            lemma_fract_reduced(self@);
        }
        Rational { numer: self.numer % self.denom, denom: self.denom }
    }
}

/// A quantity with a written form within the limit can be held.
pub proof fn lemma_fits(f: Fraction)
    requires
        f.den != 0,
        f.within(LIMIT as int),
    ensures
        fits(f),
{
    lemma_reduced_within(f, LIMIT as int);
}

/// Two rationals that hold the same fraction are the same rational.
pub proof fn lemma_view_decides(a: Rational, b: Rational)
    ensures
        (a@ == b@) <==> (a == b),
{
}

/// A product of two 32-bit integers fits 64 bits.
proof fn lemma_product_bound(a: int, b: int)
    requires
        -0x8000_0000 <= a <= 0x7fff_ffff,
        -0x8000_0000 <= b <= 0x7fff_ffff,
    ensures
        -0x4000_0000_0000_0000 <= a * b <= 0x4000_0000_0000_0000,
{
    assert(-0x4000_0000_0000_0000 <= a * b <= 0x4000_0000_0000_0000) by (nonlinear_arith)
        requires
            -0x8000_0000 <= a <= 0x7fff_ffff,
            -0x8000_0000 <= b <= 0x7fff_ffff,
    ;
}

/// A reduced fraction is a whole number exactly when its denominator is one.
pub proof fn lemma_whole_iff_unit_denominator(f: Fraction)
    requires
        f.is_reduced(),
    ensures
        f.is_whole() <==> f.den == 1,
{
    if f.is_whole() && f.den > 1 {
        assert(f.den % f.den == 0) by (nonlinear_arith)
            requires
                f.den > 1,
        ;
        assert(f.num % f.den == 0);
    }
    if f.den == 1 {
        assert(f.num % 1 == 0);
    }
}

/// The whole part is no larger than the numerator, and the rest is smaller
/// than the denominator and has the numerator's sign.
pub proof fn lemma_whole_part_bound(f: Fraction)
    requires
        f.den > 0,
    ensures
        abs(f.whole_part()) <= abs(f.num),
        abs(f.fract().num) < f.den,
        f.num >= 0 ==> f.whole_part() >= 0 && f.fract().num >= 0 && f.fract().num == f.num % f.den,
        f.num <= 0 ==> f.whole_part() <= 0 && f.fract().num <= 0 && f.fract().num == -((-f.num)
            % f.den),
{
    let n = abs(f.num);
    lemma_fundamental_div_mod(n, f.den);
    lemma_div_pos_is_pos(n, f.den);
    lemma_mod_bound(n, f.den);
    assert(n / f.den <= n) by (nonlinear_arith)
        requires
            n == f.den * (n / f.den) + n % f.den,
            0 <= n % f.den,
            f.den >= 1,
            n / f.den >= 0,
    ;
    assert(f.den * (n / f.den) == (n / f.den) * f.den) by (nonlinear_arith);
    if f.num < 0 {
        assert((-(n / f.den)) * f.den == -((n / f.den) * f.den)) by (nonlinear_arith);
    }
}

/// Taking the whole part away from a reduced fraction leaves a reduced one.
proof fn lemma_fract_reduced(f: Fraction)
    requires
        f.is_reduced(),
    ensures
        f.fract().is_reduced(),
{
    let g = f.fract();
    let t = f.whole_part();
    assert forall|k: int| k > 1 implies !(#[trigger] (g.num % k) == 0 && g.den % k == 0) by {
        if g.num % k == 0 && g.den % k == 0 {
            lemma_fundamental_div_mod(g.num, k);
            lemma_fundamental_div_mod(g.den, k);
            let a = g.num / k;
            let b = g.den / k;
            assert(f.num == (a + t * b) * k) by (nonlinear_arith)
                requires
                    g.num == k * a,
                    f.den == k * b,
                    g.num == f.num - t * f.den,
            ;
            lemma_mod_multiples_basic(a + t * b, k);
            assert(f.num % k == 0);
        }
    }
}

} // verus!
