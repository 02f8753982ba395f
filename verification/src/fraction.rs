//! The mathematical model of an exact quantity: a fraction of two integers.

use vstd::arithmetic::div_mod::lemma_fundamental_div_mod;
use vstd::arithmetic::div_mod::lemma_mod_multiples_basic;
use vstd::prelude::*;

verus! {

/// A fraction `num / den` of two mathematical integers.
///
/// Two fractions may name the same quantity (`1/2` and `2/4`); `same_value`
/// compares quantities, `==` compares the written form.
pub struct Fraction {
    pub num: int,
    pub den: int,
}

impl Fraction {
    /// The fraction `n / 1`.
    pub open spec fn whole(n: int) -> Fraction {
        Fraction { num: n, den: 1 }
    }

    /// Both fractions name the same quantity.
    pub open spec fn same_value(self, other: Fraction) -> bool {
        self.num * other.den == other.num * self.den
    }

    /// The denominator is positive and shares no divisor above one with the
    /// numerator.
    pub open spec fn is_reduced(self) -> bool {
        &&& self.den > 0
        &&& forall|k: int| k > 1 ==> !(#[trigger] (self.num % k) == 0 && self.den % k == 0)
    }

    /// The product, written without reducing.
    pub open spec fn times(self, other: Fraction) -> Fraction {
        Fraction { num: self.num * other.num, den: self.den * other.den }
    }

    /// The quotient, written without reducing.
    pub open spec fn over(self, other: Fraction) -> Fraction {
        Fraction { num: self.num * other.den, den: self.den * other.num }
    }

    /// The sum, written without reducing.
    pub open spec fn plus(self, other: Fraction) -> Fraction {
        Fraction { num: self.num * other.den + other.num * self.den, den: self.den * other.den }
    }

    /// The quantity is a whole number.
    pub open spec fn is_whole(self) -> bool {
        self.den != 0 && self.num % self.den == 0
    }

    /// The reduced fraction that names the same quantity.
    pub open spec fn reduced(self) -> Fraction {
        choose|r: Fraction| r.is_reduced() && r.same_value(self)
    }

    /// The quantity rounded towards zero, for a positive denominator.
    pub open spec fn whole_part(self) -> int {
        if self.num >= 0 {
            self.num / self.den
        } else {
            -((-self.num) / self.den)
        }
    }

    /// What is left of the quantity after its whole part is taken away,
    /// over the same denominator.
    pub open spec fn fract(self) -> Fraction {
        Fraction { num: self.num - self.whole_part() * self.den, den: self.den }
    }

    /// The quantity is zero.
    pub open spec fn is_zero(self) -> bool {
        self.num == 0
    }

    /// The quantity is larger than the other one, for positive denominators.
    pub open spec fn exceeds(self, other: Fraction) -> bool {
        self.num * other.den > other.num * self.den
    }

    /// Numerator and denominator both lie within `-bound ..= bound`.
    pub open spec fn within(self, bound: int) -> bool {
        -bound <= self.num <= bound && -bound <= self.den <= bound
    }
}

/// Two fractions with positive denominators that name the same quantity are
/// both whole multiples of one fraction.
pub proof fn lemma_common_base(a: Fraction, b: Fraction) -> (r: (Fraction, int, int))
    requires
        a.den > 0,
        b.den > 0,
        a.same_value(b),
    ensures
        r.0.den > 0,
        r.1 >= 1,
        r.2 >= 1,
        a.num == r.1 * r.0.num,
        a.den == r.1 * r.0.den,
        b.num == r.2 * r.0.num,
        b.den == r.2 * r.0.den,
    decreases a.den + b.den,
{
    if a.den == b.den {
        assert(a.num == b.num) by (nonlinear_arith)
            requires
                a.num * b.den == b.num * a.den,
                a.den == b.den,
                a.den > 0,
        ;
        (a, 1, 1)
    } else if a.den > b.den {
        let c = Fraction { num: a.num - b.num, den: a.den - b.den };
        assert(c.same_value(b)) by (nonlinear_arith)
            requires
                a.num * b.den == b.num * a.den,
                c.num == a.num - b.num,
                c.den == a.den - b.den,
        ;
        let (base, kc, kb) = lemma_common_base(c, b);
        assert(a.num == (kc + kb) * base.num) by (nonlinear_arith)
            requires
                a.num - b.num == kc * base.num,
                b.num == kb * base.num,
        ;
        assert(a.den == (kc + kb) * base.den) by (nonlinear_arith)
            requires
                a.den - b.den == kc * base.den,
                b.den == kb * base.den,
        ;
        (base, kc + kb, kb)
    } else {
        let c = Fraction { num: b.num - a.num, den: b.den - a.den };
        assert(a.same_value(c)) by (nonlinear_arith)
            requires
                a.num * b.den == b.num * a.den,
                c.num == b.num - a.num,
                c.den == b.den - a.den,
        ;
        let (base, ka, kc) = lemma_common_base(a, c);
        assert(b.num == (kc + ka) * base.num) by (nonlinear_arith)
            requires
                b.num - a.num == kc * base.num,
                a.num == ka * base.num,
        ;
        assert(b.den == (kc + ka) * base.den) by (nonlinear_arith)
            requires
                b.den - a.den == kc * base.den,
                a.den == ka * base.den,
        ;
        (base, ka, kc + ka)
    }
}

/// A reduced fraction is the smallest written form of its quantity: every
/// other form with a positive denominator is a whole multiple of it.
pub proof fn lemma_reduced_divides(a: Fraction, b: Fraction) -> (k: int)
    requires
        a.is_reduced(),
        b.den > 0,
        a.same_value(b),
    ensures
        k >= 1,
        b.num == k * a.num,
        b.den == k * a.den,
{
    let (base, ka, kb) = lemma_common_base(a, b);
    if ka > 1 {
        lemma_mod_multiples_basic(base.num, ka);
        lemma_mod_multiples_basic(base.den, ka);
        assert(a.num == base.num * ka) by (nonlinear_arith)
            requires
                a.num == ka * base.num,
        ;
        assert(a.den == base.den * ka) by (nonlinear_arith)
            requires
                a.den == ka * base.den,
        ;
        assert(a.num % ka == 0);
        assert(false);
    }
    assert(a.num == base.num && a.den == base.den) by (nonlinear_arith)
        requires
            ka == 1,
            a.num == ka * base.num,
            a.den == ka * base.den,
    ;
    kb
}

/// A quantity has one reduced form only.
pub proof fn lemma_reduced_unique(a: Fraction, b: Fraction)
    requires
        a.is_reduced(),
        b.is_reduced(),
        a.same_value(b),
    ensures
        a == b,
{
    let k = lemma_reduced_divides(a, b);
    if k > 1 {
        lemma_mod_multiples_basic(a.num, k);
        lemma_mod_multiples_basic(a.den, k);
        assert(b.num == a.num * k) by (nonlinear_arith)
            requires
                b.num == k * a.num,
        ;
        assert(b.den == a.den * k) by (nonlinear_arith)
            requires
                b.den == k * a.den,
        ;
        assert(b.num % k == 0);
        assert(false);
    }
    assert(b.num == a.num && b.den == a.den) by (nonlinear_arith)
        requires
            k == 1,
            b.num == k * a.num,
            b.den == k * a.den,
    ;
}

/// The reduced form of a quantity is whichever reduced fraction names it.
pub proof fn lemma_reduced_is(f: Fraction, r: Fraction)
    requires
        r.is_reduced(),
        r.same_value(f),
        f.den != 0,
    ensures
        f.reduced() == r,
{
    let c = f.reduced();
    assert(c.is_reduced() && c.same_value(f));
    assert(c.same_value(r)) by (nonlinear_arith)
        requires
            c.num * f.den == f.num * c.den,
            r.num * f.den == f.num * r.den,
            f.den != 0,
    ;
    lemma_reduced_unique(c, r);
}


/// Every quantity with a non-zero denominator has a reduced form, and the
/// written form is a whole multiple of it (negative where the denominator is).
pub proof fn lemma_reduced_exists(f: Fraction) -> (k: int)
    requires
        f.den != 0,
    ensures
        f.reduced().is_reduced(),
        f.reduced().same_value(f),
        k != 0,
        f.num == k * f.reduced().num,
        f.den == k * f.reduced().den,
{
    let (r, k) = lemma_reduce(f);
    lemma_reduced_is(f, r);
    k
}

proof fn lemma_reduce(f: Fraction) -> (out: (Fraction, int))
    requires
        f.den != 0,
    ensures
        out.0.is_reduced(),
        out.0.same_value(f),
        out.1 != 0,
        f.num == out.1 * out.0.num,
        f.den == out.1 * out.0.den,
    decreases (if f.den < 0 { 1 - f.den } else { f.den }),
{
    if f.den < 0 {
        let g = Fraction { num: -f.num, den: -f.den };
        let (r, k) = lemma_reduce(g);
        assert(f.num == (-k) * r.num && f.den == (-k) * r.den && r.same_value(f))
            by (nonlinear_arith)
            requires
                -f.num == k * r.num,
                -f.den == k * r.den,
                r.num * (-f.den) == (-f.num) * r.den,
        ;
        (r, -k)
    } else if f.is_reduced() {
        assert(f.num == 1 * f.num && f.den == 1 * f.den);
        (f, 1)
    } else {
        let k = choose|k: int| k > 1 && #[trigger] (f.num % k) == 0 && f.den % k == 0;
        let g = Fraction { num: f.num / k, den: f.den / k };
        lemma_fundamental_div_mod(f.num, k);
        lemma_fundamental_div_mod(f.den, k);
        assert(0 < g.den < f.den) by (nonlinear_arith)
            requires
                f.den == k * g.den,
                k > 1,
                f.den > 0,
        ;
        let (r, j) = lemma_reduce(g);
        assert(f.num == (k * j) * r.num && f.den == (k * j) * r.den && k * j != 0) by (nonlinear_arith)
            requires
                f.num == k * g.num,
                f.den == k * g.den,
                g.num == j * r.num,
                g.den == j * r.den,
                k > 1,
                j != 0,
        ;
        assert(r.same_value(f)) by (nonlinear_arith)
            requires
                r.num * g.den == g.num * r.den,
                f.num == k * g.num,
                f.den == k * g.den,
        ;
        (r, k * j)
    }
}

/// The reduced form is no larger than any written form of the quantity.
pub proof fn lemma_reduced_within(f: Fraction, bound: int)
    requires
        f.den != 0,
        f.within(bound),
    ensures
        f.reduced().within(bound),
        f.reduced().den > 0,
{
    let k = lemma_reduced_exists(f);
    let r = f.reduced();
    assert(-bound <= r.num <= bound && -bound <= r.den <= bound) by (nonlinear_arith)
        requires
            f.num == k * r.num,
            f.den == k * r.den,
            k != 0,
            -bound <= f.num <= bound,
            -bound <= f.den <= bound,
    ;
}

/// Fractions that name the same quantity have the same reduced form.
pub proof fn lemma_reduced_same(f: Fraction, g: Fraction)
    requires
        f.den != 0,
        g.den != 0,
        f.same_value(g),
    ensures
        f.reduced() == g.reduced(),
{
    lemma_reduced_exists(f);
    lemma_reduced_exists(g);
    let a = f.reduced();
    let b = g.reduced();
    assert(a.same_value(b)) by (nonlinear_arith)
        requires
            a.num * f.den == f.num * a.den,
            b.num * g.den == g.num * b.den,
            f.num * g.den == g.num * f.den,
            f.den != 0,
            g.den != 0,
    ;
    lemma_reduced_unique(a, b);
}

/// A fraction is reduced when some whole combination of its two parts is one.
pub proof fn lemma_reduced_by_combination(f: Fraction, x: int, y: int)
    requires
        f.den > 0,
        x * f.num + y * f.den == 1,
    ensures
        f.is_reduced(),
        f.reduced() == f,
{
    assert forall|k: int| k > 1 implies !(#[trigger] (f.num % k) == 0 && f.den % k == 0) by {
        if f.num % k == 0 && f.den % k == 0 {
            lemma_fundamental_div_mod(f.num, k);
            lemma_fundamental_div_mod(f.den, k);
            let a = f.num / k;
            let b = f.den / k;
            assert(k * (x * a + y * b) == 1) by (nonlinear_arith)
                requires
                    f.num == k * a,
                    f.den == k * b,
                    x * f.num + y * f.den == 1,
            ;
            assert(false) by (nonlinear_arith)
                requires
                    k * (x * a + y * b) == 1,
                    k > 1,
            ;
        }
    }
    assert(f.same_value(f));
    lemma_reduced_is(f, f);
}

/// What divides a number divides its whole multiples.
proof fn lemma_divides_multiple(a: int, b: int, x: int, k: int)
    requires
        k > 1,
        b % k == 0,
        a == x * b,
    ensures
        a % k == 0,
{
    lemma_fundamental_div_mod(b, k);
    let q = b / k;
    assert(a == (x * q) * k) by (nonlinear_arith)
        requires
            a == x * b,
            b == k * q,
    ;
    lemma_mod_multiples_basic(x * q, k);
}

/// A reduced fraction divided by a whole number: where `low` is the reduced
/// form of the numerator over the divisor, the quotient in lowest terms has
/// the numerator of `low`, over the two denominators multiplied.
pub proof fn lemma_reduced_over_whole(base: Fraction, m: int)
    requires
        base.is_reduced(),
        m >= 1,
    ensures
        ({
            let low = (Fraction { num: base.num, den: m }).reduced();
            (Fraction { num: base.num, den: base.den * m }).reduced() == (Fraction {
                num: low.num,
                den: base.den * low.den,
            })
        }),
{
    let k = lemma_reduced_exists(Fraction { num: base.num, den: m });
    let low = (Fraction { num: base.num, den: m }).reduced();
    assert(k > 0) by (nonlinear_arith)
        requires
            m == k * low.den,
            m >= 1,
            low.den > 0,
    ;
    let whole = Fraction { num: base.num, den: base.den * m };
    let claim = Fraction { num: low.num, den: base.den * low.den };
    assert(claim.den > 0 && whole.den != 0 && claim.same_value(whole)) by (nonlinear_arith)
        requires
            claim.num == low.num,
            claim.den == base.den * low.den,
            whole.num == base.num,
            whole.den == base.den * m,
            base.num == k * low.num,
            m == k * low.den,
            base.den > 0,
            low.den > 0,
            k > 0,
    ;
    // the claim is in lowest terms: it is its own reduced form
    let c = lemma_reduced_exists(claim);
    let r = claim.reduced();
    assert(c > 0) by (nonlinear_arith)
        requires
            claim.den == c * r.den,
            claim.den > 0,
            r.den > 0,
    ;
    if c > 1 {
        // `c` shares no divisor with the denominator of `low`, as it divides
        // the numerator of `low`
        let turned = Fraction { num: low.den, den: c };
        assert forall|d: int| d > 1 implies !(#[trigger] (turned.num % d) == 0 && turned.den % d
            == 0) by {
            if turned.num % d == 0 && turned.den % d == 0 {
                assert(low.num == r.num * c) by (nonlinear_arith)
                    requires
                        low.num == c * r.num,
                ;
                lemma_divides_multiple(low.num, c, r.num, d);
                assert(low.num % d == 0);
            }
        }
        // so it divides the denominator of the base
        let other = Fraction { num: r.den, den: base.den };
        assert(turned.same_value(other)) by (nonlinear_arith)
            requires
                turned.num == low.den,
                turned.den == c,
                other.num == r.den,
                other.den == base.den,
                base.den * low.den == c * r.den,
        ;
        let j = lemma_reduced_divides(turned, other);
        assert(base.den == c * j) by (nonlinear_arith)
            requires
                base.den == j * c,
        ;
        lemma_mod_multiples_basic(j, c);
        assert(base.den == j * c);
        assert(base.den % c == 0);
        // and the numerator of the base
        lemma_mod_multiples_basic(r.num, c);
        assert(low.num == r.num * c) by (nonlinear_arith)
            requires
                low.num == c * r.num,
        ;
        assert(low.num % c == 0);
        lemma_divides_multiple(base.num, low.num, k, c);
        assert(base.num % c == 0);
        assert(false);
    }
    assert(claim.num == r.num && claim.den == r.den) by (nonlinear_arith)
        requires
            c == 1,
            claim.num == c * r.num,
            claim.den == c * r.den,
    ;
    lemma_reduced_is(whole, claim);
}

} // verus!
