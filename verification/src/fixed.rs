//! Ratios of balances, as fixed-point numbers with eighteen decimal places.

use sp_arithmetic::traits::One;
use sp_arithmetic::traits::Saturating;
use sp_arithmetic::FixedPointNumber;
use sp_arithmetic::FixedU128;
use vstd::prelude::*;

verus! {

/// The number of parts that make up one.
pub const ACCURACY: u128 = 1_000_000_000_000_000_000;

/// `x`, held down to the largest `u128`.
pub open spec fn clip(x: int) -> u128
    recommends
        0 <= x,
{
    if x > u128::MAX {
        u128::MAX
    } else {
        x as u128
    }
}

/// The ratio `n / d` in parts, rounded down and held down to what fits.
pub open spec fn ratio_of(n: u128, d: u128) -> u128
    recommends
        d != 0,
{
    clip((n * ACCURACY) / (d as int))
}

/// `n` times the ratio of `parts` parts, rounded down and held down to what fits.
pub open spec fn scaled(parts: u128, n: u128) -> u128 {
    clip((parts * n) / (ACCURACY as int))
}

/// What is left of one after taking away `parts` parts, and nothing if they make up more than one.
pub open spec fn complement(parts: u128) -> u128 {
    ACCURACY.saturating_sub(parts)
}

/// A non-negative ratio, counted in parts.
#[derive(Clone, Copy, PartialEq, Eq, Debug)]
pub struct Ratio {
    pub parts: u128,
}

/// `FixedU128::saturating_from_rational` on two `u128`: the quotient in parts, rounded down, or the
/// largest number of parts where it does not fit. That function panics on a zero divisor.
#[verifier::external_body]
fn fixed_from_rational(n: u128, d: u128) -> (parts: u128)
    requires
        d != 0,
    ensures
        parts == ratio_of(n, d),
{
    FixedU128::saturating_from_rational(n, d).into_inner()
}

/// `FixedU128::saturating_mul_int` on a `u128`: the product rounded down, or the largest `u128`
/// where it does not fit.
#[verifier::external_body]
fn fixed_mul_int(parts: u128, n: u128) -> (product: u128)
    ensures
        product == scaled(parts, n),
{
    FixedU128::from_inner(parts).saturating_mul_int(n)
}

/// `FixedU128::one`: as many parts as make up one.
#[verifier::external_body]
fn fixed_one() -> (parts: u128)
    ensures
        parts == ACCURACY,
{
    FixedU128::one().into_inner()
}

/// `FixedU128::saturating_sub`: the difference of the parts, or none where it would be negative.
#[verifier::external_body]
fn fixed_saturating_sub(a: u128, b: u128) -> (parts: u128)
    ensures
        parts == a.saturating_sub(b),
{
    FixedU128::from_inner(a).saturating_sub(FixedU128::from_inner(b)).into_inner()
}

impl Ratio {
    /// The ratio `n / d`.
    pub fn from_rational(n: u128, d: u128) -> (r: Ratio)
        requires
            d != 0,
        ensures
            r.parts == ratio_of(n, d),
            r.parts * d <= n * 1_000_000_000_000_000_000,
            r.parts == u128::MAX || n * 1_000_000_000_000_000_000 < (r.parts + 1) * d,
    {
        proof {
            law_ratio_is_the_quotient(n, d);
        }
        Ratio { parts: fixed_from_rational(n, d) }
    }

    /// `n` times this ratio.
    pub fn mul_int(self, n: u128) -> (product: u128)
        ensures
            product == scaled(self.parts, n),
            product * 1_000_000_000_000_000_000 <= self.parts * n,
            product == u128::MAX || self.parts * n < (product + 1) * 1_000_000_000_000_000_000,
    {
        proof {
            law_scaled_is_the_product(self.parts, n);
        }
        fixed_mul_int(self.parts, n)
    }

    /// One minus this ratio, or zero if this ratio is more than one.
    pub fn complement(self) -> (r: Ratio)
        ensures
            r.parts == complement(self.parts),
            self.parts <= 1_000_000_000_000_000_000 ==> self.parts + r.parts
                == 1_000_000_000_000_000_000,
            self.parts > 1_000_000_000_000_000_000 ==> r.parts == 0,
    {
        Ratio { parts: fixed_saturating_sub(fixed_one(), self.parts) }
    }
}

/// The product of `a` and `b`, or the largest `u128` where it does not fit.
pub fn saturating_mul(a: u128, b: u128) -> (r: u128)
    ensures
        r == clip(a * b),
        a * b <= u128::MAX ==> r == a * b,
        a * b > u128::MAX ==> r == u128::MAX,
{
    match a.checked_mul(b) {
        Some(product) => product,
        None => u128::MAX,
    }
}

/// Numbers that fit are left as they are, and larger ones become the largest that fits.
pub proof fn law_clip_keeps_what_fits(x: int)
    requires
        0 <= x,
    ensures
        x <= u128::MAX ==> clip(x) == x,
        x > u128::MAX ==> clip(x) == u128::MAX,
{
}

/// A ratio is the quotient with eighteen decimal places, rounded down, unless that does not fit.
pub proof fn law_ratio_is_the_quotient(n: u128, d: u128)
    requires
        d != 0,
    ensures
        ratio_of(n, d) * d <= n * 1_000_000_000_000_000_000,
        ratio_of(n, d) == u128::MAX || n * 1_000_000_000_000_000_000 < (ratio_of(n, d) + 1) * d,
{
    let (x, m) = (n * ACCURACY, d as int);
    let q = x / m;
    let p = ratio_of(n, d) as int;
    assert(0 <= x) by (nonlinear_arith)
        requires
            x == n * ACCURACY,
    ;
    assert(0 <= q && q * m <= x && x < (q + 1) * m) by (nonlinear_arith)
        requires
            q == x / m,
            0 <= x,
            0 < m,
    ;
    assert(p * m <= q * m) by (nonlinear_arith)
        requires
            p <= q,
            0 < m,
    ;
}

/// There is only one number that is the quotient with eighteen decimal places, rounded down.
pub proof fn lemma_ratio_is_unique(n: u128, d: u128, p: u128)
    requires
        d != 0,
        p * d <= n * ACCURACY,
        p == u128::MAX || n * ACCURACY < (p + 1) * d,
    ensures
        p == ratio_of(n, d),
{
    let (x, m, k) = (n * ACCURACY, d as int, p as int);
    let q = x / m;
    assert(k <= q) by (nonlinear_arith)
        requires
            q == x / m,
            k * m <= x,
            0 < m,
    ;
    if p < u128::MAX {
        assert(q <= k) by (nonlinear_arith)
            requires
                q == x / m,
                x < (k + 1) * m,
                0 < m,
        ;
    }
}

/// Scaling multiplies by a number with eighteen decimal places and rounds down, unless the product
/// does not fit.
pub proof fn law_scaled_is_the_product(parts: u128, n: u128)
    ensures
        scaled(parts, n) * 1_000_000_000_000_000_000 <= parts * n,
        scaled(parts, n) == u128::MAX || parts * n < (scaled(parts, n) + 1)
            * 1_000_000_000_000_000_000,
{
    let x = parts * n;
    assert(0 <= x) by (nonlinear_arith)
        requires
            x == parts * n,
    ;
}

/// What is left of one and what was taken away make up one, unless more than that was taken away.
pub proof fn law_complement_makes_up_one(parts: u128)
    ensures
        parts <= 1_000_000_000_000_000_000 ==> parts + complement(parts)
            == 1_000_000_000_000_000_000,
        parts > 1_000_000_000_000_000_000 ==> complement(parts) == 0,
{
}

/// Scaling `m` by the ratio `n / d` never gives more than `n * m / d`.
pub proof fn lemma_scaled_le(n: u128, d: u128, m: u128)
    requires
        d != 0,
    ensures
        scaled(ratio_of(n, d), m) * d <= n * m,
{
    let acc = ACCURACY as int;
    let (nn, dd, mm) = (n as int, d as int, m as int);
    let q = (nn * acc) / dd;
    let p = ratio_of(n, d) as int;
    let r = (p * mm) / acc;
    assert(0 <= nn * acc) by (nonlinear_arith)
        requires
            0 <= nn,
            0 <= acc,
    ;
    assert(q * dd <= nn * acc && 0 <= q) by (nonlinear_arith)
        requires
            q == (nn * acc) / dd,
            dd > 0,
            0 <= nn * acc,
    ;
    assert(p <= q);
    assert(0 <= p * mm) by (nonlinear_arith)
        requires
            0 <= p,
            0 <= mm,
    ;
    assert(r * acc <= p * mm && 0 <= r) by (nonlinear_arith)
        requires
            r == (p * mm) / acc,
            acc > 0,
            0 <= p * mm,
    ;
    assert(r * dd <= nn * mm) by {
        assert(r * acc * dd <= p * mm * dd) by (nonlinear_arith)
            requires
                r * acc <= p * mm,
                dd > 0,
        ;
        assert(p * mm * dd <= q * dd * mm) by (nonlinear_arith)
            requires
                p <= q,
                0 <= mm,
                dd > 0,
        ;
        assert(q * dd * mm <= nn * acc * mm) by (nonlinear_arith)
            requires
                q * dd <= nn * acc,
                0 <= mm,
        ;
        assert(r * dd <= nn * mm) by (nonlinear_arith)
            requires
                r * acc * dd <= nn * acc * mm,
                acc > 0,
        ;
    }
    let s = scaled(ratio_of(n, d), m) as int;
    assert(s <= r);
    assert(s * dd <= nn * mm) by (nonlinear_arith)
        requires
            s <= r,
            r * dd <= nn * mm,
            dd > 0,
    ;
}

/// Scaling `m` by the ratio `n / d`, where both fit, falls short of `n * m / d` by no more than two
/// roundings, that of the ratio and that of the product.
pub proof fn lemma_scaled_ge(n: u128, d: u128, m: u128)
    requires
        d != 0,
        n * ACCURACY < (u128::MAX + 1) * d,
        scaled(ratio_of(n, d), m) < u128::MAX,
    ensures
        n * m * ACCURACY < (scaled(ratio_of(n, d), m) + 1) * d * ACCURACY + m * d,
{
    law_ratio_is_the_quotient(n, d);
    law_scaled_is_the_product(ratio_of(n, d), m);
    let acc = ACCURACY as int;
    let p = ratio_of(n, d) as int;
    let w = scaled(ratio_of(n, d), m) as int;
    let (nn, dd, mm) = (n as int, d as int, m as int);
    assert(nn * acc < (p + 1) * dd) by {
        if p == u128::MAX {
            assert((p + 1) * dd == (u128::MAX + 1) * dd);
        }
    }
    assert(nn * mm * acc <= (p + 1) * dd * mm) by (nonlinear_arith)
        requires
            nn * acc < (p + 1) * dd,
            0 <= mm,
    ;
    assert((p + 1) * dd * mm == p * mm * dd + mm * dd) by (nonlinear_arith);
    assert(p * mm * dd < (w + 1) * acc * dd) by (nonlinear_arith)
        requires
            p * mm < (w + 1) * acc,
            0 < dd,
    ;
    assert((w + 1) * acc * dd == (w + 1) * dd * acc) by (nonlinear_arith);
}

/// A larger quotient has no smaller ratio.
pub proof fn lemma_ratio_monotone(n1: u128, d1: u128, n2: u128, d2: u128)
    requires
        d1 != 0,
        d2 != 0,
        n1 * d2 <= n2 * d1,
    ensures
        ratio_of(n1, d1) <= ratio_of(n2, d2),
{
    let acc = ACCURACY as int;
    let (a, b, c, d) = (n1 as int, d1 as int, n2 as int, d2 as int);
    let q1 = (a * acc) / b;
    let q2 = (c * acc) / d;
    assert(q1 * b <= a * acc) by (nonlinear_arith)
        requires
            q1 == (a * acc) / b,
            b > 0,
    ;
    assert(q1 * b * d <= a * acc * d) by (nonlinear_arith)
        requires
            q1 * b <= a * acc,
            d > 0,
    ;
    assert(a * acc * d <= c * acc * b) by (nonlinear_arith)
        requires
            a * d <= c * b,
            acc > 0,
    ;
    assert(q1 * d <= c * acc) by (nonlinear_arith)
        requires
            q1 * b * d <= c * acc * b,
            b > 0,
    ;
    assert(q1 <= q2) by (nonlinear_arith)
        requires
            q1 * d <= c * acc,
            q2 == (c * acc) / d,
            d > 0,
    ;
}

/// Scaling by a larger ratio, or scaling more, gives no less.
pub proof fn lemma_scaled_monotone(p1: u128, m1: u128, p2: u128, m2: u128)
    requires
        p1 <= p2,
        m1 <= m2,
    ensures
        scaled(p1, m1) <= scaled(p2, m2),
{
    let acc = ACCURACY as int;
    let x = p1 * m1;
    let y = p2 * m2;
    assert(0 <= x <= y) by (nonlinear_arith)
        requires
            x == p1 * m1,
            y == p2 * m2,
            p1 <= p2,
            m1 <= m2,
    ;
    assert(x / acc <= y / acc) by (nonlinear_arith)
        requires
            x <= y,
            acc > 0,
    ;
}

/// A ratio of at most one, applied to `m`, gives at most `m`; a ratio of one gives `m` itself.
pub proof fn lemma_scaled_by_at_most_one(parts: u128, m: u128)
    requires
        parts <= ACCURACY,
    ensures
        scaled(parts, m) <= m,
        parts == ACCURACY ==> scaled(parts, m) == m,
        parts == 0 ==> scaled(parts, m) == 0,
{
    let acc = ACCURACY as int;
    lemma_scaled_monotone(parts, m, ACCURACY, m);
    let x = ACCURACY * m;
    assert(x / acc == m) by (nonlinear_arith)
        requires
            x == acc * m,
            acc > 0,
    ;
    assert(scaled(ACCURACY, m) == m);
    assert(0 * m == 0) by (nonlinear_arith);
}

/// The ratio of a number to itself is one.
pub proof fn lemma_ratio_of_equals(n: u128)
    requires
        n != 0,
    ensures
        ratio_of(n, n) == ACCURACY,
{
    let acc = ACCURACY as int;
    let nn = n as int;
    assert((nn * acc) / nn == acc) by (nonlinear_arith)
        requires
            nn > 0,
    ;
}

} // verus!
