//! The approximate error function keeps to its range, whatever the rounding.
//!
//! Numbers are counted in grains of `2^-54`, of which there are `2^54` to one; an operation on
//! numbers of this size is off by nine grains at most.
use vstd::arithmetic::power2::*;
use vstd::prelude::*;

use crate::binary64::F64;
use crate::prediction::deadline::{ERF_A1, ERF_A2, ERF_A3, ERF_A4, ERF_A5, ERF_P, HALF, SQRT_2};

verus! {

/// The coefficients in grains.
proof fn lemma_coefficients()
    ensures
        ({
            let g = crate::binary64::error::grain() as int;
            &&& (F64 { bits: ERF_A1 }).units() == 0x0010_4F20_C6EC_5A7E * g
            &&& (F64 { bits: ERF_A2 }).units() == 0x0012_3531_CC3C_1469 * g
            &&& (F64 { bits: ERF_A3 }).units() == 0x005A_F871_56EB_855C * g
            &&& (F64 { bits: ERF_A4 }).units() == 0x005D_0071_5C05_30E4 * g
            &&& (F64 { bits: ERF_A5 }).units() == 0x0043_EE11_0956_84B4 * g
        }),
{
    crate::binary64::root::lemma_units_of_binade(1020, 0x0010_4F20_C6EC_5A7E);
    crate::binary64::root::lemma_units_of_binade(1020, 0x0012_3531_CC3C_1469);
    crate::binary64::root::lemma_units_of_binade(1022, 0x0016_BE1C_55BA_E157);
    crate::binary64::root::lemma_units_of_binade(1022, 0x0017_401C_5701_4C39);
    crate::binary64::root::lemma_units_of_binade(1022, 0x0010_FB84_4255_A12D);
    lemma_pow2_adds(2, 1020);
    lemma2_to64();
}

/// `m` is the product of `a` and `b` but for nine grains; one is `u`.
spec fn is_product(m: int, a: int, b: int, g: int, u: int) -> bool {
    m * u - a * b <= 9 * g * u && a * b - m * u <= 9 * g * u
}

proof fn lemma_product(a: F64, b: F64)
    requires
        a.is_finite(),
        b.is_finite(),
        -2 * crate::binary64::arith::unit() <= a.units() <= 2 * crate::binary64::arith::unit(),
        0 <= b.units() <= crate::binary64::arith::unit(),
    ensures
        a.times(b).is_finite(),
        is_product(
            a.times(b).units(),
            a.units(),
            b.units(),
            crate::binary64::error::grain() as int,
            crate::binary64::arith::unit() as int,
        ),
{
    let (x, y) = (
        crate::binary64::arith::size(a.units()),
        crate::binary64::arith::size(b.units()),
    );
    let u = crate::binary64::arith::unit();
    assert(x * y <= 4 * u * u) by (nonlinear_arith)
        requires
            x <= 2 * u,
            y <= u,
    ;
    crate::binary64::error::product_error(a, b);
}

/// The first product: between `x` and the coefficient, which is above one.
proof fn lemma_first(m: int, x: int, g: int, u: int)
    requires
        g >= 1,
        u == 0x40_0000_0000_0000 * g,
        0 <= x <= u,
        is_product(m, 0x0043_EE11_0956_84B4 * g, x, g, u),
    ensures
        x - 9 * g <= m <= 0x0043_EE11_0956_84B4 * g + 9 * g,
{
    let a = 0x0043_EE11_0956_84B4 * g;
    assert(x - 9 * g <= m <= a + 9 * g) by (nonlinear_arith)
        requires
            m * u - a * x <= 9 * g * u,
            a * x - m * u <= 9 * g * u,
            0 <= x <= u,
            u <= a,
            u > 0,
    ;
}

/// The second term, which the third coefficient is added to.
proof fn lemma_second(p5: int, m: int, p4: int, x: int, g: int, u: int)
    requires
        g >= 1,
        u == 0x40_0000_0000_0000 * g,
        0 <= x <= u,
        x - 0x005D_0071_5C05_30F6 * g <= p5 <= -(0x0019_1260_52AE_AC1E * g),
        is_product(m, p5, x, g, u),
        m + 0x005A_F871_56EB_8553 * g <= p4 <= m + 0x005A_F871_56EB_8565 * g,
    ensures
        p4 * u <= 0x005A_F871_56EB_856E * g * u - 0x0019_1260_52AE_AC1E * g * x,
        0x0038_0000_0000_0000 * g <= p4 <= 0x005A_F871_56EB_856E * g,
{
    let c = 0x0019_1260_52AE_AC1E * g;
    let a3 = 0x005A_F871_56EB_855C * g;
    let b = 0x005D_0071_5C05_30F6 * g;
    let k = 0x0038_0000_0000_0000 * g;
    assert(p5 * x <= -c * x && p5 * x >= (x - b) * x) by (nonlinear_arith)
        requires
            x - b <= p5 <= -c,
            x >= 0,
    ;
    assert(-c * x == -(c * x)) by (nonlinear_arith);
    assert(m <= 9 * g) by (nonlinear_arith)
        requires
            m * u <= 9 * g * u - c * x,
            c >= 0,
            x >= 0,
            u > 0,
    ;
    assert(p4 * u <= (m + a3 + 9 * g) * u && p4 * u >= (m + a3 - 9 * g) * u) by (nonlinear_arith)
        requires
            m + a3 - 9 * g <= p4 <= m + a3 + 9 * g,
            u >= 0,
    ;
    assert((m + a3 + 9 * g) * u == m * u + a3 * u + 9 * g * u) by (nonlinear_arith);
    assert((m + a3 - 9 * g) * u == m * u + a3 * u - 9 * g * u) by (nonlinear_arith);
    assert(18 * g * u == 2 * (9 * g * u)) by (nonlinear_arith);
    let a = 0x005A_F871_56EB_856E * g;
    assert(a * u == a3 * u + 18 * g * u) by (nonlinear_arith)
        requires
            a == a3 + 18 * g,
    ;
    assert(4 * ((x - b) * x) + b * b >= 0) by (nonlinear_arith);
    assert(b * b <= 4 * ((a3 - 18 * g - k) * u)) by (nonlinear_arith)
        requires
            b == 0x005D_0071_5C05_30F6 * g,
            a3 == 0x005A_F871_56EB_855C * g,
            k == 0x0038_0000_0000_0000 * g,
            u == 0x40_0000_0000_0000 * g,
            g >= 1,
    ;
    assert((a3 - 18 * g - k) * u == a3 * u - 18 * g * u - k * u) by (nonlinear_arith);
    assert(p4 * u >= k * u);
    assert(p4 >= k) by (nonlinear_arith)
        requires
            p4 * u >= k * u,
            u > 0,
    ;
}

/// The third product.
proof fn lemma_third(p4: int, m: int, x: int, g: int, u: int)
    requires
        g >= 1,
        u == 0x40_0000_0000_0000 * g,
        0 <= x <= u,
        p4 * u <= 0x005A_F871_56EB_856E * g * u - 0x0019_1260_52AE_AC1E * g * x,
        0x0038_0000_0000_0000 * g <= p4,
        is_product(m, p4, x, g, u),
    ensures
        8 * m >= 7 * x - 72 * g,
        m <= 0x0041_E611_043C_D959 * g,
{
    let c = 0x0019_1260_52AE_AC1E * g;
    let a = 0x005A_F871_56EB_856E * g;
    let k = 0x0038_0000_0000_0000 * g;
    assert((u - x) * (a * u - c * (u + x)) >= 0) by (nonlinear_arith)
        requires
            0 <= x <= u,
            a >= 2 * c,
            c >= 0,
    ;
    assert((u - x) * (a * u - c * (u + x)) == (a - c) * u * u - (a * u - c * x) * x)
        by (nonlinear_arith);
    assert((p4 * x) * u <= (a * u - c * x) * x) by (nonlinear_arith)
        requires
            p4 * u <= a * u - c * x,
            x >= 0,
    ;
    assert(p4 * x <= (a - c) * u) by (nonlinear_arith)
        requires
            (p4 * x) * u <= ((a - c) * u) * u,
            u > 0,
    ;
    assert(m <= a - c + 9 * g) by (nonlinear_arith)
        requires
            m * u <= (a - c) * u + 9 * g * u,
            u > 0,
    ;
    assert(8 * (p4 * x) >= 7 * x * u) by (nonlinear_arith)
        requires
            k <= p4,
            8 * k == 7 * u,
            x >= 0,
    ;
    assert(8 * m >= 7 * x - 72 * g) by (nonlinear_arith)
        requires
            8 * (m * u) >= 7 * x * u - 8 * (9 * g * u),
            u > 0,
    ;
}

/// The last sum is from zero to one.
proof fn lemma_last(p3: int, m: int, p2: int, x: int, g: int, u: int)
    requires
        g >= 1,
        u == 0x40_0000_0000_0000 * g,
        0 <= x <= u,
        8 * p3 >= 7 * x - 8 * (0x0012_3531_CC3C_147B * g),
        p3 <= 0x002F_B0DF_3800_C4F9 * g,
        is_product(m, p3, x, g, u),
        m + 0x0010_4F20_C6EC_5A75 * g <= p2 <= m + 0x0010_4F20_C6EC_5A87 * g,
    ensures
        0 < p2 <= u,
{
    let d = 0x002F_B0DF_3800_C4F9 * g;
    let b = 0x0012_3531_CC3C_147B * g;
    let a1 = 0x0010_4F20_C6EC_5A7E * g;
    assert(p3 * x <= d * u) by (nonlinear_arith)
        requires
            p3 <= d,
            d >= 0,
            0 <= x <= u,
    ;
    assert(m <= d + 9 * g) by (nonlinear_arith)
        requires
            m * u <= d * u + 9 * g * u,
            u > 0,
    ;
    assert(8 * (p3 * x) >= 7 * (x * x) - 8 * (b * x)) by (nonlinear_arith)
        requires
            8 * p3 >= 7 * x - 8 * b,
            x >= 0,
    ;
    assert(7 * (x * x) - 8 * (b * x) >= -3 * (b * b)) by (nonlinear_arith)
        requires
            b >= 0,
    {
        assert((14 * x - 8 * b) * (14 * x - 8 * b) >= 0);
        assert((14 * x - 8 * b) * (14 * x - 8 * b) == 28 * (7 * (x * x) - 8 * (b * x)) + 64 * (b
            * b));
    }
    assert(3 * (b * b) <= 8 * ((a1 - 20 * g) * u)) by (nonlinear_arith)
        requires
            b == 0x0012_3531_CC3C_147B * g,
            a1 == 0x0010_4F20_C6EC_5A7E * g,
            u == 0x40_0000_0000_0000 * g,
            g >= 1,
    ;
    assert(m >= -(a1 - 11 * g)) by (nonlinear_arith)
        requires
            8 * (m * u) >= -(8 * ((a1 - 20 * g) * u)) - 8 * (9 * g * u),
            u > 0,
    ;
}

/// The polynomial is from zero to one on the numbers from zero to one.
pub proof fn erf_series_is_a_share(t: F64)
    requires
        crate::binary64::order::is_amount(t),
        t.at_most(F64::one()),
    ensures
        crate::prediction::deadline::erf_series(t).is_finite(),
        crate::binary64::order::is_amount(crate::prediction::deadline::erf_series(t)),
        crate::prediction::deadline::erf_series(t).at_most(F64::one()),
{
    let g = crate::binary64::error::grain() as int;
    let u = crate::binary64::arith::unit() as int;
    crate::binary64::error::lemma_grain();
    crate::binary64::order::lemma_one();
    crate::binary64::order_is_by_value(t, F64::one());
    lemma_coefficients();
    let x = t.units();
    let m5 = (F64 { bits: ERF_A5 }).times(t);
    lemma_product(F64 { bits: ERF_A5 }, t);
    lemma_first(m5.units(), x, g, u);
    let p5 = m5.minus(F64 { bits: ERF_A4 });
    crate::binary64::error::difference_error(m5, F64 { bits: ERF_A4 });
    let m4 = p5.times(t);
    lemma_product(p5, t);
    lemma_size(p5.units(), m4.units(), x, g, u);
    let p4 = m4.plus(F64 { bits: ERF_A3 });
    crate::binary64::error::sum_error(m4, F64 { bits: ERF_A3 });
    lemma_second(p5.units(), m4.units(), p4.units(), x, g, u);
    let m3 = p4.times(t);
    lemma_product(p4, t);
    lemma_third(p4.units(), m3.units(), x, g, u);
    let p3 = m3.minus(F64 { bits: ERF_A2 });
    crate::binary64::error::difference_error(m3, F64 { bits: ERF_A2 });
    let m2 = p3.times(t);
    lemma_product(p3, t);
    lemma_size(p3.units(), m2.units(), x, g, u);
    let p2 = m2.plus(F64 { bits: ERF_A1 });
    crate::binary64::error::sum_error(m2, F64 { bits: ERF_A1 });
    lemma_last(p3.units(), m2.units(), p2.units(), x, g, u);
    crate::binary64::order_is_by_value(p2, F64::one());
    crate::binary64::order_is_by_value(F64::zero(), p2);
}

/// A product with a number from zero to one stays within two.
proof fn lemma_size(a: int, m: int, x: int, g: int, u: int)
    requires
        g >= 1,
        u == 0x40_0000_0000_0000 * g,
        0 <= x <= u,
        -2 * u <= a <= 2 * u,
        is_product(m, a, x, g, u),
    ensures
        -2 * u - 9 * g <= m <= 2 * u + 9 * g,
{
    assert(-2 * u - 9 * g <= m <= 2 * u + 9 * g) by (nonlinear_arith)
        requires
            m * u - a * x <= 9 * g * u,
            a * x - m * u <= 9 * g * u,
            0 <= x <= u,
            -2 * u <= a <= 2 * u,
            u > 0,
    ;
}

/// The polynomial is taken between zero and one.
proof fn lemma_argument(x: F64)
    requires
        !x.is_nan(),
    ensures
        crate::binary64::order::is_amount(crate::prediction::deadline::erf_argument(x)),
        crate::prediction::deadline::erf_argument(x).at_most(F64::one()),
{
    let one = F64::one();
    let p = F64 { bits: ERF_P };
    let far = p.times(x.abs());
    if x.is_finite() {
        crate::binary64::order::times_commute(p, x.abs());
        crate::binary64::order::times_keeps_order(x.abs(), x.abs(), p);
    } else {
        reveal(F64::spec_times);
    }
    crate::binary64::order::amounts_add_up(one, far);
    let below = one.plus(far);
    if below.is_finite() {
        crate::binary64::order::over_more_is_less(one, one, below);
        crate::binary64::order::one_changes_no_quotient(one);
    } else {
        reveal(F64::spec_over);
    }
}

/// What is taken off one is a share.
proof fn lemma_taken_off(t: F64, decay: F64)
    requires
        crate::binary64::order::is_amount(t),
        t.at_most(F64::one()),
        F64::zero().at_most(decay),
        decay.at_most(F64::one()),
    ensures
        ({
            let w = crate::prediction::deadline::erf_series(t).times(t).times(decay);
            w.is_finite() && F64::zero().at_most(w) && w.at_most(F64::one())
        }),
{
    let one = F64::one();
    let p = crate::prediction::deadline::erf_series(t);
    erf_series_is_a_share(t);
    crate::binary64::order::times_keeps_order(p, one, t);
    crate::binary64::order::one_is_neutral(t);
    let q = p.times(t);
    if decay.magnitude() == 0 {
        crate::binary64::order::zero_of_anything_is_zero(q, decay);
    } else {
        crate::binary64::order::times_keeps_order(q, one, decay);
        crate::binary64::order::one_is_neutral(decay);
    }
}

/// The approximate error function is from minus one to one, if the exponential that it takes is
/// from zero to one.
pub proof fn erf_is_bounded(x: F64, decay: F64)
    requires
        !x.is_nan(),
        F64::zero().at_most(decay),
        decay.at_most(F64::one()),
    ensures
        F64::one().negated().at_most(crate::prediction::deadline::erf_value(x, decay)),
        crate::prediction::deadline::erf_value(x, decay).at_most(F64::one()),
{
    let one = F64::one();
    let t = crate::prediction::deadline::erf_argument(x);
    lemma_argument(x);
    lemma_taken_off(t, decay);
    let w = crate::prediction::deadline::erf_series(t).times(t).times(decay);
    let y = one.minus(w);
    crate::binary64::order::difference_is_not_negative(one, w);
    crate::binary64::order::minus_more_is_less(one, F64::zero(), w);
    reveal(F64::spec_minus);
    crate::binary64::order::zero_adds_nothing(one, F64::zero().negated());
    crate::binary64::order::one_is_neutral(y);
    crate::binary64::order::minus_one_negates(y);
}

/// The approximate normal distribution is from zero to one, if the exponential that it takes is.
pub proof fn normal_is_a_share(z: F64, decay: F64)
    requires
        !z.is_nan(),
        F64::zero().at_most(decay),
        decay.at_most(F64::one()),
    ensures
        F64::zero().at_most(crate::prediction::deadline::normal_below(z, decay)),
        crate::prediction::deadline::normal_below(z, decay).at_most(F64::one()),
        crate::binary64::order::is_amount(crate::prediction::deadline::normal_below(z, decay)),
{
    let one = F64::one();
    let half = F64 { bits: HALF };
    let x = crate::prediction::deadline::erf_point(z);
    assert(!x.is_nan()) by {
        reveal(F64::spec_over);
    }
    erf_is_bounded(x, decay);
    let e = crate::prediction::deadline::erf_value(x, decay);
    crate::binary64::order::plus_keeps_order(e, one, one);
    crate::binary64::order::plus_keeps_order(one.negated(), e, one);
    let s = one.plus(e);
    assert(crate::binary64::order::is_amount(s) && F64::zero().at_most(s)) by {
        reveal(F64::spec_plus);
        crate::binary64::order_is_by_value(one.negated(), e);
    }
    crate::binary64::order::halves_make_one();
    assert(crate::binary64::order::is_amount(one.plus(one)) && one.plus(one).is_finite());
    crate::binary64::order::times_keeps_order(s, one.plus(one), half);
    crate::binary64::order::times_commute(s, half);
    crate::binary64::order::times_commute(one.plus(one), half);
}

/// A product of two numbers whose bounds are known, in grains.
proof fn lemma_product_between(
    m: int,
    a: int,
    b: int,
    g: int,
    u: int,
    al: int,
    ah: int,
    bl: int,
    bh: int,
    ml: int,
    mh: int,
)
    requires
        g >= 1,
        u == 0x40_0000_0000_0000 * g,
        is_product(m, a, b, g, u),
        0 <= al,
        0 <= bl,
        al * g <= a <= ah * g,
        bl * g <= b <= bh * g,
        ml * 0x40_0000_0000_0000 <= al * bl - 9 * 0x40_0000_0000_0000,
        ah * bh + 9 * 0x40_0000_0000_0000 <= mh * 0x40_0000_0000_0000,
    ensures
        ml * g <= m <= mh * g,
{
    assert(al * g >= 0 && bl * g >= 0) by (nonlinear_arith)
        requires
            al >= 0,
            bl >= 0,
            g >= 1,
    ;
    assert((al * g) * (bl * g) <= a * b <= (ah * g) * (bh * g)) by (nonlinear_arith)
        requires
            0 <= al * g <= a <= ah * g,
            0 <= bl * g <= b <= bh * g,
    ;
    assert(m * u >= ml * g * u) by (nonlinear_arith)
        requires
            a * b - m * u <= 9 * g * u,
            (al * g) * (bl * g) <= a * b,
            ml * 0x40_0000_0000_0000 <= al * bl - 9 * 0x40_0000_0000_0000,
            u == 0x40_0000_0000_0000 * g,
            g >= 1,
    {
        assert(ml * g * u == (ml * 0x40_0000_0000_0000) * (g * g));
        assert((ml * 0x40_0000_0000_0000) * (g * g) <= (al * bl - 9 * 0x40_0000_0000_0000) * (g
            * g));
        assert((al * bl - 9 * 0x40_0000_0000_0000) * (g * g) == (al * g) * (bl * g) - 9 * g * u);
    }
    assert(m * u <= mh * g * u) by (nonlinear_arith)
        requires
            m * u - a * b <= 9 * g * u,
            a * b <= (ah * g) * (bh * g),
            ah * bh + 9 * 0x40_0000_0000_0000 <= mh * 0x40_0000_0000_0000,
            u == 0x40_0000_0000_0000 * g,
            g >= 1,
    {
        assert(mh * g * u == (mh * 0x40_0000_0000_0000) * (g * g));
        assert((ah * bh + 9 * 0x40_0000_0000_0000) * (g * g) <= (mh * 0x40_0000_0000_0000) * (g
            * g));
        assert((ah * bh + 9 * 0x40_0000_0000_0000) * (g * g) == (ah * g) * (bh * g) + 9 * g * u);
    }
    assert(ml * g <= m <= mh * g) by (nonlinear_arith)
        requires
            m * u >= ml * g * u,
            m * u <= mh * g * u,
            u > 0,
    ;
}

/// The bounds of the product of two numbers, in grains.
proof fn lemma_times_between(a: F64, b: F64, al: int, ah: int, bl: int, bh: int, ml: int, mh: int)
    requires
        a.is_finite(),
        b.is_finite(),
        ({
            let g = crate::binary64::error::grain() as int;
            &&& al * g <= a.units() <= ah * g
            &&& bl * g <= b.units() <= bh * g
        }),
        0 <= al,
        ah <= 2 * 0x40_0000_0000_0000,
        0 <= bl,
        bh <= 0x40_0000_0000_0000,
        ml * 0x40_0000_0000_0000 <= al * bl - 9 * 0x40_0000_0000_0000,
        ah * bh + 9 * 0x40_0000_0000_0000 <= mh * 0x40_0000_0000_0000,
    ensures
        a.times(b).is_finite(),
        ({
            let g = crate::binary64::error::grain() as int;
            ml * g <= a.times(b).units() <= mh * g
        }),
{
    let g = crate::binary64::error::grain() as int;
    let u = crate::binary64::arith::unit() as int;
    crate::binary64::error::lemma_grain();
    assert(0 <= al * g && ah * g <= 2 * u && 0 <= bl * g && bh * g <= u) by (nonlinear_arith)
        requires
            g >= 1,
            u == 0x40_0000_0000_0000 * g,
            0 <= al,
            ah <= 2 * 0x40_0000_0000_0000,
            0 <= bl,
            bh <= 0x40_0000_0000_0000,
    ;
    lemma_product(a, b);
    lemma_product_between(
        a.times(b).units(),
        a.units(),
        b.units(),
        g,
        u,
        al,
        ah,
        bl,
        bh,
        ml,
        mh,
    );
}

/// The bounds of the quotient of two numbers, in grains.
proof fn lemma_over_between(a: F64, b: F64, al: int, ah: int, bl: int, bh: int, rl: int, rh: int)
    requires
        a.is_finite(),
        b.is_finite(),
        ({
            let g = crate::binary64::error::grain() as int;
            &&& al * g <= a.units() <= ah * g
            &&& bl * g <= b.units() <= bh * g
        }),
        0 <= al <= ah,
        0 < bl,
        ah <= 4 * bl,
        (rl + 9) * bh <= al * 0x40_0000_0000_0000,
        -9 <= rl,
        ah * 0x40_0000_0000_0000 <= (rh - 9) * bl,
    ensures
        a.over(b).is_finite(),
        ({
            let g = crate::binary64::error::grain() as int;
            rl * g <= a.over(b).units() <= rh * g
        }),
{
    let g = crate::binary64::error::grain() as int;
    let u = crate::binary64::arith::unit() as int;
    crate::binary64::error::lemma_grain();
    let (x, y) = (a.units(), b.units());
    assert(0 <= al * g && 0 < bl * g && ah * g <= 4 * (bl * g)) by (nonlinear_arith)
        requires
            g >= 1,
            0 <= al,
            0 < bl,
            ah <= 4 * bl,
    ;
    crate::binary64::error::quotient_error(a, b);
    let r = a.over(b).units();
    assert(rl * g * y <= r * y) by (nonlinear_arith)
        requires
            x * u - r * y <= 9 * g * y,
            al * g <= x,
            0 < y <= bh * g,
            (rl + 9) * bh <= al * 0x40_0000_0000_0000,
            -9 <= rl,
            u == 0x40_0000_0000_0000 * g,
            g >= 1,
    {
        assert((rl + 9) * g * y <= (rl + 9) * g * (bh * g));
        assert((rl + 9) * g * (bh * g) == ((rl + 9) * bh) * (g * g));
        assert(((rl + 9) * bh) * (g * g) <= (al * 0x40_0000_0000_0000) * (g * g));
        assert((al * 0x40_0000_0000_0000) * (g * g) == (al * g) * u);
        assert((al * g) * u <= x * u);
        assert((rl + 9) * g * y == rl * g * y + 9 * g * y);
    }
    assert(r * y <= rh * g * y) by (nonlinear_arith)
        requires
            r * y - x * u <= 9 * g * y,
            x <= ah * g,
            bl * g <= y,
            0 < bl,
            0 <= ah,
            ah * 0x40_0000_0000_0000 <= (rh - 9) * bl,
            u == 0x40_0000_0000_0000 * g,
            g >= 1,
    {
        assert(x * u <= (ah * g) * u);
        assert((ah * g) * u == (ah * 0x40_0000_0000_0000) * (g * g));
        assert((ah * 0x40_0000_0000_0000) * (g * g) <= ((rh - 9) * bl) * (g * g));
        assert(((rh - 9) * bl) * (g * g) == (rh - 9) * g * (bl * g));
        assert(rh - 9 >= 0);
        assert((rh - 9) * g * (bl * g) <= (rh - 9) * g * y);
        assert((rh - 9) * g * y == rh * g * y - 9 * g * y);
    }
    assert(rl * g <= r <= rh * g) by (nonlinear_arith)
        requires
            rl * g * y <= r * y,
            r * y <= rh * g * y,
            y > 0,
    ;
}

/// At the median next to everything is taken off.
pub proof fn lemma_at_the_median(t: F64, decay: F64)
    requires
        t.is_finite(),
        decay.is_finite(),
        ({
            let g = crate::binary64::error::grain() as int;
            &&& 0x0040_0000_0000_0000 * g <= t.units() <= 0x0040_0000_0000_0000 * g
            &&& 0x0040_0000_0000_0000 * g <= decay.units() <= 0x0040_0000_0000_0000 * g
        }),
    ensures
        ({
            let g = crate::binary64::error::grain() as int;
            let w = crate::prediction::deadline::erf_series(t).times(t).times(decay);
            &&& w.is_finite()
            &&& 0x003F_FFFF_FEED_1EE7 * g <= w.units() <= 0x003F_FFFF_FEED_1F9B * g
        }),
{
    let g = crate::binary64::error::grain() as int;
    let u = crate::binary64::arith::unit() as int;
    crate::binary64::error::lemma_grain();
    lemma_coefficients();
    let x = t.units();
    let m5 = (F64 { bits: ERF_A5 }).times(t);
    lemma_times_between(
        F64 { bits: ERF_A5 },
        t,
        0x0043_EE11_0956_84B4,
        0x0043_EE11_0956_84B4,
        0x0040_0000_0000_0000,
        0x0040_0000_0000_0000,
        0x0043_EE11_0956_84AB,
        0x0043_EE11_0956_84BD,
    );
    let p5 = m5.minus(F64 { bits: ERF_A4 });
    crate::binary64::error::difference_error(m5, F64 { bits: ERF_A4 });
    let m4 = p5.times(t);
    lemma_product(p5, t);
    lemma_negated_product(m4.units(), p5.units(), x, g, u);
    lemma_product_between(
        -m4.units(),
        -p5.units(),
        x,
        g,
        u,
        0x0019_1260_52AE_AC1E,
        0x0019_1260_52AE_AC42,
        0x0040_0000_0000_0000,
        0x0040_0000_0000_0000,
        0x0019_1260_52AE_AC15,
        0x0019_1260_52AE_AC4B,
    );
    let p4 = m4.plus(F64 { bits: ERF_A3 });
    crate::binary64::error::sum_error(m4, F64 { bits: ERF_A3 });
    let m3 = p4.times(t);
    lemma_times_between(
        p4,
        t,
        0x0041_E611_043C_D908,
        0x0041_E611_043C_D950,
        0x0040_0000_0000_0000,
        0x0040_0000_0000_0000,
        0x0041_E611_043C_D8FF,
        0x0041_E611_043C_D959,
    );
    let p3 = m3.minus(F64 { bits: ERF_A2 });
    crate::binary64::error::difference_error(m3, F64 { bits: ERF_A2 });
    let m2 = p3.times(t);
    lemma_times_between(
        p3,
        t,
        0x002F_B0DF_3800_C48D,
        0x002F_B0DF_3800_C4F9,
        0x0040_0000_0000_0000,
        0x0040_0000_0000_0000,
        0x002F_B0DF_3800_C484,
        0x002F_B0DF_3800_C502,
    );
    let p2 = m2.plus(F64 { bits: ERF_A1 });
    crate::binary64::error::sum_error(m2, F64 { bits: ERF_A1 });
    let q = p2.times(t);
    lemma_times_between(
        p2,
        t,
        0x003F_FFFF_FEED_1EF9,
        0x003F_FFFF_FEED_1F89,
        0x0040_0000_0000_0000,
        0x0040_0000_0000_0000,
        0x003F_FFFF_FEED_1EF0,
        0x003F_FFFF_FEED_1F92,
    );
    lemma_times_between(
        q,
        decay,
        0x003F_FFFF_FEED_1EF0,
        0x003F_FFFF_FEED_1F92,
        0x0040_0000_0000_0000,
        0x0040_0000_0000_0000,
        0x003F_FFFF_FEED_1EE7,
        0x003F_FFFF_FEED_1F9B,
    );
}

/// At the 90th percentile about a fifth is taken off.
pub proof fn lemma_at_the_percentile(t: F64, decay: F64)
    requires
        t.is_finite(),
        decay.is_finite(),
        ({
            let g = crate::binary64::error::grain() as int;
            &&& 0x0031_54C9_85F0_6F6A * g <= t.units() <= 0x0031_5E9E_1B08_9A02 * g
            &&& 0x001C_25AE_E631_F8A1 * g <= decay.units() <= 0x001C_28F5_C28F_5C29 * g
        }),
    ensures
        ({
            let g = crate::binary64::error::grain() as int;
            let w = crate::prediction::deadline::erf_series(t).times(t).times(decay);
            &&& w.is_finite()
            &&& 0x000C_C770_4B03_D6E8 * g <= w.units() <= 0x000C_D234_1727_A61D * g
        }),
{
    let g = crate::binary64::error::grain() as int;
    let u = crate::binary64::arith::unit() as int;
    crate::binary64::error::lemma_grain();
    lemma_coefficients();
    let x = t.units();
    let m5 = (F64 { bits: ERF_A5 }).times(t);
    lemma_times_between(
        F64 { bits: ERF_A5 },
        t,
        0x0043_EE11_0956_84B4,
        0x0043_EE11_0956_84B4,
        0x0031_54C9_85F0_6F6A,
        0x0031_5E9E_1B08_9A02,
        0x0034_5C43_6759_EEDB,
        0x0034_66B2_8497_942D,
    );
    let p5 = m5.minus(F64 { bits: ERF_A4 });
    crate::binary64::error::difference_error(m5, F64 { bits: ERF_A4 });
    let m4 = p5.times(t);
    lemma_product(p5, t);
    lemma_negated_product(m4.units(), p5.units(), x, g, u);
    lemma_product_between(
        -m4.units(),
        -p5.units(),
        x,
        g,
        u,
        0x0028_99BE_D76D_9CAE,
        0x0028_A42D_F4AB_4212,
        0x0031_54C9_85F0_6F6A,
        0x0031_5E9E_1B08_9A02,
        0x001F_4B7F_BF3E_102F,
        0x001F_59C8_B94E_A7E4,
    );
    let p4 = m4.plus(F64 { bits: ERF_A3 });
    crate::binary64::error::sum_error(m4, F64 { bits: ERF_A3 });
    let m3 = p4.times(t);
    lemma_times_between(
        p4,
        t,
        0x003B_9EA8_9D9C_DD6F,
        0x003B_ACF1_97AD_7536,
        0x0031_54C9_85F0_6F6A,
        0x0031_5E9E_1B08_9A02,
        0x002D_F475_110A_378D,
        0x002E_08A2_6720_FE23,
    );
    let p3 = m3.minus(F64 { bits: ERF_A2 });
    crate::binary64::error::difference_error(m3, F64 { bits: ERF_A2 });
    let m2 = p3.times(t);
    lemma_times_between(
        p3,
        t,
        0x001B_BF43_44CE_231B,
        0x001B_D370_9AE4_E9C3,
        0x0031_54C9_85F0_6F6A,
        0x0031_5E9E_1B08_9A02,
        0x0015_6331_E7B9_1AD2,
        0x0015_7705_81B9_B284,
    );
    let p2 = m2.plus(F64 { bits: ERF_A1 });
    crate::binary64::error::sum_error(m2, F64 { bits: ERF_A1 });
    let q = p2.times(t);
    lemma_times_between(
        p2,
        t,
        0x0025_B252_AEA5_7547,
        0x0025_C626_48A6_0D0B,
        0x0031_54C9_85F0_6F6A,
        0x0031_5E9E_1B08_9A02,
        0x001D_0E78_0D2B_C593,
        0x001D_238D_A8FD_0514,
    );
    lemma_times_between(
        q,
        decay,
        0x001D_0E78_0D2B_C593,
        0x001D_238D_A8FD_0514,
        0x001C_25AE_E631_F8A1,
        0x001C_28F5_C28F_5C29,
        0x000C_C770_4B03_D6E8,
        0x000C_D234_1727_A61D,
    );
}

proof fn lemma_negated_product(m: int, a: int, b: int, g: int, u: int)
    requires
        is_product(m, a, b, g, u),
    ensures
        is_product(-m, -a, b, g, u),
{
    assert((-m) * u == -(m * u) && (-a) * b == -(a * b)) by (nonlinear_arith);
}

/// Beyond the middle the probability is half of what is taken off, but for a few grains.
pub proof fn lemma_half_of_it(w: F64)
    requires
        w.is_finite(),
        0 <= w.units() <= crate::binary64::arith::unit(),
    ensures
        ({
            let one = F64::one();
            let y = one.times(one.minus(w));
            let p = one.minus((F64 { bits: HALF }).times(one.plus(y)));
            let g = crate::binary64::error::grain() as int;
            &&& p.is_finite()
            &&& w.units() - 100 * g <= 2 * p.units() <= w.units() + 100 * g
        }),
{
    let one = F64::one();
    crate::binary64::error::lemma_grain();
    crate::binary64::order::lemma_one();
    let y = one.minus(w);
    crate::binary64::error::difference_error(one, w);
    lemma_unit_bound(w);
    crate::binary64::order::one_is_neutral(y);
    lemma_chance_of(y);
}

/// One less a number from zero to one is from zero to one.
proof fn lemma_unit_bound(w: F64)
    requires
        w.is_finite(),
        0 <= w.units() <= crate::binary64::arith::unit(),
    ensures
        0 <= F64::one().minus(w).units() <= crate::binary64::arith::unit(),
{
    let one = F64::one();
    crate::binary64::order::lemma_one();
    crate::binary64::error::lemma_grain();
    crate::binary64::error::difference_error(one, w);
    crate::binary64::order_is_by_value(w, one);
    crate::binary64::order_is_by_value(F64::zero(), w);
    crate::binary64::order::difference_is_not_negative(one, w);
    crate::binary64::order::minus_more_is_less(one, F64::zero(), w);
    reveal(F64::spec_minus);
    crate::binary64::order::zero_adds_nothing(one, F64::zero().negated());
    crate::binary64::order_is_by_value(F64::zero(), one.minus(w));
    crate::binary64::order_is_by_value(one.minus(w), one);
}

proof fn lemma_half()
    ensures
        2 * (F64 { bits: HALF }).units() == crate::binary64::arith::unit(),
{
    crate::binary64::root::lemma_units_of_binade(1021, 0x0010_0000_0000_0000);
    lemma_pow2_adds(52, 1021);
    lemma_pow2_unfold(1074);
    lemma2_to64();
    lemma2_to64_rest();
}

/// The polynomial is taken at about 0.771 for the 90th percentile.
pub proof fn lemma_percentile_argument(z: F64)
    requires
        z.is_finite(),
        ({
            let g = crate::binary64::error::grain() as int;
            0x0052_0418_9374_BC6C * g <= z.units() <= 0x0052_05BC_01A3_6E30 * g
        }),
    ensures
        ({
            let g = crate::binary64::error::grain() as int;
            let x = crate::prediction::deadline::erf_point(z);
            let t = crate::prediction::deadline::erf_argument(x);
            &&& x.is_finite() && x.units() > 0
            &&& t.is_finite()
            &&& 0x0031_54C9_85F0_6F6A * g <= t.units() <= 0x0031_5E9E_1B08_9A02 * g
        }),
{
    let g = crate::binary64::error::grain() as int;
    let u = crate::binary64::arith::unit() as int;
    crate::binary64::error::lemma_grain();
    crate::binary64::order::lemma_one();
    crate::binary64::root::lemma_units_of_binade(1022, 0x0016_A09E_667F_3BCD);
    crate::binary64::root::lemma_units_of_binade(1020, 0x0014_F740_A93D_7B8C);
    lemma_pow2_adds(2, 1020);
    lemma2_to64();
    let root = F64 { bits: SQRT_2 };
    let p = F64 { bits: ERF_P };
    lemma_over_between(
        z,
        root,
        0x0052_0418_9374_BC6C,
        0x0052_05BC_01A3_6E30,
        0x005A_8279_99FC_EF34,
        0x005A_8279_99FC_EF34,
        0x0039_FE7B_5B2E_0919,
        0x0039_FFA3_F031_3C57,
    );
    let x = z.over(root);
    assert(x.abs() == x);
    lemma_times_between(
        p,
        x,
        0x0014_F740_A93D_7B8C,
        0x0014_F740_A93D_7B8C,
        0x0039_FE7B_5B2E_0919,
        0x0039_FFA3_F031_3C57,
        0x0012_FF93_4869_57E6,
        0x0012_FFF4_70C5_159F,
    );
    let far = p.times(x);
    crate::binary64::error::sum_error(F64::one(), far);
    lemma_over_between(
        F64::one(),
        F64::one().plus(far),
        0x0040_0000_0000_0000,
        0x0040_0000_0000_0000,
        0x0052_FF93_4869_57DD,
        0x0052_FFF4_70C5_15A8,
        0x0031_54C9_85F0_6F6A,
        0x0031_5E9E_1B08_9A02,
    );
}

/// Before it gets its sign, the error function is from zero to one.
pub proof fn lemma_before_the_sign(x: F64, decay: F64)
    requires
        !x.is_nan(),
        F64::zero().at_most(decay),
        decay.at_most(F64::one()),
    ensures
        ({
            let t = crate::prediction::deadline::erf_argument(x);
            let w = crate::prediction::deadline::erf_series(t).times(t).times(decay);
            let y = F64::one().minus(w);
            &&& w.is_finite() && F64::zero().at_most(w) && w.at_most(F64::one())
            &&& y.is_finite() && F64::zero().at_most(y) && y.at_most(F64::one())
            &&& crate::prediction::deadline::erf_value(x, decay) == if x.less(F64::zero()) {
                y.negated()
            } else {
                y
            }
        }),
{
    let one = F64::one();
    let t = crate::prediction::deadline::erf_argument(x);
    lemma_argument(x);
    lemma_taken_off(t, decay);
    let w = crate::prediction::deadline::erf_series(t).times(t).times(decay);
    let y = one.minus(w);
    crate::binary64::order::difference_is_not_negative(one, w);
    crate::binary64::order::minus_more_is_less(one, F64::zero(), w);
    reveal(F64::spec_minus);
    crate::binary64::order::zero_adds_nothing(one, F64::zero().negated());
    crate::binary64::order::one_is_neutral(y);
    crate::binary64::order::minus_one_negates(y);
}

/// Less of an exponential takes less off.
pub proof fn lemma_less_is_taken_off(x: F64, decay: F64, more: F64)
    requires
        !x.is_nan(),
        F64::zero().at_most(decay),
        decay.at_most(more),
        more.at_most(F64::one()),
    ensures
        ({
            let t = crate::prediction::deadline::erf_argument(x);
            let q = crate::prediction::deadline::erf_series(t).times(t);
            F64::one().minus(q.times(more)).at_most(F64::one().minus(q.times(decay)))
        }),
{
    let one = F64::one();
    let t = crate::prediction::deadline::erf_argument(x);
    lemma_argument(x);
    erf_series_is_a_share(t);
    let s = crate::prediction::deadline::erf_series(t);
    crate::binary64::order::times_keeps_order(s, one, t);
    crate::binary64::order::one_is_neutral(t);
    let q = s.times(t);
    crate::binary64::order::times_an_amount_keeps_order(decay, more, q);
    crate::binary64::order::minus_more_is_less(one, q.times(decay), q.times(more));
}

/// Half of one and an error function, off one: half of what the error function lacks to one, but
/// for a few grains.
pub proof fn lemma_chance_of(y: F64)
    requires
        y.is_finite(),
        -(crate::binary64::arith::unit() as int) <= y.units() <= crate::binary64::arith::unit(),
    ensures
        ({
            let one = F64::one();
            let p = one.minus((F64 { bits: HALF }).times(one.plus(y)));
            let g = crate::binary64::error::grain() as int;
            let lacks = crate::binary64::arith::unit() - y.units();
            &&& p.is_finite()
            &&& lacks - 50 * g <= 2 * p.units() <= lacks + 50 * g
        }),
{
    let one = F64::one();
    let half = F64 { bits: HALF };
    let g = crate::binary64::error::grain() as int;
    let u = crate::binary64::arith::unit() as int;
    crate::binary64::error::lemma_grain();
    crate::binary64::order::lemma_one();
    lemma_half();
    let s = one.plus(y);
    crate::binary64::error::sum_error(one, y);
    let c = half.times(s);
    let (h, v) = (half.units(), s.units());
    assert(crate::binary64::arith::size(h) * crate::binary64::arith::size(v) <= 4 * u * u)
        by (nonlinear_arith)
        requires
            0 <= crate::binary64::arith::size(h) <= u,
            0 <= crate::binary64::arith::size(v) <= 4 * u,
    ;
    crate::binary64::error::product_error(half, s);
    let k = c.units();
    assert(v - 18 * g <= 2 * k <= v + 18 * g) by (nonlinear_arith)
        requires
            k * u - h * v <= 9 * g * u,
            h * v - k * u <= 9 * g * u,
            2 * h == u,
            u > 0,
    {
        assert(2 * (h * v) == u * v);
    }
    crate::binary64::error::difference_error(one, c);
}

/// Without an exponential nothing is taken off.
pub proof fn lemma_nothing_is_taken_off(x: F64, decay: F64)
    requires
        !x.is_nan(),
        decay.magnitude() == 0,
    ensures
        ({
            let t = crate::prediction::deadline::erf_argument(x);
            let q = crate::prediction::deadline::erf_series(t).times(t);
            F64::one().minus(q.times(decay)) == F64::one()
        }),
{
    let one = F64::one();
    let t = crate::prediction::deadline::erf_argument(x);
    lemma_argument(x);
    erf_series_is_a_share(t);
    let s = crate::prediction::deadline::erf_series(t);
    crate::binary64::order::times_keeps_order(s, one, t);
    crate::binary64::order::one_is_neutral(t);
    let q = s.times(t);
    crate::binary64::order::zero_of_anything_is_zero(q, decay);
    reveal(F64::spec_minus);
    crate::binary64::order::zero_adds_nothing(one, q.times(decay).negated());
}

/// What the polynomial would be without rounding at `x` parts of `u`, with its last factor, times
/// the fifth power of `u`.
spec fn exact(a1: int, a2: int, a3: int, a4: int, a5: int, x: int, u: int) -> int {
    ((((a5 * x - a4 * u) * x + a3 * (u * u)) * x - a2 * (u * u * u)) * x + a1 * (u * u * u * u)) * x
}

/// The cubic part is above four fifths.
proof fn lemma_cubic_is_large(a3: int, a4: int, a5: int, x: int, u: int)
    requires
        0 <= x <= u,
        u <= a5,
        2 * a4 <= 3 * u,
        7 * u <= 5 * a3,
    ensures
        5 * ((a5 * x - a4 * u) * x + a3 * (u * u)) >= 4 * (u * u * u),
{
    assert(10 * (a5 * (x * x)) >= 10 * (u * (x * x))) by (nonlinear_arith)
        requires
            u <= a5,
    ;
    assert(10 * (a4 * (u * x)) <= 15 * (u * (u * x))) by (nonlinear_arith)
        requires
            2 * a4 <= 3 * u,
            0 <= x,
            0 <= u,
    ;
    assert(10 * (a3 * (u * u)) >= 14 * (u * (u * u))) by (nonlinear_arith)
        requires
            7 * u <= 5 * a3,
    ;
    assert(10 * (u * (x * x)) - 15 * (u * (u * x)) + 6 * (u * (u * u)) >= 0) by (nonlinear_arith)
        requires
            u >= 0,
    {
        let s = 4 * x - 3 * u;
        assert(s * s >= 0);
        assert(s * s == 16 * (x * x) - 24 * (u * x) + 9 * (u * u));
        assert(10 * (x * x) - 15 * (u * x) + 6 * (u * u) >= 0);
        assert(u * (10 * (x * x) - 15 * (u * x) + 6 * (u * u)) >= 0);
    }
    assert((a5 * x - a4 * u) * x + a3 * (u * u) == a5 * (x * x) - a4 * (u * x) + a3 * (u * u))
        by (nonlinear_arith);
    assert(u * (u * u) == u * u * u) by (nonlinear_arith);
}

/// The cubic part grows by at least half.
proof fn lemma_cubic_grows(a3: int, a4: int, a5: int, x: int, y: int, u: int)
    requires
        0 <= y <= x <= u,
        u <= a5,
        2 * a4 <= 3 * u,
        7 * u <= 5 * a3,
    ensures
        2 * (((a5 * x - a4 * u) * x + a3 * (u * u)) * x - ((a5 * y - a4 * u) * y + a3 * (u * u))
            * y) >= (x - y) * (u * u * u),
{
    let r = x + y;
    let s = x * x + x * y + y * y;
    let b = a5 * s - a4 * (u * r) + a3 * (u * u);
    assert(4 * s >= 3 * (r * r) && s >= 0) by (nonlinear_arith)
        requires
            s == x * x + x * y + y * y,
            r == x + y,
            x >= 0,
            y >= 0,
    {
        assert((x - y) * (x - y) >= 0);
        assert(4 * (x * x + x * y + y * y) - 3 * ((x + y) * (x + y)) == (x - y) * (x - y));
    }
    assert(a5 * s >= u * s) by (nonlinear_arith)
        requires
            u <= a5,
            s >= 0,
    ;
    assert(2 * (a4 * (u * r)) <= 3 * (u * (u * r))) by (nonlinear_arith)
        requires
            2 * a4 <= 3 * u,
            r >= 0,
            u >= 0,
    ;
    assert(5 * (a3 * (u * u)) >= 7 * (u * (u * u))) by (nonlinear_arith)
        requires
            7 * u <= 5 * a3,
    ;
    assert(20 * (u * s) - 30 * (u * (u * r)) + 18 * (u * (u * u)) >= 0) by (nonlinear_arith)
        requires
            4 * s >= 3 * (r * r),
            u >= 0,
    {
        assert((r - u) * (r - u) >= 0);
        assert((r - u) * (r - u) == r * r - 2 * (u * r) + u * u);
        assert(20 * s - 30 * (u * r) + 18 * (u * u) >= 0);
        assert(u * (20 * s - 30 * (u * r) + 18 * (u * u)) >= 0);
    }
    assert(20 * b >= 10 * (u * (u * u)));
    assert(((a5 * x - a4 * u) * x + a3 * (u * u)) * x == a5 * (x * x * x) - a4 * (u * (x * x)) + a3
        * (u * u) * x) by (nonlinear_arith);
    assert(((a5 * y - a4 * u) * y + a3 * (u * u)) * y == a5 * (y * y * y) - a4 * (u * (y * y)) + a3
        * (u * u) * y) by (nonlinear_arith);
    let d = x - y;
    assert(d * s == x * x * x - y * y * y) by (nonlinear_arith)
        requires
            d == x - y,
            s == x * x + x * y + y * y,
    ;
    assert(d * r == x * x - y * y) by (nonlinear_arith)
        requires
            d == x - y,
            r == x + y,
    ;
    let (cx, cy) = (x * x * x, y * y * y);
    let (sx, sy) = (x * x, y * y);
    assert(d * (a5 * s) == a5 * cx - a5 * cy) by (nonlinear_arith)
        requires
            d * s == cx - cy,
    ;
    assert(d * (a4 * (u * r)) == a4 * (u * sx) - a4 * (u * sy)) by (nonlinear_arith)
        requires
            d * r == sx - sy,
    {
        assert(d * (a4 * (u * r)) == (a4 * u) * (d * r));
        assert((a4 * u) * (sx - sy) == a4 * (u * sx) - a4 * (u * sy));
    }
    let k = a3 * (u * u);
    assert(d * k == k * x - k * y) by (nonlinear_arith)
        requires
            d == x - y,
    ;
    assert(d * b == d * (a5 * s) - d * (a4 * (u * r)) + d * k) by (nonlinear_arith)
        requires
            b == a5 * s - a4 * (u * r) + k,
    ;
    assert(2 * ((x - y) * b) >= (x - y) * (u * u * u)) by (nonlinear_arith)
        requires
            20 * b >= 10 * (u * (u * u)),
            x >= y,
    ;
}

/// Without rounding the polynomial never falls.
proof fn lemma_exact_grows(
    a1: int,
    a2: int,
    a3: int,
    a4: int,
    a5: int,
    x: int,
    y: int,
    u: int,
)
    requires
        0 <= y <= x <= u,
        u <= a5,
        2 * a4 <= 3 * u,
        7 * u <= 5 * a3,
        10 * a2 <= 3 * u,
        u <= 4 * a1,
    ensures
        exact(a1, a2, a3, a4, a5, y, u) <= exact(a1, a2, a3, a4, a5, x, u),
{
    let c = u * u * u;
    let big = (a5 * x - a4 * u) * x + a3 * (u * u);
    let small = (a5 * y - a4 * u) * y + a3 * (u * u);
    let g = big * x;
    let h = small * y;
    let r = x + y;
    let d = x - y;
    lemma_cubic_is_large(a3, a4, a5, y, u);
    lemma_cubic_grows(a3, a4, a5, x, y, u);
    assert(c >= 0) by (nonlinear_arith)
        requires
            c == u * u * u,
            u >= 0,
    ;
    assert(5 * h >= 4 * (c * y)) by (nonlinear_arith)
        requires
            5 * small >= 4 * c,
            h == small * y,
            y >= 0,
    ;
    let first = exact(a1, a2, a3, a4, a5, x, u);
    let second = exact(a1, a2, a3, a4, a5, y, u);
    lemma_exact_parts(a1, a2, g, x, u, c);
    lemma_exact_parts(a1, a2, h, y, u, c);
    let inner = h * r - a2 * (c * r) + a1 * (c * u);
    let (b, e) = (g - a2 * c, h - a2 * c);
    let (sx, sy) = (x * x, y * y);
    let k = a1 * (c * u);
    assert(sx * b - sy * e == sx * (g - h) + (sx - sy) * e) by (nonlinear_arith)
        requires
            b - e == g - h,
    ;
    assert(d * r == sx - sy) by (nonlinear_arith)
        requires
            d == x - y,
            r == x + y,
            sx == x * x,
            sy == y * y,
    ;
    assert(inner == e * r + k) by (nonlinear_arith)
        requires
            inner == h * r - a2 * (c * r) + k,
            e == h - a2 * c,
    ;
    assert(d * inner == (d * r) * e + d * k) by (nonlinear_arith)
        requires
            inner == e * r + k,
    ;
    assert(d * k == k * x - k * y) by (nonlinear_arith)
        requires
            d == x - y,
    ;
    assert(first - second == sx * (g - h) + d * inner);
    // The part in the bracket, with the cubic part at its least.
    let q = 20 * (x * x) + 32 * (y * r) - 12 * (u * r) + 10 * (u * u);
    assert(q >= 0) by (nonlinear_arith)
        requires
            q == 20 * (x * x) + 32 * (y * r) - 12 * (u * r) + 10 * (u * u),
            r == x + y,
            0 <= y <= x,
            u >= 0,
    {
        let s = 10 * x - 3 * u;
        let t = 16 * y - 3 * u;
        assert(s * s == 100 * (x * x) - 60 * (u * x) + 9 * (u * u));
        assert(t * t == 256 * (y * y) - 96 * (u * y) + 9 * (u * u));
        assert(s * s >= 0 && t * t >= 0 && x * y >= 0 && u * u >= 0);
        assert(y * r == x * y + y * y && u * r == u * x + u * y);
    }
    assert(2 * (x * x * (g - h)) >= d * (c * (x * x))) by (nonlinear_arith)
        requires
            2 * (g - h) >= d * c,
    {
        assert(x * x >= 0);
        assert((x * x) * (2 * (g - h)) >= (x * x) * (d * c));
        assert((x * x) * (d * c) == d * (c * (x * x)));
    }
    assert(40 * inner + 20 * (c * (x * x)) >= c * q) by (nonlinear_arith)
        requires
            inner == h * r - a2 * (c * r) + a1 * (c * u),
            5 * h >= 4 * (c * y),
            10 * a2 <= 3 * u,
            u <= 4 * a1,
            c >= 0,
            r >= 0,
            u >= 0,
            q == 20 * (x * x) + 32 * (y * r) - 12 * (u * r) + 10 * (u * u),
    {
        assert(40 * (h * r) >= 32 * (c * y) * r);
        assert(32 * (c * y) * r == c * (32 * (y * r)));
        assert(c * r >= 0);
        assert(40 * (a2 * (c * r)) <= 12 * u * (c * r));
        assert(12 * u * (c * r) == c * (12 * (u * r)));
        assert(c * u >= 0);
        assert(40 * (a1 * (c * u)) >= 10 * u * (c * u));
        assert(10 * u * (c * u) == c * (10 * (u * u)));
        assert(c * q == c * (20 * (x * x)) + c * (32 * (y * r)) - c * (12 * (u * r)) + c * (10 * (u
            * u)));
        assert(c * (20 * (x * x)) == 20 * (c * (x * x)));
    }
    assert(40 * (d * inner) + 20 * (d * (c * (x * x))) >= 0) by (nonlinear_arith)
        requires
            40 * inner + 20 * (c * (x * x)) >= c * q,
            c >= 0,
            q >= 0,
            d >= 0,
    {
        assert(c * q >= 0);
        assert(d * (40 * inner + 20 * (c * (x * x))) >= 0);
        assert(d * (40 * inner + 20 * (c * (x * x))) == 40 * (d * inner) + 20 * (d * (c * (x * x))));
    }
}

/// The polynomial from its cubic part on.
proof fn lemma_exact_parts(a1: int, a2: int, g: int, x: int, u: int, c: int)
    requires
        c == u * u * u,
    ensures
        ((g - a2 * (u * u * u)) * x + a1 * (u * u * u * u)) * x == x * x * (g - a2 * c) + a1 * (c
            * u) * x,
{
    assert(((g - a2 * c) * x + a1 * (c * u)) * x == x * x * (g - a2 * c) + a1 * (c * u) * x)
        by (nonlinear_arith);
}

/// A rounded product stays near what it would be without any rounding: `v` is how often the first
/// factor is taken, and `e` how far it was off.
proof fn lemma_step(a: int, exact: int, v: int, e: int, m: int, x: int, g: int, u: int)
    requires
        0 <= x <= u,
        0 <= v,
        0 <= e,
        a * v - exact <= e * v,
        exact - a * v <= e * v,
        is_product(m, a, x, g, u),
    ensures
        m * (u * v) - exact * x <= (e + 9 * g) * (u * v),
        exact * x - m * (u * v) <= (e + 9 * g) * (u * v),
{
    let p = m * u - a * x;
    let o = a * v - exact;
    let k = 9 * g * u;
    assert(m * (u * v) - exact * x == p * v + o * x) by (nonlinear_arith)
        requires
            p == m * u - a * x,
            o == a * v - exact,
    ;
    assert(p * v <= k * v && -(p * v) <= k * v) by (nonlinear_arith)
        requires
            p <= k,
            -p <= k,
            v >= 0,
    ;
    assert(e * v >= 0) by (nonlinear_arith)
        requires
            e >= 0,
            v >= 0,
    ;
    assert(o * x <= e * v * u && -(o * x) <= e * v * u) by (nonlinear_arith)
        requires
            o <= e * v,
            -o <= e * v,
            0 <= x <= u,
            e * v >= 0,
    {
        assert(o * x <= (e * v) * x);
        assert(-(o * x) <= (e * v) * x);
        assert((e * v) * x <= (e * v) * u);
    }
    assert(k * v + e * v * u == (e + 9 * g) * (u * v)) by (nonlinear_arith)
        requires
            k == 9 * g * u,
    ;
}

/// Adding a coefficient keeps a number near what it would be without rounding.
proof fn lemma_sum_step(m: int, exact: int, v: int, e: int, c: int, p: int, g: int)
    requires
        0 <= v,
        m * v - exact <= e * v,
        exact - m * v <= e * v,
        -9 * g <= p - (m + c) <= 9 * g,
    ensures
        p * v - (exact + c * v) <= (e + 9 * g) * v,
        (exact + c * v) - p * v <= (e + 9 * g) * v,
{
    assert(p * v <= (m + c + 9 * g) * v && p * v >= (m + c - 9 * g) * v) by (nonlinear_arith)
        requires
            m + c - 9 * g <= p <= m + c + 9 * g,
            v >= 0,
    ;
    assert((m + c + 9 * g) * v == m * v + c * v + 9 * g * v) by (nonlinear_arith);
    assert((m + c - 9 * g) * v == m * v + c * v - 9 * g * v) by (nonlinear_arith);
    assert((e + 9 * g) * v == e * v + 9 * g * v) by (nonlinear_arith);
}

/// The polynomial with its last factor is what it would be without rounding, but for 81 grains.
proof fn lemma_near_exact(t: F64)
    requires
        crate::binary64::order::is_amount(t),
        t.at_most(F64::one()),
    ensures
        ({
            let g = crate::binary64::error::grain() as int;
            let u = crate::binary64::arith::unit() as int;
            let q = crate::prediction::deadline::erf_series(t).times(t);
            let v = u * (u * (u * (u * (u * 1))));
            let x = exact(
                0x0010_4F20_C6EC_5A7E * g,
                0x0012_3531_CC3C_1469 * g,
                0x005A_F871_56EB_855C * g,
                0x005D_0071_5C05_30E4 * g,
                0x0043_EE11_0956_84B4 * g,
                t.units(),
                u,
            );
            &&& q.is_finite()
            &&& q.units() * v - x <= 81 * g * v
            &&& x - q.units() * v <= 81 * g * v
        }),
{
    let g = crate::binary64::error::grain() as int;
    let u = crate::binary64::arith::unit() as int;
    crate::binary64::error::lemma_grain();
    crate::binary64::order::lemma_one();
    crate::binary64::order_is_by_value(F64::zero(), t);
    crate::binary64::order_is_by_value(t, F64::one());
    lemma_coefficients();
    let x = t.units();
    let c1 = 0x0010_4F20_C6EC_5A7E * g;
    let c2 = 0x0012_3531_CC3C_1469 * g;
    let c3 = 0x005A_F871_56EB_855C * g;
    let c4 = 0x005D_0071_5C05_30E4 * g;
    let c5 = 0x0043_EE11_0956_84B4 * g;
    let v1 = u * 1;
    let v2 = u * v1;
    let v3 = u * v2;
    let v4 = u * v3;
    let v5 = u * v4;
    assert(v2 >= 0 && v3 >= 0 && v4 >= 0) by (nonlinear_arith)
        requires
            u >= 0,
            v1 == u * 1,
            v2 == u * v1,
            v3 == u * v2,
            v4 == u * v3,
    ;
    let m5 = (F64 { bits: ERF_A5 }).times(t);
    lemma_product(F64 { bits: ERF_A5 }, t);
    lemma_first(m5.units(), x, g, u);
    let p5 = m5.minus(F64 { bits: ERF_A4 });
    crate::binary64::error::difference_error(m5, F64 { bits: ERF_A4 });
    lemma_step(c5, c5, 1, 0, m5.units(), x, g, u);
    lemma_sum_step(m5.units(), c5 * x, v1, 9 * g, -c4, p5.units(), g);
    let e5 = c5 * x + (-c4) * v1;
    let m4 = p5.times(t);
    lemma_product(p5, t);
    lemma_size(p5.units(), m4.units(), x, g, u);
    let p4 = m4.plus(F64 { bits: ERF_A3 });
    crate::binary64::error::sum_error(m4, F64 { bits: ERF_A3 });
    lemma_second(p5.units(), m4.units(), p4.units(), x, g, u);
    lemma_step(p5.units(), e5, v1, 18 * g, m4.units(), x, g, u);
    lemma_sum_step(m4.units(), e5 * x, v2, 27 * g, c3, p4.units(), g);
    let e4 = e5 * x + c3 * v2;
    let m3 = p4.times(t);
    lemma_product(p4, t);
    lemma_third(p4.units(), m3.units(), x, g, u);
    let p3 = m3.minus(F64 { bits: ERF_A2 });
    crate::binary64::error::difference_error(m3, F64 { bits: ERF_A2 });
    lemma_step(p4.units(), e4, v2, 36 * g, m3.units(), x, g, u);
    lemma_sum_step(m3.units(), e4 * x, v3, 45 * g, -c2, p3.units(), g);
    let e3 = e4 * x + (-c2) * v3;
    let m2 = p3.times(t);
    lemma_product(p3, t);
    lemma_size(p3.units(), m2.units(), x, g, u);
    let p2 = m2.plus(F64 { bits: ERF_A1 });
    crate::binary64::error::sum_error(m2, F64 { bits: ERF_A1 });
    lemma_last(p3.units(), m2.units(), p2.units(), x, g, u);
    lemma_step(p3.units(), e3, v3, 54 * g, m2.units(), x, g, u);
    lemma_sum_step(m2.units(), e3 * x, v4, 63 * g, c1, p2.units(), g);
    let e2 = e3 * x + c1 * v4;
    let q = p2.times(t);
    lemma_product(p2, t);
    lemma_step(p2.units(), e2, v4, 72 * g, q.units(), x, g, u);
    assert(e2 * x == exact(c1, c2, c3, c4, c5, x, u)) by {
        assert(v2 == u * u && v3 == u * u * u && v4 == u * u * u * u) by (nonlinear_arith)
            requires
                v1 == u * 1,
                v2 == u * v1,
                v3 == u * v2,
                v4 == u * v3,
        ;
        assert((-c4) * v1 == -(c4 * u) && (-c2) * v3 == -(c2 * v3)) by (nonlinear_arith)
            requires
                v1 == u * 1,
        ;
    }
}

/// The polynomial with its last factor never falls by more than 162 grains.
proof fn lemma_series_grows(s: F64, t: F64)
    requires
        crate::binary64::order::is_amount(s),
        crate::binary64::order::is_amount(t),
        s.at_most(t),
        t.at_most(F64::one()),
    ensures
        ({
            let g = crate::binary64::error::grain() as int;
            let p = crate::prediction::deadline::erf_series(s).times(s);
            let q = crate::prediction::deadline::erf_series(t).times(t);
            &&& p.is_finite() && q.is_finite()
            &&& p.units() <= q.units() + 162 * g
        }),
{
    let g = crate::binary64::error::grain() as int;
    let u = crate::binary64::arith::unit() as int;
    crate::binary64::error::lemma_grain();
    crate::binary64::order::lemma_one();
    lemma_near_exact(s);
    lemma_near_exact(t);
    crate::binary64::order_is_by_value(F64::zero(), s);
    crate::binary64::order_is_by_value(s, t);
    crate::binary64::order_is_by_value(t, F64::one());
    let c1 = 0x0010_4F20_C6EC_5A7E * g;
    let c2 = 0x0012_3531_CC3C_1469 * g;
    let c3 = 0x005A_F871_56EB_855C * g;
    let c4 = 0x005D_0071_5C05_30E4 * g;
    let c5 = 0x0043_EE11_0956_84B4 * g;
    lemma_exact_grows(c1, c2, c3, c4, c5, t.units(), s.units(), u);
    let p = crate::prediction::deadline::erf_series(s).times(s).units();
    let q = crate::prediction::deadline::erf_series(t).times(t).units();
    let v = u * (u * (u * (u * (u * 1))));
    assert(v > 0) by (nonlinear_arith)
        requires
            v == u * (u * (u * (u * (u * 1)))),
            u > 0,
    {
        assert(u * (u * 1) > 0);
        assert(u * (u * (u * 1)) > 0);
        assert(u * (u * (u * (u * 1))) > 0);
    }
    assert(p <= q + 162 * g) by (nonlinear_arith)
        requires
            p * v - q * v <= 2 * (81 * g * v),
            v > 0,
    {
        assert((p - q - 162 * g) * v <= 0);
    }
}

/// What is taken off one never grows with the distance from zero, but for 180 grains.
pub proof fn lemma_taken_off_falls(x: F64, farther: F64, decay: F64, less: F64)
    requires
        x.is_finite(),
        farther.is_finite(),
        x.abs().at_most(farther.abs()),
        F64::zero().at_most(less),
        less.at_most(decay),
        decay.at_most(F64::one()),
    ensures
        ({
            let g = crate::binary64::error::grain() as int;
            let t = crate::prediction::deadline::erf_argument(x);
            let s = crate::prediction::deadline::erf_argument(farther);
            let w = crate::prediction::deadline::erf_series(t).times(t).times(decay);
            let v = crate::prediction::deadline::erf_series(s).times(s).times(less);
            &&& w.is_finite() && v.is_finite()
            &&& v.units() <= w.units() + 180 * g
        }),
{
    let one = F64::one();
    let k = F64 { bits: ERF_P };
    let g = crate::binary64::error::grain() as int;
    let u = crate::binary64::arith::unit() as int;
    crate::binary64::error::lemma_grain();
    crate::binary64::order::lemma_one();
    let t = crate::prediction::deadline::erf_argument(x);
    let s = crate::prediction::deadline::erf_argument(farther);
    lemma_argument(x);
    lemma_argument(farther);
    // The polynomial is taken no farther out.
    crate::binary64::order::times_an_amount_keeps_order(x.abs(), farther.abs(), k);
    let near = one.plus(k.times(x.abs()));
    let far = one.plus(k.times(farther.abs()));
    crate::binary64::order::plus_keeps_order(k.times(x.abs()), k.times(farther.abs()), one);
    crate::binary64::order::signs_of_products(k, x.abs());
    crate::binary64::order::signs_move_sums(one, k.times(x.abs()));
    if far.is_finite() {
        crate::binary64::order::over_more_is_less(one, near, far);
    } else {
        reveal(F64::spec_over);
    }
    assert(s.at_most(t));
    lemma_series_grows(s, t);
    erf_series_is_a_share(t);
    erf_series_is_a_share(s);
    let p = crate::prediction::deadline::erf_series(s).times(s);
    let q = crate::prediction::deadline::erf_series(t).times(t);
    lemma_taken_off(t, one);
    lemma_taken_off(s, one);
    crate::binary64::order::one_is_neutral(p);
    crate::binary64::order::one_is_neutral(q);
    crate::binary64::order_is_by_value(F64::zero(), p);
    crate::binary64::order_is_by_value(p, one);
    crate::binary64::order_is_by_value(F64::zero(), q);
    crate::binary64::order_is_by_value(q, one);
    crate::binary64::order_is_by_value(F64::zero(), less);
    crate::binary64::order_is_by_value(less, decay);
    crate::binary64::order_is_by_value(decay, one);
    lemma_product(p, less);
    lemma_product(q, decay);
    let (a, b, c, d) = (p.units(), q.units(), less.units(), decay.units());
    let (v, w) = (p.times(less).units(), q.times(decay).units());
    assert(a * c <= b * d + 162 * g * u) by (nonlinear_arith)
        requires
            0 <= a <= b + 162 * g,
            0 <= c <= d <= u,
            g >= 0,
    {
        assert(a * c <= a * d);
        assert(a * d <= (b + 162 * g) * d);
        assert((b + 162 * g) * d == b * d + 162 * g * d);
        assert(162 * g * d <= 162 * g * u);
    }
    assert(v <= w + 180 * g) by (nonlinear_arith)
        requires
            v * u - a * c <= 9 * g * u,
            b * d - w * u <= 9 * g * u,
            a * c <= b * d + 162 * g * u,
            u > 0,
    {
        assert((v - w - 180 * g) * u <= 0);
    }
}

} // verus!
