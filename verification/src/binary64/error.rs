//! How far rounding moves a result.
use vstd::arithmetic::div_mod::*;
use vstd::arithmetic::mul::*;
use vstd::arithmetic::power2::*;
use vstd::prelude::*;

use super::round::BINADE;
use super::F64;

verus! {

/// `2^-54`, in smallest subnormals.
pub open spec fn grain() -> nat {
    pow2(1020)
}

proof fn lemma_half_even_error(n: nat, d: nat)
    requires
        d > 0,
    ensures
        2 * (super::round::half_even(n, d) * d - n) <= d,
        2 * (n - super::round::half_even(n, d) * d) <= d,
{
    let q = n / d;
    let r = n % d;
    lemma_fundamental_div_mod(n as int, d as int);
    assert(n == q * d + r) by (nonlinear_arith)
        requires
            n == d * q + r,
    ;
    assert((q + 1) * d == q * d + d) by (nonlinear_arith);
}

/// Rounding moves a ratio by at most one part in `2^53`, or by half a smallest subnormal where
/// that is more.
pub proof fn rounding_error_is_small(n: nat, d: nat)
    requires
        d > 0,
    ensures
        ({
            let r = super::round::units_of(super::round::nearest(n, d)) * d;
            if n < 0x0010_0000_0000_0000 * d {
                2 * (r - n) <= d && 2 * (n - r) <= d
            } else {
                0x0020_0000_0000_0000 * (r - n) <= n && 0x0020_0000_0000_0000 * (n - r) <= n
            }
        }),
    decreases n - d,
{
    let m = super::round::nearest(n, d);
    if n < 0x0020_0000_0000_0000 * d {
        lemma_half_even_error(n, d);
        super::order::lemma_half_even_bound(n, d);
        reveal_with_fuel(super::round::units_of, 2);
        assert(super::round::units_of(m) == m);
    } else {
        rounding_error_is_small(n, 2 * d);
        let h = super::round::nearest(n, 2 * d);
        super::order::lemma_nearest_at_least(n, 2 * d);
        let u = super::round::units_of(h);
        assert(super::round::units_of(m) == 2 * u);
        assert((2 * u) * d == u * (2 * d)) by (nonlinear_arith);
    }
}

/// The scale of the bounds: one is `2^54` grains, and a grain is not empty.
pub proof fn lemma_grain()
    ensures
        super::arith::unit() == 0x40_0000_0000_0000 * grain(),
        grain() >= 1,
{
    lemma_pow2_adds(54, 1020);
    lemma_pow2_pos(1020);
    lemma2_to64();
    lemma2_to64_rest();
}

/// What is at most four rounds to something finite.
proof fn lemma_at_most_four(n: nat, d: nat)
    requires
        d > 0,
        n <= 4 * super::arith::unit() * d,
    ensures
        super::round::nearest(n, d) < super::round::INFINITE,
{
    let four = 0x4010_0000_0000_0000nat;
    super::root::lemma_units_of_binade(1024, BINADE as nat);
    lemma_pow2_adds(52, 1024);
    lemma_pow2_adds(2, 1074);
    lemma2_to64();
    lemma2_to64_rest();
    super::order::numbers_round_to_themselves(four);
    let top = 4 * super::arith::unit();
    super::order::rounding_keeps_order(n, d, top, 1);
}

/// A product of at most four is within nine grains of the exact one.
pub proof fn product_error(a: F64, b: F64)
    requires
        a.is_finite(),
        b.is_finite(),
        super::arith::size(a.units()) * super::arith::size(b.units()) <= 4
            * super::arith::unit() * super::arith::unit(),
    ensures
        a.times(b).is_finite(),
        a.times(b).units() * super::arith::unit() - a.units() * b.units() <= 9 * grain()
            * super::arith::unit(),
        a.units() * b.units() - a.times(b).units() * super::arith::unit() <= 9 * grain()
            * super::arith::unit(),
{
    reveal(F64::spec_times);
    lemma_grain();
    let (x, y) = (super::arith::size(a.units()), super::arith::size(b.units()));
    let u = super::arith::unit();
    let n = x * y;
    let m = super::round::nearest(n, u);
    rounding_error_is_small(n, u);
    lemma_at_most_four(n, u);
    let r = super::round::units_of(m);
    lemma_product_bound(n, r, u, grain());
    assert(a.units() * b.units() == if (a.units() < 0) == (b.units() < 0) {
        n as int
    } else {
        -n
    }) by (nonlinear_arith)
        requires
            n == x * y,
            x == super::arith::size(a.units()),
            y == super::arith::size(b.units()),
    ;
    if n == 0 {
        super::arith::lemma_nearest_scale(0, 1, u);
        assert(0 * u == 0);
        assert(1 * u == u);
        super::round::lemma_half_even_exact(0, 1);
        assert(r == 0);
        assert(0 * (u as int) == 0);
    } else {
        assert(x > 0 && y > 0) by (nonlinear_arith)
            requires
                x * y > 0,
                x >= 0,
                y >= 0,
        ;
        let s = a.times(b);
        if a.negative() == b.negative() {
            assert(s.units() == r);
        } else {
            assert(s.units() == -r);
            assert((-r) * (u as int) == -(r * u)) by (nonlinear_arith);
        }
    }
}

proof fn lemma_product_bound(n: nat, r: nat, u: nat, g: nat)
    requires
        u == 0x40_0000_0000_0000 * g,
        g >= 1,
        n <= 4 * u * u,
        if n < 0x0010_0000_0000_0000 * u {
            2 * (r * u - n) <= u && 2 * (n - r * u) <= u
        } else {
            0x0020_0000_0000_0000 * (r * u - n) <= n && 0x0020_0000_0000_0000 * (n - r * u) <= n
        },
    ensures
        r * u - n <= 9 * g * u,
        n - r * u <= 9 * g * u,
{
    assert(9 * g * u >= u && 9 * g * u >= 8 * (g * u)) by (nonlinear_arith)
        requires
            g >= 1,
            u >= 0,
    ;
    assert(4 * u * u == 0x0020_0000_0000_0000 * (8 * (g * u))) by (nonlinear_arith)
        requires
            u == 0x40_0000_0000_0000 * g,
    ;
}

/// A sum of at most four is within nine grains of the exact one.
pub proof fn sum_error(a: F64, b: F64)
    requires
        a.is_finite(),
        b.is_finite(),
        -4 * super::arith::unit() <= a.units() + b.units() <= 4 * super::arith::unit(),
    ensures
        a.plus(b).is_finite(),
        -9 * grain() <= a.plus(b).units() - (a.units() + b.units()) <= 9 * grain(),
{
    reveal(F64::spec_plus);
    lemma_grain();
    let sum = a.units() + b.units();
    let n = super::arith::size(sum);
    rounding_error_is_small(n, 1);
    lemma_at_most_four(n, 1);
    let m = super::round::nearest(n, 1);
    assert(super::round::units_of(m) * 1 == super::round::units_of(m));
}

/// A difference of at most four is within nine grains of the exact one.
pub proof fn difference_error(a: F64, b: F64)
    requires
        a.is_finite(),
        b.is_finite(),
        -4 * super::arith::unit() <= a.units() - b.units() <= 4 * super::arith::unit(),
    ensures
        a.minus(b).is_finite(),
        -9 * grain() <= a.minus(b).units() - (a.units() - b.units()) <= 9 * grain(),
{
    reveal(F64::spec_minus);
    assert(b.negated().units() == -b.units());
    sum_error(a, b.negated());
}

/// What rounds to at least the magnitude `m` reaches the middle between it and the one before.
proof fn lemma_reaches_middle(n: nat, d: nat, m: nat)
    requires
        d > 0,
        m >= 1,
        super::round::nearest(n, d) >= m,
    ensures
        2 * n >= d * (super::round::units_of((m - 1) as nat) + super::round::units_of(m)),
    decreases n - d,
{
    let a = super::round::units_of((m - 1) as nat);
    let b = super::round::units_of(m);
    if m <= 2 * BINADE {
        reveal_with_fuel(super::round::units_of, 2);
        assert(a == m - 1 && b == m);
    }
    if n < 0x0020_0000_0000_0000 * d {
        super::order::lemma_half_even_bound(n, d);
        lemma_half_even_error(n, d);
        let h = super::round::half_even(n, d);
        assert(2 * n >= d * (2 * m - 1)) by (nonlinear_arith)
            requires
                2 * (h * d - n) <= d,
                h >= m,
                d > 0,
        ;
    } else if m <= 2 * BINADE {
        assert(2 * n >= d * (2 * m - 1)) by (nonlinear_arith)
            requires
                n >= 0x0020_0000_0000_0000 * d,
                m <= 0x0020_0000_0000_0000,
                d > 0,
        ;
    } else {
        let k = (m - BINADE) as nat;
        lemma_reaches_middle(n, 2 * d, k);
        let (x, y) = (
            super::round::units_of((k - 1) as nat),
            super::round::units_of(k),
        );
        assert((2 * d) * (x + y) == d * (2 * x + 2 * y)) by (nonlinear_arith);
    }
}

/// What is above the middle between the magnitude `m` and the one before rounds to at least it.
proof fn lemma_above_middle(n: nat, d: nat, m: nat)
    requires
        d > 0,
        m >= 1,
        2 * n > d * (super::round::units_of((m - 1) as nat) + super::round::units_of(m)),
    ensures
        super::round::nearest(n, d) >= m,
    decreases n - d,
{
    let a = super::round::units_of((m - 1) as nat);
    let b = super::round::units_of(m);
    if m <= 2 * BINADE {
        reveal_with_fuel(super::round::units_of, 2);
        assert(a == m - 1 && b == m);
    }
    if n < 0x0020_0000_0000_0000 * d {
        lemma_half_even_error(n, d);
        let h = super::round::half_even(n, d);
        if m <= 2 * BINADE {
            assert(h >= m) by (nonlinear_arith)
                requires
                    2 * n > d * (2 * m - 1),
                    2 * (n - h * d) <= d,
                    d > 0,
            ;
        } else {
            super::lemma_units_of_at_least((m - 1) as nat);
            super::lemma_units_of_at_least(m);
            assert(d * (a + b) >= 2 * (0x0020_0000_0000_0000 * d)) by (nonlinear_arith)
                requires
                    a + b >= 2 * 0x0020_0000_0000_0000,
                    d > 0,
            ;
        }
    } else if m <= 2 * BINADE {
        super::order::lemma_nearest_at_least(n, 2 * d);
    } else {
        let k = (m - BINADE) as nat;
        let (x, y) = (
            super::round::units_of((k - 1) as nat),
            super::round::units_of(k),
        );
        assert((2 * d) * (x + y) == d * (2 * x + 2 * y)) by (nonlinear_arith);
        lemma_above_middle(n, 2 * d, k);
    }
}

/// The spacing of the numbers never shrinks.
proof fn lemma_gap_order(a: nat, b: nat)
    requires
        1 <= a <= b,
    ensures
        super::round::units_of(a) - super::round::units_of((a - 1) as nat)
            <= super::round::units_of(b) - super::round::units_of((b - 1) as nat),
    decreases b,
{
    reveal_with_fuel(super::round::units_of, 2);
    if b > 2 * BINADE {
        let c = (b - BINADE) as nat;
        super::lemma_units_of_strict((c - 1) as nat, c);
        if a <= c {
            lemma_gap_order(a, c);
        } else if a > 2 * BINADE {
            lemma_gap_order((a - BINADE) as nat, c);
        }
    }
}

/// Rounding a term first never makes a sum that is a number come out larger: where `x` rounds to
/// the number `low` or more, and `c` is at least that, `c + x` rounds to `c + low` or more.
pub proof fn sums_outweigh_rounded_terms(x: nat, c: nat, low: nat, sum: nat)
    requires
        low > BINADE,
        super::round::nearest(x, 1) >= low,
        c >= super::round::units_of(low),
        super::round::units_of(sum) == c + super::round::units_of(low),
    ensures
        super::round::nearest(c + x, 1) >= sum,
{
    let y = super::round::units_of(low);
    if x >= y {
        super::order::rounding_keeps_order(c + y, 1, c + x, 1);
        super::order::numbers_round_to_themselves(sum);
    } else {
        lemma_reaches_middle(x, 1, low);
        let up = (low + BINADE) as nat;
        assert(super::round::units_of(up) == 2 * y);
        assert(super::round::units_of((up - 1) as nat) == 2 * super::round::units_of(
            (low - 1) as nat,
        ));
        if sum < up {
            super::lemma_units_of_strict(sum, up);
        }
        lemma_gap_order(up, sum);
        super::lemma_units_of_strict((low - 1) as nat, low);
        lemma_above_middle(c + x, 1, sum);
    }
}

/// `q * 2^k` is a number for `q` below `2^53`.
pub proof fn lemma_is_number(q: nat, k: nat) -> (mag: nat)
    requires
        q < 0x0020_0000_0000_0000,
    ensures
        super::round::units_of(mag) == q * pow2(k),
    decreases k,
{
    if k == 0 {
        lemma2_to64();
        q
    } else if q < BINADE {
        lemma_pow2_unfold(k);
        let p = pow2((k - 1) as nat);
        assert(q * (2 * p) == (2 * q) * p) by (nonlinear_arith);
        lemma_is_number(2 * q, (k - 1) as nat)
    } else {
        super::root::lemma_units_of_binade(k, q);
        k * (BINADE as nat) + q
    }
}

/// Taking its whole part off a number below `2^53` leaves exactly the rest.
pub proof fn rest_is_exact(e: F64)
    requires
        e.is_finite(),
        !e.negative(),
        e.to_u64() < 0x20_0000_0000_0000,
    ensures
        ({
            let full = e.to_u64();
            let rest = e.minus(F64::from_u64(full));
            &&& rest.is_finite()
            &&& rest.units() == e.units() - full * super::arith::unit()
            &&& 0 <= rest.units() < super::arith::unit()
        }),
{
    reveal(F64::spec_to_u64);
    reveal(F64::spec_minus);
    reveal(F64::spec_plus);
    let u = super::arith::unit();
    let n = e.units() as nat;
    let full = e.to_u64();
    lemma_pow2_pos(1074);
    super::order::small_wholes_are_exact(full);
    lemma_fundamental_div_mod(n as int, u as int);
    assert(full * u == u * (n / u)) by (nonlinear_arith)
        requires
            full == n / u,
    ;
    let r = (n % u) as nat;
    let (m, k) = lemma_parts(e.magnitude() as nat);
    if k > 1074 {
        lemma_pow2_adds((k - 1074) as nat, 1074);
        lemma_pow2_unfold((k - 1074) as nat);
        lemma_pow2_pos((k - 1075) as nat);
        let p = pow2((k - 1074) as nat);
        assert(m * (p * u) >= 0x20_0000_0000_0000 * u) by (nonlinear_arith)
            requires
                m >= 0x10_0000_0000_0000,
                p >= 2,
                u > 0,
        ;
        assert(n / u >= 0x20_0000_0000_0000) by {
            lemma_div_is_ordered((0x20_0000_0000_0000 * u) as int, n as int, u as int);
            lemma_div_by_multiple(0x20_0000_0000_0000, u as int);
        }
    } else {
        let j = (1074 - k) as nat;
        lemma_pow2_adds(j, k);
        lemma_pow2_pos(k);
        let (p, w) = (pow2(j), pow2(k));
        let q = m - full * p;
        assert(r == q * w) by (nonlinear_arith)
            requires
                r == m * w - full * (p * w),
                q == m - full * p,
        ;
        assert(0 <= q <= m) by (nonlinear_arith)
            requires
                q * w >= 0,
                w > 0,
                q == m - full * p,
                full >= 0,
                p >= 0,
        ;
        let mag = lemma_is_number(q as nat, k);
        super::order::numbers_round_to_themselves(mag);
        if mag > e.magnitude() {
            super::lemma_units_of_strict(e.magnitude() as nat, mag);
        }
        assert(F64::from_u64(full).negated().units() == -(full * u));
        if r == 0 {
            assert(super::round::units_of(0) == 0);
        }
    }
}

/// A magnitude as a significand and a binade.
proof fn lemma_parts(mag: nat) -> (r: (nat, nat))
    ensures
        super::round::units_of(mag) == r.0 * pow2(r.1),
        r.0 < 0x20_0000_0000_0000,
        r.1 > 0 ==> r.0 >= 0x10_0000_0000_0000,
{
    if mag < BINADE {
        lemma2_to64();
        lemma_mul_basics(mag as int);
        (mag, 0)
    } else {
        super::lemma_units_of_parts(mag);
        lemma_fundamental_div_mod(mag as int, BINADE as int);
        ((BINADE + mag % (BINADE as nat)) as nat, (mag / (BINADE as nat) - 1) as nat)
    }
}

/// A quotient of at most four is within nine grains of the exact one.
pub proof fn quotient_error(a: F64, b: F64)
    requires
        a.is_finite(),
        b.is_finite(),
        0 <= a.units(),
        0 < b.units(),
        a.units() <= 4 * b.units(),
    ensures
        a.over(b).is_finite(),
        a.over(b).units() * b.units() - a.units() * super::arith::unit() <= 9 * grain()
            * b.units(),
        a.units() * super::arith::unit() - a.over(b).units() * b.units() <= 9 * grain()
            * b.units(),
{
    reveal(F64::spec_over);
    lemma_grain();
    let u = super::arith::unit();
    let d = b.units() as nat;
    let n = a.units() as nat * u;
    assert(n <= 4 * u * d) by (nonlinear_arith)
        requires
            n == a.units() as nat * u,
            a.units() <= 4 * d,
            a.units() >= 0,
    ;
    rounding_error_is_small(n, d);
    lemma_at_most_four(n, d);
    let r = super::round::units_of(super::round::nearest(n, d));
    lemma_quotient_bound(n, r * d, d, u, grain());
    if n == 0 {
        assert(a.units() == 0) by (nonlinear_arith)
            requires
                a.units() as nat * u == 0,
                u > 0,
                a.units() >= 0,
        ;
        super::arith::lemma_nearest_scale(0, 1, d);
        assert(0 * d == 0);
        assert(1 * d == d);
        super::round::lemma_half_even_exact(0, 1);
        assert(r == 0);
        assert(0 * (d as int) == 0);
    } else {
        assert(a.units() != 0) by (nonlinear_arith)
            requires
                a.units() as nat * u != 0,
        ;
    }
    assert(b.magnitude() != 0 && !b.negative());
    assert(a.over(b).units() == r);
    assert(a.units() * u == n);
}

proof fn lemma_quotient_bound(n: nat, r: nat, d: nat, u: nat, g: nat)
    requires
        u == 0x40_0000_0000_0000 * g,
        g >= 1,
        n <= 4 * u * d,
        if n < 0x0010_0000_0000_0000 * d {
            2 * (r - n) <= d && 2 * (n - r) <= d
        } else {
            0x0020_0000_0000_0000 * (r - n) <= n && 0x0020_0000_0000_0000 * (n - r) <= n
        },
    ensures
        r - n <= 9 * g * d,
        n - r <= 9 * g * d,
{
    assert(9 * g * d >= d && 9 * g * d >= 8 * (g * d)) by (nonlinear_arith)
        requires
            g >= 1,
            d >= 0,
    ;
    assert(4 * u * d == 0x0020_0000_0000_0000 * (8 * (g * d))) by (nonlinear_arith)
        requires
            u == 0x40_0000_0000_0000 * g,
    ;
}

/// A finite quotient that is no subnormal is off by at most one part in `2^53`.
pub proof fn normal_quotients_are_close(a: F64, b: F64)
    requires
        a.is_finite(),
        b.is_finite(),
        0 < a.units(),
        0 < b.units(),
        a.over(b).is_finite() || a.units() <= 4 * b.units(),
        0x0010_0000_0000_0000 * b.units() <= a.units() * super::arith::unit(),
    ensures
        a.over(b).is_finite(),
        ({
            let n = a.units() * super::arith::unit();
            let r = a.over(b).units() * b.units();
            0x20_0000_0000_0000 * (n - r) <= n && 0x20_0000_0000_0000 * (r - n) <= n
        }),
        a.over(b).units() >= 0,
{
    reveal(F64::spec_over);
    let u = super::arith::unit();
    let d = b.units() as nat;
    let n = a.units() as nat * u;
    rounding_error_is_small(n, d);
    if a.units() <= 4 * b.units() {
        assert(n <= 4 * u * d) by (nonlinear_arith)
            requires
                n == a.units() as nat * u,
                a.units() <= 4 * d,
                a.units() >= 0,
        ;
        lemma_at_most_four(n, d);
    }
    let m = super::round::nearest(n, d);
    assert(m < super::round::INFINITE);
    assert(a.over(b).units() == super::round::units_of(m));
    assert(a.units() * u == n);
}

/// A share of a whole number up to `2^52` is off by its last bit at most.
pub proof fn shares_of_wholes_are_close(n: u64, q: F64)
    requires
        n <= 0x10_0000_0000_0000,
        super::order::is_amount(q),
        q.at_most(F64::one()),
    ensures
        ({
            let p = F64::from_u64(n).times(q);
            let one = super::arith::unit() as int;
            let way = n * q.units();
            &&& p.is_finite()
            &&& !p.negative()
            &&& 0 <= p.units() <= n * one
            &&& 0x20_0000_0000_0000 * (p.units() - way) <= way
            &&& 0x20_0000_0000_0000 * (way - p.units()) <= way
            &&& way <= 0x10_0000_0000_0000 * one
        }),
{
    let x = F64::from_u64(n);
    let u = super::arith::unit();
    super::order::small_wholes_are_exact(n);
    super::order::lemma_one();
    super::order_is_by_value(F64::zero(), q);
    super::order_is_by_value(q, F64::one());
    let p = x.times(q);
    super::order::times_commute(x, q);
    super::order::times_keeps_order(q, F64::one(), x);
    super::order::one_is_neutral(x);
    lemma_grain();
    let product = super::arith::size(x.units()) * super::arith::size(q.units());
    rounding_error_is_small(product, u);
    super::order_is_by_value(p, x);
    super::order_is_by_value(F64::zero(), p);
    reveal(F64::spec_times);
    let r = p.units();
    let xi = x.units();
    let qi = q.units();
    let l = n as int;
    let one = u as int;
    assert(product == xi * qi);
    assert(xi * qi == (l * qi) * one) by (nonlinear_arith)
        requires
            xi == l * one,
    ;
    assert(0 <= l * qi <= 0x10_0000_0000_0000 * one) by (nonlinear_arith)
        requires
            0 <= l <= 0x10_0000_0000_0000,
            0 <= qi <= one,
    ;
    let way = l * qi;
    assert(0x20_0000_0000_0000 * (r - way) <= way && 0x20_0000_0000_0000 * (way - r) <= way)
        by (nonlinear_arith)
        requires
            one >= 0x40_0000_0000_0000,
            0 <= way,
            (2 * (r * one - way * one) <= one && 2 * (way * one - r * one) <= one) || (
            0x0020_0000_0000_0000 * (r * one - way * one) <= way * one && 0x0020_0000_0000_0000 * (
            way * one - r * one) <= way * one),
    {
        if 2 * (r * one - way * one) <= one && 2 * (way * one - r * one) <= one {
            assert(2 * (r - way) <= 1 && 2 * (way - r) <= 1);
        } else {
            assert(0x0020_0000_0000_0000 * (r - way) <= way);
            assert(0x0020_0000_0000_0000 * (way - r) <= way);
        }
    }
}

/// A ratio up to `2^1023` rounds to a finite number.
proof fn lemma_at_most_huge(n: nat, d: nat)
    requires
        d > 0,
        n <= pow2(2097) * d,
    ensures
        super::round::nearest(n, d) < super::round::INFINITE,
{
    let mag = 0x7FE0_0000_0000_0000nat;
    super::root::lemma_units_of_binade(2045, 0x0010_0000_0000_0000);
    lemma_pow2_adds(52, 2045);
    lemma2_to64_rest();
    assert(super::round::units_of(mag) == pow2(2097));
    super::order::rounding_keeps_order(n, d, pow2(2097), 1);
    super::order::numbers_round_to_themselves(mag);
}

/// A product that is not too small is off by a hundredth at most, and by much less.
pub proof fn products_are_close(a: F64, b: F64)
    requires
        a.is_finite(),
        b.is_finite(),
        0 <= a.units(),
        0 <= b.units(),
        a.units() * b.units() == 0 || a.units() * b.units() >= 0x0010_0000_0000_0000
            * super::arith::unit(),
        a.units() * b.units() <= pow2(2097) * super::arith::unit(),
    ensures
        a.times(b).is_finite(),
        0 <= a.times(b).units(),
        100 * (a.times(b).units() * super::arith::unit() - a.units() * b.units()) <= a.units()
            * b.units(),
        100 * (a.units() * b.units() - a.times(b).units() * super::arith::unit()) <= a.units()
            * b.units(),
{
    reveal(F64::spec_times);
    let u = super::arith::unit();
    lemma_pow2_pos(1074);
    let n = super::arith::size(a.units()) * super::arith::size(b.units());
    assert(n == a.units() * b.units());
    lemma_at_most_huge(n, u);
    rounding_error_is_small(n, u);
    if n == 0 {
        super::round::lemma_half_even_exact(0, u);
        assert(a.times(b).magnitude() == 0);
        assert(0 * u == 0);
    } else {
        assert(a.units() > 0 && b.units() > 0) by (nonlinear_arith)
            requires
                a.units() * b.units() > 0,
                0 <= a.units(),
                0 <= b.units(),
        ;
        assert(!a.negative() && !b.negative());
    }
}

/// A quotient that is not too small is off by a hundredth at most, and by much less.
pub proof fn quotients_are_close(a: F64, b: F64)
    requires
        a.is_finite(),
        b.is_finite(),
        0 <= a.units(),
        0 < b.units(),
        a.units() == 0 || a.units() * super::arith::unit() >= 0x0010_0000_0000_0000 * b.units(),
        a.units() * super::arith::unit() <= pow2(2097) * b.units(),
    ensures
        a.over(b).is_finite(),
        0 <= a.over(b).units(),
        100 * (a.over(b).units() * b.units() - a.units() * super::arith::unit()) <= a.units()
            * super::arith::unit(),
        100 * (a.units() * super::arith::unit() - a.over(b).units() * b.units()) <= a.units()
            * super::arith::unit(),
{
    reveal(F64::spec_over);
    let u = super::arith::unit();
    lemma_pow2_pos(1074);
    let n = super::arith::size(a.units()) * u;
    let d = super::arith::size(b.units());
    lemma_at_most_huge(n, d);
    rounding_error_is_small(n, d);
    if a.units() == 0 {
        assert(0 * u == 0);
        super::round::lemma_half_even_exact(0, d);
        assert(a.over(b).magnitude() == 0);
        assert(0 * b.units() == 0);
    } else {
        assert(!a.negative() && !b.negative());
    }
}

/// A sum is off by a hundredth at most, and by much less.
pub proof fn sums_are_close(a: F64, b: F64)
    requires
        a.is_finite(),
        b.is_finite(),
        0 <= a.units(),
        0 <= b.units(),
        a.units() + b.units() <= pow2(2097),
    ensures
        a.plus(b).is_finite(),
        0 <= a.plus(b).units(),
        100 * (a.plus(b).units() - (a.units() + b.units())) <= a.units() + b.units(),
        100 * (a.units() + b.units() - a.plus(b).units()) <= a.units() + b.units(),
        a.units() + b.units() > 0 ==> a.plus(b).units() > 0,
{
    reveal(F64::spec_plus);
    let n = (a.units() + b.units()) as nat;
    assert(pow2(2097) * 1 == pow2(2097));
    lemma_at_most_huge(n, 1);
    rounding_error_is_small(n, 1);
    if n > 0 {
        super::order::rounding_keeps_order(1, 1, n, 1);
        super::order::numbers_round_to_themselves(1);
        super::lemma_units_of_strict(0, super::round::nearest(n, 1));
    }
}

} // verus!
