//! How arithmetic keeps order: rounding never swaps two results.
use vstd::arithmetic::div_mod::*;
use vstd::arithmetic::mul::*;
use vstd::arithmetic::power2::*;
use vstd::prelude::*;

use super::round::BINADE;
use super::F64;

verus! {

/// A number that is not negative: a positive one, an infinity of them, or `+0`.
pub open spec fn is_amount(x: F64) -> bool {
    !x.is_nan() && !x.negative()
}

proof fn lemma_half_even_order(a: nat, b: nat, d: nat)
    requires
        d > 0,
        a <= b,
    ensures
        super::round::half_even(a, d) <= super::round::half_even(b, d),
{
    lemma_fundamental_div_mod(a as int, d as int);
    lemma_fundamental_div_mod(b as int, d as int);
    lemma_div_is_ordered(a as int, b as int, d as int);
}

/// Below `2^53` a ratio rounds to at most that.
pub proof fn lemma_half_even_bound(n: nat, d: nat)
    requires
        d > 0,
        n < 0x0020_0000_0000_0000 * d,
    ensures
        super::round::half_even(n, d) <= 0x0020_0000_0000_0000,
{
    lemma_fundamental_div_mod(n as int, d as int);
    assert(n / d < 0x0020_0000_0000_0000) by (nonlinear_arith)
        requires
            n < 0x0020_0000_0000_0000 * d,
            n == d * (n / d) + n % d,
            n % d >= 0,
            d > 0,
    ;
}

pub proof fn lemma_nearest_at_least(n: nat, d: nat)
    requires
        d > 0,
        n >= 0x0010_0000_0000_0000 * d,
    ensures
        super::round::nearest(n, d) >= BINADE,
{
    if n < 0x0020_0000_0000_0000 * d {
        assert(n / d >= 0x0010_0000_0000_0000) by {
            lemma_div_is_ordered((0x0010_0000_0000_0000 * d) as int, n as int, d as int);
            lemma_div_by_multiple(0x0010_0000_0000_0000, d as int);
        }
    }
}

proof fn lemma_nearest_order(a: nat, b: nat, d: nat)
    requires
        d > 0,
        a <= b,
    ensures
        super::round::nearest(a, d) <= super::round::nearest(b, d),
    decreases b - d,
{
    if b < 0x0020_0000_0000_0000 * d {
        lemma_half_even_order(a, b, d);
    } else if a < 0x0020_0000_0000_0000 * d {
        assert(a / d < 0x0020_0000_0000_0000) by {
            lemma_fundamental_div_mod(a as int, d as int);
            assert(a / d < 0x0020_0000_0000_0000) by (nonlinear_arith)
                requires
                    a < 0x0020_0000_0000_0000 * d,
                    a == d * (a / d) + a % d,
                    a % d >= 0,
                    d > 0,
            ;
        }
        lemma_nearest_at_least(b, 2 * d);
    } else {
        lemma_nearest_order(a, b, 2 * d);
    }
}

/// A smaller ratio rounds to a number that is not larger.
pub proof fn rounding_keeps_order(a: nat, c: nat, b: nat, d: nat)
    requires
        c > 0,
        d > 0,
        a * d <= b * c,
    ensures
        super::round::nearest(a, c) <= super::round::nearest(b, d),
{
    super::arith::lemma_nearest_scale(a, c, d);
    super::arith::lemma_nearest_scale(b, d, c);
    assert(c * d == d * c) by (nonlinear_arith);
    assert(c * d > 0) by (nonlinear_arith)
        requires
            c > 0,
            d > 0,
    ;
    lemma_nearest_order(a * d, b * c, c * d);
}

/// A number is its own rounding.
pub proof fn numbers_round_to_themselves(mag: nat)
    ensures
        super::round::nearest(super::round::units_of(mag), 1) == mag,
    decreases mag,
{
    if mag < 2 * BINADE {
        super::round::lemma_half_even_exact(mag, 1);
    } else {
        let m = (mag - BINADE) as nat;
        let u = super::round::units_of(m);
        numbers_round_to_themselves(m);
        super::lemma_units_of_strict((2 * BINADE - 1) as nat, mag);
        super::arith::lemma_nearest_scale(u, 1, 2);
    }
}

proof fn lemma_units_order(a: F64, b: F64)
    requires
        a.is_finite(),
        b.is_finite(),
        a.position() <= b.position(),
    ensures
        a.units() <= b.units(),
{
    super::order_is_by_value(a, b);
}

proof fn lemma_unit_positive()
    ensures
        super::arith::unit() > 0,
{
    lemma_pow2_pos(1074);
}

/// Multiplying by an amount keeps order.
pub proof fn times_keeps_order(a: F64, b: F64, c: F64)
    requires
        is_amount(a),
        is_amount(b),
        is_amount(c),
        a.at_most(b),
        c.is_finite(),
        b.is_finite() || c.magnitude() > 0,
    ensures
        a.times(c).at_most(b.times(c)),
        is_amount(a.times(c)),
        is_amount(b.times(c)),
{
    reveal(F64::spec_times);
    lemma_unit_positive();
    if b.is_finite() {
        lemma_units_order(a, b);
        let (x, y, z, u) = (
            super::arith::size(a.units()),
            super::arith::size(b.units()),
            super::arith::size(c.units()),
            super::arith::unit(),
        );
        assert((x * z) * u <= (y * z) * u) by (nonlinear_arith)
            requires
                x <= y,
        ;
        rounding_keeps_order(x * z, u, y * z, u);
    }
}

/// Dividing by a positive amount keeps order.
pub proof fn over_keeps_order(a: F64, b: F64, c: F64)
    requires
        is_amount(a),
        is_amount(b),
        is_amount(c),
        a.at_most(b),
        c.is_finite(),
        c.magnitude() > 0,
    ensures
        a.over(c).at_most(b.over(c)),
        is_amount(a.over(c)),
        is_amount(b.over(c)),
{
    reveal(F64::spec_over);
    super::lemma_units_of_strict(0, c.magnitude() as nat);
    if b.is_finite() {
        lemma_units_order(a, b);
        let (x, y, z, u) = (
            super::arith::size(a.units()),
            super::arith::size(b.units()),
            super::arith::size(c.units()),
            super::arith::unit(),
        );
        assert((x * u) * z <= (y * u) * z) by (nonlinear_arith)
            requires
                x <= y,
        ;
        rounding_keeps_order(x * u, z, y * u, z);
    }
}

/// Dividing by more gives less.
pub proof fn over_more_is_less(a: F64, c: F64, d: F64)
    requires
        is_amount(a),
        is_amount(c),
        is_amount(d),
        c.at_most(d),
        d.is_finite(),
        c.magnitude() > 0,
    ensures
        a.over(d).at_most(a.over(c)),
        is_amount(a.over(d)),
        is_amount(a.over(c)),
{
    reveal(F64::spec_over);
    super::lemma_units_of_strict(0, c.magnitude() as nat);
    lemma_units_order(c, d);
    if a.is_finite() {
        let (x, y, z, u) = (
            super::arith::size(a.units()),
            super::arith::size(c.units()),
            super::arith::size(d.units()),
            super::arith::unit(),
        );
        assert((x * u) * y <= (x * u) * z) by (nonlinear_arith)
            requires
                y <= z,
        ;
        rounding_keeps_order(x * u, z, x * u, y);
    }
}

/// Where the rounding of `s` smallest subnormals stands.
spec fn place(s: int) -> int {
    let m = super::round::saturated(super::round::nearest(super::arith::size(s), 1)) as int;
    if s < 0 {
        -m
    } else {
        m
    }
}

proof fn lemma_place_order(s: int, t: int)
    requires
        s <= t,
    ensures
        place(s) <= place(t),
{
    if s >= 0 {
        lemma_nearest_order(s as nat, t as nat, 1);
    } else if t < 0 {
        lemma_nearest_order((-t) as nat, (-s) as nat, 1);
    }
}

proof fn lemma_sum_place(a: F64, b: F64)
    requires
        a.is_finite(),
        b.is_finite(),
    ensures
        !a.plus(b).is_nan(),
        a.plus(b).position() == place(a.units() + b.units()),
{
    reveal(F64::spec_plus);
    super::round::lemma_half_even_exact(0, 1);
}

proof fn lemma_number_place(a: F64)
    requires
        a.is_finite(),
    ensures
        place(a.units()) == a.position(),
{
    numbers_round_to_themselves(a.magnitude() as nat);
    if a.magnitude() > 0 {
        super::lemma_units_of_strict(0, a.magnitude() as nat);
    }
}

/// Adding a finite number keeps order.
pub proof fn plus_keeps_order(a: F64, b: F64, c: F64)
    requires
        a.at_most(b),
        c.is_finite(),
    ensures
        a.plus(c).at_most(b.plus(c)),
        c.plus(a).at_most(c.plus(b)),
{
    reveal(F64::spec_plus);
    if a.is_finite() && b.is_finite() {
        lemma_units_order(a, b);
        lemma_sum_place(a, c);
        lemma_sum_place(b, c);
        lemma_sum_place(c, a);
        lemma_sum_place(c, b);
        lemma_place_order(a.units() + c.units(), b.units() + c.units());
    } else if a.is_finite() {
        lemma_sum_place(a, c);
        lemma_sum_place(c, a);
    } else if b.is_finite() {
        lemma_sum_place(b, c);
        lemma_sum_place(c, b);
    }
}

/// Adding two amounts gives an amount.
pub proof fn amounts_add_up(a: F64, b: F64)
    requires
        is_amount(a),
        is_amount(b),
    ensures
        is_amount(a.plus(b)),
        a.at_most(a.plus(b)),
{
    reveal(F64::spec_plus);
    if a.is_finite() && b.is_finite() {
        lemma_sum_place(a, b);
        lemma_number_place(a);
        lemma_place_order(a.units(), a.units() + b.units());
    }
}

/// Subtracting more gives less.
pub proof fn minus_more_is_less(a: F64, c: F64, d: F64)
    requires
        a.is_finite(),
        c.at_most(d),
    ensures
        a.minus(d).at_most(a.minus(c)),
{
    reveal(F64::spec_minus);
    plus_keeps_order(d.negated(), c.negated(), a);
}

/// Subtracting an amount never gives more.
pub proof fn minus_an_amount_is_less(a: F64, c: F64)
    requires
        a.is_finite(),
        is_amount(c),
    ensures
        a.minus(c).at_most(a),
{
    reveal(F64::spec_minus);
    reveal(F64::spec_plus);
    if c.is_finite() {
        let n = c.negated();
        lemma_sum_place(a, n);
        lemma_number_place(a);
        lemma_place_order(a.units() + n.units(), a.units());
    }
}

/// A number less one that is not larger is not negative.
pub proof fn difference_is_not_negative(a: F64, b: F64)
    requires
        a.is_finite(),
        b.is_finite(),
        b.at_most(a),
    ensures
        F64::zero().at_most(a.minus(b)),
{
    reveal(F64::spec_minus);
    let n = b.negated();
    lemma_units_order(b, a);
    lemma_sum_place(a, n);
    super::round::lemma_half_even_exact(0, 1);
    lemma_place_order(0, a.units() + n.units());
}

/// Larger whole numbers are not smaller as binary64 numbers.
pub proof fn from_u64_keeps_order(a: u64, b: u64)
    requires
        a <= b,
    ensures
        F64::from_u64(a).at_most(F64::from_u64(b)),
        is_amount(F64::from_u64(a)),
        is_amount(F64::from_u64(b)),
        F64::from_u64(a).is_finite(),
        a > 0 ==> F64::from_u64(a).magnitude() > 0,
{
    reveal(F64::spec_from_u64);
    lemma_unit_positive();
    let u = super::arith::unit();
    assert(a as nat * u <= b as nat * u) by (nonlinear_arith)
        requires
            a <= b,
    ;
    lemma_nearest_order(a as nat * u, b as nat * u, 1);
    lemma_whole_is_finite(a);
}

/// `2^64` is a number, so what is below it rounds to something finite.
proof fn lemma_whole_is_finite(a: u64)
    ensures
        F64::from_u64(a).is_finite(),
        !F64::from_u64(a).negative(),
        a > 0 ==> F64::from_u64(a).magnitude() > 0,
{
    reveal(F64::spec_from_u64);
    let u = super::arith::unit();
    let top = 0x43F0_0000_0000_0000nat;
    super::root::lemma_units_of_binade(1086, BINADE as nat);
    assert(1086 * (BINADE as nat) + BINADE == top);
    lemma_pow2_adds(64, 1074);
    lemma_pow2_adds(52, 1086);
    lemma2_to64();
    lemma2_to64_rest();
    numbers_round_to_themselves(top);
    assert(a as nat * u <= 0x1_0000_0000_0000_0000 * u) by (nonlinear_arith)
        requires
            a < 0x1_0000_0000_0000_0000,
    ;
    lemma_nearest_order(a as nat * u, super::round::units_of(top), 1);
    if a > 0 {
        lemma_unit_positive();
        assert(a as nat * u >= 1) by (nonlinear_arith)
            requires
                a > 0,
                u > 0,
        ;
        super::round::lemma_half_even_exact(1, 1);
        lemma_nearest_order(1, a as nat * u, 1);
    }
}

/// A share of a whole is at most one.
pub proof fn share_is_at_most_one(a: F64, b: F64)
    requires
        is_amount(a),
        is_amount(b),
        a.at_most(b),
        b.is_finite(),
        b.magnitude() > 0,
    ensures
        a.over(b).at_most(F64::one()),
        F64::zero().at_most(a.over(b)),
{
    over_keeps_order(a, b, b);
    reveal(F64::spec_over);
    let z = super::arith::size(b.units());
    let u = super::arith::unit();
    super::lemma_units_of_strict(0, b.magnitude() as nat);
    super::arith::lemma_nearest_scale(u, 1, z);
    assert(1 * z == z);
    assert(u * z == z * u) by (nonlinear_arith);
    super::root::lemma_units_of_binade(1022, BINADE as nat);
    lemma_pow2_adds(52, 1022);
    lemma2_to64();
    lemma2_to64_rest();
    numbers_round_to_themselves(0x3FF0_0000_0000_0000);
}

/// Multiplication does not mind the order of its factors.
pub proof fn times_commute(a: F64, b: F64)
    ensures
        a.times(b) == b.times(a),
{
    reveal(F64::spec_times);
    let x = super::arith::size(a.units());
    let y = super::arith::size(b.units());
    assert(x * y == y * x) by (nonlinear_arith);
}

/// Rounding amounts to whole numbers keeps order.
pub proof fn round_to_u64_keeps_order(a: F64, b: F64)
    requires
        is_amount(a),
        is_amount(b),
        a.at_most(b),
    ensures
        a.round_to_u64() <= b.round_to_u64(),
{
    reveal(F64::spec_round_to_u64);
    if b.is_finite() {
        lemma_units_order(a, b);
        lemma_unit_positive();
        let u = super::arith::unit();
        let x = 2 * super::arith::size(a.units()) + u;
        let y = 2 * super::arith::size(b.units()) + u;
        lemma_div_is_ordered(x as int, y as int, (2 * u) as int);
    }
}

/// Doubling a whole number doubles the number nearest to it.
pub proof fn doubling_is_exact(n: u64)
    requires
        n > 0,
        2 * n <= u64::MAX,
    ensures
        F64::from_u64(n).plus(F64::from_u64(n)) == F64::from_u64((2 * n) as u64),
{
    reveal(F64::spec_from_u64);
    reveal(F64::spec_plus);
    lemma_whole_is_finite(n);
    lemma_whole_is_finite((2 * n) as u64);
    let u = super::arith::unit();
    let x = n as nat * u;
    let m = super::round::nearest(x, 1);
    lemma2_to64();
    lemma2_to64_rest();
    lemma_pow2_strictly_increases(52, 1074);
    assert(x >= u) by (nonlinear_arith)
        requires
            x == n as nat * u,
            n >= 1,
    ;
    assert((2 * n) as nat * u == 2 * x) by (nonlinear_arith)
        requires
            x == n as nat * u,
    ;
    super::arith::lemma_nearest_scale(x, 1, 2);
    assert(super::round::nearest(2 * x, 1) == BINADE + m);
    lemma_nearest_at_least(x, 1);
    numbers_round_to_themselves(m);
    let v = super::round::units_of(m);
    if m > BINADE {
        super::lemma_units_of_strict(BINADE as nat, m);
    }
    super::arith::lemma_nearest_scale(v, 1, 2);
    assert(super::round::nearest(2 * v, 1) == BINADE + m);
}

/// A whole number below `2^53` is a binary64 number itself.
pub proof fn small_wholes_are_exact(n: u64)
    requires
        n < 0x20_0000_0000_0000,
    ensures
        F64::from_u64(n).units() == n * super::arith::unit(),
        F64::from_u64(n).is_finite(),
        !F64::from_u64(n).negative(),
{
    reveal(F64::spec_from_u64);
    lemma_whole_is_finite(n);
    let u = super::arith::unit();
    if n == 0 {
        lemma_mul_basics(u as int);
        super::round::lemma_half_even_exact(0, 1);
    } else {
        let l = super::arith::lemma_digits(n as nat);
        lemma2_to64();
        lemma2_to64_rest();
        if l > 53 {
            if l > 54 {
                lemma_pow2_strictly_increases(53, (l - 1) as nat);
            }
        }
        let i = (53 - l) as nat;
        let j = (1074 - i) as nat;
        let q = pow2(i);
        let r = n as nat * q;
        lemma_pow2_adds(i, j);
        lemma_pow2_adds(l, i);
        lemma_pow2_adds((l - 1) as nat, i);
        lemma_pow2_pos(i);
        assert(pow2((l - 1) as nat) * q <= n as nat * q) by (nonlinear_arith)
            requires
                pow2((l - 1) as nat) <= n,
        ;
        assert(n as nat * q < pow2(l) * q) by (nonlinear_arith)
            requires
                n < pow2(l),
                q > 0,
        ;
        super::root::lemma_units_of_binade(j, r);
        let p = pow2(j);
        assert((n as nat * q) * p == n as nat * (q * p)) by (nonlinear_arith);
        numbers_round_to_themselves(j * (BINADE as nat) + r);
    }
}

/// `1` is `2^1074` smallest subnormals.
pub proof fn lemma_one()
    ensures
        F64::one().units() == super::arith::unit(),
{
    super::root::lemma_units_of_binade(1022, BINADE as nat);
    lemma_pow2_adds(52, 1022);
    lemma2_to64();
    lemma2_to64_rest();
}

/// Multiplying by one changes nothing.
pub proof fn one_is_neutral(x: F64)
    requires
        x.is_finite(),
    ensures
        x.times(F64::one()) == x,
        F64::one().times(x) == x,
{
    times_commute(x, F64::one());
    reveal(F64::spec_times);
    lemma_one();
    lemma_unit_positive();
    let n = super::arith::size(x.units());
    let u = super::arith::unit();
    super::arith::lemma_nearest_scale(n, 1, u);
    assert(1 * u == u);
    numbers_round_to_themselves(x.magnitude() as nat);
}

/// The two compare alike with every number: they are the same one, the two zeros, or both NaN.
pub open spec fn alike(a: F64, b: F64) -> bool {
    a.is_nan() && b.is_nan() || (!a.is_nan() && !b.is_nan() && a.position() == b.position())
}

/// A finite number times a zero is a zero.
pub proof fn zero_of_anything_is_zero(x: F64, z: F64)
    requires
        x.is_finite(),
        z.magnitude() == 0,
    ensures
        x.times(z).magnitude() == 0,
        z.times(x).magnitude() == 0,
{
    times_commute(x, z);
    reveal(F64::spec_times);
    lemma_unit_positive();
    let n = super::arith::size(x.units());
    let u = super::arith::unit();
    lemma_mul_basics(n as int);
    super::arith::lemma_nearest_scale(0, 1, u);
    assert(0 * u == 0);
    assert(1 * u == u);
    super::round::lemma_half_even_exact(0, 1);
}

/// Adding a zero changes nothing that a comparison sees.
pub proof fn zero_adds_nothing(x: F64, z: F64)
    requires
        z.magnitude() == 0,
    ensures
        alike(x.plus(z), x),
{
    reveal(F64::spec_plus);
    if x.is_finite() {
        lemma_sum_place(x, z);
        lemma_number_place(x);
    }
}

/// What compares alike still does with the same number added.
pub proof fn plus_keeps_likeness(a: F64, b: F64, c: F64)
    requires
        alike(a, b),
    ensures
        alike(a.plus(c), b.plus(c)),
{
    reveal(F64::spec_plus);
    if a.is_finite() && b.is_finite() && c.is_finite() {
        lemma_units_order(a, b);
        lemma_units_order(b, a);
        lemma_sum_place(a, c);
        lemma_sum_place(b, c);
    }
}

/// A whole number below `2^53` rounds to itself.
pub proof fn small_wholes_round_to_themselves(n: u64)
    requires
        n < 0x20_0000_0000_0000,
    ensures
        F64::from_u64(n).round_to_u64() == n,
{
    reveal(F64::spec_round_to_u64);
    small_wholes_are_exact(n);
    lemma_unit_positive();
    let u = super::arith::unit();
    let x = n as nat * u;
    assert(x >= 0);
    assert(2 * x + u == n * (2 * u) + u) by (nonlinear_arith)
        requires
            x == n as nat * u,
    ;
    lemma_fundamental_div_mod_converse((2 * x + u) as int, (2 * u) as int, n as int, u as int);
}

/// Either zero rounds to zero.
pub proof fn zeros_round_to_zero(z: F64)
    requires
        z.magnitude() == 0,
    ensures
        z.round_to_u64() == 0,
{
    reveal(F64::spec_round_to_u64);
    lemma_unit_positive();
    let u = super::arith::unit();
    lemma_basic_div(u as int, (2 * u) as int);
}

/// A finite number is below `2^2098` smallest subnormals.
proof fn lemma_finite_size(x: F64)
    requires
        x.is_finite(),
    ensures
        super::arith::size(x.units()) < pow2(2098),
{
    super::root::lemma_units_of_binade(2046, BINADE as nat);
    lemma_pow2_adds(52, 2046);
    lemma2_to64();
    lemma2_to64_rest();
    super::lemma_units_of_strict(x.magnitude() as nat, 0x7FF0_0000_0000_0000);
}

/// A number from `2^-50` on, divided by a positive finite one, is still positive.
pub proof fn quotients_stay_positive(a: F64, b: F64)
    requires
        (F64 { bits: 0x3CD0_0000_0000_0000 }).at_most(a),
        a.is_finite(),
        F64::zero().less(b),
        b.is_finite(),
    ensures
        F64::zero().less(a.over(b)),
{
    reveal(F64::spec_over);
    let least = F64 { bits: 0x3CD0_0000_0000_0000 };
    lemma_units_order(least, a);
    super::root::lemma_units_of_binade(972, BINADE as nat);
    lemma_pow2_adds(52, 972);
    lemma2_to64();
    lemma2_to64_rest();
    lemma_finite_size(b);
    let x = super::arith::size(a.units());
    let u = super::arith::unit();
    let z = super::arith::size(b.units());
    super::lemma_units_of_strict(0, b.magnitude() as nat);
    lemma_pow2_adds(1024, 1074);
    assert(x * u >= pow2(1024) * u) by (nonlinear_arith)
        requires
            x >= pow2(1024),
    ;
    assert(1 * z <= (x * u) * 1);
    rounding_keeps_order(1, 1, x * u, z);
    super::round::lemma_half_even_exact(1, 1);
}

/// Dividing by one changes nothing.
pub proof fn one_changes_no_quotient(x: F64)
    requires
        x.is_finite(),
    ensures
        x.over(F64::one()) == x,
{
    reveal(F64::spec_over);
    lemma_one();
    lemma_unit_positive();
    let n = super::arith::size(x.units());
    let u = super::arith::unit();
    super::arith::lemma_nearest_scale(n, 1, u);
    assert(1 * u == u);
    numbers_round_to_themselves(x.magnitude() as nat);
}

/// The whole number one is `1`.
pub proof fn one_is_whole()
    ensures
        F64::from_u64(1) == F64::one(),
{
    reveal(F64::spec_from_u64);
    lemma_one();
    let u = super::arith::unit();
    assert(1 * u == u);
    numbers_round_to_themselves(0x3FF0_0000_0000_0000);
}

/// Multiplying by minus one changes the sign alone.
pub proof fn minus_one_negates(x: F64)
    requires
        x.is_finite(),
    ensures
        F64::one().negated().times(x) == x.negated(),
{
    one_is_neutral(x);
    reveal(F64::spec_times);
    lemma_one();
    assert(super::arith::size(F64::one().negated().units()) == super::arith::unit());
}

/// Half of one and one is one.
pub proof fn halves_make_one()
    ensures
        (F64 { bits: 0x3FE0_0000_0000_0000 }).times(F64::one().plus(F64::one())) == F64::one(),
        F64::one().plus(F64::one()).is_finite(),
        is_amount(F64::one().plus(F64::one())),
{
    let half = F64 { bits: 0x3FE0_0000_0000_0000 };
    one_is_whole();
    doubling_is_exact(1);
    small_wholes_are_exact(2);
    lemma_unit_positive();
    reveal(F64::spec_times);
    super::root::lemma_units_of_binade(1021, BINADE as nat);
    lemma_pow2_adds(52, 1021);
    lemma_pow2_unfold(1074);
    lemma2_to64();
    lemma2_to64_rest();
    let u = super::arith::unit();
    let h = super::arith::size(half.units());
    assert(h * (2 * u) == u * u) by (nonlinear_arith)
        requires
            2 * h == u,
    ;
    super::arith::lemma_nearest_scale(u, 1, u);
    assert(1 * u == u);
    lemma_one();
    numbers_round_to_themselves(0x3FF0_0000_0000_0000);
}

/// Zero divided by anything but zero is zero.
pub proof fn zero_shared_is_zero(z: F64, by: F64)
    requires
        z.magnitude() == 0,
        !by.is_nan(),
        by.magnitude() > 0,
    ensures
        z.over(by).magnitude() == 0,
{
    reveal(F64::spec_over);
    if by.is_finite() {
        let d = super::arith::size(by.units());
        let u = super::arith::unit();
        super::lemma_units_of_strict(0, by.magnitude() as nat);
        lemma_mul_basics(u as int);
        super::arith::lemma_nearest_scale(0, 1, d);
        assert(0 * d == 0);
        assert(1 * d == d);
        super::round::lemma_half_even_exact(0, 1);
    }
}

/// A finite number less itself is zero.
pub proof fn difference_with_itself(x: F64)
    requires
        x.is_finite(),
    ensures
        x.minus(x).magnitude() == 0,
{
    reveal(F64::spec_minus);
    reveal(F64::spec_plus);
    assert(x.negated().units() == -x.units());
}

/// A number less one that is not smaller is not positive.
pub proof fn difference_is_not_positive(a: F64, b: F64)
    requires
        a.is_finite(),
        b.is_finite(),
        a.at_most(b),
    ensures
        a.minus(b).at_most(F64::zero()),
{
    reveal(F64::spec_minus);
    let n = b.negated();
    lemma_units_order(a, b);
    lemma_sum_place(a, n);
    super::round::lemma_half_even_exact(0, 1);
    lemma_place_order(a.units() + n.units(), 0);
}

/// A number less a smaller one is positive: rounding never takes a difference to nothing.
pub proof fn difference_is_positive(a: F64, b: F64)
    requires
        a.is_finite(),
        b.is_finite(),
        b.less(a),
    ensures
        F64::zero().less(a.minus(b)),
{
    reveal(F64::spec_minus);
    let n = b.negated();
    super::order_is_by_value(b, a);
    lemma_sum_place(a, n);
    super::round::lemma_half_even_exact(1, 1);
    lemma_place_order(1, a.units() + n.units());
}

/// A positive number goes into itself once.
pub proof fn itself_goes_once(x: F64)
    requires
        x.is_finite(),
        x.magnitude() > 0,
    ensures
        x.over(x) == F64::one(),
{
    reveal(F64::spec_over);
    super::lemma_units_of_strict(0, x.magnitude() as nat);
    let n = super::arith::size(x.units());
    let u = super::arith::unit();
    lemma_one();
    super::arith::lemma_nearest_scale(u, 1, n);
    assert(n * u == u * n && 1 * n == n) by (nonlinear_arith);
    numbers_round_to_themselves(0x3FF0_0000_0000_0000);
}

/// A zero in front of a number adds nothing to it.
pub proof fn zero_adds_nothing_in_front(z: F64, x: F64)
    requires
        z.magnitude() == 0,
    ensures
        alike(z.plus(x), x),
{
    zero_adds_nothing(x, z);
    reveal(F64::spec_plus);
}

/// An amount less one that is not larger is an amount.
pub proof fn difference_is_an_amount(a: F64, b: F64)
    requires
        is_amount(a),
        a.is_finite(),
        is_amount(b),
        b.at_most(a),
    ensures
        is_amount(a.minus(b)),
{
    difference_is_not_negative(a, b);
    reveal(F64::spec_minus);
    reveal(F64::spec_plus);
    super::order_is_by_value(b, a);
}

/// The sign of a product: positive for factors on the same side of zero, negative for others.
pub proof fn signs_of_products(a: F64, b: F64)
    requires
        a.is_finite(),
        b.is_finite(),
    ensures
        F64::zero().at_most(a) && F64::zero().at_most(b) ==> F64::zero().at_most(a.times(b)),
        a.at_most(F64::zero()) && b.at_most(F64::zero()) ==> F64::zero().at_most(a.times(b)),
        F64::zero().at_most(a) && b.at_most(F64::zero()) ==> a.times(b).at_most(F64::zero()),
        a.at_most(F64::zero()) && F64::zero().at_most(b) ==> a.times(b).at_most(F64::zero()),
{
    if a.magnitude() == 0 {
        zero_of_anything_is_zero(b, a);
    }
    if b.magnitude() == 0 {
        zero_of_anything_is_zero(a, b);
    }
    reveal(F64::spec_times);
}

/// The sign of a quotient by a positive number is that of what is divided.
pub proof fn signs_of_quotients(a: F64, b: F64)
    requires
        a.is_finite(),
        b.is_finite(),
        F64::zero().less(b),
    ensures
        F64::zero().at_most(a) ==> F64::zero().at_most(a.over(b)),
        a.at_most(F64::zero()) ==> a.over(b).at_most(F64::zero()),
{
    if a.magnitude() == 0 {
        zero_shared_is_zero(a, b);
    }
    reveal(F64::spec_over);
}

/// Multiplying by an amount keeps the order of numbers of either sign.
pub proof fn times_an_amount_keeps_order(a: F64, b: F64, c: F64)
    requires
        a.is_finite(),
        b.is_finite(),
        c.is_finite(),
        is_amount(c),
        a.at_most(b),
    ensures
        c.times(a).at_most(c.times(b)),
{
    signs_of_products(c, a);
    signs_of_products(c, b);
    reveal(F64::spec_times);
    if F64::zero().less(a) {
        times_keeps_order(a, b, c);
        times_commute(a, c);
        times_commute(b, c);
    } else if b.less(F64::zero()) {
        let x = a.negated();
        let y = b.negated();
        times_keeps_order(y, x, c);
        times_commute(x, c);
        times_commute(y, c);
    }
}

/// Adding what is not negative does not lower a number, and adding what is not positive does not
/// raise it.
pub proof fn signs_move_sums(x: F64, by: F64)
    requires
        x.is_finite(),
        !by.is_nan(),
    ensures
        F64::zero().at_most(by) ==> x.at_most(x.plus(by)),
        by.at_most(F64::zero()) ==> x.plus(by).at_most(x),
{
    zero_adds_nothing(x, F64::zero());
    if F64::zero().at_most(by) {
        plus_keeps_order(F64::zero(), by, x);
    }
    if by.at_most(F64::zero()) {
        plus_keeps_order(by, F64::zero(), x);
    }
}

/// Products with numbers that compare alike compare alike.
pub proof fn likeness_of_products(a: F64, b: F64, c: F64)
    requires
        a.is_finite(),
        b.is_finite(),
        alike(b, c),
    ensures
        alike(a.times(b), a.times(c)),
{
    if b != c {
        zero_of_anything_is_zero(a, b);
        zero_of_anything_is_zero(a, c);
        reveal(F64::spec_times);
    }
}

/// Dividing by a positive number keeps the order of numbers of either sign.
pub proof fn over_a_positive_keeps_order(a: F64, b: F64, c: F64)
    requires
        a.is_finite(),
        b.is_finite(),
        c.is_finite(),
        F64::zero().less(c),
        a.at_most(b),
    ensures
        a.over(c).at_most(b.over(c)),
{
    signs_of_quotients(a, c);
    signs_of_quotients(b, c);
    if F64::zero().less(a) {
        over_keeps_order(a, b, c);
    } else if b.less(F64::zero()) {
        over_keeps_order(b.negated(), a.negated(), c);
        negated_quotients(a, c);
        negated_quotients(b, c);
    }
}

/// The quotient of a negated number is the negated quotient.
pub proof fn negated_quotients(a: F64, b: F64)
    requires
        a.is_finite(),
        !b.is_nan(),
        b.magnitude() > 0,
    ensures
        a.negated().over(b) == a.over(b).negated(),
{
    reveal(F64::spec_over);
}

/// One less a half is a half.
pub proof fn half_is_left_of_one()
    ensures
        F64::one().minus(F64 { bits: 0x3FE0_0000_0000_0000 }) == (F64 {
            bits: 0x3FE0_0000_0000_0000,
        }),
{
    let half = F64 { bits: 0x3FE0_0000_0000_0000 };
    lemma_one();
    reveal(F64::spec_minus);
    reveal(F64::spec_plus);
    super::root::lemma_units_of_binade(1021, BINADE as nat);
    lemma_pow2_adds(52, 1021);
    lemma_pow2_unfold(1074);
    lemma2_to64();
    lemma2_to64_rest();
    lemma_unit_positive();
    assert(2 * half.units() == super::arith::unit());
    numbers_round_to_themselves(0x3FE0_0000_0000_0000);
}

/// With the whole share, the other of two numbers does not count.
pub proof fn whole_shares_decide(x: F64, other: F64)
    requires
        x.is_finite(),
        other.is_finite(),
    ensures
        alike(F64::one().times(x).plus(F64::one().minus(F64::one()).times(other)), x),
{
    let nothing = F64::one().minus(F64::one());
    difference_with_itself(F64::one());
    zero_of_anything_is_zero(other, nothing);
    one_is_neutral(x);
    zero_adds_nothing(x, nothing.times(other));
}

/// With no share, the first of two numbers does not count.
pub proof fn no_share_counts_nothing(share: F64, x: F64, other: F64)
    requires
        share.magnitude() == 0,
        x.is_finite(),
        other.is_finite(),
    ensures
        alike(share.times(x).plus(F64::one().minus(share).times(other)), other),
{
    zero_of_anything_is_zero(x, share);
    reveal(F64::spec_minus);
    zero_adds_nothing(F64::one(), share.negated());
    assert(F64::one().minus(share) == F64::one());
    one_is_neutral(other);
    zero_adds_nothing_in_front(share.times(x), other);
}

/// A mix of two amounts is not lowered by raising one of them.
pub proof fn mixes_keep_order(share: F64, a: F64, b: F64, c: F64, d: F64)
    requires
        is_amount(share),
        share.at_most(F64::one()),
        is_amount(a),
        is_amount(c),
        a.at_most(b),
        c.at_most(d),
        is_amount(b),
        is_amount(d),
        b.is_finite(),
        d.is_finite(),
    ensures
        share.times(a).plus(F64::one().minus(share).times(c)).at_most(
            share.times(b).plus(F64::one().minus(share).times(d)),
        ),
{
    let one = F64::one();
    let rest = one.minus(share);
    difference_is_an_amount(one, share);
    minus_an_amount_is_less(one, share);
    times_an_amount_keeps_order(a, b, share);
    times_an_amount_keeps_order(c, d, rest);
    times_commute(rest, c);
    times_commute(rest, d);
    times_commute(share, b);
    times_keeps_order(c, one.max(c), rest);
    times_keeps_order(rest, one, d);
    one_is_neutral(d);
    times_keeps_order(share, one, b);
    one_is_neutral(b);
    plus_keeps_order(share.times(a), share.times(b), rest.times(c));
    plus_keeps_order(rest.times(c), rest.times(d), share.times(b));
}

/// A whole number and one make the next whole number, as the numbers are rounded.
pub proof fn one_more_whole(n: u64)
    requires
        n < 0x20_0000_0000_0000,
    ensures
        F64::from_u64(n).plus(F64::one()) == F64::from_u64((n + 1) as u64),
        F64::from_u64((n + 1) as u64).minus(F64::one()) == F64::from_u64(n) || n + 1
            == 0x20_0000_0000_0000,
{
    small_wholes_are_exact(n);
    lemma_one();
    lemma_unit_positive();
    let u = super::arith::unit();
    assert((n + 1) * u == n * u + u && n * u >= 0) by (nonlinear_arith)
        requires
            u >= 0,
    ;
    reveal(F64::spec_plus);
    reveal(F64::spec_minus);
    reveal(F64::spec_from_u64);
    if n + 1 < 0x20_0000_0000_0000 {
        small_wholes_are_exact((n + 1) as u64);
        if n == 0 {
            super::round::lemma_half_even_exact(0, 1);
        }
    }
}

/// A normal positive number is half of its double, where that is finite.
pub proof fn half_of_the_double(x: F64)
    requires
        is_amount(x),
        x.magnitude() >= BINADE,
        x.plus(x).is_finite(),
    ensures
        x.over(x.plus(x)) == (F64 { bits: 0x3FE0_0000_0000_0000 }),
{
    let half = F64 { bits: 0x3FE0_0000_0000_0000 };
    amounts_add_up(x, x);
    reveal(F64::spec_over);
    reveal(F64::spec_plus);
    super::lemma_units_of_strict(0, x.magnitude() as nat);
    numbers_round_to_themselves((x.magnitude() + BINADE) as nat);
    assert(x.plus(x).units() == 2 * x.units());
    let n = super::arith::size(x.units());
    let u = super::arith::unit();
    let h = super::arith::size(half.units());
    super::root::lemma_units_of_binade(1021, BINADE as nat);
    lemma_pow2_adds(52, 1021);
    lemma_pow2_unfold(1074);
    lemma2_to64();
    lemma2_to64_rest();
    assert(2 * h == u);
    super::arith::lemma_nearest_scale(h, 1, 2 * n);
    assert(h * (2 * n) == n * u && 1 * (2 * n) == 2 * n) by (nonlinear_arith)
        requires
            2 * h == u,
    ;
    numbers_round_to_themselves(0x3FE0_0000_0000_0000);
}

} // verus!
