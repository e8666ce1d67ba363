//! The first outcome pulls the fitted value of a regression towards it, whatever the rounding.
//!
//! Numbers are counted in units of the smallest subnormal.  Those from `2^-100` to `2^100` are far
//! enough from both ends of the range that every result on the way is off by a hundredth at most.
use vstd::arithmetic::power2::*;
use vstd::prelude::*;

use crate::binary64::F64;
use crate::prediction::regression::RegressionView;

verus! {

/// `2^100`.
spec fn wide() -> int {
    pow2(100) as int
}

/// `2^-100`, in units.
spec fn least() -> int {
    pow2(974) as int
}

/// `2^1023`, in units.
spec fn huge() -> int {
    pow2(2097) as int
}

/// One, in units.
spec fn one() -> int {
    crate::binary64::arith::unit() as int
}

/// How the bounds compare.
proof fn lemma_bounds()
    ensures
        one() == wide() * least(),
        pow2(1174) == wide() * wide() * least(),
        wide() >= 1,
        least() >= 0x100_0000_0000_0000 * (wide() * wide() * wide() * wide()),
        1000 * (wide() * wide() * wide() * wide() * least()) <= huge(),
        2000 * (wide() * wide() * wide() * wide() * least()) <= huge(),
        huge() > 0,
        least() >= 1,
        one() > 0,
{
    lemma_pow2_adds(100, 974);
    lemma_pow2_adds(100, 1074);
    lemma_pow2_adds(100, 100);
    lemma_pow2_adds(200, 100);
    lemma_pow2_adds(300, 100);
    lemma_pow2_adds(574, 400);
    lemma_pow2_adds(400, 974);
    lemma_pow2_adds(723, 1374);
    lemma_pow2_strictly_increases(56, 574);
    lemma_pow2_strictly_increases(11, 723);
    lemma_pow2_pos(100);
    lemma_pow2_pos(400);
    lemma_pow2_pos(974);
    lemma_pow2_pos(1074);
    lemma_pow2_pos(1374);
    lemma_pow2_pos(2097);
    lemma2_to64();
    lemma2_to64_rest();
    let (w, l) = (wide(), least());
    assert(w * (w * l) == w * w * l) by (nonlinear_arith);
    assert(pow2(574) * pow2(400) >= 0x100_0000_0000_0000 * pow2(400)) by (nonlinear_arith)
        requires
            pow2(574) >= 0x100_0000_0000_0000,
            pow2(400) >= 0,
    ;
    assert(pow2(723) * pow2(1374) >= 2000 * pow2(1374)) by (nonlinear_arith)
        requires
            pow2(723) >= 2000,
            pow2(1374) >= 0,
    ;
}

/// `x` is from `2^-100` to `2^100`.
pub open spec fn is_ordinary(x: F64) -> bool {
    (F64 { bits: 0x39B0_0000_0000_0000 }).at_most(x) && x.at_most(
        F64 { bits: 0x4630_0000_0000_0000 },
    )
}

proof fn lemma_ordinary(x: F64)
    requires
        is_ordinary(x),
    ensures
        x.is_finite(),
        !x.negative(),
        x.magnitude() > 0,
        least() <= x.units() <= wide() * wide() * least(),
{
    lemma_bounds();
    let low = F64 { bits: 0x39B0_0000_0000_0000 };
    let high = F64 { bits: 0x4630_0000_0000_0000 };
    crate::binary64::root::lemma_units_of_binade(922, 0x0010_0000_0000_0000);
    crate::binary64::root::lemma_units_of_binade(1122, 0x0010_0000_0000_0000);
    lemma_pow2_adds(52, 922);
    lemma_pow2_adds(52, 1122);
    lemma2_to64_rest();
    crate::binary64::order_is_by_value(low, x);
    crate::binary64::order_is_by_value(x, high);
}

/// A feature is nothing, or ordinary, and `a` is about a hundred times it.
spec fn is_hundredfold(x: F64, a: F64) -> bool {
    &&& x.is_finite()
    &&& a.is_finite()
    &&& 99 * x.units() <= a.units() <= 101 * x.units()
    &&& x.units() == 0 || least() <= x.units() <= wide() * wide() * least()
}

/// The covariance times a feature of a fresh regression is about a hundred times the feature.
proof fn lemma_hundredfold(x: F64, a: F64)
    requires
        x == F64::zero() || is_ordinary(x),
        crate::binary64::order::alike(a, (F64 { bits: 0x4059_0000_0000_0000 }).times(x)),
    ensures
        is_hundredfold(x, a),
        0 <= x.units(),
{
    let h = F64 { bits: 0x4059_0000_0000_0000 };
    let p = h.times(x);
    lemma_bounds();
    let (w, l, u) = (wide(), least(), one());
    if x == F64::zero() {
        crate::binary64::order::zero_of_anything_is_zero(h, x);
        assert(a.magnitude() == 0);
    } else {
        lemma_ordinary(x);
        crate::binary64::root::lemma_units_of_binade(1028, 0x0019_0000_0000_0000);
        lemma_pow2_adds(46, 1028);
        lemma2_to64();
        lemma2_to64_rest();
        assert(h.units() == 100 * u);
        let v = x.units();
        assert(100 * u * v >= 0x0010_0000_0000_0000 * u && 100 * u * v <= huge() * u)
            by (nonlinear_arith)
            requires
                v >= l,
                v <= w * w * l,
                l >= 0x100_0000_0000_0000 * (w * w * w * w),
                1000 * (w * w * w * w * l) <= huge(),
                w >= 1,
                u >= 0,
                l >= 0,
        {
            assert(w * w >= 1);
            assert(w * w * w * w == (w * w) * (w * w));
            assert((w * w) * (w * w) >= w * w);
            assert((w * w) * (w * w) * l >= w * w * l);
            assert(100 * v >= 0x0010_0000_0000_0000);
            assert(100 * v <= huge());
            assert(u * (100 * v) >= u * 0x0010_0000_0000_0000);
            assert(u * (100 * v) <= u * huge());
        }
        crate::binary64::error::products_are_close(h, x);
        let r = p.units();
        assert(99 * v <= r <= 101 * v) by (nonlinear_arith)
            requires
                100 * (r * u - 100 * u * v) <= 100 * u * v,
                100 * (100 * u * v - r * u) <= 100 * u * v,
                u > 0,
        {
            assert(100 * ((r - 100 * v) * u) <= 100 * (v * u));
            assert(100 * ((100 * v - r) * u) <= 100 * (v * u));
        }
        assert(a.units() == p.units());
    }
}

/// A feature times the covariance times it.
proof fn lemma_form(x: F64, a: F64)
    requires
        is_hundredfold(x, a),
        0 <= x.units(),
    ensures
        ({
            let s = x.times(a);
            &&& s.is_finite()
            &&& 0 <= s.units() <= 103 * (wide() * wide() * wide() * least())
            &&& 99 * (x.units() * a.units()) <= 100 * (s.units() * one())
        }),
{
    lemma_bounds();
    let (w, l, u) = (wide(), least(), one());
    let (v, b) = (x.units(), a.units());
    let top = huge();
    let w2 = w * w;
    let w4 = w2 * w2;
    assert(w * w * w * w == w4) by (nonlinear_arith)
        requires
            w4 == (w * w) * (w * w),
    ;
    assert(w2 >= w && w4 >= w2) by (nonlinear_arith)
        requires
            w >= 1,
            w2 == w * w,
            w4 == w2 * w2,
    ;
    if v == 0 {
        assert(b == 0);
        assert(v * b == 0);
        assert(top * u >= 0) by (nonlinear_arith)
            requires
                top >= 0,
                u >= 0,
        ;
    } else {
        assert(v * b >= 99 * (l * l)) by (nonlinear_arith)
            requires
                v >= l,
                b >= 99 * v,
                l >= 0,
        {
            assert(v * b >= v * (99 * v));
            assert(v * v >= l * l);
        }
        assert(v * b <= 101 * (w4 * (l * l))) by (nonlinear_arith)
            requires
                0 <= v <= w2 * l,
                0 <= b <= 101 * v,
                w4 == w2 * w2,
        {
            assert(v * b <= v * (101 * v));
            assert(v * v <= (w2 * l) * (w2 * l));
            assert((w2 * l) * (w2 * l) == w4 * (l * l));
        }
        assert(99 * (l * l) >= 0x0010_0000_0000_0000 * u) by (nonlinear_arith)
            requires
                u == w * l,
                l >= 0x100_0000_0000_0000 * w4,
                w4 >= w,
                l >= 0,
                w >= 1,
        {
            assert(l >= 0x0010_0000_0000_0000 * w);
            assert(l * l >= 0x0010_0000_0000_0000 * w * l);
        }
        assert(101 * (w4 * (l * l)) <= top * u) by (nonlinear_arith)
            requires
                u == w * l,
                1000 * (w4 * l) <= top,
                w >= 1,
                l >= 0,
                w4 >= 1,
        {
            assert(w4 * l >= 0);
            assert((1000 * (w4 * l)) * l <= top * l);
            assert(top * l <= top * (w * l));
            assert((w4 * l) * l == w4 * (l * l));
        }
    }
    crate::binary64::error::products_are_close(x, a);
    let s = x.times(a).units();
    assert(100 * (s * u) <= 101 * (v * b));
    if v == 0 {
        assert(s == 0) by (nonlinear_arith)
            requires
                100 * (s * u) <= 0,
                s >= 0,
                u > 0,
        ;
        assert(103 * (w * w * w * l) >= 0) by (nonlinear_arith)
            requires
                w >= 0,
                l >= 0,
        ;
    } else {
        assert(s <= 103 * (w * w * w * l)) by (nonlinear_arith)
            requires
                100 * (s * u) <= 101 * (101 * (w4 * (l * l))),
                u == w * l,
                w4 == (w * w) * (w * w),
                w >= 1,
                l >= 1,
        {
            let c = w * w * w * l;
            assert(w4 * (l * l) == c * (w * l));
            assert(100 * (s * (w * l)) <= 10201 * (c * (w * l)));
            assert(w * l >= 1);
            assert((100 * s - 10201 * c) * (w * l) <= 0);
            assert(100 * s <= 10201 * c);
            assert(c >= 0);
        }
    }
}

/// What the new weight of a feature adds to the fitted value: about its share of the covariance
/// form, of the outcome.
proof fn lemma_fit(x: F64, a: F64, denom: F64, y: F64)
    requires
        is_hundredfold(x, a),
        0 <= x.units(),
        is_ordinary(y),
        denom.is_finite(),
        one() <= 3 * denom.units(),
        denom.units() <= 450 * (wide() * wide() * wide() * least()),
    ensures
        ({
            let k = a.over(denom);
            let w = k.times(y);
            let p = w.times(x);
            let s = x.times(a);
            &&& k.is_finite() && w.is_finite() && p.is_finite()
            &&& 0 <= k.units() && 0 <= w.units()
            &&& 0 <= p.units() <= 330 * (wide() * wide() * wide() * wide() * least())
            &&& x.units() > 0 ==> p.units() > 0
            &&& 100 * (p.units() * denom.units()) <= 105 * (s.units() * y.units())
        }),
{
    lemma_bounds();
    lemma_ordinary(y);
    lemma_form(x, a);
    let (w, l, u, top) = (wide(), least(), one(), huge());
    let (v, b, d, z) = (x.units(), a.units(), denom.units(), y.units());
    let s = x.times(a).units();
    let w2 = w * w;
    let w3 = w2 * w;
    let w4 = w2 * w2;
    assert(w * w * w * w == w4) by (nonlinear_arith)
        requires
            w4 == (w * w) * (w * w),
    ;
    assert(w2 >= w && w3 >= w2 && w4 >= w3 && w4 == w3 * w) by (nonlinear_arith)
        requires
            w >= 1,
            w2 == w * w,
            w3 == w2 * w,
            w4 == w2 * w2,
    ;
    let k = a.over(denom).units();
    let m = a.over(denom).times(y).units();
    let p = a.over(denom).times(y).times(x).units();
    if v == 0 {
        assert(0 * u == 0);
        assert(top * d >= 0 && top * u >= 0) by (nonlinear_arith)
            requires
                top >= 0,
                d >= 0,
                u >= 0,
        ;
        crate::binary64::error::quotients_are_close(a, denom);
        assert(k == 0) by (nonlinear_arith)
            requires
                100 * (k * d - 0) <= 0,
                k >= 0,
                d > 0,
        ;
        assert(0 * z == 0);
        crate::binary64::error::products_are_close(a.over(denom), y);
        assert(m == 0) by (nonlinear_arith)
            requires
                100 * (m * u - 0) <= 0,
                m >= 0,
                u > 0,
        ;
        assert(0 * v == 0);
        crate::binary64::error::products_are_close(a.over(denom).times(y), x);
        assert(p == 0) by (nonlinear_arith)
            requires
                100 * (p * u - 0) <= 0,
                p >= 0,
                u > 0,
        ;
        assert(0 * d == 0);
        assert(s * z >= 0) by (nonlinear_arith)
            requires
                s >= 0,
                z >= 0,
        ;
        assert(w4 * l >= 0) by (nonlinear_arith)
            requires
                w4 >= 0,
                l >= 0,
        ;
    } else {
        lemma_gain(v, b, d, w, w2, w3, w4, l, u, top);
        crate::binary64::error::quotients_are_close(a, denom);
        lemma_gain_bounds(k, v, b, d, w, w2, w3, l, u);
        lemma_weight(k, z, w, w2, w4, l, u, top);
        crate::binary64::error::products_are_close(a.over(denom), y);
        lemma_weight_bounds(m, k, z, w, w2, w3, w4, l, u);
        lemma_share(m, v, w, w2, w3, w4, l, u, top);
        crate::binary64::error::products_are_close(a.over(denom).times(y), x);
        lemma_share_bounds(p, m, v, w, w2, w3, w4, l, u);
        lemma_chain(v, b, s, k, m, p, z, d, u);
    }
}

/// A gain can be computed.
proof fn lemma_gain(
    v: int,
    b: int,
    d: int,
    w: int,
    w2: int,
    w3: int,
    w4: int,
    l: int,
    u: int,
    top: int,
)
    requires
        l <= v <= w2 * l,
        99 * v <= b <= 101 * v,
        u <= 3 * d,
        d <= 450 * (w3 * l),
        u == w * l,
        1 <= w <= w2 <= w3 <= w4,
        w3 == w2 * w,
        l >= 0x100_0000_0000_0000 * w4,
        1000 * (w4 * l) <= top,
    ensures
        b * u >= 0x0010_0000_0000_0000 * d,
        b * u <= top * d,
{
    assert(b * u >= 99 * (l * u)) by (nonlinear_arith)
        requires
            b >= 99 * l,
            u >= 0,
    ;
    assert(99 * (l * u) >= 0x0010_0000_0000_0000 * (450 * (w3 * l))) by (nonlinear_arith)
        requires
            u == w * l,
            l >= 0x100_0000_0000_0000 * w4,
            w4 >= w3,
            w >= 1,
            w3 >= 0,
    {
        assert(u >= l);
        assert(l * u >= l * l);
        assert(l * l >= (0x100_0000_0000_0000 * w3) * l);
        assert((0x100_0000_0000_0000 * w3) * l == 0x100_0000_0000_0000 * (w3 * l));
        assert(w3 * l >= 0);
    }
    assert(w2 * l <= w4 * l && w2 * l >= 0) by (nonlinear_arith)
        requires
            0 <= w2 <= w4,
            l >= 0,
    ;
    assert(b * u <= top * d) by (nonlinear_arith)
        requires
            b <= 101 * (w2 * l),
            u <= 3 * d,
            u >= 0,
            303 * (w2 * l) <= top,
            w2 * l >= 0,
    {
        assert(b * u <= (101 * (w2 * l)) * u);
        assert((101 * (w2 * l)) * u <= (101 * (w2 * l)) * (3 * d));
        assert((303 * (w2 * l)) * d <= top * d);
        assert((101 * (w2 * l)) * (3 * d) == (303 * (w2 * l)) * d);
    }
}

/// How large a gain is.
proof fn lemma_gain_bounds(
    k: int,
    v: int,
    b: int,
    d: int,
    w: int,
    w2: int,
    w3: int,
    l: int,
    u: int,
)
    requires
        l <= v <= w2 * l,
        99 * v <= b <= 101 * v,
        0 < u <= 3 * d,
        d <= 450 * (w3 * l),
        u == w * l,
        1 <= w <= w2 <= w3,
        w3 == w2 * w,
        l >= 1,
        k >= 0,
        100 * (k * d - b * u) <= b * u,
        100 * (b * u - k * d) <= b * u,
    ensures
        k * (5 * w2) >= l,
        k <= 310 * (w2 * l),
{
    assert(k * d >= 98 * (l * u)) by (nonlinear_arith)
        requires
            100 * (k * d) >= 99 * (b * u),
            b >= 99 * l,
            u >= 0,
            l >= 0,
    {
        assert(b * u >= (99 * l) * u);
        assert((99 * l) * u == 99 * (l * u));
        assert(l * u >= 0);
    }
    assert(k * (450 * (w3 * l)) >= 98 * (l * u)) by (nonlinear_arith)
        requires
            k * d >= 98 * (l * u),
            d <= 450 * (w3 * l),
            k >= 0,
    ;
    assert(k * (5 * w2) >= l) by (nonlinear_arith)
        requires
            k * (450 * (w3 * l)) >= 98 * (l * u),
            u == w * l,
            w3 == w2 * w,
            w >= 1,
            l >= 1,
            k >= 0,
            w2 >= 1,
    {
        let c = w * l;
        assert(c >= 1);
        assert(k * (450 * (w3 * l)) == (450 * (k * w2)) * c);
        assert(98 * (l * u) == (98 * l) * c);
        assert((450 * (k * w2) - 98 * l) * c >= 0);
        assert(450 * (k * w2) >= 98 * l);
        assert(k * (5 * w2) == 5 * (k * w2));
    }
    assert(k <= 310 * (w2 * l)) by (nonlinear_arith)
        requires
            100 * (k * d) <= 101 * (b * u),
            b <= 101 * (w2 * l),
            0 < u <= 3 * d,
            k >= 0,
    {
        let c = w2 * l;
        assert(b * u <= (101 * c) * u);
        assert(k * u <= k * (3 * d));
        assert(k * (3 * d) == 3 * (k * d));
        assert(100 * (k * u) <= 300 * (k * d));
        assert(300 * (k * d) <= 303 * (b * u));
        assert(303 * (b * u) <= 303 * ((101 * c) * u));
        assert((100 * k - 30603 * c) * u <= 0);
        assert(100 * k <= 30603 * c);
        assert(k >= 0 && c >= 0 || c < 0);
    }
}

/// A new weight can be computed.
proof fn lemma_weight(k: int, z: int, w: int, w2: int, w4: int, l: int, u: int, top: int)
    requires
        k * (5 * w2) >= l,
        0 <= k <= 310 * (w2 * l),
        l <= z <= w2 * l,
        u == w * l,
        1 <= w <= w2 <= w4,
        w4 == w2 * w2,
        l >= 0x100_0000_0000_0000 * w4,
        l >= 1,
        1000 * (w4 * l) <= top,
    ensures
        k * z >= 0x0010_0000_0000_0000 * u,
        k * z <= top * u,
{
    assert(k >= 0x0010_0000_0000_0000 * w) by (nonlinear_arith)
        requires
            k * (5 * w2) >= l,
            l >= 0x100_0000_0000_0000 * w4,
            w4 == w2 * w2,
            1 <= w <= w2,
    {
        assert(k * (5 * w2) >= (0x100_0000_0000_0000 * w2) * w2);
        assert((5 * k - 0x100_0000_0000_0000 * w2) * w2 >= 0);
        assert(5 * k >= 0x100_0000_0000_0000 * w2);
    }
    assert(k * z >= (0x0010_0000_0000_0000 * w) * l) by (nonlinear_arith)
        requires
            k >= 0x0010_0000_0000_0000 * w,
            z >= l,
            w >= 0,
            l >= 0,
    ;
    assert((0x0010_0000_0000_0000 * w) * l == 0x0010_0000_0000_0000 * u) by (nonlinear_arith)
        requires
            u == w * l,
    ;
    assert(k * z <= top * u) by (nonlinear_arith)
        requires
            0 <= k <= 310 * (w2 * l),
            0 <= z <= w2 * l,
            w4 == w2 * w2,
            1000 * (w4 * l) <= top,
            u == w * l,
            w >= 1,
            l >= 1,
            w2 >= 1,
    {
        let c = w2 * l;
        assert(k * z <= (310 * c) * c);
        assert(c * c == (w4 * l) * l);
        assert(w4 * l >= 0);
        assert((310 * (w4 * l)) * l <= top * l);
        assert(u >= l);
        assert(top * l <= top * u);
    }
}

/// How large a new weight is.
proof fn lemma_weight_bounds(
    m: int,
    k: int,
    z: int,
    w: int,
    w2: int,
    w3: int,
    w4: int,
    l: int,
    u: int,
)
    requires
        k * (5 * w2) >= l,
        0 <= k <= 310 * (w2 * l),
        l <= z <= w2 * l,
        u == w * l,
        u > 0,
        1 <= w <= w2 <= w3 <= w4,
        w2 == w * w,
        w3 == w2 * w,
        w4 == w2 * w2,
        l >= 1,
        m >= 0,
        100 * (m * u - k * z) <= k * z,
        100 * (k * z - m * u) <= k * z,
    ensures
        m * (6 * w3) >= l,
        m <= 320 * (w3 * l),
{
    assert(m * (6 * w3) >= l) by (nonlinear_arith)
        requires
            100 * (m * u) >= 99 * (k * z),
            k * (5 * w2) >= l,
            z >= l,
            u == w * l,
            w3 == w2 * w,
            w >= 1,
            w2 >= 1,
            l >= 1,
            k >= 0,
            m >= 0,
    {
        assert(k * z >= k * l);
        assert(100 * (m * (w * l)) >= 99 * (k * l));
        assert((100 * (m * w) - 99 * k) * l >= 0);
        assert(100 * (m * w) >= 99 * k);
        assert((100 * (m * w)) * (5 * w2) >= (99 * k) * (5 * w2));
        assert((99 * k) * (5 * w2) == 99 * (k * (5 * w2)));
        assert((100 * (m * w)) * (5 * w2) == 500 * (m * w3));
        assert(500 * (m * w3) >= 99 * l);
        assert(m * w3 >= 0);
        assert(m * (6 * w3) == 6 * (m * w3));
    }
    assert(m <= 320 * (w3 * l)) by (nonlinear_arith)
        requires
            100 * (m * u) <= 101 * (k * z),
            0 <= k <= 310 * (w2 * l),
            0 <= z <= w2 * l,
            u == w * l,
            w3 == w2 * w,
            w2 == w * w,
            w >= 1,
            l >= 1,
    {
        let c = w2 * l;
        assert(k * z <= (310 * c) * c);
        assert(c * c == (w3 * l) * (w * l));
        assert(100 * (m * u) <= 101 * (310 * ((w3 * l) * u)));
        assert((100 * m - 31310 * (w3 * l)) * u <= 0);
        assert(u >= 1);
        assert(100 * m <= 31310 * (w3 * l));
        assert(w3 * l >= 0);
    }
}

/// What a new weight adds to the fitted value can be computed.
proof fn lemma_share(
    m: int,
    v: int,
    w: int,
    w2: int,
    w3: int,
    w4: int,
    l: int,
    u: int,
    top: int,
)
    requires
        m * (6 * w3) >= l,
        0 <= m <= 320 * (w3 * l),
        l <= v <= w2 * l,
        u == w * l,
        1 <= w <= w2 <= w3 <= w4,
        w2 == w * w,
        w3 == w2 * w,
        w4 == w3 * w,
        l >= 0x100_0000_0000_0000 * w4,
        l >= 1,
        1000 * (w4 * l) <= top,
    ensures
        m * v >= 0x0010_0000_0000_0000 * u,
        m * v <= top * u,
{
    assert(m >= 0x0010_0000_0000_0000 * w) by (nonlinear_arith)
        requires
            m * (6 * w3) >= l,
            l >= 0x100_0000_0000_0000 * w4,
            w4 == w3 * w,
            w >= 1,
            w3 >= 1,
    {
        assert((6 * m - 0x100_0000_0000_0000 * w) * w3 >= 0);
        assert(6 * m >= 0x100_0000_0000_0000 * w);
    }
    assert(m * v >= (0x0010_0000_0000_0000 * w) * l) by (nonlinear_arith)
        requires
            m >= 0x0010_0000_0000_0000 * w,
            v >= l,
            w >= 0,
            l >= 0,
    ;
    assert((0x0010_0000_0000_0000 * w) * l == 0x0010_0000_0000_0000 * u) by (nonlinear_arith)
        requires
            u == w * l,
    ;
    assert(m * v <= top * u) by (nonlinear_arith)
        requires
            0 <= m <= 320 * (w3 * l),
            0 <= v <= w2 * l,
            w3 == w2 * w,
            w4 == w3 * w,
            w2 == w * w,
            1000 * (w4 * l) <= top,
            u == w * l,
            w >= 1,
            l >= 1,
    {
        assert(m * v <= (320 * (w3 * l)) * (w2 * l));
        assert((w3 * l) * (w2 * l) == (w4 * l) * (w * l));
        assert(w4 * l >= 0);
        assert(w * l >= 1);
        assert((320 * (w4 * l)) * (w * l) <= top * (w * l));
    }
}

/// How much a new weight adds to the fitted value.
proof fn lemma_share_bounds(
    p: int,
    m: int,
    v: int,
    w: int,
    w2: int,
    w3: int,
    w4: int,
    l: int,
    u: int,
)
    requires
        0 <= m <= 320 * (w3 * l),
        l <= v <= w2 * l,
        u == w * l,
        u > 0,
        w >= 1,
        w2 == w * w,
        w3 == w2 * w,
        w4 == w3 * w,
        l >= 1,
        p >= 0,
        m * v > 0,
        100 * (p * u - m * v) <= m * v,
        100 * (m * v - p * u) <= m * v,
    ensures
        0 < p <= 330 * (w4 * l),
{
    assert(p > 0) by (nonlinear_arith)
        requires
            100 * (p * u) >= 99 * (m * v),
            m * v > 0,
            u > 0,
    ;
    assert(p <= 330 * (w4 * l)) by (nonlinear_arith)
        requires
            100 * (p * u) <= 101 * (m * v),
            0 <= m <= 320 * (w3 * l),
            0 <= v <= w2 * l,
            u == w * l,
            w2 == w * w,
            w3 == w2 * w,
            w4 == w3 * w,
            w >= 1,
            l >= 1,
    {
        assert(m * v <= (320 * (w3 * l)) * (w2 * l));
        assert((w3 * l) * (w2 * l) == (w4 * l) * (w * l));
        assert((100 * p - 32320 * (w4 * l)) * u <= 0);
        assert(u >= 1);
        assert(100 * p <= 32320 * (w4 * l));
        assert(w4 * l >= 0);
    }
}

/// What is added to the fitted value is at most the feature's share of the covariance form, of the
/// outcome, but for a twentieth.
proof fn lemma_chain(
    v: int,
    b: int,
    s: int,
    k: int,
    m: int,
    p: int,
    z: int,
    d: int,
    u: int,
)
    requires
        v >= 0,
        k >= 0,
        m >= 0,
        p >= 0,
        s >= 0,
        z >= 0,
        d >= 0,
        u > 0,
        99 * (v * b) <= 100 * (s * u),
        100 * (k * d) <= 101 * (b * u),
        100 * (m * u) <= 101 * (k * z),
        100 * (p * u) <= 101 * (m * v),
    ensures
        100 * (p * d) <= 105 * (s * z),
{
    let a1 = p * u * (u * d);
    let a2 = m * u * (v * d);
    let a3 = k * d * (z * v);
    let a4 = v * b * (u * z);
    let a5 = s * u * (u * z);
    assert(100 * a1 <= 101 * a2) by (nonlinear_arith)
        requires
            a1 == p * u * (u * d),
            a2 == m * u * (v * d),
            100 * (p * u) <= 101 * (m * v),
            u >= 0,
            d >= 0,
    {
        let c = u * d;
        assert(c >= 0);
        assert((100 * (p * u)) * c <= (101 * (m * v)) * c);
        assert(m * v * c == a2);
    }
    assert(100 * a2 <= 101 * a3) by (nonlinear_arith)
        requires
            a2 == m * u * (v * d),
            a3 == k * d * (z * v),
            100 * (m * u) <= 101 * (k * z),
            v >= 0,
            d >= 0,
    {
        let c = v * d;
        assert(c >= 0);
        assert((100 * (m * u)) * c <= (101 * (k * z)) * c);
        assert(k * z * c == a3);
    }
    assert(100 * a3 <= 101 * a4) by (nonlinear_arith)
        requires
            a3 == k * d * (z * v),
            a4 == v * b * (u * z),
            100 * (k * d) <= 101 * (b * u),
            z >= 0,
            v >= 0,
    {
        let c = z * v;
        assert(c >= 0);
        assert((100 * (k * d)) * c <= (101 * (b * u)) * c);
        assert(b * u * c == a4);
    }
    assert(99 * a4 <= 100 * a5) by (nonlinear_arith)
        requires
            a4 == v * b * (u * z),
            a5 == s * u * (u * z),
            99 * (v * b) <= 100 * (s * u),
            u >= 0,
            z >= 0,
    {
        let c = u * z;
        assert(c >= 0);
        assert((99 * (v * b)) * c <= (100 * (s * u)) * c);
    }
    assert(a5 >= 0) by (nonlinear_arith)
        requires
            a5 == s * u * (u * z),
            s >= 0,
            u >= 0,
            z >= 0,
    ;
    assert(100 * a1 <= 105 * a5);
    assert(100 * (p * d) <= 105 * (s * z)) by (nonlinear_arith)
        requires
            100 * a1 <= 105 * a5,
            a1 == p * u * (u * d),
            a5 == s * u * (u * z),
            u > 0,
    {
        let c = u * u;
        assert(c > 0);
        assert(a1 == (p * d) * c);
        assert(a5 == (s * z) * c);
        assert((100 * (p * d) - 105 * (s * z)) * c <= 0);
    }
}

/// The first outcome of a regression brings the fitted value for its features nearer to it: with
/// features that are nothing or from `2^-100` to `2^100`, one of them not nothing, and an outcome
/// of that size, what is fitted to the features afterwards is closer to the outcome than what was
/// fitted to them before.
pub proof fn first_outcomes_pull_the_fit(x: Seq<F64>, y: F64, i: int)
    requires
        forall|j: int| 0 <= j < 4 ==> (#[trigger] x[j]) == F64::zero() || is_ordinary(x[j]),
        0 <= i < 4,
        is_ordinary(x[i]),
        is_ordinary(y),
    ensures
        ({
            let reg = RegressionView::fresh();
            let before = crate::prediction::regression::dot(reg.w, x);
            let after = crate::prediction::regression::dot(reg.updated(x, y).w, x);
            let off = |fitted: F64| crate::binary64::arith::size(y.units() - fitted.units());
            &&& after.is_finite()
            &&& off(after) < off(before)
            &&& 0 < after.units()
        }),
{
    let reg = RegressionView::fresh();
    let h = F64 { bits: 0x4059_0000_0000_0000 };
    let (w, l, u, top) = (wide(), least(), one(), huge());
    lemma_bounds();
    lemma_ordinary(y);
    lemma_ordinary(x[i]);
    let a = reg.px(x);
    assert forall|k: int| 0 <= k < 4 implies is_hundredfold(x[k], #[trigger] a[k]) && 0
        <= x[k].units() by {
        assert forall|j: int| 0 <= j < 4 && j != k implies (#[trigger] reg.p[k][j]).times(
            x[j],
        ).magnitude() == 0 by {
            if x[j] != F64::zero() {
                lemma_ordinary(x[j]);
            }
            crate::binary64::order::zero_of_anything_is_zero(x[j], reg.p[k][j]);
        }
        crate::prediction::regression::one_product_counts(reg.p[k], x, k);
        assert(reg.p[k][k] == h);
        assert(a[k] == crate::prediction::regression::dot(reg.p[k], x));
        assert(x[k] == F64::zero() || is_ordinary(x[k]));
        lemma_hundredfold(x[k], a[k]);
    }
    assert(is_hundredfold(x[0], a[0]) && is_hundredfold(x[1], a[1]));
    assert(is_hundredfold(x[2], a[2]) && is_hundredfold(x[3], a[3]));
    assert(is_hundredfold(x[i], a[i]));
    // The covariance form and the denominator.
    lemma_form(x[0], a[0]);
    lemma_form(x[1], a[1]);
    lemma_form(x[2], a[2]);
    lemma_form(x[3], a[3]);
    let c = w * w * w * l;
    let c4 = w * w * w * w * l;
    assert(c4 >= c && c >= u) by (nonlinear_arith)
        requires
            c == w * w * w * l,
            c4 == w * w * w * w * l,
            u == w * l,
            w >= 1,
            l >= 0,
    {
        assert(u >= 0);
        assert(w * w >= 1);
        assert(c == (w * w) * u);
        assert(c4 == w * c);
    }
    let (s0, s1, s2, s3) = (
        x[0].times(a[0]),
        x[1].times(a[1]),
        x[2].times(a[2]),
        x[3].times(a[3]),
    );
    crate::binary64::error::sums_are_close(s0, s1);
    crate::binary64::error::sums_are_close(s0.plus(s1), s2);
    crate::binary64::error::sums_are_close(s0.plus(s1).plus(s2), s3);
    let form = crate::prediction::regression::dot(x, a);
    let some = s0.units() + s1.units() + s2.units() + s3.units();
    assert(970299 * some <= 1000000 * form.units());
    assert(form.units() <= 430 * c);
    lemma_forgetting();
    let eased = reg.forget.plus(form);
    crate::binary64::error::sums_are_close(reg.forget, form);
    let denom = eased.plus(reg.l2);
    crate::binary64::error::sums_are_close(eased, reg.l2);
    let d = denom.units();
    assert(9801 * form.units() <= 10000 * d);
    assert(u <= 3 * d && d <= 450 * c);
    // The weights.
    lemma_fit(x[0], a[0], denom, y);
    lemma_fit(x[1], a[1], denom, y);
    lemma_fit(x[2], a[2], denom, y);
    lemma_fit(x[3], a[3], denom, y);
    lemma_surprise(x, y);
    let after = reg.updated(x, y);
    let (p0, p1, p2, p3) = (
        after.w[0].times(x[0]),
        after.w[1].times(x[1]),
        after.w[2].times(x[2]),
        after.w[3].times(x[3]),
    );
    lemma_new_weight(y, a[0].over(denom), after.w[0], x[0]);
    lemma_new_weight(y, a[1].over(denom), after.w[1], x[1]);
    lemma_new_weight(y, a[2].over(denom), after.w[2], x[2]);
    lemma_new_weight(y, a[3].over(denom), after.w[3], x[3]);
    crate::binary64::error::sums_are_close(p0, p1);
    crate::binary64::error::sums_are_close(p0.plus(p1), p2);
    crate::binary64::error::sums_are_close(p0.plus(p1).plus(p2), p3);
    let fitted = crate::prediction::regression::dot(after.w, x).units();
    let all = p0.units() + p1.units() + p2.units() + p3.units();
    assert(1000000 * fitted <= 1030301 * all);
    assert(after.w[i].times(x[i]).units() > 0);
    assert(fitted > 0);
    lemma_nearer(
        fitted,
        all,
        p0.units(),
        p1.units(),
        p2.units(),
        p3.units(),
        some,
        s0.units(),
        s1.units(),
        s2.units(),
        s3.units(),
        form.units(),
        d,
        y.units(),
    );
}

/// Forgetting and damping are positive and at most one, and forgetting at least a half.
proof fn lemma_forgetting()
    ensures
        one() <= 2 * RegressionView::fresh().forget.units() <= 2 * one(),
        0 <= RegressionView::fresh().l2.units() <= one(),
{
    let f = F64 { bits: 0x3FEF_AE14_7AE1_47AE };
    let l2 = F64 { bits: 0x3F50_624D_D2F1_A9FC };
    let half = F64 { bits: 0x3FE0_0000_0000_0000 };
    crate::binary64::order::lemma_one();
    crate::binary64::root::lemma_units_of_binade(1021, 0x0010_0000_0000_0000);
    lemma_pow2_adds(52, 1021);
    lemma_pow2_unfold(1074);
    lemma2_to64_rest();
    crate::binary64::order_is_by_value(half, f);
    crate::binary64::order_is_by_value(f, F64::one());
    crate::binary64::order_is_by_value(F64::zero(), l2);
    crate::binary64::order_is_by_value(l2, F64::one());
}

/// To a fresh regression the outcome is the surprise.
proof fn lemma_surprise(x: Seq<F64>, y: F64)
    requires
        forall|j: int| 0 <= j < 4 ==> (#[trigger] x[j]) == F64::zero() || is_ordinary(x[j]),
        is_ordinary(y),
    ensures
        y.minus(crate::prediction::regression::dot(RegressionView::fresh().w, x)) == y,
        crate::prediction::regression::dot(RegressionView::fresh().w, x).units() == 0,
{
    let reg = RegressionView::fresh();
    assert forall|j: int| 0 <= j < 4 implies (#[trigger] reg.w[j]).times(x[j]).magnitude()
        == 0 by {
        if x[j] != F64::zero() {
            lemma_ordinary(x[j]);
        }
        crate::binary64::order::zero_of_anything_is_zero(x[j], reg.w[j]);
    }
    crate::prediction::regression::one_product_counts(reg.w, x, 0);
    let fitted = crate::prediction::regression::dot(reg.w, x);
    assert(reg.w[0].times(x[0]).magnitude() == 0);
    assert(fitted.magnitude() == 0);
    lemma_ordinary(y);
    reveal(F64::spec_minus);
    crate::binary64::order::zero_adds_nothing(y, fitted.negated());
}

/// A weight that was nothing becomes the gain times the outcome.
proof fn lemma_new_weight(y: F64, gain: F64, weight: F64, feature: F64)
    requires
        weight == F64::zero().plus(gain.times(y)),
        gain.times(y).is_finite(),
        feature.is_finite(),
    ensures
        weight.times(feature).units() == gain.times(y).times(feature).units(),
        weight.times(feature).is_finite() == gain.times(y).times(feature).is_finite(),
{
    crate::binary64::order::zero_adds_nothing_in_front(F64::zero(), gain.times(y));
    crate::binary64::order::likeness_of_products(feature, weight, gain.times(y));
    crate::binary64::order::times_commute(feature, weight);
    crate::binary64::order::times_commute(feature, gain.times(y));
    let p = weight.times(feature);
    let q = gain.times(y).times(feature);
    assert(!p.is_nan()) by {
        reveal(F64::spec_times);
    }
    assert(p.position() == q.position());
}

/// The fitted value is less than twice the outcome.
proof fn lemma_nearer(
    fitted: int,
    all: int,
    p0: int,
    p1: int,
    p2: int,
    p3: int,
    some: int,
    s0: int,
    s1: int,
    s2: int,
    s3: int,
    form: int,
    d: int,
    z: int,
)
    requires
        1000000 * fitted <= 1030301 * all,
        all == p0 + p1 + p2 + p3,
        some == s0 + s1 + s2 + s3,
        100 * (p0 * d) <= 105 * (s0 * z),
        100 * (p1 * d) <= 105 * (s1 * z),
        100 * (p2 * d) <= 105 * (s2 * z),
        100 * (p3 * d) <= 105 * (s3 * z),
        970299 * some <= 1000000 * form,
        9801 * form <= 10000 * d,
        d > 0,
        z > 0,
    ensures
        fitted < 2 * z,
{
    assert(all * d == p0 * d + p1 * d + p2 * d + p3 * d) by (nonlinear_arith)
        requires
            all == p0 + p1 + p2 + p3,
    ;
    assert(some * z == s0 * z + s1 * z + s2 * z + s3 * z) by (nonlinear_arith)
        requires
            some == s0 + s1 + s2 + s3,
    ;
    let (t1, t2, t3, t4, t5) = (fitted * d, all * d, some * z, form * z, d * z);
    assert(1000000 * t1 <= 1030301 * t2) by (nonlinear_arith)
        requires
            t1 == fitted * d,
            t2 == all * d,
            1000000 * fitted <= 1030301 * all,
            d >= 0,
    ;
    assert(970299 * t3 <= 1000000 * t4) by (nonlinear_arith)
        requires
            t3 == some * z,
            t4 == form * z,
            970299 * some <= 1000000 * form,
            z >= 0,
    ;
    assert(9801 * t4 <= 10000 * t5) by (nonlinear_arith)
        requires
            t4 == form * z,
            t5 == d * z,
            9801 * form <= 10000 * d,
            z >= 0,
    ;
    assert(t5 > 0) by (nonlinear_arith)
        requires
            t5 == d * z,
            d > 0,
            z > 0,
    ;
    assert(t1 < 2 * t5);
    assert(fitted < 2 * z) by (nonlinear_arith)
        requires
            t1 == fitted * d,
            t5 == d * z,
            t1 < 2 * t5,
            d > 0,
    {
        assert((fitted - 2 * z) * d < 0);
    }
}

} // verus!
