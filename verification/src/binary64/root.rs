//! Square roots.
use vstd::arithmetic::mul::*;
use vstd::arithmetic::power2::*;
use vstd::prelude::*;

use super::round::{bit_length, power, BINADE};
use super::{parts, F64};

verus! {

/// The number with magnitude bits `m` is nearer to the square root of `w` squared smallest
/// subnormals than its neighbours: the root lies between the two midpoints.
pub open spec fn nearest_root(w: nat, m: nat) -> bool {
    let below = super::round::units_of((m - 1) as nat) + super::round::units_of(m);
    let above = super::round::units_of(m) + super::round::units_of(m + 1);
    below * below < 4 * w < above * above
}

/// `r` is the square root of `x`: the nearest number, a zero for itself, and NaN for a negative
/// number.
pub open spec fn is_sqrt(x: F64, r: F64) -> bool {
    if x.magnitude() == 0 {
        r == x
    } else if x.is_nan() || x.negative() {
        r.is_nan()
    } else if x.is_infinite() {
        r == x
    } else {
        &&& !r.negative()
        &&& r.is_finite()
        &&& r.magnitude() > 0
        &&& nearest_root(
            super::arith::size(x.units()) * super::arith::unit(),
            r.magnitude() as nat,
        )
    }
}

/// The whole part of the square root of `w`.
fn whole_root(w: u128) -> (s: u128)
    requires
        w < 0x1000_0000_0000_0000_0000_0000_0000,
    ensures
        s * s <= w < (s + 1) * (s + 1),
        s < 0x40_0000_0000_0000,
{
    let mut s: u128 = 0;
    let mut step: u128 = 0x20_0000_0000_0000;
    assert(w < (0 + 2 * step) * (0 + 2 * step)) by (nonlinear_arith)
        requires
            w < 0x1000_0000_0000_0000_0000_0000_0000,
            step == 0x20_0000_0000_0000,
    ;
    assert(step == pow2(53)) by {
        lemma2_to64();
        lemma2_to64_rest();
    }
    let mut k: u32 = 53;
    loop
        invariant_except_break
            k <= 53,
            step == pow2(k as nat),
            step <= 0x20_0000_0000_0000,
            s + 2 * step <= 0x40_0000_0000_0000,
            s * s <= w,
            w < (s + 2 * step) * (s + 2 * step),
        ensures
            s * s <= w,
            w < (s + 1) * (s + 1),
            s < 0x40_0000_0000_0000,
        decreases k,
    {
        let t: u128 = s + step;
        assert(t * t <= 0x40_0000_0000_0000 * 0x40_0000_0000_0000) by (nonlinear_arith)
            requires
                t <= 0x40_0000_0000_0000,
        ;
        if t * t <= w {
            assert(t + step == s + 2 * step);
            s = t;
        }
        assert(w < (s + step) * (s + step));
        proof {
            lemma2_to64();
        }
        if k == 0 {
            break;
        }
        proof {
            lemma_pow2_unfold(k as nat);
        }
        k = k - 1;
        step = step / 2;
    }
    s
}

/// A magnitude in binades: `j` binades above the significand `r`.
pub proof fn lemma_units_of_binade(j: nat, r: nat)
    requires
        BINADE <= r <= 2 * BINADE,
    ensures
        super::round::units_of(j * (BINADE as nat) + r) == r * pow2(j),
    decreases j,
{
    if j == 0 {
        lemma2_to64();
        lemma_mul_basics(r as int);
        if r == 2 * BINADE {
            reveal_with_fuel(super::round::units_of, 2);
        }
    } else {
        let i = (j - 1) as nat;
        lemma_units_of_binade(i, r);
        let b = BINADE as nat;
        assert(j * b + r - b == i * b + r) by (nonlinear_arith)
            requires
                j == i + 1,
        ;
        assert(j * b + r >= 2 * b) by (nonlinear_arith)
            requires
                j >= 1,
                r >= b,
        ;
        lemma_pow2_unfold(j);
        assert(2 * (r * pow2(i)) == r * (2 * pow2(i))) by (nonlinear_arith);
    }
}

/// Rounding the whole root `s` of `w`, which has one digit more than a significand, gives the
/// nearest significand.
proof fn lemma_root_rounds(w: nat, s: nat, r: nat, h: nat)
    requires
        s * s <= w < (s + 1) * (s + 1),
        w % 2 == 0,
        2 * BINADE <= s < 4 * BINADE,
        r == (s + 1) / 2,
    ensures
        nearest_root(w * pow2(2 * h), (h + 1) * (BINADE as nat) + r),
{
    let b = BINADE as nat;
    let m = (h + 1) * b + r;
    let p = pow2(h + 1);
    lemma_units_of_binade(h + 1, r);
    lemma_pow2_pos(h + 1);
    lemma_pow2_adds(h + 1, h + 1);
    lemma_pow2_adds(2, 2 * h);
    lemma2_to64();
    assert(h + 1 + (h + 1) == 2 + 2 * h);
    assert(p * p == 4 * pow2(2 * h));
    let q = pow2(2 * h);
    assert(4 * (w * q) == w * (p * p)) by (nonlinear_arith)
        requires
            p * p == 4 * q,
    ;
    // Above.
    let up = super::round::units_of(m + 1);
    assert(up >= (r + 1) * p) by {
        if r < 2 * b {
            lemma_units_of_binade(h + 1, r + 1);
        } else {
            assert((h + 1) * b + r + 1 == (h + 2) * b + (b + 1)) by (nonlinear_arith)
                requires
                    r == 2 * b,
            ;
            lemma_units_of_binade(h + 2, b + 1);
            lemma_pow2_unfold(h + 2);
            assert((b + 1) * (2 * p) >= (r + 1) * p) by (nonlinear_arith)
                requires
                    r == 2 * b,
                    p >= 0,
            ;
        }
    }
    let above = r * p + up;
    assert(above >= (2 * r + 1) * p) by (nonlinear_arith)
        requires
            above == r * p + up,
            up >= (r + 1) * p,
    ;
    assert(w < (2 * r + 1) * (2 * r + 1)) by (nonlinear_arith)
        requires
            w < (s + 1) * (s + 1),
            s + 1 <= 2 * r + 1,
            s >= 0,
    ;
    assert(w * (p * p) < above * above) by (nonlinear_arith)
        requires
            w < (2 * r + 1) * (2 * r + 1),
            above >= (2 * r + 1) * p,
            p > 0,
            w >= 0,
    {
        assert(w * (p * p) < ((2 * r + 1) * (2 * r + 1)) * (p * p));
        assert(((2 * r + 1) * (2 * r + 1)) * (p * p) == ((2 * r + 1) * p) * ((2 * r + 1) * p));
    }
    // Below.
    let down = super::round::units_of((m - 1) as nat);
    let below = down + r * p;
    super::lemma_units_of_strict((m - 1) as nat, m);
    if s % 2 == 0 {
        assert(below < (2 * r) * p) by (nonlinear_arith)
            requires
                below == down + r * p,
                down < r * p,
        ;
        assert(s == 2 * r);
        assert(below * below < w * (p * p)) by (nonlinear_arith)
            requires
                below < (2 * r) * p,
                (2 * r) * (2 * r) <= w,
                below >= 0,
                p > 0,
        {
            assert(((2 * r) * (2 * r)) * (p * p) == ((2 * r) * p) * ((2 * r) * p));
            assert(((2 * r) * (2 * r)) * (p * p) <= w * (p * p));
        }
    } else {
        assert(s == 2 * r - 1);
        lemma_units_of_binade(h + 1, (r - 1) as nat);
        assert(below == s * p) by (nonlinear_arith)
            requires
                below == (r - 1) * p + r * p,
                s == 2 * r - 1,
        ;
        assert((s * s) % 2 == 1) by (nonlinear_arith)
            requires
                s % 2 == 1,
        {
            let t = s / 2;
            assert(s == 2 * t + 1);
            assert(s * s == 2 * (2 * t * t + 2 * t) + 1);
        }
        assert(below * below < w * (p * p)) by (nonlinear_arith)
            requires
                below == s * p,
                s * s < w,
                p > 0,
        {
            assert((s * s) * (p * p) == (s * p) * (s * p));
            assert((s * s) * (p * p) < w * (p * p));
        }
    }
}

impl F64 {
    /// The square root.
    pub fn sqrt(self) -> (r: F64)
        ensures
            is_sqrt(self, r),
    {
        if self.magnitude() == 0 {
            return self;
        }
        if self.is_nan() || self.negative() {
            return F64::nan();
        }
        if self.is_infinite() {
            return self;
        }
        let (m, k) = parts(self.magnitude());
        let l = bit_length(m as u128);
        proof {
            lemma2_to64();
            lemma2_to64_rest();
            if l > 54 {
                lemma_pow2_strictly_increases(53, (l - 1) as nat);
            }
        }
        let mut t: u32 = 107 - l;
        if (k + 1074 - t) % 2 == 1 {
            t = t + 1;
        }
        let h: u32 = (k + 1074 - t) / 2;
        let w: u128 = scaled(m, l, t);
        let s = whole_root(w);
        proof {
            lemma_root_size(w as nat, s as nat);
        }
        let r: u64 = ((s + 1) / 2) as u64;
        proof {
            lemma_root_rounds(w as nat, s as nat, r as nat, h as nat);
            lemma_square_units(m as nat, k as nat, t as nat, h as nat);
            assert(pow2(53) == 2 * BINADE);
        }
        F64 { bits: (h as u64 + 1) * BINADE + r }
    }
}

proof fn lemma_root_size(w: nat, s: nat)
    requires
        s * s <= w < (s + 1) * (s + 1),
        0x400_0000_0000_0000_0000_0000_0000 <= w < 0x1000_0000_0000_0000_0000_0000_0000,
    ensures
        2 * BINADE <= s < 4 * BINADE,
{
    if s < 2 * BINADE {
        assert((s + 1) * (s + 1) <= 0x20_0000_0000_0000 * 0x20_0000_0000_0000) by (nonlinear_arith)
            requires
                s + 1 <= 0x20_0000_0000_0000,
                s >= 0,
        ;
    }
    if s >= 4 * BINADE {
        assert(s * s >= 0x40_0000_0000_0000 * 0x40_0000_0000_0000) by (nonlinear_arith)
            requires
                s >= 0x40_0000_0000_0000,
        ;
    }
}

/// `m * 2^t`, which has 107 or 108 binary digits.
fn scaled(m: u64, l: u32, t: u32) -> (w: u128)
    requires
        0 < l <= 53,
        pow2((l - 1) as nat) <= m < pow2(l as nat),
        t == 107 - l || t == 108 - l,
    ensures
        w == m * pow2(t as nat),
        w % 2 == 0,
        0x400_0000_0000_0000_0000_0000_0000 <= w < 0x1000_0000_0000_0000_0000_0000_0000,
{
    let p = power(t);
    proof {
        lemma2_to64();
        lemma2_to64_rest();
        lemma_pow2_adds(l as nat, t as nat);
        lemma_pow2_adds((l - 1) as nat, t as nat);
        lemma_pow2_adds(53, 53);
        lemma_pow2_unfold(107);
        lemma_pow2_unfold(108);
        lemma_pow2_unfold(t as nat);
        let q = pow2((t - 1) as nat);
        let hi = pow2(l as nat);
        let lo = pow2((l - 1) as nat);
        let pt = pow2(t as nat);
        lemma_pow2_pos(t as nat);
        assert(m * pt < hi * pt) by (nonlinear_arith)
            requires
                m < hi,
                pt > 0,
        ;
        assert(lo * pt <= m * pt) by (nonlinear_arith)
            requires
                lo <= m,
                pt > 0,
        ;
        assert(m * (2 * q) == 2 * (m * q)) by (nonlinear_arith);
        assert(pow2(106) == 0x20_0000_0000_0000 * 0x20_0000_0000_0000);
    }
    m as u128 * p
}

proof fn lemma_square_units(m: nat, k: nat, t: nat, h: nat)
    requires
        t + 2 * h == k + 1074,
    ensures
        (m * pow2(t)) * pow2(2 * h) == (m * pow2(k)) * super::arith::unit(),
{
    lemma_pow2_adds(t, 2 * h);
    lemma_pow2_adds(k, 1074);
    let a = pow2(t);
    let b = pow2(2 * h);
    let c = pow2(k);
    let d = pow2(1074);
    assert(a * b == c * d);
    assert((m * a) * b == (m * c) * d) by (nonlinear_arith)
        requires
            a * b == c * d,
    ;
}

/// Only one number is the square root of another, apart from the bits of a NaN.
pub proof fn sqrt_is_unique(x: F64, a: F64, b: F64)
    requires
        is_sqrt(x, a),
        is_sqrt(x, b),
        !a.is_nan(),
        !b.is_nan(),
    ensures
        a == b,
{
    let w = super::arith::size(x.units()) * super::arith::unit();
    if x.magnitude() > 0 && !x.is_infinite() {
        if a.magnitude() < b.magnitude() {
            lemma_roots_differ(w, a.magnitude() as nat, b.magnitude() as nat);
        } else if b.magnitude() < a.magnitude() {
            lemma_roots_differ(w, b.magnitude() as nat, a.magnitude() as nat);
        }
    }
}

proof fn lemma_roots_differ(w: nat, m: nat, n: nat)
    requires
        0 < m < n,
        nearest_root(w, m),
    ensures
        !nearest_root(w, n),
{
    let above = super::round::units_of(m) + super::round::units_of(m + 1);
    let below = super::round::units_of((n - 1) as nat) + super::round::units_of(n);
    if m < n - 1 {
        super::lemma_units_of_strict(m, (n - 1) as nat);
        super::lemma_units_of_strict(m + 1, n);
    }
    assert(above * above <= below * below) by (nonlinear_arith)
        requires
            0 <= above <= below,
    ;
}

} // verus!
