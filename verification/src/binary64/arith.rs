//! Sum, difference, product, quotient and integer conversions, each rounded once.
use vstd::arithmetic::div_mod::*;
use vstd::arithmetic::mul::*;
use vstd::arithmetic::power2::*;
use vstd::prelude::*;

use super::round::{bit_length, power, round_scaled, BINADE, INFINITE};
use super::{parts, F64, SIGN};

verus! {

/// The number 1 in smallest subnormals: `2^1074`.
pub open spec fn unit() -> nat {
    pow2(1074)
}

/// The number nearest to `n / d` smallest subnormals, with the given sign.
pub open spec fn rounded(negative: bool, n: nat, d: nat) -> F64 {
    F64::signed(negative, super::round::saturated(super::round::nearest(n, d)))
}

/// `|x|` as a natural number.
pub open spec fn size(x: int) -> nat {
    if x < 0 {
        (-x) as nat
    } else {
        x as nat
    }
}

/// `n / d` is scaled by a common factor without changing the nearest number.
pub proof fn lemma_nearest_scale(n: nat, d: nat, c: nat)
    requires
        d > 0,
        c > 0,
    ensures
        super::round::nearest(n * c, d * c) == super::round::nearest(n, d),
    decreases n - d,
{
    assert(d * c > 0) by (nonlinear_arith)
        requires
            d > 0,
            c > 0,
    ;
    assert((n * c < 0x0020_0000_0000_0000 * (d * c)) == (n < 0x0020_0000_0000_0000 * d))
        by (nonlinear_arith)
        requires
            c > 0,
    ;
    if n < 0x0020_0000_0000_0000 * d {
        super::round::lemma_half_even_scale(n, d, c);
    } else {
        lemma_nearest_scale(n, 2 * d, c);
        assert((2 * d) * c == 2 * (d * c)) by (nonlinear_arith);
    }
}

/// `p * 2^i / 2^j` is `p * 2^(i - j)`.
proof fn lemma_nearest_shift(p: nat, i: nat, j: nat)
    ensures
        super::round::nearest(p * pow2(i), pow2(j)) == super::round::nearest(
            super::round::scaled_num(p, i - j),
            super::round::scaled_den(i - j),
        ),
{
    lemma_pow2_pos(i);
    lemma_pow2_pos(j);
    if i >= j {
        let t = (i - j) as nat;
        lemma_pow2_adds(t, j);
        assert(p * pow2(i) == (p * pow2(t)) * pow2(j)) by (nonlinear_arith)
            requires
                pow2(i) == pow2(t) * pow2(j),
        ;
        lemma_mul_basics(pow2(j) as int);
        lemma_nearest_scale(p * pow2(t), 1, pow2(j));
    } else {
        let t = (j - i) as nat;
        lemma_pow2_adds(t, i);
        lemma_pow2_pos(t);
        lemma_nearest_scale(p, pow2(t), pow2(i));
    }
}

/// A number far above another absorbs it: adding or taking away less than a quarter of the
/// spacing below `m * 2^k` rounds back.
proof fn lemma_absorbed(m: nat, k: nat, u: nat)
    requires
        BINADE <= m < 2 * BINADE,
        k > 2,
        4 * u < pow2((k - 1) as nat),
    ensures
        super::round::nearest(m * pow2(k) + u, 1) == k * BINADE + m,
        m * pow2(k) >= u,
        super::round::nearest((m * pow2(k) - u) as nat, 1) == k * BINADE + m,
{
    let j = (k - 1) as nat;
    let w = pow2(k);
    lemma_pow2_unfold(k);
    lemma_pow2_pos(j);
    lemma_mul_basics(w as int);
    lemma_mul_basics(pow2(j) as int);
    assert(m * w >= 0x0010_0000_0000_0000 * w) by (nonlinear_arith)
        requires
            m >= 0x0010_0000_0000_0000,
    ;
    assert(m * w <= 0x001f_ffff_ffff_ffff * w) by (nonlinear_arith)
        requires
            m <= 0x001f_ffff_ffff_ffff,
    ;
    let up = m * w + u;
    assert(super::round::half_even(up, w) == m) by {
        assert(m * w == w * m) by (nonlinear_arith);
        lemma_fundamental_div_mod_converse(up as int, w as int, m as int, u as int);
    }
    super::round::lemma_nearest_in_binade(up, 1, k);
    let down = (m * w - u) as nat;
    if u == 0 {
    } else if m > 0x0010_0000_0000_0000 {
        assert(m * w >= 0x0010_0000_0000_0001 * w) by (nonlinear_arith)
            requires
                m >= 0x0010_0000_0000_0001,
        ;
        assert(super::round::half_even(down, w) == m) by {
            assert(m * w == w * (m - 1) + w) by (nonlinear_arith);
            lemma_fundamental_div_mod_converse(down as int, w as int, m - 1, w - u);
        }
        super::round::lemma_nearest_in_binade(down, 1, k);
    } else {
        let v = pow2(j);
        assert(m * w == 0x0020_0000_0000_0000 * v);
        assert(super::round::half_even(down, v) == 0x0020_0000_0000_0000) by {
            lemma_fundamental_div_mod_converse(
                down as int,
                v as int,
                0x001f_ffff_ffff_ffff,
                v - u,
            );
        }
        super::round::lemma_nearest_in_binade(down, 1, j);
    }
}

/// The finite number with the larger magnitude absorbs one that is 65 or more binades below.
proof fn lemma_far_apart(big: F64, small: F64, m: nat, k: nat, n: nat, i: nat)
    requires
        big.is_finite(),
        small.is_finite(),
        super::round::units_of(big.magnitude() as nat) == m * pow2(k),
        super::round::units_of(small.magnitude() as nat) == n * pow2(i),
        big.magnitude() == k * BINADE + m,
        BINADE <= m < 2 * BINADE,
        n < 2 * BINADE,
        k >= i + 65,
    ensures
        big.plus(small) == big,
        small.plus(big) == big,
{
    reveal(F64::spec_plus);
    let u = n * pow2(i);
    lemma2_to64();
    lemma2_to64_rest();
    lemma_pow2_adds(55, i);
    lemma_pow2_pos(i);
    assert(4 * u < 0x0080_0000_0000_0000 * pow2(i)) by (nonlinear_arith)
        requires
            u == n * pow2(i),
            n < 0x0020_0000_0000_0000,
            pow2(i) > 0,
    ;
    lemma_pow2_strictly_increases(55 + i, (k - 1) as nat);
    lemma_absorbed(m, k, u);
    lemma_pow2_pos(k);
    lemma_pow2_unfold(k);
    assert(m * pow2(k) > u) by (nonlinear_arith)
        requires
            m >= 1,
            4 * u < pow2((k - 1) as nat),
            pow2((k - 1) as nat) <= pow2(k),
            pow2(k) > 0,
    ;
}

impl F64 {
    /// `self + other`.
    #[verifier::opaque]
    pub open spec fn spec_plus(self, other: F64) -> F64 {
        if self.is_nan() || other.is_nan() {
            F64::nan()
        } else if self.is_infinite() {
            if other.is_infinite() && self.negative() != other.negative() {
                F64::nan()
            } else {
                self
            }
        } else if other.is_infinite() {
            other
        } else {
            let sum = self.units() + other.units();
            if sum == 0 {
                F64::signed(self.negative() && other.negative(), 0)
            } else {
                rounded(sum < 0, size(sum), 1)
            }
        }
    }

    /// `self - other`.
    #[verifier::opaque]
    pub open spec fn spec_minus(self, other: F64) -> F64 {
        self.plus(other.negated())
    }

    /// `self * other`.
    #[verifier::opaque]
    pub open spec fn spec_times(self, other: F64) -> F64 {
        let negative = self.negative() != other.negative();
        if self.is_nan() || other.is_nan() {
            F64::nan()
        } else if self.is_infinite() || other.is_infinite() {
            if self.magnitude() == 0 || other.magnitude() == 0 {
                F64::nan()
            } else {
                F64::signed(negative, INFINITE as nat)
            }
        } else {
            rounded(negative, size(self.units()) * size(other.units()), unit())
        }
    }

    /// `self / other`.
    #[verifier::opaque]
    pub open spec fn spec_over(self, other: F64) -> F64 {
        let negative = self.negative() != other.negative();
        if self.is_nan() || other.is_nan() {
            F64::nan()
        } else if self.is_infinite() {
            if other.is_infinite() {
                F64::nan()
            } else {
                F64::signed(negative, INFINITE as nat)
            }
        } else if other.is_infinite() {
            F64::signed(negative, 0)
        } else if other.magnitude() == 0 {
            if self.magnitude() == 0 {
                F64::nan()
            } else {
                F64::signed(negative, INFINITE as nat)
            }
        } else {
            rounded(negative, size(self.units()) * unit(), size(other.units()))
        }
    }

    /// The number nearest to `n`.
    #[verifier::opaque]
    pub open spec fn spec_from_u64(n: u64) -> F64 {
        rounded(false, n as nat * unit(), 1)
    }

    /// The whole part, kept within `0..=u64::MAX`; zero for NaN.
    #[verifier::opaque]
    pub open spec fn spec_to_u64(self) -> u64 {
        if self.is_nan() || self.negative() {
            0
        } else if self.is_infinite() || size(self.units()) / unit() > u64::MAX {
            u64::MAX
        } else {
            (size(self.units()) / unit()) as u64
        }
    }

    /// The nearest whole number, halves going up, kept within `0..=u64::MAX`; zero for NaN.
    #[verifier::opaque]
    pub open spec fn spec_round_to_u64(self) -> u64 {
        let up = (2 * size(self.units()) + unit()) / (2 * unit());
        if self.is_nan() || self.negative() {
            0
        } else if self.is_infinite() || up > u64::MAX {
            u64::MAX
        } else {
            up as u64
        }
    }

    #[verifier::when_used_as_spec(spec_plus)]
    pub fn plus(self, other: F64) -> (r: F64)
        ensures
            r == self.plus(other),
    {
        proof {
            reveal(F64::spec_plus);
        }
        if self.is_nan() || other.is_nan() {
            return F64::nan();
        }
        if self.is_infinite() {
            if other.is_infinite() && self.negative() != other.negative() {
                return F64::nan();
            }
            return self;
        }
        if other.is_infinite() {
            return other;
        }
        let (big, small) = if self.magnitude() >= other.magnitude() {
            (self, other)
        } else {
            (other, self)
        };
        let (m, k) = parts(big.magnitude());
        let (n, i) = parts(small.magnitude());
        proof {
            lemma_bigger_parts(big.magnitude() as nat, small.magnitude() as nat, m as nat, k as nat, n as nat, i as nat);
        }
        if k - i > 64 {
            proof {
                lemma_far_apart(big, small, m as nat, k as nat, n as nat, i as nat);
            }
            return big;
        }
        let gap = (k - i) as u32;
        let ghost w = pow2(i as nat);
        proof {
            lemma2_to64();
            lemma2_to64_rest();
            lemma_pow2_adds(gap as nat, i as nat);
            lemma_pow2_pos(gap as nat);
            lemma_pow2_pos(i as nat);
            if gap < 64 {
                lemma_pow2_strictly_increases(gap as nat, 64);
            }
            assert(m * pow2(gap as nat) < 0x0020_0000_0000_0000 * 0x1_0000_0000_0000_0000)
                by (nonlinear_arith)
                requires
                    m < 0x0020_0000_0000_0000,
                    0 < pow2(gap as nat) <= 0x1_0000_0000_0000_0000,
            ;
            assert(m * pow2(k as nat) == (m * pow2(gap as nat)) * w) by (nonlinear_arith)
                requires
                    pow2(k as nat) == pow2(gap as nat) * w,
            ;
        }
        let x = (m as u128) * power(gap);
        if big.negative() == small.negative() {
            let p = x + n as u128;
            proof {
                assert(p * w == x * w + n * w) by (nonlinear_arith)
                    requires
                        p == x + n,
                ;
                lemma_exact_sum(self, other, p as nat, i as nat, big.negative());
            }
            let mag = round_scaled(p, i as i32);
            F64::from_parts(big.negative(), mag)
        } else {
            proof {
                assert(x >= n) by (nonlinear_arith)
                    requires
                        x * w >= n * w,
                        w > 0,
                ;
            }
            let p = x - n as u128;
            proof {
                assert(p * w == x * w - n * w) by (nonlinear_arith)
                    requires
                        p == x - n,
                ;
                lemma_exact_sum(self, other, p as nat, i as nat, big.negative());
            }
            if p == 0 {
                return F64::zero();
            }
            let mag = round_scaled(p, i as i32);
            F64::from_parts(big.negative(), mag)
        }
    }

    #[verifier::when_used_as_spec(spec_minus)]
    pub fn minus(self, other: F64) -> (r: F64)
        ensures
            r == self.minus(other),
    {
        proof {
            reveal(F64::spec_minus);
        }
        self.plus(other.negated())
    }

    #[verifier::when_used_as_spec(spec_times)]
    pub fn times(self, other: F64) -> (r: F64)
        ensures
            r == self.times(other),
    {
        proof {
            reveal(F64::spec_times);
        }
        let negative = self.negative() != other.negative();
        if self.is_nan() || other.is_nan() {
            return F64::nan();
        }
        if self.is_infinite() || other.is_infinite() {
            if self.magnitude() == 0 || other.magnitude() == 0 {
                return F64::nan();
            }
            return F64::from_parts(negative, INFINITE);
        }
        let (m, k) = parts(self.magnitude());
        let (n, i) = parts(other.magnitude());
        proof {
            assert(m * n < 0x0020_0000_0000_0000 * 0x0020_0000_0000_0000) by (nonlinear_arith)
                requires
                    0 <= m < 0x0020_0000_0000_0000,
                    0 <= n < 0x0020_0000_0000_0000,
            ;
            let a = pow2(k as nat);
            let b = pow2(i as nat);
            lemma_pow2_adds(k as nat, i as nat);
            assert((m * a) * (n * b) == (m * n) * (a * b)) by (nonlinear_arith);
            lemma_nearest_shift((m * n) as nat, (k + i) as nat, 1074);
            assert(self.units() >= 0 <==> (!self.negative() || self.units() == 0));
        }
        let mag = round_scaled((m as u128) * (n as u128), k as i32 + i as i32 - 1074);
        F64::from_parts(negative, mag)
    }

    #[verifier::when_used_as_spec(spec_over)]
    pub fn over(self, other: F64) -> (r: F64)
        ensures
            r == self.over(other),
    {
        proof {
            reveal(F64::spec_over);
        }
        let negative = self.negative() != other.negative();
        if self.is_nan() || other.is_nan() {
            return F64::nan();
        }
        if self.is_infinite() {
            if other.is_infinite() {
                return F64::nan();
            }
            return F64::from_parts(negative, INFINITE);
        }
        if other.is_infinite() {
            return F64::from_parts(negative, 0);
        }
        if other.magnitude() == 0 {
            if self.magnitude() == 0 {
                return F64::nan();
            }
            return F64::from_parts(negative, INFINITE);
        }
        let (m, k) = parts(self.magnitude());
        let (n, i) = parts(other.magnitude());
        proof {
            super::lemma_units_of_strict(0, other.magnitude() as nat);
        }
        if self.magnitude() == 0 {
            proof {
                lemma_mul_basics(unit() as int);
                lemma_mul_basics(pow2(k as nat) as int);
                super::round::lemma_half_even_exact(0, size(other.units()));
                lemma_mul_basics(size(other.units()) as int);
            }
            return F64::from_parts(negative, 0);
        }
        let l = bit_length(m as u128);
        proof {
            lemma_quotient_room(m as nat, l as nat, n as nat);
        }
        let j: u32 = 126 - l;
        let num = (m as u128) * power(j);
        let q = num / (n as u128);
        let p = 2 * q + if num % (n as u128) == 0 {
            0u128
        } else {
            1u128
        };
        proof {
            lemma_quotient(m as nat, k as nat, n as nat, i as nat, j as nat);
        }
        let mag = round_scaled(p, k as i32 + 1074 - i as i32 - j as i32 - 1);
        F64::from_parts(negative, mag)
    }

    #[verifier::when_used_as_spec(spec_from_u64)]
    pub fn from_u64(n: u64) -> (r: F64)
        ensures
            r == F64::from_u64(n),
    {
        proof {
            reveal(F64::spec_from_u64);
        }
        proof {
            lemma2_to64();
            lemma_nearest_shift(n as nat, 1074, 0);
        }
        let mag = round_scaled(n as u128, 1074);
        F64::from_parts(false, mag)
    }

    #[verifier::when_used_as_spec(spec_to_u64)]
    pub fn to_u64(self) -> (r: u64)
        ensures
            r == self.to_u64(),
    {
        proof {
            reveal(F64::spec_to_u64);
        }
        if self.is_nan() || self.negative() {
            return 0;
        }
        if self.is_infinite() {
            return u64::MAX;
        }
        let (m, k) = parts(self.magnitude());
        if k >= 1074 {
            whole(m, k)
        } else {
            let r = 1074 - k;
            proof {
                lemma_fraction(m as nat, k as nat);
            }
            if r >= 64 {
                proof {
                    lemma2_to64_rest();
                    if r > 64 {
                        lemma_pow2_strictly_increases(64, r as nat);
                    }
                    lemma_basic_div(m as int, pow2(r as nat) as int);
                }
                0
            } else {
                let d = power(r);
                proof {
                    lemma_pow2_pos(r as nat);
                    lemma_div_is_ordered_by_denominator(m as int, 1, d as int);
                }
                ((m as u128) / d) as u64
            }
        }
    }

    #[verifier::when_used_as_spec(spec_round_to_u64)]
    pub fn round_to_u64(self) -> (r: u64)
        ensures
            r == self.round_to_u64(),
    {
        proof {
            reveal(F64::spec_round_to_u64);
        }
        if self.is_nan() || self.negative() {
            return 0;
        }
        if self.is_infinite() {
            return u64::MAX;
        }
        let (m, k) = parts(self.magnitude());
        if k >= 1074 {
            proof {
                lemma_whole_rounds(m as nat, k as nat);
            }
            whole(m, k)
        } else {
            let r = 1074 - k;
            proof {
                lemma_fraction(m as nat, k as nat);
                lemma_pow2_unfold(r as nat);
                lemma_pow2_pos((r - 1) as nat);
            }
            if r >= 64 {
                proof {
                    lemma2_to64_rest();
                    if r > 64 {
                        lemma_pow2_strictly_increases(63, (r - 1) as nat);
                    }
                    lemma_basic_div(m + pow2((r - 1) as nat), pow2(r as nat) as int);
                }
                0
            } else {
                let d = power(r);
                let half = power(r - 1);
                proof {
                    lemma2_to64_rest();
                    if r < 63 {
                        lemma_pow2_strictly_increases((r - 1) as nat, 63);
                    }
                    lemma_div_is_ordered_by_denominator(m + half, 1, d as int);
                }
                (((m as u128) + half) / d) as u64
            }
        }
    }

    fn from_parts(negative: bool, mag: u64) -> (r: F64)
        requires
            mag <= INFINITE,
        ensures
            r == F64::signed(negative, mag as nat),
    {
        if negative {
            F64 { bits: mag + SIGN }
        } else {
            F64 { bits: mag }
        }
    }
}

/// `m * 2^k` smallest subnormals, a whole number, kept within `u64`.
fn whole(m: u64, k: u32) -> (r: u64)
    requires
        k >= 1074,
        m < 2 * BINADE,
        m >= BINADE,
    ensures
        r == if (m * pow2(k as nat)) as nat / unit() > u64::MAX {
            u64::MAX as nat
        } else {
            (m * pow2(k as nat)) as nat / unit()
        },
{
    let t = k - 1074;
    proof {
        lemma_pow2_adds(t as nat, 1074);
        lemma_pow2_pos(1074);
        lemma_pow2_pos(t as nat);
        assert(m * pow2(k as nat) == (m * pow2(t as nat)) * unit()) by (nonlinear_arith)
            requires
                pow2(k as nat) == pow2(t as nat) * unit(),
        ;
        lemma_div_by_multiple(m * pow2(t as nat), unit() as int);
        lemma2_to64_rest();
        lemma2_to64();
    }
    if t >= 12 {
        proof {
            if t > 12 {
                lemma_pow2_strictly_increases(12, t as nat);
            }
            assert(m * pow2(t as nat) >= 0x0010_0000_0000_0000 * 0x1000) by (nonlinear_arith)
                requires
                    m >= 0x0010_0000_0000_0000,
                    pow2(t as nat) >= 0x1000,
            ;
        }
        u64::MAX
    } else {
        proof {
            if t < 11 {
                lemma_pow2_strictly_increases(t as nat, 11);
            }
            assert(m * pow2(t as nat) <= 0x001f_ffff_ffff_ffff * 0x800) by (nonlinear_arith)
                requires
                    0 <= m <= 0x001f_ffff_ffff_ffff,
                    0 < pow2(t as nat) <= 0x800,
            ;
        }
        ((m as u128) * power(t)) as u64
    }
}

/// A whole number is its own nearest whole number.
proof fn lemma_whole_rounds(m: nat, k: nat)
    requires
        k >= 1074,
    ensures
        (2 * (m * pow2(k)) + unit()) / (2 * unit()) == (m * pow2(k)) / unit(),
{
    let t = (k - 1074) as nat;
    lemma_pow2_adds(t, 1074);
    lemma_pow2_pos(1074);
    let x = m * pow2(t);
    let u = unit();
    assert(m * pow2(k) == x * u) by (nonlinear_arith)
        requires
            pow2(k) == pow2(t) * u,
            x == m * pow2(t),
    ;
    lemma_div_by_multiple(x as int, u as int);
    assert(2 * (x * u) + u == (2 * u) * x + u) by (nonlinear_arith);
    lemma_fundamental_div_mod_converse((2 * (x * u) + u) as int, (2 * u) as int, x as int, u as int);
}

/// Below one unit per binade the whole part and the rounding are divisions by `2^(1074 - k)`.
proof fn lemma_fraction(m: nat, k: nat)
    requires
        k < 1074,
    ensures
        (m * pow2(k)) / unit() == m / pow2((1074 - k) as nat),
        (2 * (m * pow2(k)) + unit()) / (2 * unit()) == (m + pow2((1073 - k) as nat)) / pow2(
            (1074 - k) as nat,
        ),
{
    let r = (1074 - k) as nat;
    let h = (r - 1) as nat;
    let c = pow2(k);
    lemma_pow2_adds(r, k);
    lemma_pow2_unfold(r);
    lemma_pow2_pos(k);
    lemma_pow2_pos(r);
    lemma_div_multiples_vanish_quotient(c as int, m as int, pow2(r) as int);
    assert(c * m == m * c) by (nonlinear_arith);
    assert(c * pow2(r) == pow2(r) * c) by (nonlinear_arith);
    let c2 = 2 * c;
    lemma_div_multiples_vanish_quotient(c2 as int, (m + pow2(h)) as int, pow2(r) as int);
    assert(c2 * (m + pow2(h)) == 2 * (m * c) + unit()) by (nonlinear_arith)
        requires
            c2 == 2 * c,
            unit() == pow2(r) * c,
            pow2(r) == 2 * pow2(h),
    ;
    assert(c2 * pow2(r) == 2 * unit()) by (nonlinear_arith)
        requires
            c2 == 2 * c,
            unit() == pow2(r) * c,
    ;
}

/// The number of binary digits of a positive number exists.
pub proof fn lemma_digits(p: nat) -> (l: nat)
    requires
        p > 0,
    ensures
        l > 0,
        pow2((l - 1) as nat) <= p < pow2(l),
    decreases p,
{
    lemma2_to64();
    if p == 1 {
        1
    } else {
        let l = lemma_digits(p / 2);
        lemma_pow2_unfold(l + 1);
        lemma_pow2_unfold(l);
        l + 1
    }
}

/// Room for a quotient with at least 72 binary digits in 126 bits.
proof fn lemma_quotient_room(m: nat, l: nat, n: nat)
    requires
        0 < l,
        pow2((l - 1) as nat) <= m < pow2(l),
        m < 2 * BINADE,
        0 < n < 2 * BINADE,
    ensures
        l <= 53,
        m * pow2((126 - l) as nat) < pow2(126),
        (m * pow2((126 - l) as nat)) / n >= pow2(72),
        pow2(126) == 0x4000_0000_0000_0000_0000_0000_0000_0000,
{
    lemma2_to64();
    lemma2_to64_rest();
    if l > 53 {
        lemma_pow2_strictly_increases(52, (l - 1) as nat);
        if l > 54 {
            lemma_pow2_strictly_increases(53, (l - 1) as nat);
        }
    }
    let j = (126 - l) as nat;
    lemma_pow2_pos(j);
    lemma_pow2_adds(l, j);
    lemma_pow2_adds((l - 1) as nat, j);
    lemma_pow2_adds(63, 63);
    lemma_pow2_adds(53, 72);
    assert(m * pow2(j) < pow2(l) * pow2(j)) by (nonlinear_arith)
        requires
            m < pow2(l),
            pow2(j) > 0,
    ;
    assert(m * pow2(j) >= pow2((l - 1) as nat) * pow2(j)) by (nonlinear_arith)
        requires
            m >= pow2((l - 1) as nat),
            pow2(j) > 0,
    ;
    let num = m * pow2(j);
    assert(pow2(72) * n <= num) by (nonlinear_arith)
        requires
            n <= 0x0020_0000_0000_0000,
            num >= 0x0020_0000_0000_0000 * pow2(72),
    ;
    assert(num / n >= pow2(72)) by {
        lemma_div_is_ordered((pow2(72) * n) as int, num as int, n as int);
        lemma_div_by_multiple(pow2(72) as int, n as int);
    }
}

/// A remainder counts only as one extra binary digit.
proof fn lemma_half_even_sticky(num: nat, n: nat, r: nat)
    requires
        n > 0,
        r > 0,
    ensures
        super::round::half_even(num, n * pow2(r)) == super::round::half_even(
            sticky(num, n),
            pow2(r + 1),
        ),
{
    let q = num / n;
    let m = num % n;
    let w = pow2(r);
    let h = pow2((r - 1) as nat);
    let st: nat = if m == 0 {
        0
    } else {
        1
    };
    lemma_pow2_unfold(r);
    lemma_pow2_unfold(r + 1);
    lemma_pow2_pos(r);
    lemma_pow2_pos((r - 1) as nat);
    lemma_fundamental_div_mod(num as int, n as int);
    lemma_mod_bound(num as int, n as int);
    let qq = q / w;
    let rr = q % w;
    lemma_fundamental_div_mod(q as int, w as int);
    lemma_mod_bound(q as int, w as int);
    let rest = n * rr + m;
    assert(num == qq * (n * w) + rest) by (nonlinear_arith)
        requires
            num == n * q + m,
            q == w * qq + rr,
            rest == n * rr + m,
    ;
    assert(0 <= rest < n * w) by (nonlinear_arith)
        requires
            rest == n * rr + m,
            0 <= m < n,
            0 <= rr <= w - 1,
    ;
    lemma_fundamental_div_mod_converse(num as int, (n * w) as int, qq as int, rest as int);
    let p = 2 * q + st;
    assert(p == (2 * w) * qq + (2 * rr + st)) by (nonlinear_arith)
        requires
            p == 2 * q + st,
            q == w * qq + rr,
    ;
    lemma_fundamental_div_mod_converse(p as int, (2 * w) as int, qq as int, (2 * rr + st) as int);
    if rr < h {
        assert(2 * rest < n * w) by (nonlinear_arith)
            requires
                rest == n * rr + m,
                0 <= m < n,
                rr <= h - 1,
                w == 2 * h,
        ;
    } else if rr > h {
        assert(2 * rest > n * w) by (nonlinear_arith)
            requires
                rest == n * rr + m,
                0 <= m,
                n > 0,
                rr >= h + 1,
                w == 2 * h,
        ;
    } else {
        assert(2 * rest == n * w + 2 * m) by (nonlinear_arith)
            requires
                rest == n * rr + m,
                rr == h,
                w == 2 * h,
        ;
    }
}

/// Twice the quotient, plus one if the division leaves a remainder.
spec fn sticky(num: nat, n: nat) -> nat {
    2 * (num / n) + if num % n == 0 {
        0nat
    } else {
        1nat
    }
}

/// Comparing a quotient with a whole number needs no remainder.
proof fn lemma_sticky_order(num: nat, n: nat, b: nat)
    requires
        n > 0,
    ensures
        sticky(num, n) < 2 * b <==> num < n * b,
{
    let q = num / n;
    lemma_fundamental_div_mod(num as int, n as int);
    lemma_mod_bound(num as int, n as int);
    if q < b {
        assert(n * (q + 1) <= n * b) by (nonlinear_arith)
            requires
                q + 1 <= b,
        ;
        lemma_mul_is_distributive_add(n as int, q as int, 1);
    } else {
        assert(num >= n * b) by (nonlinear_arith)
            requires
                num == n * q + num % n,
                num % n >= 0,
                q >= b,
                n > 0,
        ;
    }
}

/// A ratio with a long quotient rounds like its quotient with one extra digit for the remainder.
proof fn lemma_nearest_sticky(num: nat, n: nat, e: int)
    requires
        n > 0,
        num / n >= pow2(72),
    ensures
        super::round::nearest(
            super::round::scaled_num(num, e),
            n * super::round::scaled_den(e),
        ) == super::round::nearest(
            super::round::scaled_num(sticky(num, n), e - 1),
            super::round::scaled_den(e - 1),
        ),
{
    let p = sticky(num, n);
    lemma_pow2_pos(72);
    lemma2_to64();
    lemma2_to64_rest();
    let l = lemma_digits(p);
    if l < 73 {
        lemma_pow2_strictly_increases(l, 73);
        lemma_pow2_unfold(73);
    }
    let k: nat = if l + e - 1 > 53 {
        (l + e - 54) as nat
    } else {
        0
    };
    super::round::lemma_scaled_bounds(p, l, e - 1, k);
    super::round::lemma_scaled_half_even(p, e - 1, k);
    if e - 1 < 0 {
        lemma_pow2_pos((1 - e) as nat);
    }
    super::round::lemma_nearest_in_binade(
        super::round::scaled_num(p, e - 1),
        super::round::scaled_den(e - 1),
        k,
    );
    let r = (k - e) as nat;
    let w = pow2(r);
    let big = super::round::scaled_num(num, e);
    let den = super::round::scaled_den(e);
    let c: nat = if e >= 0 {
        pow2(e as nat)
    } else {
        1
    };
    lemma_pow2_pos(r);
    lemma_pow2_unfold(r + 1);
    if e >= 0 {
        lemma_pow2_pos(e as nat);
        lemma_pow2_adds(r, e as nat);
    } else {
        lemma_pow2_pos((-e) as nat);
        lemma_pow2_adds((-e) as nat, k);
        lemma_mul_basics(num as int);
        lemma_mul_basics(w as int);
    }
    lemma_mul_basics(pow2(k) as int);
    assert(big == num * c);
    assert(den * pow2(k) == w * c);
    assert((n * den) * pow2(k) == (n * w) * c) by (nonlinear_arith)
        requires
            den * pow2(k) == w * c,
    ;
    assert(n * w > 0) by (nonlinear_arith)
        requires
            n > 0,
            w > 0,
    ;
    assert(n * den > 0) by (nonlinear_arith)
        requires
            n > 0,
            den > 0,
    ;
    super::round::lemma_half_even_scale(num, n * w, c);
    lemma_half_even_sticky(num, n, r);
    // Both sides lie in binade `k`.
    lemma_same_binade(p, num, n, e, k);
    super::round::lemma_nearest_in_binade(big, n * den, k);
}

/// The quotient with its extra digit lies in the same binade as the ratio.
proof fn lemma_same_binade(p: nat, num: nat, n: nat, e: int, k: nat)
    requires
        n > 0,
        p == sticky(num, n),
        k > e,
        super::round::scaled_num(p, e - 1) < 0x0020_0000_0000_0000 * (super::round::scaled_den(e - 1)
            * pow2(k)),
        k == 0 || super::round::scaled_num(p, e - 1) >= 0x0010_0000_0000_0000 * (
        super::round::scaled_den(e - 1) * pow2(k)),
    ensures
        super::round::scaled_num(num, e) < 0x0020_0000_0000_0000 * ((n * super::round::scaled_den(e))
            * pow2(k)),
        k == 0 || super::round::scaled_num(num, e) >= 0x0010_0000_0000_0000 * ((n
            * super::round::scaled_den(e)) * pow2(k)),
{
    let r = (k - e) as nat;
    let w = pow2(r);
    lemma_pow2_pos(r);
    lemma_pow2_unfold(r + 1);
    lemma_mul_basics(pow2(k) as int);
    lemma_sticky_order(num, n, 0x0020_0000_0000_0000 * w);
    lemma_sticky_order(num, n, 0x0010_0000_0000_0000 * w);
    assert(n * (0x0020_0000_0000_0000 * w) == 0x0020_0000_0000_0000 * (n * w)) by (nonlinear_arith);
    assert(n * (0x0010_0000_0000_0000 * w) == 0x0010_0000_0000_0000 * (n * w)) by (nonlinear_arith);
    if e >= 1 {
        let f = (e - 1) as nat;
        let c = pow2(f);
        lemma_pow2_pos(f);
        lemma_pow2_unfold(e as nat);
        lemma_pow2_adds(r + 1, f);
        assert(pow2(k) == (2 * w) * c);
        assert((p * c < 0x0020_0000_0000_0000 * ((2 * w) * c)) == (p < 0x0020_0000_0000_0000 * (2 * w)))
            by (nonlinear_arith)
            requires
                c > 0,
        ;
        assert((p * c < 0x0010_0000_0000_0000 * ((2 * w) * c)) == (p < 0x0010_0000_0000_0000 * (2 * w)))
            by (nonlinear_arith)
            requires
                c > 0,
        ;
        lemma_pow2_adds(r, e as nat);
        let d = pow2(e as nat);
        lemma_mul_basics(n as int);
        assert((n * 1) * pow2(k) == (n * w) * d) by (nonlinear_arith)
            requires
                pow2(k) == w * d,
        ;
        assert((num * d < 0x0020_0000_0000_0000 * ((n * w) * d)) == (num < 0x0020_0000_0000_0000 * (n * w)))
            by (nonlinear_arith)
            requires
                d > 0,
        ;
        assert((num * d < 0x0010_0000_0000_0000 * ((n * w) * d)) == (num < 0x0010_0000_0000_0000 * (n * w)))
            by (nonlinear_arith)
            requires
                d > 0,
        ;
    } else {
        lemma2_to64();
        let g = (-e) as nat;
        lemma_pow2_adds(g, k);
        lemma_pow2_adds(g + 1, k);
        lemma_mul_basics(num as int);
        lemma_mul_basics(n as int);
        assert(super::round::scaled_den(e - 1) * pow2(k) == 2 * w);
        assert(super::round::scaled_den(e) == pow2(g));
        assert(super::round::scaled_num(num, e) == num);
        assert((n * pow2(g)) * pow2(k) == n * w) by (nonlinear_arith)
            requires
                pow2(g) * pow2(k) == w,
        ;
    }
}

/// The exact quotient of `m * 2^k` by `n * 2^i`, through a division that shifts `m` up by `j`.
proof fn lemma_quotient(m: nat, k: nat, n: nat, i: nat, j: nat)
    requires
        n > 0,
        (m * pow2(j)) / n >= pow2(72),
    ensures
        super::round::nearest((m * pow2(k)) * unit(), n * pow2(i)) == super::round::nearest(
            super::round::scaled_num(sticky(m * pow2(j), n), k + 1074 - i - j - 1),
            super::round::scaled_den(k + 1074 - i - j - 1),
        ),
{
    let num = m * pow2(j);
    let e = k + 1074 - i - j;
    lemma_nearest_sticky(num, n, e);
    let a = k + 1074;
    let b = i + j;
    lemma_pow2_adds(k, 1074);
    lemma_pow2_adds(i, j);
    lemma_pow2_pos(i);
    lemma_pow2_pos(j);
    lemma_pow2_pos(a);
    lemma_pow2_pos(b);
    let c = pow2(j);
    assert(((m * pow2(k)) * unit()) * c == num * pow2(a)) by (nonlinear_arith)
        requires
            pow2(a) == pow2(k) * unit(),
            num == m * c,
    ;
    assert((n * pow2(i)) * c == n * pow2(b)) by (nonlinear_arith)
        requires
            pow2(b) == pow2(i) * c,
    ;
    assert(n * pow2(i) > 0) by (nonlinear_arith)
        requires
            n > 0,
            pow2(i) > 0,
    ;
    lemma_nearest_scale((m * pow2(k)) * unit(), n * pow2(i), c);
    if e >= 0 {
        let t = e as nat;
        lemma_pow2_adds(t, b);
        lemma_mul_basics(n as int);
        assert(num * pow2(a) == (num * pow2(t)) * pow2(b)) by (nonlinear_arith)
            requires
                pow2(a) == pow2(t) * pow2(b),
        ;
        lemma_nearest_scale(num * pow2(t), n, pow2(b));
    } else {
        let t = (-e) as nat;
        lemma_pow2_adds(t, a);
        lemma_pow2_pos(t);
        assert(n * pow2(b) == (n * pow2(t)) * pow2(a)) by (nonlinear_arith)
            requires
                pow2(b) == pow2(t) * pow2(a),
        ;
        assert(n * pow2(t) > 0) by (nonlinear_arith)
            requires
                n > 0,
                pow2(t) > 0,
        ;
        lemma_nearest_scale(num, n * pow2(t), pow2(a));
    }
}

/// The parts of the larger magnitude dominate those of the smaller one.
proof fn lemma_bigger_parts(a: nat, b: nat, m: nat, k: nat, n: nat, i: nat)
    requires
        a >= b,
        a == k * BINADE + m,
        b == i * BINADE + n,
        m < 2 * BINADE,
        n < 2 * BINADE,
        k > 0 ==> m >= BINADE,
        i > 0 ==> n >= BINADE,
        super::round::units_of(a) == m * pow2(k),
        super::round::units_of(b) == n * pow2(i),
    ensures
        k >= i,
        m * pow2(k) >= n * pow2(i),
{
    if a > b {
        super::lemma_units_of_strict(b, a);
    }
    assert(k >= i) by (nonlinear_arith)
        requires
            k * 0x0010_0000_0000_0000 + m >= i * 0x0010_0000_0000_0000 + n,
            m < 0x0020_0000_0000_0000,
            i > 0 ==> n >= 0x0010_0000_0000_0000,
            k >= 0,
    ;
}

/// A sum whose exact value is `p * 2^i` in magnitude.
proof fn lemma_exact_sum(a: F64, b: F64, p: nat, i: nat, negative: bool)
    requires
        a.is_finite(),
        b.is_finite(),
        a.units() + b.units() == if negative {
            -(p * pow2(i) as int)
        } else {
            p * pow2(i) as int
        },
    ensures
        p > 0 ==> a.plus(b) == F64::signed(
            negative,
            super::round::saturated(
                super::round::nearest(
                    super::round::scaled_num(p, i as int),
                    super::round::scaled_den(i as int),
                ),
            ),
        ),
        p == 0 ==> a.plus(b) == F64::signed(a.negative() && b.negative(), 0),
        p == 0 ==> super::round::nearest(
            super::round::scaled_num(p, i as int),
            super::round::scaled_den(i as int),
        ) == 0,
{
    reveal(F64::spec_plus);
    lemma_pow2_pos(i);
    lemma2_to64();
    lemma_nearest_shift(p, i, 0);
    lemma_mul_basics(pow2(i) as int);
    assert(p > 0 ==> p * pow2(i) > 0) by (nonlinear_arith)
        requires
            pow2(i) > 0,
    ;
    if p == 0 {
        super::round::lemma_half_even_exact(0, 1);
    }
}

} // verus!
