//! IEEE 754 binary64 numbers as bit patterns, with verified comparison and arithmetic.
//!
//! A finite number is a whole multiple of the smallest subnormal, `2^-1074`; `units` is that
//! multiple.  Every operation is specified on the exact integer or ratio and one rounding, to
//! nearest with ties to even, so the results are the same on every machine.
pub mod arith;
pub mod error;
pub mod order;
pub mod root;
pub mod round;
pub mod sort;

use vstd::arithmetic::div_mod::*;
use vstd::arithmetic::mul::*;
use vstd::arithmetic::power2::*;
use vstd::prelude::*;

use self::round::{BINADE, INFINITE};

verus! {

/// The sign bit.
pub const SIGN: u64 = 0x8000_0000_0000_0000;

/// A binary64 number, held as its bit pattern.  `==` compares the patterns: the two zeros differ,
/// and a NaN is like itself.
#[derive(Clone, Copy, Debug, PartialEq, Eq, Structural)]
pub struct F64 {
    pub bits: u64,
}

impl F64 {
    pub open spec fn spec_zero() -> F64 {
        F64 { bits: 0 }
    }

    #[verifier::when_used_as_spec(spec_zero)]
    pub fn zero() -> (r: F64)
        ensures
            r == F64::zero(),
    {
        F64 { bits: 0 }
    }

    pub open spec fn spec_one() -> F64 {
        F64 { bits: 0x3ff0_0000_0000_0000 }
    }

    #[verifier::when_used_as_spec(spec_one)]
    pub fn one() -> (r: F64)
        ensures
            r == F64::one(),
    {
        F64 { bits: 0x3ff0_0000_0000_0000 }
    }

    pub open spec fn spec_nan() -> F64 {
        F64 { bits: 0x7ff8_0000_0000_0000 }
    }

    #[verifier::when_used_as_spec(spec_nan)]
    pub fn nan() -> (r: F64)
        ensures
            r == F64::nan(),
    {
        F64 { bits: 0x7ff8_0000_0000_0000 }
    }

    pub open spec fn spec_infinity() -> F64 {
        F64 { bits: 0x7ff0_0000_0000_0000 }
    }

    #[verifier::when_used_as_spec(spec_infinity)]
    pub fn infinity() -> (r: F64)
        ensures
            r == F64::infinity(),
    {
        F64 { bits: 0x7ff0_0000_0000_0000 }
    }

    /// The sign bit is set.
    pub open spec fn spec_negative(self) -> bool {
        self.bits >= SIGN
    }

    /// The bits below the sign bit.
    pub open spec fn spec_magnitude(self) -> u64 {
        if self.bits >= SIGN {
            (self.bits - SIGN) as u64
        } else {
            self.bits
        }
    }

    /// The number with sign `negative` and the other bits `mag`.
    pub open spec fn signed(negative: bool, mag: nat) -> F64 {
        F64 {
            bits: if negative {
                (mag + SIGN) as u64
            } else {
                mag as u64
            },
        }
    }

    /// The value of a finite number, in smallest subnormals.
    pub open spec fn units(self) -> int {
        if self.negative() {
            -(round::units_of(self.magnitude() as nat) as int)
        } else {
            round::units_of(self.magnitude() as nat) as int
        }
    }

    /// Position on the number line; the two zeros share one.
    pub open spec fn position(self) -> int {
        if self.negative() {
            -(self.magnitude() as int)
        } else {
            self.magnitude() as int
        }
    }

    /// Position in the total order of all bit patterns: negative NaNs, negative numbers, `-0`,
    /// `+0`, positive numbers, positive NaNs.
    pub open spec fn total_position(self) -> int {
        if self.negative() {
            -(self.magnitude() as int) - 1
        } else {
            self.magnitude() as int
        }
    }

    #[verifier::when_used_as_spec(spec_negative)]
    pub fn negative(self) -> (r: bool)
        ensures
            r == self.negative(),
    {
        self.bits >= SIGN
    }

    #[verifier::when_used_as_spec(spec_magnitude)]
    pub fn magnitude(self) -> (r: u64)
        ensures
            r == self.magnitude(),
            r < SIGN,
    {
        if self.bits >= SIGN {
            self.bits - SIGN
        } else {
            self.bits
        }
    }

    pub open spec fn spec_is_nan(self) -> bool {
        self.magnitude() > INFINITE
    }

    #[verifier::when_used_as_spec(spec_is_nan)]
    pub fn is_nan(self) -> (r: bool)
        ensures
            r == self.is_nan(),
    {
        self.magnitude() > INFINITE
    }

    pub open spec fn spec_is_infinite(self) -> bool {
        self.magnitude() == INFINITE
    }

    #[verifier::when_used_as_spec(spec_is_infinite)]
    pub fn is_infinite(self) -> (r: bool)
        ensures
            r == self.is_infinite(),
    {
        self.magnitude() == INFINITE
    }

    pub open spec fn spec_is_finite(self) -> bool {
        self.magnitude() < INFINITE
    }

    #[verifier::when_used_as_spec(spec_is_finite)]
    pub fn is_finite(self) -> (r: bool)
        ensures
            r == self.is_finite(),
    {
        self.magnitude() < INFINITE
    }

    /// `self < other`; false as soon as one of them is NaN.
    pub open spec fn spec_less(self, other: F64) -> bool {
        !self.is_nan() && !other.is_nan() && self.position() < other.position()
    }

    #[verifier::when_used_as_spec(spec_less)]
    pub fn less(self, other: F64) -> (r: bool)
        ensures
            r == self.less(other),
    {
        if self.is_nan() || other.is_nan() {
            return false;
        }
        let a = self.magnitude();
        let b = other.magnitude();
        if self.negative() {
            if other.negative() {
                b < a
            } else {
                a > 0 || b > 0
            }
        } else {
            !other.negative() && a < b
        }
    }

    /// `self <= other`; false as soon as one of them is NaN.
    pub open spec fn spec_at_most(self, other: F64) -> bool {
        !self.is_nan() && !other.is_nan() && self.position() <= other.position()
    }

    #[verifier::when_used_as_spec(spec_at_most)]
    pub fn at_most(self, other: F64) -> (r: bool)
        ensures
            r == self.at_most(other),
    {
        !self.is_nan() && !other.is_nan() && !other.less(self)
    }

    /// `self` comes before `other` in the total order of bit patterns.
    pub open spec fn spec_total_before(self, other: F64) -> bool {
        self.total_position() < other.total_position()
    }

    #[verifier::when_used_as_spec(spec_total_before)]
    pub fn total_before(self, other: F64) -> (r: bool)
        ensures
            r == self.total_before(other),
    {
        if self.negative() {
            !other.negative() || other.magnitude() < self.magnitude()
        } else {
            !other.negative() && self.magnitude() < other.magnitude()
        }
    }

    /// The larger of the two; the other one if one is NaN.
    pub open spec fn spec_max(self, other: F64) -> F64 {
        if self.is_nan() || self.less(other) {
            other
        } else {
            self
        }
    }

    #[verifier::when_used_as_spec(spec_max)]
    pub fn max(self, other: F64) -> (r: F64)
        ensures
            r == self.max(other),
    {
        if self.is_nan() || self.less(other) {
            other
        } else {
            self
        }
    }

    /// The smaller of the two; the other one if one is NaN.
    pub open spec fn spec_min(self, other: F64) -> F64 {
        if self.is_nan() || other.less(self) {
            other
        } else {
            self
        }
    }

    #[verifier::when_used_as_spec(spec_min)]
    pub fn min(self, other: F64) -> (r: F64)
        ensures
            r == self.min(other),
    {
        if self.is_nan() || other.less(self) {
            other
        } else {
            self
        }
    }

    /// `self` moved into `lo..=hi`; NaN stays NaN.
    pub open spec fn spec_clamp(self, lo: F64, hi: F64) -> F64 {
        if self.less(lo) {
            lo
        } else if hi.less(self) {
            hi
        } else {
            self
        }
    }

    #[verifier::when_used_as_spec(spec_clamp)]
    pub fn clamp(self, lo: F64, hi: F64) -> (r: F64)
        ensures
            r == self.clamp(lo, hi),
    {
        if self.less(lo) {
            lo
        } else if hi.less(self) {
            hi
        } else {
            self
        }
    }

    /// `-self`.
    pub open spec fn spec_negated(self) -> F64 {
        F64::signed(!self.negative(), self.magnitude() as nat)
    }

    #[verifier::when_used_as_spec(spec_negated)]
    pub fn negated(self) -> (r: F64)
        ensures
            r == self.negated(),
    {
        if self.bits >= SIGN {
            F64 { bits: self.bits - SIGN }
        } else {
            F64 { bits: self.bits + SIGN }
        }
    }

    /// `|self|`.
    pub open spec fn spec_abs(self) -> F64 {
        F64 { bits: self.magnitude() }
    }

    #[verifier::when_used_as_spec(spec_abs)]
    pub fn abs(self) -> (r: F64)
        ensures
            r == self.abs(),
    {
        F64 { bits: self.magnitude() }
    }
}

/// Splitting magnitude bits into a significand and a binade.
pub proof fn lemma_units_of_parts(mag: nat)
    requires
        mag >= BINADE,
    ensures
        round::units_of(mag) == (BINADE + mag % (BINADE as nat)) * pow2(
            (mag / (BINADE as nat) - 1) as nat,
        ),
    decreases mag,
{
    let b = 0x0010_0000_0000_0000nat;
    lemma2_to64();
    if mag < 2 * b {
        lemma_fundamental_div_mod_converse(mag as int, b as int, 1, mag - b);
        lemma_mul_basics((b + mag % b) as int);
    } else {
        let m = (mag - b) as nat;
        lemma_units_of_parts(m);
        lemma_div_plus_one(m as int, b as int);
        lemma_mod_add_multiples_vanish(m as int, b as int);
        let s = b + m % b;
        let k = (m / b - 1) as nat;
        lemma_pow2_unfold(k + 1);
        assert(2 * (s * pow2(k)) == s * (2 * pow2(k))) by (nonlinear_arith);
    }
}

/// The significand and the binade of a finite magnitude.
pub fn parts(mag: u64) -> (r: (u64, u32))
    requires
        mag < INFINITE,
    ensures
        round::units_of(mag as nat) == r.0 * pow2(r.1 as nat),
        r.0 < 2 * BINADE,
        r.1 <= 2045,
        r.1 > 0 ==> r.0 >= BINADE,
        mag == r.1 * BINADE + r.0,
        mag > 0 ==> r.0 > 0,
{
    if mag < BINADE {
        proof {
            lemma2_to64();
            lemma_mul_basics(mag as int);
        }
        (mag, 0)
    } else {
        proof {
            lemma_units_of_parts(mag as nat);
        }
        (BINADE + mag % BINADE, (mag / BINADE - 1) as u32)
    }
}

/// A larger magnitude is worth more.
pub proof fn lemma_units_of_strict(a: nat, b: nat)
    requires
        a < b,
    ensures
        round::units_of(a) < round::units_of(b),
    decreases b,
{
    if b >= 2 * BINADE {
        let c = (b - BINADE) as nat;
        lemma_units_of_at_least(c);
        if a >= 2 * BINADE {
            lemma_units_of_strict((a - BINADE) as nat, c);
        }
    }
}

/// A magnitude is worth at least its own bits.
pub proof fn lemma_units_of_at_least(a: nat)
    ensures
        round::units_of(a) >= a,
    decreases a,
{
    if a >= 2 * BINADE {
        lemma_units_of_at_least((a - BINADE) as nat);
    }
}

/// Comparing two finite numbers compares their values.
pub proof fn order_is_by_value(a: F64, b: F64)
    requires
        a.is_finite(),
        b.is_finite(),
    ensures
        a.less(b) <==> a.units() < b.units(),
        a.at_most(b) <==> a.units() <= b.units(),
{
    let x = a.magnitude() as nat;
    let y = b.magnitude() as nat;
    if x < y {
        lemma_units_of_strict(x, y);
    } else if y < x {
        lemma_units_of_strict(y, x);
    }
    if x > 0 {
        lemma_units_of_strict(0, x);
    }
    if y > 0 {
        lemma_units_of_strict(0, y);
    }
}

} // verus!
