//! The risk of missing a deadline.
//!
//! Only a few quantiles of a completion time are known.  The probability that it exceeds a
//! deadline comes from the log-normal distribution through the median and the 90th percentile:
//! it fits latencies well and never predicts a negative time.
//!
//! Logarithms and exponentials are the platform's, and reach this module as arguments.
use vstd::prelude::*;

use crate::binary64::F64;
use crate::prediction::cost::CostEstimate;

verus! {

/// 0.5.
pub const HALF: u64 = 0x3FE0_0000_0000_0000;

/// The square root of two.
pub const SQRT_2: u64 = 0x3FF6_A09E_667F_3BCD;

/// 1.281551565545, below which a standard normal variable is with probability 0.9.
pub const Z90: u64 = 0x3FF4_813C_36E2_743A;

/// Coefficients of the error function's approximation 7.1.26 by Abramowitz and Stegun:
/// 0.3275911, then 0.254829592, 0.284496736, 1.421413741, 1.453152027 and 1.061405429.
pub const ERF_P: u64 = 0x3FD4_F740_A93D_7B8C;

pub const ERF_A1: u64 = 0x3FD0_4F20_C6EC_5A7E;

pub const ERF_A2: u64 = 0x3FD2_3531_CC3C_1469;

pub const ERF_A3: u64 = 0x3FF6_BE1C_55BA_E157;

pub const ERF_A4: u64 = 0x3FF7_401C_5701_4C39;

pub const ERF_A5: u64 = 0x3FF0_FB84_4255_A12D;

/// Natural logarithms that the log-normal fit needs.
#[derive(Debug, Clone, Copy)]
pub struct Logs {
    /// Of the median.
    pub p50: F64,
    /// Of the 90th percentile.
    pub p90: F64,
    /// Of the deadline.
    pub deadline: F64,
}

/// Values of the elementary functions for one estimate and one deadline.
#[derive(Debug, Clone, Copy)]
pub struct Elementary {
    pub logs: Logs,
    /// The exponential of `decay_exponent` for these logarithms.
    pub decay: F64,
}

impl Elementary {
    /// Values for where none is looked at: there is no deadline.
    pub fn unused() -> (e: Self)
        ensures
            e.logs == (Logs { p50: F64::zero(), p90: F64::zero(), deadline: F64::zero() }),
            e.decay == F64::zero(),
    {
        let z = F64::zero();
        Elementary { logs: Logs { p50: z, p90: z, deadline: z }, decay: z }
    }
}

/// The point at which the error function is needed for `z`.
pub open spec fn erf_point(z: F64) -> F64 {
    z.over(F64 { bits: SQRT_2 })
}

/// The exponent of the error function's decay at `x`: minus its square.
pub open spec fn exponent_at(x: F64) -> F64 {
    x.abs().negated().times(x.abs())
}

/// The polynomial of the error function's approximation at `t`, but for its last factor.
pub open spec fn erf_series(t: F64) -> F64 {
    let p5 = (F64 { bits: ERF_A5 }).times(t).minus(F64 { bits: ERF_A4 });
    let p4 = p5.times(t).plus(F64 { bits: ERF_A3 });
    let p3 = p4.times(t).minus(F64 { bits: ERF_A2 });
    p3.times(t).plus(F64 { bits: ERF_A1 })
}

/// Where the polynomial is taken for `x`: one at zero, and less the farther away.
pub open spec fn erf_argument(x: F64) -> F64 {
    F64::one().over(F64::one().plus((F64 { bits: ERF_P }).times(x.abs())))
}

/// The approximate error function at `x`, with `decay` the exponential of `exponent_at(x)`.
pub open spec fn erf_value(x: F64, decay: F64) -> F64 {
    let sign = if x.less(F64::zero()) {
        F64::one().negated()
    } else {
        F64::one()
    };
    let t = erf_argument(x);
    sign.times(F64::one().minus(erf_series(t).times(t).times(decay)))
}

/// The approximate probability that a standard normal variable is below `z`.
pub open spec fn normal_below(z: F64, decay: F64) -> F64 {
    (F64 { bits: HALF }).times(F64::one().plus(erf_value(erf_point(z), decay)))
}

/// The quantiles allow a log-normal fit: both finite, the median positive, and a spread.
pub open spec fn has_fit(p50: F64, p90: F64) -> bool {
    p50.is_finite() && p90.is_finite() && F64::zero().less(p50) && p50.less(p90)
}

fn erf(x: F64, decay: F64) -> (r: F64)
    ensures
        r == erf_value(x, decay),
{
    let sign = if x.less(F64::zero()) {
        F64::one().negated()
    } else {
        F64::one()
    };
    let t = F64::one().over(F64::one().plus((F64 { bits: ERF_P }).times(x.abs())));
    let p5 = (F64 { bits: ERF_A5 }).times(t).minus(F64 { bits: ERF_A4 });
    let p4 = p5.times(t).plus(F64 { bits: ERF_A3 });
    let p3 = p4.times(t).minus(F64 { bits: ERF_A2 });
    let p2 = p3.times(t).plus(F64 { bits: ERF_A1 });
    sign.times(F64::one().minus(p2.times(t).times(decay)))
}

fn normal_cdf(z: F64, decay: F64) -> (r: F64)
    ensures
        r == normal_below(z, decay),
{
    (F64 { bits: HALF }).times(F64::one().plus(erf(z.over(F64 { bits: SQRT_2 }), decay)))
}

/// A log-normal distribution with a given median and 90th percentile.
#[derive(Debug, Clone, Copy, PartialEq, Eq, Structural)]
pub struct LogNormal {
    pub mu: F64,
    pub sigma: F64,
}

impl LogNormal {
    /// The distribution with the logarithms `ln_p50` and `ln_p90`.
    pub open spec fn through(ln_p50: F64, ln_p90: F64) -> LogNormal {
        LogNormal { mu: ln_p50, sigma: ln_p90.minus(ln_p50).over(F64 { bits: Z90 }) }
    }

    /// How many deviations above the mean a time with the logarithm `ln_d` lies.
    pub open spec fn spec_z(&self, ln_d: F64) -> F64 {
        ln_d.minus(self.mu).over(self.sigma)
    }

    /// The probability of a time above `d`.
    pub open spec fn above(self, d: F64, ln_d: F64, decay: F64) -> F64 {
        if d.at_most(F64::zero()) {
            F64::one()
        } else {
            F64::one().minus(normal_below(self.z(ln_d), decay))
        }
    }

    /// The distribution through the two quantiles, of which the last two arguments are the
    /// natural logarithms.  `None` where the quantiles imply no positive spread, as those of a
    /// point estimate do.
    pub fn from_p50_p90(p50: F64, p90: F64, ln_p50: F64, ln_p90: F64) -> (r: Option<Self>)
        ensures
            r == if has_fit(p50, p90) {
                Some(LogNormal::through(ln_p50, ln_p90))
            } else {
                None
            },
    {
        if !(p50.is_finite() && p90.is_finite()) || p50.at_most(F64::zero()) || p90.at_most(p50) {
            return None;
        }
        Some(LogNormal { mu: ln_p50, sigma: ln_p90.minus(ln_p50).over(F64 { bits: Z90 }) })
    }

    #[verifier::when_used_as_spec(spec_z)]
    pub fn z(&self, ln_d: F64) -> (r: F64)
        ensures
            r == self.z(ln_d),
    {
        ln_d.minus(self.mu).over(self.sigma)
    }

    /// The exponent whose exponential `exceed_probability` needs for a deadline with the
    /// logarithm `ln_d`.
    pub fn exponent(&self, ln_d: F64) -> (r: F64)
        ensures
            r == exponent_at(erf_point(self.z(ln_d))),
    {
        let x = self.z(ln_d).over(F64 { bits: SQRT_2 }).abs();
        x.negated().times(x)
    }

    /// The probability of a time above `d`, whose logarithm is `ln_d`; `decay` is the
    /// exponential of `exponent(ln_d)`.
    pub fn exceed_probability(&self, d: F64, ln_d: F64, decay: F64) -> (r: F64)
        ensures
            r == self.above(d, ln_d, decay),
    {
        if d.at_most(F64::zero()) {
            return F64::one();
        }
        F64::one().minus(normal_cdf(self.z(ln_d), decay))
    }
}

/// The probability that a completion time with the estimate `est` exceeds `d`.
///
/// A point estimate counts as certain.
pub open spec fn miss_probability(est: CostEstimate, d: F64, values: Elementary) -> F64 {
    if has_fit(est.p50_ms, est.p90_ms) {
        LogNormal::through(values.logs.p50, values.logs.p90).above(
            d,
            values.logs.deadline,
            values.decay,
        )
    } else if F64::zero().less(est.expected_ms) && !est.expected_ms.less(d) {
        F64::one()
    } else {
        F64::zero()
    }
}

/// The exponent whose exponential `deadline_exceed_probability` needs; zero where it needs none.
pub fn decay_exponent(est: &CostEstimate, logs: Logs) -> (r: F64)
    ensures
        r == if has_fit(est.p50_ms, est.p90_ms) {
            exponent_at(erf_point(LogNormal::through(logs.p50, logs.p90).z(logs.deadline)))
        } else {
            F64::zero()
        },
{
    match LogNormal::from_p50_p90(est.p50_ms, est.p90_ms, logs.p50, logs.p90) {
        Some(dist) => dist.exponent(logs.deadline),
        None => F64::zero(),
    }
}

/// The probability that a completion time with the estimate `est` exceeds the deadline `d`, in
/// ms.
pub fn deadline_exceed_probability(est: &CostEstimate, d: F64, values: Elementary) -> (r: F64)
    ensures
        r == miss_probability(*est, d, values),
{
    match LogNormal::from_p50_p90(est.p50_ms, est.p90_ms, values.logs.p50, values.logs.p90) {
        Some(dist) => dist.exceed_probability(d, values.logs.deadline, values.decay),
        None => if F64::zero().less(est.expected_ms) {
            if est.expected_ms.less(d) {
                F64::zero()
            } else {
                F64::one()
            }
        } else {
            F64::zero()
        },
    }
}

/// How unsure an estimate is, in ms: the way from the median to the 90th percentile.
pub open spec fn spread(est: CostEstimate) -> F64 {
    est.p90_ms.minus(est.p50_ms).max(F64::zero())
}

/// How unsure an estimate is, in ms: the way from the median to the 90th percentile, and zero
/// where that is negative.
pub fn uncertainty_ms(est: &CostEstimate) -> (r: F64)
    ensures
        r == spread(*est),
{
    est.p90_ms.minus(est.p50_ms).max(F64::zero())
}

/// A deadline that has passed is missed for certain.
pub proof fn passed_deadlines_are_missed(est: CostEstimate, d: F64, values: Elementary)
    requires
        has_fit(est.p50_ms, est.p90_ms) || F64::zero().less(est.expected_ms),
        d.at_most(F64::zero()),
    ensures
        miss_probability(est, d, values) == F64::one(),
{
}

/// A point estimate misses exactly the deadlines that it does not beat.
pub proof fn point_estimates_are_certain(expected_ms: F64, d: F64, values: Elementary)
    requires
        F64::zero().less(expected_ms),
    ensures
        miss_probability(CostEstimate::point(expected_ms), d, values) == if expected_ms.less(d) {
            F64::zero()
        } else {
            F64::one()
        },
{
}

/// The spread is never negative.
pub proof fn spread_is_not_negative(est: CostEstimate)
    ensures
        F64::zero().at_most(spread(est)),
{
}

/// The probability of a time above a deadline is from zero to one, if the exponential that it
/// takes is, as every exponential of a number that is not positive.
pub proof fn chance_is_a_share(dist: LogNormal, d: F64, ln_d: F64, decay: F64)
    requires
        d.at_most(F64::zero()) || {
            &&& !dist.z(ln_d).is_nan()
            &&& F64::zero().at_most(decay)
            &&& decay.at_most(F64::one())
        },
    ensures
        F64::zero().at_most(dist.above(d, ln_d, decay)),
        dist.above(d, ln_d, decay).at_most(F64::one()),
{
    if !d.at_most(F64::zero()) {
        let one = F64::one();
        let below = normal_below(dist.z(ln_d), decay);
        crate::prediction::erf::normal_is_a_share(dist.z(ln_d), decay);
        crate::binary64::order::difference_is_not_negative(one, below);
        crate::binary64::order::minus_an_amount_is_less(one, below);
    }
}

/// The probability of missing a deadline is from zero to one.
pub proof fn miss_is_a_share(est: CostEstimate, d: F64, values: Elementary)
    requires
        has_fit(est.p50_ms, est.p90_ms) && !d.at_most(F64::zero()) ==> {
            &&& !LogNormal::through(values.logs.p50, values.logs.p90).z(
                values.logs.deadline,
            ).is_nan()
            &&& F64::zero().at_most(values.decay)
            &&& values.decay.at_most(F64::one())
        },
    ensures
        F64::zero().at_most(miss_probability(est, d, values)),
        miss_probability(est, d, values).at_most(F64::one()),
{
    if has_fit(est.p50_ms, est.p90_ms) {
        let dist = LogNormal::through(values.logs.p50, values.logs.p90);
        chance_is_a_share(dist, d, values.logs.deadline, values.decay);
    }
}

/// About half of the times are above the median: the probability is 0.5 but for a thousandth,
/// with the exponential of zero, which is one.
pub proof fn half_is_above_the_median(dist: LogNormal, d: F64)
    requires
        dist.mu.is_finite(),
        !dist.sigma.is_nan(),
        dist.sigma.magnitude() > 0,
        !d.at_most(F64::zero()),
    ensures
        (F64 { bits: 0x3FDF_EF9D_B22D_0E56 }).at_most(dist.above(d, dist.mu, F64::one())),
        dist.above(d, dist.mu, F64::one()).at_most(F64 { bits: 0x3FE0_0831_26E9_78D5 }),
{
    let one = F64::one();
    let z = dist.z(dist.mu);
    crate::binary64::order::difference_with_itself(dist.mu);
    crate::binary64::order::zero_shared_is_zero(dist.mu.minus(dist.mu), dist.sigma);
    let x = erf_point(z);
    crate::binary64::order::zero_shared_is_zero(z, F64 { bits: SQRT_2 });
    assert(x.abs() == F64::zero());
    let far = (F64 { bits: ERF_P }).times(F64::zero());
    crate::binary64::order::zero_of_anything_is_zero(F64 { bits: ERF_P }, F64::zero());
    crate::binary64::order::zero_adds_nothing(one, far);
    assert(one.plus(far) == one);
    crate::binary64::order::one_changes_no_quotient(one);
    assert(erf_argument(x) == one);
    crate::binary64::error::lemma_grain();
    crate::binary64::order::lemma_one();
    crate::prediction::erf::lemma_at_the_median(one, one);
    let w = erf_series(one).times(one).times(one);
    crate::prediction::erf::lemma_half_of_it(w);
    let p = dist.above(d, dist.mu, one);
    lemma_bounds_near_half();
    crate::binary64::order_is_by_value(F64 { bits: 0x3FDF_EF9D_B22D_0E56 }, p);
    crate::binary64::order_is_by_value(p, F64 { bits: 0x3FE0_0831_26E9_78D5 });
}

/// 0.499 and 0.501 in grains.
proof fn lemma_bounds_near_half()
    ensures
        ({
            let g = crate::binary64::error::grain() as int;
            &&& (F64 { bits: 0x3FDF_EF9D_B22D_0E56 }).units() == 0x001F_EF9D_B22D_0E56 * g
            &&& (F64 { bits: 0x3FE0_0831_26E9_78D5 }).units() == 0x0020_1062_4DD2_F1AA * g
        }),
{
    crate::binary64::root::lemma_units_of_binade(1020, 0x001F_EF9D_B22D_0E56);
    crate::binary64::root::lemma_units_of_binade(1021, 0x0010_0831_26E9_78D5);
    vstd::arithmetic::power2::lemma_pow2_unfold(1021);
}

/// About a tenth of the times are above the 90th percentile: the probability is 0.1 but for a
/// thousandth, with an exponential between 0.4398 and 0.44, as that of `exponent` there is.
pub proof fn tenth_is_above_the_percentile(
    ln_p50: F64,
    ln_p90: F64,
    d: F64,
    decay: F64,
)
    requires
        ln_p90.minus(ln_p50).is_finite(),
        (F64 { bits: 0x3EB0_0000_0000_0000 }).at_most(ln_p90.minus(ln_p50)),
        !d.at_most(F64::zero()),
        (F64 { bits: 0x3FDC_25AE_E631_F8A1 }).at_most(decay),
        decay.at_most(F64 { bits: 0x3FDC_28F5_C28F_5C29 }),
    ensures
        ({
            let p = LogNormal::through(ln_p50, ln_p90).above(d, ln_p90, decay);
            &&& (F64 { bits: 0x3FB9_5810_624D_D2F2 }).at_most(p)
            &&& p.at_most(F64 { bits: 0x3FB9_DB22_D0E5_6042 })
        }),
{
    let dist = LogNormal::through(ln_p50, ln_p90);
    let z = dist.z(ln_p90);
    crate::binary64::error::lemma_grain();
    lemma_percentile_is_found(ln_p90.minus(ln_p50));
    crate::prediction::erf::lemma_percentile_argument(z);
    let x = erf_point(z);
    let t = erf_argument(x);
    crate::binary64::order_is_by_value(x, F64::zero());
    lemma_bounds_near_tenth();
    crate::binary64::order_is_by_value(F64 { bits: 0x3FDC_25AE_E631_F8A1 }, decay);
    crate::binary64::order_is_by_value(decay, F64 { bits: 0x3FDC_28F5_C28F_5C29 });
    crate::prediction::erf::lemma_at_the_percentile(t, decay);
    let w = erf_series(t).times(t).times(decay);
    crate::prediction::erf::lemma_half_of_it(w);
    let p = dist.above(d, ln_p90, decay);
    crate::binary64::order_is_by_value(F64 { bits: 0x3FB9_5810_624D_D2F2 }, p);
    crate::binary64::order_is_by_value(p, F64 { bits: 0x3FB9_DB22_D0E5_6042 });
}

/// 0.4398, 0.44, 0.099 and 0.101 in grains.
proof fn lemma_bounds_near_tenth()
    ensures
        ({
            let g = crate::binary64::error::grain() as int;
            &&& (F64 { bits: 0x3FDC_25AE_E631_F8A1 }).units() == 0x001C_25AE_E631_F8A1 * g
            &&& (F64 { bits: 0x3FDC_28F5_C28F_5C29 }).units() == 0x001C_28F5_C28F_5C29 * g
            &&& 4 * (F64 { bits: 0x3FB9_5810_624D_D2F2 }).units() == 0x0019_5810_624D_D2F2 * g
            &&& 4 * (F64 { bits: 0x3FB9_DB22_D0E5_6042 }).units() == 0x0019_DB22_D0E5_6042 * g
        }),
{
    crate::binary64::root::lemma_units_of_binade(1020, 0x001C_25AE_E631_F8A1);
    crate::binary64::root::lemma_units_of_binade(1020, 0x001C_28F5_C28F_5C29);
    crate::binary64::root::lemma_units_of_binade(1018, 0x0019_5810_624D_D2F2);
    crate::binary64::root::lemma_units_of_binade(1018, 0x0019_DB22_D0E5_6042);
    vstd::arithmetic::power2::lemma_pow2_unfold(1020);
    vstd::arithmetic::power2::lemma_pow2_unfold(1019);
}

/// The 90th percentile lies where it was put, but for rounding: between 1.2815 and 1.2816
/// deviations above the mean.
proof fn lemma_percentile_is_found(wide: F64)
    requires
        wide.is_finite(),
        (F64 { bits: 0x3EB0_0000_0000_0000 }).at_most(wide),
    ensures
        ({
            let z = wide.over(wide.over(F64 { bits: Z90 }));
            let g = crate::binary64::error::grain() as int;
            &&& z.is_finite()
            &&& 0x0052_0418_9374_BC6C * g <= z.units() <= 0x0052_05BC_01A3_6E30 * g
        }),
{
    let g = crate::binary64::error::grain() as int;
    let u = crate::binary64::arith::unit();
    let one = F64::one();
    let c = F64 { bits: Z90 };
    crate::binary64::error::lemma_grain();
    crate::binary64::order::lemma_one();
    crate::binary64::root::lemma_units_of_binade(1022, 0x0014_813C_36E2_743A);
    vstd::arithmetic::power2::lemma_pow2_unfold(1022);
    vstd::arithmetic::power2::lemma_pow2_unfold(1021);
    crate::binary64::root::lemma_units_of_binade(1002, 0x0010_0000_0000_0000);
    vstd::arithmetic::power2::lemma_pow2_adds(52, 1002);
    vstd::arithmetic::power2::lemma2_to64();
    vstd::arithmetic::power2::lemma2_to64_rest();
    crate::binary64::order_is_by_value(F64 { bits: 0x3EB0_0000_0000_0000 }, wide);
    let n = wide.units() as nat;
    let k = c.units() as nat;
    crate::binary64::order::over_more_is_less(wide, one, c);
    crate::binary64::order::one_changes_no_quotient(wide);
    let s = wide.over(c);
    let v = s.units() as nat;
    vstd::arithmetic::power2::lemma_pow2_strictly_increases(60, 1054);
    crate::binary64::order_is_by_value(s, wide);
    assert(0x0010_0000_0000_0000 * k <= n * u) by (nonlinear_arith)
        requires
            k <= 2 * u,
            n >= 0x0020_0000_0000_0000,
    ;
    crate::binary64::error::normal_quotients_are_close(wide, c);
    assert(4 * v >= n) by (nonlinear_arith)
        requires
            0x20_0000_0000_0000 * (n * u - v * k) <= n * u,
            k <= 2 * u,
            u > 0,
    ;
    assert(0x0010_0000_0000_0000 * v <= n * u) by (nonlinear_arith)
        requires
            v <= n,
            u >= 0x0010_0000_0000_0000,
    ;
    crate::binary64::error::normal_quotients_are_close(wide, s);
    let z = wide.over(s).units();
    assert(0x1f_ffff_ffff_ffff * z <= 0x20_0000_0000_0001 * k && 0x20_0000_0000_0001 * z
        >= 0x1f_ffff_ffff_ffff * k) by (nonlinear_arith)
        requires
            0x20_0000_0000_0000 * (n * u - v * k) <= n * u,
            0x20_0000_0000_0000 * (v * k - n * u) <= n * u,
            0x20_0000_0000_0000 * (n * u - z * v) <= n * u,
            0x20_0000_0000_0000 * (z * v - n * u) <= n * u,
            v > 0,
    {
        let a = n * u;
        assert(0x20_0000_0000_0000 * (z * v) <= 0x20_0000_0000_0001 * a);
        assert(0x1f_ffff_ffff_ffff * a <= 0x20_0000_0000_0000 * (v * k));
        assert(0x1f_ffff_ffff_ffff * (z * v) <= 0x20_0000_0000_0001 * (v * k));
        assert(0x20_0000_0000_0001 * (z * v) >= 0x1f_ffff_ffff_ffff * (v * k));
        assert((0x1f_ffff_ffff_ffff * z) * v <= (0x20_0000_0000_0001 * k) * v);
        assert((0x20_0000_0000_0001 * z) * v >= (0x1f_ffff_ffff_ffff * k) * v);
    }
}

/// The error function is odd: at the opposite point it is the opposite number.
pub proof fn erf_is_odd(x: F64, decay: F64)
    requires
        !x.is_nan(),
        x.magnitude() > 0,
        F64::zero().at_most(decay),
        decay.at_most(F64::one()),
    ensures
        erf_value(x.negated(), decay) == erf_value(x, decay).negated(),
{
    crate::prediction::erf::lemma_before_the_sign(x, decay);
    crate::prediction::erf::lemma_before_the_sign(x.negated(), decay);
    assert(x.negated().abs() == x.abs());
}

/// The error function has the sign of its argument.
pub proof fn erf_has_the_sign_of_its_argument(x: F64, decay: F64)
    requires
        !x.is_nan(),
        F64::zero().at_most(decay),
        decay.at_most(F64::one()),
    ensures
        F64::zero().at_most(x) ==> F64::zero().at_most(erf_value(x, decay)),
        x.less(F64::zero()) ==> erf_value(x, decay).at_most(F64::zero()),
{
    crate::prediction::erf::lemma_before_the_sign(x, decay);
}

/// The farther out, the nearer the error function is to one and minus one: the less is left of
/// its decay, the farther from zero it is, and without any it is one or minus one.
pub proof fn erf_nears_one_as_it_decays(x: F64, decay: F64, more: F64)
    requires
        !x.is_nan(),
        F64::zero().at_most(decay),
        decay.at_most(more),
        more.at_most(F64::one()),
    ensures
        F64::zero().at_most(x) ==> erf_value(x, more).at_most(erf_value(x, decay)),
        x.less(F64::zero()) ==> erf_value(x, decay).at_most(erf_value(x, more)),
        decay.magnitude() == 0 ==> erf_value(x, decay) == if x.less(F64::zero()) {
            F64::one().negated()
        } else {
            F64::one()
        },
{
    crate::prediction::erf::lemma_before_the_sign(x, decay);
    crate::prediction::erf::lemma_before_the_sign(x, more);
    crate::prediction::erf::lemma_less_is_taken_off(x, decay, more);
    if decay.magnitude() == 0 {
        crate::prediction::erf::lemma_nothing_is_taken_off(x, decay);
    }
}

/// The exponent of the decay is minus the square: the same on both sides of zero, never positive,
/// nothing at zero, and lower the farther out it is taken.
pub proof fn decay_exponents_fall_on_both_sides(x: F64, farther: F64)
    requires
        x.is_finite(),
        farther.is_finite(),
        x.abs().at_most(farther.abs()),
    ensures
        exponent_at(x) == x.times(x).negated(),
        exponent_at(x.negated()) == exponent_at(x),
        exponent_at(x).at_most(F64::zero()),
        exponent_at(farther).at_most(exponent_at(x)),
        exponent_at(F64::zero()).magnitude() == 0,
{
    let a = x.abs();
    let b = farther.abs();
    assert(x.negated().abs() == a);
    crate::binary64::order::times_keeps_order(a, b, a);
    crate::binary64::order::times_keeps_order(a, b, b);
    crate::binary64::order::times_commute(a, b);
    crate::binary64::order::zero_of_anything_is_zero(F64::zero(), F64::zero().negated());
    assert(a.negated().times(a) == a.times(a).negated() && b.negated().times(b) == b.times(
        b,
    ).negated() && a.times(a) == x.times(x)) by {
        reveal(F64::spec_times);
    }
}

/// A later deadline lies more deviations above the mean, and the median none.
pub proof fn later_deadlines_lie_higher(dist: LogNormal, ln_d: F64, later: F64)
    requires
        dist.mu.is_finite(),
        dist.sigma.is_finite(),
        F64::zero().less(dist.sigma),
        ln_d.minus(dist.mu).is_finite(),
        later.minus(dist.mu).is_finite(),
        ln_d.at_most(later),
    ensures
        dist.z(ln_d).at_most(dist.z(later)),
        dist.z(dist.mu).magnitude() == 0,
{
    reveal(F64::spec_minus);
    crate::binary64::order::plus_keeps_order(ln_d, later, dist.mu.negated());
    crate::binary64::order::over_a_positive_keeps_order(
        ln_d.minus(dist.mu),
        later.minus(dist.mu),
        dist.sigma,
    );
    crate::binary64::order::difference_with_itself(dist.mu);
    crate::binary64::order::zero_shared_is_zero(dist.mu.minus(dist.mu), dist.sigma);
}

/// A deadline on the far side of the median is missed at most half of the time, and one before it
/// at least half of the time.
pub proof fn the_median_parts_the_chances(dist: LogNormal, d: F64, ln_d: F64, decay: F64)
    requires
        !d.at_most(F64::zero()),
        dist.z(ln_d).is_finite(),
        F64::zero().at_most(decay),
        decay.at_most(F64::one()),
    ensures
        F64::zero().at_most(dist.z(ln_d)) ==> dist.above(d, ln_d, decay).at_most(
            F64 { bits: 0x3FE0_0000_0000_0000 },
        ),
        dist.z(ln_d).at_most(F64 { bits: 0xBCD0_0000_0000_0000 }) ==> (F64 {
            bits: 0x3FE0_0000_0000_0000,
        }).at_most(dist.above(d, ln_d, decay)),
{
    let z = dist.z(ln_d);
    let one = F64::one();
    let half = F64 { bits: HALF };
    let root = F64 { bits: SQRT_2 };
    let x = erf_point(z);
    crate::binary64::order::signs_of_quotients(z, root);
    let e = erf_value(x, decay);
    crate::prediction::erf::lemma_before_the_sign(x, decay);
    crate::binary64::order::zero_adds_nothing(one, F64::zero());
    assert(one.plus(F64::zero()) == one);
    crate::binary64::order::one_is_neutral(half);
    crate::binary64::order::half_is_left_of_one();
    let s = one.plus(e);
    crate::binary64::order::lemma_one();
    crate::binary64::order_is_by_value(F64::zero(), e.abs());
    crate::binary64::order_is_by_value(e.abs(), one);
    crate::binary64::error::sum_error(one, e);
    if F64::zero().at_most(z) {
        crate::binary64::order::plus_keeps_order(F64::zero(), e, one);
        crate::binary64::order::times_an_amount_keeps_order(one, s, half);
        crate::binary64::order::minus_more_is_less(one, half, half.times(s));
    }
    if z.at_most(F64 { bits: 0xBCD0_0000_0000_0000 }) {
        crate::binary64::order::quotients_stay_positive(z.negated(), root);
        crate::binary64::order::negated_quotients(z, root);
        crate::binary64::order::plus_keeps_order(e, F64::zero(), one);
        crate::binary64::order::times_an_amount_keeps_order(s, one, half);
        crate::binary64::order::minus_more_is_less(one, half.times(s), half);
    }
}

/// Chances mirror at the median: a deadline as far below it as another is above it, in
/// logarithms, is missed with one minus the other's probability, but for `2^-47`.
pub proof fn chances_mirror_at_the_median(
    dist: LogNormal,
    d: F64,
    ln_d: F64,
    e: F64,
    ln_e: F64,
    decay: F64,
)
    requires
        !d.at_most(F64::zero()),
        !e.at_most(F64::zero()),
        dist.sigma.is_finite(),
        F64::zero().less(dist.sigma),
        ln_d.minus(dist.mu).is_finite(),
        ln_e.minus(dist.mu) == ln_d.minus(dist.mu).negated(),
        dist.z(ln_d).is_finite(),
        (F64 { bits: 0x3CD0_0000_0000_0000 }).at_most(dist.z(ln_d)),
        F64::zero().at_most(decay),
        decay.at_most(F64::one()),
    ensures
        ({
            let both = dist.above(d, ln_d, decay).units() + dist.above(e, ln_e, decay).units();
            let one = crate::binary64::arith::unit() as int;
            let g = crate::binary64::error::grain() as int;
            one - 128 * g <= both <= one + 128 * g
        }),
{
    let root = F64 { bits: SQRT_2 };
    crate::binary64::order::negated_quotients(ln_d.minus(dist.mu), dist.sigma);
    let z = dist.z(ln_d);
    crate::binary64::order::quotients_stay_positive(z, root);
    crate::binary64::order::negated_quotients(z, root);
    let x = erf_point(z);
    assert(x.is_finite() || x.is_infinite());
    erf_is_odd(x, decay);
    crate::prediction::erf::lemma_before_the_sign(x, decay);
    let y = erf_value(x, decay);
    crate::binary64::order::lemma_one();
    crate::binary64::order_is_by_value(F64::zero(), y);
    crate::binary64::order_is_by_value(y, F64::one());
    crate::prediction::erf::lemma_chance_of(y);
    crate::prediction::erf::lemma_chance_of(y.negated());
}

/// About nine tenths of the times are above the 10th percentile, which lies as far below the
/// median as the 90th lies above it: the probability is 0.9 but for a thousandth, with an
/// exponential between 0.4398 and 0.44, as that of `exponent` there is.
pub proof fn nine_tenths_are_above_the_tenth_percentile(
    ln_p50: F64,
    ln_p90: F64,
    d: F64,
    ln_d: F64,
    decay: F64,
)
    requires
        ln_p90.minus(ln_p50).is_finite(),
        (F64 { bits: 0x3EB0_0000_0000_0000 }).at_most(ln_p90.minus(ln_p50)),
        ln_d.minus(ln_p50) == ln_p90.minus(ln_p50).negated(),
        !d.at_most(F64::zero()),
        (F64 { bits: 0x3FDC_25AE_E631_F8A1 }).at_most(decay),
        decay.at_most(F64 { bits: 0x3FDC_28F5_C28F_5C29 }),
    ensures
        ({
            let p = LogNormal::through(ln_p50, ln_p90).above(d, ln_d, decay);
            &&& (F64 { bits: 0x3FEC_C49B_A5E3_53F8 }).at_most(p)
            &&& p.at_most(F64 { bits: 0x3FEC_D4FD_F3B6_45A2 })
        }),
{
    let dist = LogNormal::through(ln_p50, ln_p90);
    let wide = ln_p90.minus(ln_p50);
    let z = dist.z(ln_p90);
    crate::binary64::error::lemma_grain();
    lemma_percentile_is_found(wide);
    crate::prediction::erf::lemma_percentile_argument(z);
    crate::binary64::order::quotients_stay_positive(wide, F64 { bits: Z90 });
    crate::binary64::order::negated_quotients(wide, dist.sigma);
    crate::binary64::order::negated_quotients(z, F64 { bits: SQRT_2 });
    let x = erf_point(z);
    let t = erf_argument(x);
    crate::binary64::order_is_by_value(F64::zero(), x);
    lemma_bounds_near_tenth();
    lemma_bounds_near_nine_tenths();
    crate::binary64::order_is_by_value(F64 { bits: 0x3FDC_25AE_E631_F8A1 }, decay);
    crate::binary64::order_is_by_value(decay, F64 { bits: 0x3FDC_28F5_C28F_5C29 });
    crate::prediction::erf::lemma_at_the_percentile(t, decay);
    let w = erf_series(t).times(t).times(decay);
    erf_is_odd(x, decay);
    crate::prediction::erf::lemma_before_the_sign(x, decay);
    let y = F64::one().minus(w);
    crate::binary64::order::lemma_one();
    crate::binary64::error::difference_error(F64::one(), w);
    crate::binary64::order_is_by_value(F64::zero(), y);
    crate::binary64::order_is_by_value(y, F64::one());
    crate::prediction::erf::lemma_chance_of(y.negated());
    let p = dist.above(d, ln_d, decay);
    crate::binary64::order_is_by_value(F64 { bits: 0x3FEC_C49B_A5E3_53F8 }, p);
    crate::binary64::order_is_by_value(p, F64 { bits: 0x3FEC_D4FD_F3B6_45A2 });
}

/// 0.899 and 0.901 in grains.
proof fn lemma_bounds_near_nine_tenths()
    ensures
        ({
            let g = crate::binary64::error::grain() as int;
            &&& (F64 { bits: 0x3FEC_C49B_A5E3_53F8 }).units() == 2 * (0x001C_C49B_A5E3_53F8 * g)
            &&& (F64 { bits: 0x3FEC_D4FD_F3B6_45A2 }).units() == 2 * (0x001C_D4FD_F3B6_45A2 * g)
        }),
{
    crate::binary64::root::lemma_units_of_binade(1021, 0x001C_C49B_A5E3_53F8);
    crate::binary64::root::lemma_units_of_binade(1021, 0x001C_D4FD_F3B6_45A2);
    vstd::arithmetic::power2::lemma_pow2_unfold(1021);
}

/// The distribution decides exactly where the quantiles are finite, the median is positive and
/// the percentile above it; elsewhere the expected time alone does, and without one there is
/// nothing to miss.
pub proof fn distributions_need_a_spread(est: CostEstimate, d: F64, values: Elementary)
    ensures
        est.p50_ms.is_finite() && est.p90_ms.is_finite() && F64::zero().less(est.p50_ms)
            && est.p50_ms.less(est.p90_ms) ==> miss_probability(est, d, values) == (LogNormal {
            mu: values.logs.p50,
            sigma: values.logs.p90.minus(values.logs.p50).over(
                F64 { bits: 0x3FF4_813C_36E2_743A },
            ),
        }).above(d, values.logs.deadline, values.decay),
        est.p90_ms.at_most(est.p50_ms) || est.p50_ms.at_most(F64::zero())
            || !est.p50_ms.is_finite() || !est.p90_ms.is_finite() ==> miss_probability(
            est,
            d,
            values,
        ) == if F64::zero().less(est.expected_ms) && !est.expected_ms.less(d) {
            F64::one()
        } else {
            F64::zero()
        },
{
}

/// The spread is the way from the median up to the 90th percentile, positive exactly where there
/// is one, and none where the percentile is not above the median.
pub proof fn spread_is_the_way_up(est: CostEstimate)
    requires
        est.p50_ms.is_finite(),
        est.p90_ms.is_finite(),
    ensures
        est.p50_ms.less(est.p90_ms) ==> spread(est) == est.p90_ms.minus(est.p50_ms)
            && F64::zero().less(spread(est)),
        est.p90_ms.at_most(est.p50_ms) ==> spread(est).magnitude() == 0,
{
    if est.p50_ms.less(est.p90_ms) {
        crate::binary64::order::difference_is_positive(est.p90_ms, est.p50_ms);
    }
    if est.p90_ms.at_most(est.p50_ms) {
        crate::binary64::order::difference_is_not_positive(est.p90_ms, est.p50_ms);
    }
}

/// A later deadline is never missed with a higher probability, but for `2^-46` of rounding.  The
/// exponentials may be any from zero to one that are ordered as those of `exponent` are: the
/// farther from the median, the less; and the deadlines lie on the median or visibly off it.
pub proof fn later_deadlines_are_missed_less(
    dist: LogNormal,
    d: F64,
    ln_d: F64,
    decay: F64,
    later: F64,
    ln_later: F64,
    later_decay: F64,
)
    requires
        !d.at_most(F64::zero()),
        !later.at_most(F64::zero()),
        dist.mu.is_finite(),
        dist.sigma.is_finite(),
        F64::zero().less(dist.sigma),
        ln_d.minus(dist.mu).is_finite(),
        ln_later.minus(dist.mu).is_finite(),
        ln_d.at_most(ln_later),
        dist.z(ln_d).is_finite(),
        dist.z(ln_later).is_finite(),
        dist.z(ln_d).magnitude() == 0 || (F64 { bits: 0x3CD0_0000_0000_0000 }).at_most(
            dist.z(ln_d).abs(),
        ),
        dist.z(ln_later).magnitude() == 0 || (F64 { bits: 0x3CD0_0000_0000_0000 }).at_most(
            dist.z(ln_later).abs(),
        ),
        F64::zero().at_most(decay),
        decay.at_most(F64::one()),
        F64::zero().at_most(later_decay),
        later_decay.at_most(F64::one()),
        dist.z(ln_d).abs().at_most(dist.z(ln_later).abs()) ==> later_decay.at_most(decay),
        dist.z(ln_later).abs().at_most(dist.z(ln_d).abs()) ==> decay.at_most(later_decay),
    ensures
        ({
            let p = dist.above(d, ln_d, decay).units();
            let q = dist.above(later, ln_later, later_decay).units();
            q <= p + 256 * (crate::binary64::error::grain() as int)
        }),
{
    let root = F64 { bits: SQRT_2 };
    let z = dist.z(ln_d);
    let y = dist.z(ln_later);
    later_deadlines_lie_higher(dist, ln_d, ln_later);
    lemma_point(z);
    lemma_point(y);
    crate::binary64::order::over_a_positive_keeps_order(z, y, root);
    let a = erf_point(z);
    let b = erf_point(y);
    crate::prediction::erf::lemma_before_the_sign(a, decay);
    crate::prediction::erf::lemma_before_the_sign(b, later_decay);
    lemma_taken_off_bounds(a, decay);
    lemma_taken_off_bounds(b, later_decay);
    if F64::zero().at_most(z) {
        crate::prediction::erf::lemma_taken_off_falls(a, b, decay, later_decay);
    } else if y.less(F64::zero()) {
        crate::prediction::erf::lemma_taken_off_falls(b, a, later_decay, decay);
    }
    crate::prediction::erf::lemma_chance_of(erf_value(a, decay));
    crate::prediction::erf::lemma_chance_of(erf_value(b, later_decay));
}

/// The point at which the error function is taken has the sign of `z`, and is finite.
proof fn lemma_point(z: F64)
    requires
        z.is_finite(),
        z.magnitude() == 0 || (F64 { bits: 0x3CD0_0000_0000_0000 }).at_most(z.abs()),
    ensures
        erf_point(z).is_finite(),
        z.less(F64::zero()) ==> erf_point(z).less(F64::zero()),
        F64::zero().at_most(z) ==> F64::zero().at_most(erf_point(z)),
{
    let root = F64 { bits: SQRT_2 };
    let one = F64::one();
    let x = z.abs();
    crate::binary64::order::over_more_is_less(x, one, root);
    crate::binary64::order::one_changes_no_quotient(x);
    crate::binary64::order::signs_of_quotients(z, root);
    if z.negative() {
        assert(z == x.negated());
        crate::binary64::order::negated_quotients(x, root);
    } else {
        assert(z == x);
    }
    if z.less(F64::zero()) {
        crate::binary64::order::quotients_stay_positive(x, root);
    }
}

/// The error function before its sign, in units, and what is taken off one.
proof fn lemma_taken_off_bounds(x: F64, decay: F64)
    requires
        x.is_finite(),
        F64::zero().at_most(decay),
        decay.at_most(F64::one()),
    ensures
        ({
            let g = crate::binary64::error::grain() as int;
            let one = crate::binary64::arith::unit() as int;
            let t = erf_argument(x);
            let w = erf_series(t).times(t).times(decay);
            let y = F64::one().minus(w);
            &&& 0 <= w.units() <= one
            &&& 0 <= y.units() <= one
            &&& one - w.units() - 9 * g <= y.units() <= one - w.units() + 9 * g
        }),
{
    let t = erf_argument(x);
    let w = erf_series(t).times(t).times(decay);
    let y = F64::one().minus(w);
    crate::prediction::erf::lemma_before_the_sign(x, decay);
    crate::binary64::error::lemma_grain();
    crate::binary64::order::lemma_one();
    crate::binary64::order_is_by_value(F64::zero(), w);
    crate::binary64::order_is_by_value(w, F64::one());
    crate::binary64::order_is_by_value(F64::zero(), y);
    crate::binary64::order_is_by_value(y, F64::one());
    crate::binary64::error::difference_error(F64::one(), w);
}

} // verus!
