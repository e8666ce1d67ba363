//! Fast statistics of one bucket.
use vstd::arithmetic::power2::*;
use vstd::prelude::*;

use crate::binary64::sort::sorted;
use crate::binary64::F64;
use crate::now_unix_ms;
use crate::observation::codec::{
    push_f64, push_u32, push_u64, push_vec_f64, take_f64, take_u32, take_u64, take_vec_f64,
};

verus! {

/// Smoothing factor of the moving mean and variance: the bit pattern of 0.1.
pub const DEFAULT_ALPHA: u64 = 0x3FB9_9999_9999_999A;

/// Bound on the number of retained samples.
///
/// Quantiles are exact over the retained samples, and dropping every second one now and then
/// leans them towards recent history.  That is meant: the model should follow the conditions.
pub const DEFAULT_RESERVOIR: usize = 8192;

/// Statistics of the completion times of one bucket.
#[derive(Debug)]
pub struct AggregateRow {
    pub sample_count: u64,
    /// Moving mean of the completion time, in ms.
    pub ewma_mean: F64,
    /// Moving variance of the completion time, in ms^2.
    pub ewma_variance: F64,
    /// Retained samples, in ms, for the quantiles.
    pub samples: Vec<F64>,
    pub deadline_ok: u64,
    pub deadline_total: u64,
    pub last_update_unix_ms: u64,
    pub model_version: u32,
}

/// What a row holds.
#[verifier::ext_equal]
pub struct RowView {
    pub sample_count: u64,
    pub ewma_mean: F64,
    pub ewma_variance: F64,
    pub samples: Seq<F64>,
    pub deadline_ok: u64,
    pub deadline_total: u64,
    pub last_update_unix_ms: u64,
    pub model_version: u32,
}

impl View for AggregateRow {
    type V = RowView;

    open spec fn view(&self) -> RowView {
        RowView {
            sample_count: self.sample_count,
            ewma_mean: self.ewma_mean,
            ewma_variance: self.ewma_variance,
            samples: self.samples@,
            deadline_ok: self.deadline_ok,
            deadline_total: self.deadline_total,
            last_update_unix_ms: self.last_update_unix_ms,
            model_version: self.model_version,
        }
    }
}

/// The first, third, fifth, ... of `s`.
pub open spec fn every_second(s: Seq<F64>) -> Seq<F64> {
    Seq::new(((s.len() + 1) / 2) as nat, |i: int| s[2 * i])
}

/// `s` with `x` added; halved if that makes it longer than `max`.
pub open spec fn retained(s: Seq<F64>, x: F64, max: nat) -> Seq<F64> {
    if s.len() + 1 > max {
        every_second(s.push(x))
    } else {
        s.push(x)
    }
}

/// The moving mean after `x`.
pub open spec fn next_mean(mean: F64, x: F64, alpha: F64) -> F64 {
    alpha.times(x).plus(F64::one().minus(alpha).times(mean))
}

/// The moving variance after `x`, which has moved the mean to `mean`.
pub open spec fn next_variance(variance: F64, mean: F64, x: F64, alpha: F64) -> F64 {
    let diff = x.minus(mean);
    alpha.times(diff).times(diff).plus(F64::one().minus(alpha).times(variance))
}

/// Which of `n` ordered samples stands for the quantile `q`.
pub open spec fn rank(n: nat, q: F64) -> int {
    let i = F64::from_u64((n - 1) as u64).times(q).round_to_u64();
    if i < n {
        i as int
    } else {
        n - 1
    }
}

/// The quantile `q` of `s`; NaN if there are no samples.
pub open spec fn quantile(s: Seq<F64>, q: F64) -> F64 {
    if s.len() == 0 {
        F64::nan()
    } else {
        crate::binary64::sort::ascending(s)[rank(s.len(), q)]
    }
}

impl RowView {
    /// A row without samples.
    pub open spec fn empty() -> RowView {
        RowView {
            sample_count: 0,
            ewma_mean: F64::zero(),
            ewma_variance: F64::zero(),
            samples: Seq::empty(),
            deadline_ok: 0,
            deadline_total: 0,
            last_update_unix_ms: 0,
            model_version: 0,
        }
    }

    /// The row after the sample `x` at the time `now`.
    ///
    /// The first sample is the mean itself: starting from zero would pull the early estimates
    /// down.
    pub open spec fn with_sample(self, x: F64, alpha: F64, reservoir_max: nat, now: u64) -> RowView {
        let mean = if self.sample_count == 0 {
            x
        } else {
            next_mean(self.ewma_mean, x, alpha)
        };
        RowView {
            sample_count: (self.sample_count + 1) as u64,
            ewma_mean: mean,
            ewma_variance: if self.sample_count == 0 {
                F64::zero()
            } else {
                next_variance(self.ewma_variance, mean, x, alpha)
            },
            samples: retained(self.samples, x, reservoir_max),
            last_update_unix_ms: now,
            ..self
        }
    }

    /// The row after a deadline that was met or missed.
    pub open spec fn with_deadline(self, met: bool) -> RowView {
        RowView {
            deadline_total: (self.deadline_total + 1) as u64,
            deadline_ok: if met {
                (self.deadline_ok + 1) as u64
            } else {
                self.deadline_ok
            },
            ..self
        }
    }

    /// The share of deadlines met; `None` if there were none.
    pub open spec fn success_rate(self) -> Option<F64> {
        if self.deadline_total == 0 {
            None
        } else {
            Some(F64::from_u64(self.deadline_ok).over(F64::from_u64(self.deadline_total)))
        }
    }

    /// The stored form.
    pub open spec fn encoded(self) -> Seq<u8> {
        crate::observation::codec::le_bytes(self.sample_count as nat, 8)
            + crate::observation::codec::f64_bytes(self.ewma_mean)
            + crate::observation::codec::f64_bytes(self.ewma_variance)
            + crate::observation::codec::vec_f64_bytes(self.samples)
            + crate::observation::codec::le_bytes(self.deadline_ok as nat, 8)
            + crate::observation::codec::le_bytes(self.deadline_total as nat, 8)
            + crate::observation::codec::le_bytes(self.last_update_unix_ms as nat, 8)
            + crate::observation::codec::le_bytes(self.model_version as nat, 4)
    }

    /// The row whose stored form `d` begins with, if there is one.
    pub open spec fn decoded(d: Seq<u8>) -> Option<RowView> {
        let count = crate::observation::codec::read_u64(d);
        let mean = crate::observation::codec::read_f64((count->0).1);
        let variance = crate::observation::codec::read_f64((mean->0).1);
        let samples = crate::observation::codec::read_vec_f64((variance->0).1);
        let ok = crate::observation::codec::read_u64((samples->0).1);
        let total = crate::observation::codec::read_u64((ok->0).1);
        let update = crate::observation::codec::read_u64((total->0).1);
        let version = crate::observation::codec::read_u32((update->0).1);
        if count is Some && mean is Some && variance is Some && samples is Some && ok is Some
            && total is Some && update is Some && version is Some {
            Some(
                RowView {
                    sample_count: (count->0).0,
                    ewma_mean: (mean->0).0,
                    ewma_variance: (variance->0).0,
                    samples: (samples->0).0,
                    deadline_ok: (ok->0).0,
                    deadline_total: (total->0).0,
                    last_update_unix_ms: (update->0).0,
                    model_version: (version->0).0,
                },
            )
        } else {
            None
        }
    }
}

impl Clone for AggregateRow {
    fn clone(&self) -> (r: Self)
        ensures
            r@ == self@,
    {
        let samples = self.samples.clone();
        assert(samples@ =~= self.samples@);
        AggregateRow {
            sample_count: self.sample_count,
            ewma_mean: self.ewma_mean,
            ewma_variance: self.ewma_variance,
            samples,
            deadline_ok: self.deadline_ok,
            deadline_total: self.deadline_total,
            last_update_unix_ms: self.last_update_unix_ms,
            model_version: self.model_version,
        }
    }
}

impl Default for AggregateRow {
    fn default() -> (row: Self)
        ensures
            row@ == RowView::empty(),
    {
        AggregateRow {
            sample_count: 0,
            ewma_mean: F64::zero(),
            ewma_variance: F64::zero(),
            samples: Vec::new(),
            deadline_ok: 0,
            deadline_total: 0,
            last_update_unix_ms: 0,
            model_version: 0,
        }
    }
}

impl AggregateRow {
    /// Takes in the sample `x`, now.
    pub fn push(&mut self, x: F64, alpha: F64, reservoir_max: usize)
        requires
            old(self).sample_count < u64::MAX,
        ensures
            final(self)@ == old(self)@.with_sample(
                x,
                alpha,
                reservoir_max as nat,
                final(self).last_update_unix_ms,
            ),
    {
        let now = now_unix_ms();
        self.push_at(x, alpha, reservoir_max, now);
    }

    /// Takes in the sample `x` at the time `now`.
    pub fn push_at(&mut self, x: F64, alpha: F64, reservoir_max: usize, now: u64)
        requires
            old(self).sample_count < u64::MAX,
        ensures
            final(self)@ == old(self)@.with_sample(x, alpha, reservoir_max as nat, now),
    {
        self.sample_count = self.sample_count + 1;
        if self.sample_count == 1 {
            self.ewma_mean = x;
            self.ewma_variance = F64::zero();
        } else {
            self.ewma_mean = alpha.times(x).plus(F64::one().minus(alpha).times(self.ewma_mean));
            let diff = x.minus(self.ewma_mean);
            self.ewma_variance =
            alpha.times(diff).times(diff).plus(F64::one().minus(alpha).times(self.ewma_variance));
        }
        self.samples.push(x);
        if self.samples.len() > reservoir_max {
            self.samples = halved(&self.samples);
        }
        self.last_update_unix_ms = now;
    }

    pub fn record_deadline(&mut self, met: bool)
        requires
            old(self).deadline_total < u64::MAX,
            met ==> old(self).deadline_ok < u64::MAX,
        ensures
            final(self)@ == old(self)@.with_deadline(met),
    {
        self.deadline_total = self.deadline_total + 1;
        if met {
            self.deadline_ok = self.deadline_ok + 1;
        }
    }

    pub fn deadline_success_rate(&self) -> (r: Option<F64>)
        ensures
            r == self@.success_rate(),
    {
        if self.deadline_total == 0 {
            None
        } else {
            Some(F64::from_u64(self.deadline_ok).over(F64::from_u64(self.deadline_total)))
        }
    }

    /// The moving standard deviation of the completion time, in ms.
    pub fn ewma_std(&self) -> (r: F64)
        ensures
            crate::binary64::root::is_sqrt(self.ewma_variance.max(F64::zero()), r),
    {
        self.ewma_variance.max(F64::zero()).sqrt()
    }

    /// The quantile `q`, from 0 to 1, of the retained samples.  NaN when there are none.
    pub fn p(&self, q: F64) -> (r: F64)
        ensures
            r == quantile(self.samples@, q),
    {
        quantile_of(&self.samples, q)
    }

    /// The stored form.
    pub fn as_bytes(&self) -> (bytes: Vec<u8>)
        ensures
            bytes@ == self@.encoded(),
    {
        let mut v: Vec<u8> = Vec::new();
        push_u64(&mut v, self.sample_count);
        push_f64(&mut v, self.ewma_mean);
        push_f64(&mut v, self.ewma_variance);
        push_vec_f64(&mut v, &self.samples);
        push_u64(&mut v, self.deadline_ok);
        push_u64(&mut v, self.deadline_total);
        push_u64(&mut v, self.last_update_unix_ms);
        push_u32(&mut v, self.model_version);
        assert(v@ =~= self@.encoded());
        v
    }

    /// The row that `data` stores; `None` if it stores none.
    pub fn from_bytes(data: &[u8]) -> (r: Option<AggregateRow>)
        ensures
            match (RowView::decoded(data@), r) {
                (Some(view), Some(row)) => row@ == view,
                (None, None) => true,
                _ => false,
            },
    {
        let mut d = data;
        let sample_count = take_u64(&mut d)?;
        let ewma_mean = take_f64(&mut d)?;
        let ewma_variance = take_f64(&mut d)?;
        let samples = take_vec_f64(&mut d)?;
        let deadline_ok = take_u64(&mut d)?;
        let deadline_total = take_u64(&mut d)?;
        let last_update_unix_ms = take_u64(&mut d)?;
        let model_version = take_u32(&mut d)?;
        Some(
            AggregateRow {
                sample_count,
                ewma_mean,
                ewma_variance,
                samples,
                deadline_ok,
                deadline_total,
                last_update_unix_ms,
                model_version,
            },
        )
    }
}

/// The quantile `q` of the numbers in `v`.
pub fn quantile_of(v: &[F64], q: F64) -> (r: F64)
    ensures
        r == quantile(v@, q),
{
    if v.len() == 0 {
        return F64::nan();
    }
    let s = sorted(v);
    proof {
        crate::binary64::sort::ascending_is_sorted(v@);
    }
    let last: usize = s.len() - 1;
    let i = F64::from_u64(last as u64).times(q).round_to_u64();
    if i < last as u64 {
        s[i as usize]
    } else {
        s[last]
    }
}

/// Every second element of `v`, from the first on.
pub(crate) fn halved(v: &Vec<F64>) -> (r: Vec<F64>)
    ensures
        r@ == every_second(v@),
{
    let mut r: Vec<F64> = Vec::new();
    let mut i: usize = 0;
    while i < v.len()
        invariant
            i <= v@.len() + 1,
            i == 2 * r@.len(),
            forall|j: int| 0 <= j < r@.len() ==> r@[j] == v@[2 * j],
        decreases v@.len() - i,
    {
        r.push(v[i]);
        if i == v.len() - 1 {
            assert(r@ =~= every_second(v@));
            return r;
        }
        i = i + 2;
    }
    assert(r@ =~= every_second(v@));
    r
}

/// The stored form, read from its first field on.
proof fn lemma_row_bytes(row: RowView, rest: Seq<u8>)
    ensures
        row.encoded() + rest == (crate::observation::codec::le_bytes(row.sample_count as nat, 8) + (crate::observation::codec::f64_bytes(row.ewma_mean) + (crate::observation::codec::f64_bytes(row.ewma_variance) + (crate::observation::codec::vec_f64_bytes(row.samples) + (crate::observation::codec::le_bytes(row.deadline_ok as nat, 8) + (crate::observation::codec::le_bytes(row.deadline_total as nat, 8) + (crate::observation::codec::le_bytes(row.last_update_unix_ms as nat, 8) + (crate::observation::codec::le_bytes(row.model_version as nat, 4) + rest)))))))),
{
    let count = crate::observation::codec::le_bytes(row.sample_count as nat, 8);
    let mean = crate::observation::codec::f64_bytes(row.ewma_mean);
    let variance = crate::observation::codec::f64_bytes(row.ewma_variance);
    let samples = crate::observation::codec::vec_f64_bytes(row.samples);
    let ok = crate::observation::codec::le_bytes(row.deadline_ok as nat, 8);
    let total = crate::observation::codec::le_bytes(row.deadline_total as nat, 8);
    let update = crate::observation::codec::le_bytes(row.last_update_unix_ms as nat, 8);
    let version = crate::observation::codec::le_bytes(row.model_version as nat, 4);
    let s1 = count + mean;
    let s2 = s1 + variance;
    let s3 = s2 + samples;
    let s4 = s3 + ok;
    let s5 = s4 + total;
    let s6 = s5 + update;
    crate::observation::codec::lemma_joined(s6, version, rest);
    let t7 = version + rest;
    crate::observation::codec::lemma_joined(s5, update, t7);
    let t6 = update + t7;
    crate::observation::codec::lemma_joined(s4, total, t6);
    let t5 = total + t6;
    crate::observation::codec::lemma_joined(s3, ok, t5);
    let t4 = ok + t5;
    crate::observation::codec::lemma_joined(s2, samples, t4);
    let t3 = samples + t4;
    crate::observation::codec::lemma_joined(s1, variance, t3);
    let t2 = variance + t3;
    crate::observation::codec::lemma_joined(count, mean, t2);
}

/// A row read back is the row that was written, whatever follows it.
pub proof fn row_round_trip(row: RowView, rest: Seq<u8>)
    requires
        row.samples.len() <= u64::MAX,
    ensures
        RowView::decoded(row.encoded() + rest) == Some(row),
{
    let version = crate::observation::codec::le_bytes(row.model_version as nat, 4) + rest;
    let update = crate::observation::codec::le_bytes(row.last_update_unix_ms as nat, 8) + version;
    let total = crate::observation::codec::le_bytes(row.deadline_total as nat, 8) + update;
    let ok = crate::observation::codec::le_bytes(row.deadline_ok as nat, 8) + total;
    let samples = crate::observation::codec::vec_f64_bytes(row.samples) + ok;
    let variance = crate::observation::codec::f64_bytes(row.ewma_variance) + samples;
    let mean = crate::observation::codec::f64_bytes(row.ewma_mean) + variance;
    let count = crate::observation::codec::le_bytes(row.sample_count as nat, 8) + mean;
    crate::observation::codec::u32_round_trip(row.model_version, rest);
    crate::observation::codec::u64_round_trip(row.last_update_unix_ms, version);
    crate::observation::codec::u64_round_trip(row.deadline_total, update);
    crate::observation::codec::u64_round_trip(row.deadline_ok, total);
    crate::observation::codec::vec_f64_round_trip(row.samples, ok);
    crate::observation::codec::f64_round_trip(row.ewma_variance, samples);
    crate::observation::codec::f64_round_trip(row.ewma_mean, variance);
    crate::observation::codec::u64_round_trip(row.sample_count, mean);
    lemma_row_bytes(row, rest);
}

/// The first sample is the mean, with no variance, and every quantile.
pub proof fn first_sample_seeds(x: F64, alpha: F64, reservoir_max: nat, now: u64, q: F64)
    requires
        reservoir_max >= 1,
    ensures
        ({
            let row = RowView::empty().with_sample(x, alpha, reservoir_max, now);
            &&& row.sample_count == 1
            &&& row.ewma_mean == x
            &&& row.ewma_variance == F64::zero()
            &&& row.samples == seq![x]
            &&& quantile(row.samples, q) == x
        }),
{
    let row = RowView::empty().with_sample(x, alpha, reservoir_max, now);
    assert(row.samples =~= seq![x]);
    quantile_is_a_sample(row.samples, q);
}

/// The retained samples never outgrow their bound.
pub proof fn reservoir_stays_bounded(row: RowView, x: F64, alpha: F64, reservoir_max: nat, now: u64)
    requires
        reservoir_max >= 1,
        row.samples.len() <= reservoir_max,
    ensures
        row.with_sample(x, alpha, reservoir_max, now).samples.len() <= reservoir_max,
{
}

/// Recording deadlines never counts more met than there were.
pub proof fn deadlines_met_are_counted(row: RowView, met: bool)
    requires
        row.deadline_ok <= row.deadline_total < u64::MAX,
    ensures
        row.with_deadline(met).deadline_ok <= row.with_deadline(met).deadline_total,
        row.with_deadline(met).deadline_total == row.deadline_total + 1,
{
}

/// A quantile is one of the samples.
pub proof fn quantile_is_a_sample(s: Seq<F64>, q: F64)
    requires
        0 < s.len(),
    ensures
        s.contains(quantile(s, q)),
{
    crate::binary64::sort::ascending_is_sorted(s);
    let r = crate::binary64::sort::ascending(s);
    let x = r[rank(s.len(), q)];
    r.to_multiset_ensures();
    s.to_multiset_ensures();
    assert(r.contains(x));
    assert(s.to_multiset().count(x) > 0);
}

/// The quantile of either zero is the first sample in order.
proof fn lemma_rank_of_zero(n: nat, z: F64)
    requires
        0 < n <= u64::MAX,
        z.magnitude() == 0,
    ensures
        rank(n, z) == 0,
{
    let last = (n - 1) as u64;
    crate::binary64::order::from_u64_keeps_order(last, last);
    crate::binary64::order::zero_of_anything_is_zero(F64::from_u64(last), z);
    crate::binary64::order::zeros_round_to_zero(F64::from_u64(last).times(z));
}

/// A higher quantile is never a lower sample.
pub proof fn quantiles_are_ordered(s: Seq<F64>, p: F64, q: F64)
    requires
        0 < s.len() <= u64::MAX,
        F64::zero().at_most(p),
        q.is_finite(),
        p.at_most(q),
    ensures
        quantile(s, p).total_position() <= quantile(s, q).total_position(),
        !quantile(s, p).is_nan() && !quantile(s, q).is_nan() ==> quantile(s, p).at_most(
            quantile(s, q),
        ),
{
    if p.magnitude() == 0 {
        lemma_rank_of_zero(s.len(), p);
    } else {
        let n = F64::from_u64((s.len() - 1) as u64);
        crate::binary64::order::from_u64_keeps_order((s.len() - 1) as u64, (s.len() - 1) as u64);
        crate::binary64::order::times_keeps_order(p, q, n);
        crate::binary64::order::times_commute(n, p);
        crate::binary64::order::times_commute(n, q);
        crate::binary64::order::round_to_u64_keeps_order(n.times(p), n.times(q));
    }
    crate::binary64::sort::ascending_is_sorted(s);
    let r = crate::binary64::sort::ascending(s);
    assert(r[rank(s.len(), p)].total_position() <= r[rank(s.len(), q)].total_position());
}

/// Quantiles of numbers are numbers; only without samples there is none.
pub proof fn quantiles_are_numbers(s: Seq<F64>, q: F64)
    requires
        forall|i: int| 0 <= i < s.len() ==> !(#[trigger] s[i]).is_nan(),
    ensures
        quantile(s, q).is_nan() <==> s.len() == 0,
{
    if s.len() > 0 {
        quantile_is_a_sample(s, q);
    }
}

/// The quantile 0 is the least sample, and the quantile 1 the greatest.
pub proof fn quantiles_span_the_samples(s: Seq<F64>, i: int)
    requires
        s.len() <= 0x20_0000_0000_0000,
        0 <= i < s.len(),
    ensures
        quantile(s, F64::zero()).total_position() <= s[i].total_position(),
        s[i].total_position() <= quantile(s, F64::one()).total_position(),
        (forall|j: int| 0 <= j < s.len() ==> !(#[trigger] s[j]).is_nan()) ==> quantile(
            s,
            F64::zero(),
        ).at_most(s[i]) && s[i].at_most(quantile(s, F64::one())),
{
    let last = (s.len() - 1) as u64;
    lemma_rank_of_zero(s.len(), F64::zero());
    crate::binary64::order::from_u64_keeps_order(last, last);
    crate::binary64::order::one_is_neutral(F64::from_u64(last));
    crate::binary64::order::small_wholes_round_to_themselves(last);
    crate::binary64::sort::ascending_is_sorted(s);
    let r = crate::binary64::sort::ascending(s);
    r.to_multiset_ensures();
    s.to_multiset_ensures();
    assert(s.contains(s[i]));
    assert(r.to_multiset().count(s[i]) > 0);
    assert(r.contains(s[i]));
    let k = choose|k: int| 0 <= k < r.len() && r[k] == s[i];
    assert(r[0].total_position() <= r[k].total_position());
    assert(r[k].total_position() <= r[last as int].total_position());
    if forall|j: int| 0 <= j < s.len() ==> !(#[trigger] s[j]).is_nan() {
        quantiles_are_numbers(s, F64::zero());
        quantiles_are_numbers(s, F64::one());
    }
}

/// The share of deadlines met is from zero to one.
pub proof fn success_rate_is_a_share(row: RowView)
    requires
        row.deadline_ok <= row.deadline_total,
    ensures
        row.success_rate() matches Some(r) ==> F64::zero().at_most(r) && r.at_most(F64::one()),
{
    crate::binary64::order::from_u64_keeps_order(row.deadline_ok, row.deadline_total);
    crate::binary64::order::from_u64_keeps_order(row.deadline_total, row.deadline_total);
    if row.deadline_total > 0 {
        crate::binary64::order::share_is_at_most_one(
            F64::from_u64(row.deadline_ok),
            F64::from_u64(row.deadline_total),
        );
    }
}

/// A sample enters the moving mean with the weight `alpha`, and the square of its distance to the
/// mean that it has moved enters the moving variance with the same weight.  The first sample is
/// the mean, without a variance, whatever was there before.
pub proof fn samples_enter_with_their_weight(
    row: RowView,
    x: F64,
    alpha: F64,
    reservoir_max: nat,
    now: u64,
)
    requires
        row.sample_count < u64::MAX,
    ensures
        ({
            let after = row.with_sample(x, alpha, reservoir_max, now);
            let rest = F64::one().minus(alpha);
            let off = x.minus(after.ewma_mean);
            &&& row.sample_count > 0 ==> after.ewma_mean == alpha.times(x).plus(
                rest.times(row.ewma_mean),
            )
            &&& row.sample_count > 0 ==> after.ewma_variance == alpha.times(off).times(off).plus(
                rest.times(row.ewma_variance),
            )
            &&& row.sample_count == 0 ==> after.ewma_mean == x && after.ewma_variance == F64::zero()
            &&& after.sample_count == row.sample_count + 1
            &&& after.samples == retained(row.samples, x, reservoir_max)
            &&& after.last_update_unix_ms == now
            &&& after.deadline_ok == row.deadline_ok
            &&& after.deadline_total == row.deadline_total
            &&& after.model_version == row.model_version
        }),
{
}

/// With all the weight on the newest sample the mean is that sample, and with none on it the mean
/// stays.
pub proof fn weights_span_new_and_old(
    row: RowView,
    x: F64,
    alpha: F64,
    reservoir_max: nat,
    now: u64,
)
    requires
        row.sample_count > 0,
        x.is_finite(),
        row.ewma_mean.is_finite(),
    ensures
        alpha == F64::one() ==> crate::binary64::order::alike(
            row.with_sample(x, alpha, reservoir_max, now).ewma_mean,
            x,
        ),
        alpha.magnitude() == 0 ==> crate::binary64::order::alike(
            row.with_sample(x, alpha, reservoir_max, now).ewma_mean,
            row.ewma_mean,
        ),
{
    if alpha == F64::one() {
        crate::binary64::order::whole_shares_decide(x, row.ewma_mean);
    }
    if alpha.magnitude() == 0 {
        crate::binary64::order::no_share_counts_nothing(alpha, x, row.ewma_mean);
    }
}

/// A slower sample never leaves a lower mean, nor does a higher mean before it.
pub proof fn slower_samples_raise_the_mean(
    row: RowView,
    higher: RowView,
    x: F64,
    slower: F64,
    alpha: F64,
    reservoir_max: nat,
    now: u64,
)
    requires
        row.sample_count > 0,
        higher.sample_count > 0,
        crate::binary64::order::is_amount(alpha),
        alpha.at_most(F64::one()),
        crate::binary64::order::is_amount(x),
        crate::binary64::order::is_amount(slower),
        x.at_most(slower),
        slower.is_finite(),
        crate::binary64::order::is_amount(row.ewma_mean),
        crate::binary64::order::is_amount(higher.ewma_mean),
        row.ewma_mean.at_most(higher.ewma_mean),
        higher.ewma_mean.is_finite(),
    ensures
        row.with_sample(x, alpha, reservoir_max, now).ewma_mean.at_most(
            higher.with_sample(slower, alpha, reservoir_max, now).ewma_mean,
        ),
{
    crate::binary64::order::mixes_keep_order(
        alpha,
        x,
        slower,
        row.ewma_mean,
        higher.ewma_mean,
    );
}

/// The moving variance is never negative, while it is a number.
pub proof fn variance_is_not_negative(
    row: RowView,
    x: F64,
    alpha: F64,
    reservoir_max: nat,
    now: u64,
)
    requires
        crate::binary64::order::is_amount(alpha),
        alpha.at_most(F64::one()),
        crate::binary64::order::is_amount(row.ewma_variance),
        row.ewma_variance.is_finite(),
        ({
            let off = x.minus(row.with_sample(x, alpha, reservoir_max, now).ewma_mean);
            off.is_finite() && alpha.times(off).is_finite()
        }),
    ensures
        F64::zero().at_most(row.with_sample(x, alpha, reservoir_max, now).ewma_variance),
{
    if row.sample_count > 0 {
        let one = F64::one();
        let off = x.minus(row.with_sample(x, alpha, reservoir_max, now).ewma_mean);
        let rest = one.minus(alpha);
        let square = alpha.times(off).times(off);
        crate::binary64::order::signs_of_products(alpha, off);
        crate::binary64::order::signs_of_products(alpha.times(off), off);
        crate::binary64::order::difference_is_an_amount(one, alpha);
        crate::binary64::order::minus_an_amount_is_less(one, alpha);
        crate::binary64::order::times_keeps_order(rest, one, row.ewma_variance);
        crate::binary64::order::one_is_neutral(row.ewma_variance);
        let kept = rest.times(row.ewma_variance);
        crate::binary64::order::plus_keeps_order(F64::zero(), square, kept);
        crate::binary64::order::zero_adds_nothing_in_front(F64::zero(), kept);
    }
}

/// Below the bound every sample is retained, in order; at the bound every second one is, from the
/// first on, so that half of them are left, each one a sample and in the order in which they came.
pub proof fn samples_are_retained_in_order(s: Seq<F64>, x: F64, max: nat, i: int, j: int)
    requires
        0 <= i < j < retained(s, x, max).len(),
    ensures
        s.len() < max ==> retained(s, x, max) == s.push(x),
        2 * retained(s, x, max).len() >= s.len() + 1,
        s.len() >= max ==> 2 * retained(s, x, max).len() <= s.len() + 2,
        s.len() >= max ==> retained(s, x, max)[i] == s.push(x)[2 * i],
        exists|k: int, l: int|
            0 <= k < l <= s.len() && retained(s, x, max)[i] == #[trigger] s.push(x)[k] && retained(
                s,
                x,
                max,
            )[j] == #[trigger] s.push(x)[l],
{
    let r = retained(s, x, max);
    if s.len() < max {
        assert(r[i] == s.push(x)[i] && r[j] == s.push(x)[j]);
    } else {
        assert(r[i] == s.push(x)[2 * i] && r[j] == s.push(x)[2 * j]);
    }
}

/// Each deadline counts once, and as met exactly when it was.
pub proof fn deadlines_count_once(row: RowView, met: bool)
    requires
        row.deadline_total < u64::MAX,
        row.deadline_ok < u64::MAX,
    ensures
        row.with_deadline(met).deadline_total == row.deadline_total + 1,
        row.with_deadline(met).deadline_ok - row.deadline_ok == if met {
            1int
        } else {
            0
        },
        row.with_deadline(met).samples == row.samples,
        row.with_deadline(met).sample_count == row.sample_count,
        row.with_deadline(met).ewma_mean == row.ewma_mean,
        row.with_deadline(met).ewma_variance == row.ewma_variance,
{
}

/// The share of deadlines met is one where all were, zero where none was, and never less where
/// more of as many were.
pub proof fn success_rates_follow_the_counts(row: RowView, better: RowView)
    requires
        row.deadline_total > 0,
        better.deadline_total == row.deadline_total,
        row.deadline_ok <= better.deadline_ok,
    ensures
        row.success_rate() matches Some(r) && (better.success_rate() matches Some(b) && r.at_most(
            b,
        )),
        row.deadline_ok == row.deadline_total ==> row.success_rate() == Some(F64::one()),
        row.deadline_ok == 0 ==> (row.success_rate() matches Some(r) && r.magnitude() == 0),
        row.deadline_total == 1 ==> row.success_rate() == Some(F64::from_u64(row.deadline_ok)),
{
    let total = F64::from_u64(row.deadline_total);
    let a = F64::from_u64(row.deadline_ok);
    let b = F64::from_u64(better.deadline_ok);
    crate::binary64::order::from_u64_keeps_order(row.deadline_ok, better.deadline_ok);
    crate::binary64::order::from_u64_keeps_order(row.deadline_total, row.deadline_total);
    crate::binary64::order::over_keeps_order(a, b, total);
    crate::binary64::order::itself_goes_once(total);
    crate::binary64::order::one_is_whole();
    crate::binary64::order::one_changes_no_quotient(a);
    if row.deadline_ok == 0 {
        crate::binary64::order::small_wholes_are_exact(0);
        if a.magnitude() > 0 {
            crate::binary64::lemma_units_of_strict(0, a.magnitude() as nat);
        }
        crate::binary64::order::zero_shared_is_zero(a, total);
    }
}

/// The median is half of the way, rounded up.
proof fn lemma_rank_of_half(n: nat)
    requires
        0 < n <= 0x10_0000_0000_0000,
    ensures
        rank(n, F64 { bits: 0x3FE0_0000_0000_0000 }) == n / 2,
{
    let half = F64 { bits: 0x3FE0_0000_0000_0000 };
    let last = (n - 1) as u64;
    let x = F64::from_u64(last);
    let u = crate::binary64::arith::unit();
    let h = pow2(1073);
    crate::binary64::order::small_wholes_are_exact(last);
    crate::binary64::root::lemma_units_of_binade(1021, 0x0010_0000_0000_0000);
    lemma_pow2_adds(52, 1021);
    lemma_pow2_unfold(1074);
    lemma_pow2_pos(1073);
    lemma2_to64_rest();
    assert(half.units() == h && u == 2 * h);
    // The product is exact.
    let mag = crate::binary64::error::lemma_is_number(last as nat, 1073);
    crate::binary64::order::numbers_round_to_themselves(mag);
    reveal(F64::spec_times);
    let m = last as nat * h;
    crate::binary64::arith::lemma_nearest_scale(m, 1, u);
    assert((last * u) * h == m * u && 1 * u == u) by (nonlinear_arith)
        requires
            m == last * h,
    ;
    let p = x.times(half);
    assert(crate::binary64::round::nearest((last * u) as nat * h, u) == mag);
    crate::binary64::error::shares_of_wholes_are_close(last, half);
    assert(p.units() == m);
    reveal(F64::spec_round_to_u64);
    let up = (2 * m + u) / (2 * u);
    assert(2 * m + u == n * u) by (nonlinear_arith)
        requires
            m == last * h,
            u == 2 * h,
            n == last + 1,
    ;
    vstd::arithmetic::div_mod::lemma_div_denominator((n * u) as int, u as int, 2);
    vstd::arithmetic::div_mod::lemma_div_multiples_vanish(n as int, u as int);
    assert(u * n == n * u && u * 2 == 2 * u) by (nonlinear_arith);
    assert(up == n / 2);
}

/// The sample that stands for a quantile is the nearest to that share of the way from the first
/// to the last in order: at most half a place off, but for the last bit of the way; the median of
/// an even count is the upper of the two in the middle.
pub proof fn ranks_are_nearest(n: nat, q: F64)
    requires
        0 < n <= 0x10_0000_0000_0000,
        crate::binary64::order::is_amount(q),
        q.at_most(F64::one()),
    ensures
        ({
            let one = crate::binary64::arith::unit() as int;
            let way = (n - 1) * q.units();
            &&& 0x10_0000_0000_0000 * (2 * (rank(n, q) * one) - 2 * way - one) <= way
            &&& 0x10_0000_0000_0000 * (2 * way - 2 * (rank(n, q) * one) - one) <= way
        }),
        rank(n, F64 { bits: 0x3FE0_0000_0000_0000 }) == n / 2,
{
    let last = (n - 1) as u64;
    let p = F64::from_u64(last).times(q);
    let l = last as int;
    let one = crate::binary64::arith::unit() as int;
    let r = p.units();
    crate::binary64::error::lemma_grain();
    crate::binary64::order::lemma_one();
    crate::binary64::order_is_by_value(F64::zero(), q);
    crate::binary64::order_is_by_value(q, F64::one());
    crate::binary64::error::shares_of_wholes_are_close(last, q);
    lemma_rank_of_half(n);
    reveal(F64::spec_round_to_u64);
    let up = (2 * r + one) / (2 * one);
    vstd::arithmetic::div_mod::lemma_fundamental_div_mod(2 * r + one, 2 * one);
    let rem = (2 * r + one) % (2 * one);
    assert(0 <= rem < 2 * one);
    assert(2 * one * up == 2 * (up * one)) by (nonlinear_arith);
    assert(up <= l) by (nonlinear_arith)
        requires
            2 * (up * one) <= 2 * r + one,
            r <= l * one,
            one > 0,
    ;
    assert(up >= 0) by (nonlinear_arith)
        requires
            2 * (up * one) > 2 * r - one,
            r >= 0,
            one > 0,
    ;
}

/// A row that was cut short is no row: it takes 60 bytes and eight for each sample, and fewer are
/// refused.
pub proof fn cut_rows_are_no_rows(row: RowView, k: int)
    requires
        row.samples.len() <= u64::MAX,
        0 <= k < row.encoded().len(),
    ensures
        row.encoded().len() == 60 + 8 * row.samples.len(),
        RowView::decoded(row.encoded().take(k)) is None,
{
    let e = row.encoded();
    let p = e.take(k);
    crate::observation::codec::lemma_le_bytes_len(row.sample_count as nat, 8);
    crate::observation::codec::lemma_le_bytes_len(row.ewma_mean.bits as nat, 8);
    crate::observation::codec::lemma_le_bytes_len(row.ewma_variance.bits as nat, 8);
    crate::observation::codec::lists_take_eight_bytes_each(row.samples);
    crate::observation::codec::lemma_le_bytes_len(row.deadline_ok as nat, 8);
    crate::observation::codec::lemma_le_bytes_len(row.deadline_total as nat, 8);
    crate::observation::codec::lemma_le_bytes_len(row.last_update_unix_ms as nat, 8);
    crate::observation::codec::lemma_le_bytes_len(row.model_version as nat, 4);
    row_round_trip(row, Seq::empty());
    assert(e + Seq::<u8>::empty() =~= e);
    reveal(crate::observation::codec::read_u64);
    reveal(crate::observation::codec::read_u32);
    reveal(crate::observation::codec::read_f64);
    reveal(crate::observation::codec::read_vec_f64);
    if RowView::decoded(p) is Some {
        assert(p.skip(8).skip(8).skip(8).take(8) =~= e.skip(8).skip(8).skip(8).take(8));
    }
}

/// A row is stored field by field: the count of samples, mean, variance, the samples, deadlines met
/// and in all, the time of the last update and the version of the model.
pub proof fn rows_are_stored_field_by_field(row: RowView, rest: Seq<u8>)
    ensures
        row.encoded() + rest == (crate::observation::codec::le_bytes(row.sample_count as nat, 8) + (crate::observation::codec::f64_bytes(row.ewma_mean) + (crate::observation::codec::f64_bytes(row.ewma_variance) + (crate::observation::codec::vec_f64_bytes(row.samples) + (crate::observation::codec::le_bytes(row.deadline_ok as nat, 8) + (crate::observation::codec::le_bytes(row.deadline_total as nat, 8) + (crate::observation::codec::le_bytes(row.last_update_unix_ms as nat, 8) + (crate::observation::codec::le_bytes(row.model_version as nat, 4) + rest)))))))),
{
    lemma_row_bytes(row, rest);
}

} // verus!
