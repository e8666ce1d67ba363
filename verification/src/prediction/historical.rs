//! Estimates from recorded outcomes.
use vstd::prelude::*;
use vstd::string::*;

use crate::binary64::F64;
use crate::error::Result;
use crate::object::ObjectSpec;
use crate::observation::{AggregateRow, ObservationStore};
use crate::prediction::bucket::action_bucket;
use crate::prediction::cost::{
    ActionPredictions, CostEstimate, CostModel, CurrentStateCostModel, Predictor,
};
use crate::resource::ResourceState;

verus! {

/// The quantiles of an estimate: 0.5, 0.9 and 0.95.
pub const Q50: u64 = 0x3FE0_0000_0000_0000;

pub const Q90: u64 = 0x3FEC_CCCC_CCCC_CCCD;

pub const Q95: u64 = 0x3FEE_6666_6666_6666;

/// The share that history has when `n` samples were seen.
pub open spec fn history_share(n: u64, k: F64, max: F64) -> F64 {
    if n == 0 {
        F64::zero()
    } else {
        F64::from_u64(n).over(k).min(max)
    }
}

/// `hist` with the share `w`, and `cur` with the rest.
pub open spec fn blended(w: F64, hist: F64, cur: F64) -> F64 {
    w.times(hist).plus(F64::one().minus(w).times(cur))
}

/// The quantile `q` of the samples blended with the expected time; the latter alone without
/// samples.
pub open spec fn blended_quantile(samples: Seq<F64>, q: F64, w: F64, cur: F64) -> F64 {
    if samples.len() == 0 {
        cur
    } else {
        blended(w, crate::observation::aggregate::quantile(samples, q), cur)
    }
}

/// The estimate from a bucket's row, with `current` for what history does not tell.
pub open spec fn historical(
    row: crate::observation::aggregate::RowView,
    current: CostEstimate,
    k: F64,
    max: F64,
) -> CostEstimate {
    if row.sample_count == 0 {
        current
    } else {
        let w = history_share(row.sample_count, k, max);
        let cur = current.expected_ms;
        CostEstimate {
            expected_ms: blended(w, row.ewma_mean, cur),
            p50_ms: blended_quantile(row.samples, F64 { bits: Q50 }, w, cur),
            p90_ms: blended_quantile(row.samples, F64 { bits: Q90 }, w, cur),
            p95_ms: blended_quantile(row.samples, F64 { bits: Q95 }, w, cur),
            deadline_probability: None,
        }
    }
}

fn blend(w: F64, hist: F64, cur: F64) -> (r: F64)
    ensures
        r == blended(w, hist, cur),
{
    w.times(hist).plus(F64::one().minus(w).times(cur))
}

fn blend_quantile(row: &AggregateRow, q: F64, w: F64, cur: F64) -> (r: F64)
    ensures
        r == blended_quantile(row.samples@, q, w, cur),
{
    if row.samples.len() == 0 {
        cur
    } else {
        blend(w, row.p(q), cur)
    }
}

/// Predicts from the recorded outcomes, with the present-state model where there are few.
///
/// History tells how the workload really answers contention, so its share grows with the number
/// of samples: `min(n / history_k, history_weight_max)`.  Without samples the model alone counts.
pub struct HistoricalPredictor {
    pub model: CurrentStateCostModel,
    /// Samples at which history would have the whole say.
    pub history_k: F64,
    pub history_weight_max: F64,
}

impl HistoricalPredictor {
    pub fn new(model: CurrentStateCostModel) -> (p: Self)
        ensures
            p.model == model,
            p.history_k == (F64 { bits: 0x4034_0000_0000_0000 }),
            p.history_weight_max == (F64 { bits: 0x3FEE_6666_6666_6666 }),
    {
        // 20 samples, and a share of at most 0.95.
        HistoricalPredictor {
            model,
            history_k: F64 { bits: 0x4034_0000_0000_0000 },
            history_weight_max: F64 { bits: 0x3FEE_6666_6666_6666 },
        }
    }

    fn weight(&self, n: u64) -> (w: F64)
        ensures
            w == history_share(n, self.history_k, self.history_weight_max),
    {
        if n == 0 {
            return F64::zero();
        }
        F64::from_u64(n).over(self.history_k).min(self.history_weight_max)
    }

    /// The estimate from a bucket's row, if one was read.
    pub fn estimate_from(&self, row: Option<AggregateRow>, current: CostEstimate) -> (e:
        CostEstimate)
        ensures
            e == match row {
                Some(r) => historical(r@, current, self.history_k, self.history_weight_max),
                None => current,
            },
    {
        let row = match row {
            Some(r) => r,
            None => return current,
        };
        if row.sample_count == 0 {
            return current;
        }
        let w = self.weight(row.sample_count);
        let cur = current.expected_ms;
        CostEstimate {
            expected_ms: blend(w, row.ewma_mean, cur),
            p50_ms: blend_quantile(&row, F64 { bits: Q50 }, w, cur),
            p90_ms: blend_quantile(&row, F64 { bits: Q90 }, w, cur),
            p95_ms: blend_quantile(&row, F64 { bits: Q95 }, w, cur),
            deadline_probability: None,
        }
    }

    /// The estimate from what reading a bucket gave: `current` where the read failed or found
    /// nothing.
    pub fn estimate_of(&self, read: Result<Option<AggregateRow>>, current: CostEstimate) -> (e:
        CostEstimate)
        ensures
            e == match read {
                Ok(Some(r)) => historical(r@, current, self.history_k, self.history_weight_max),
                _ => current,
            },
    {
        match read {
            Ok(row) => self.estimate_from(row, current),
            Err(_) => current,
        }
    }

    /// `e` is an estimate for `bucket`: from its stored row, or `current` where there is none or
    /// it could not be read.
    pub open spec fn estimates(
        &self,
        rows: Map<Seq<char>, Seq<u8>>,
        bucket: Seq<char>,
        current: CostEstimate,
        e: CostEstimate,
    ) -> bool {
        ||| e == current
        ||| rows.contains_key(bucket) && (crate::observation::store::stored(
            rows,
            bucket,
        ) matches Some(row) && e == historical(
            row,
            current,
            self.history_k,
            self.history_weight_max,
        ))
    }

    fn estimate(&self, store: &ObservationStore, bucket: &str, current: CostEstimate) -> (e:
        CostEstimate)
        ensures
            self.estimates(store.rows(), bucket@, current, e),
    {
        self.estimate_of(store.aggregate(bucket), current)
    }
}

impl Predictor for HistoricalPredictor {
    open spec fn predicts(
        &self,
        rows: Map<Seq<char>, Seq<u8>>,
        object: ObjectSpec,
        state: ResourceState,
        r: ActionPredictions,
    ) -> bool {
        let regime = crate::prediction::bucket::regime(state);
        let size = object.size_bytes;
        let current = crate::prediction::cost::model_predictions(self.model, object, state);
        &&& self.estimates(
            rows,
            crate::prediction::bucket::bucket_key("move"@, size, regime),
            current.move_est,
            r.move_est,
        )
        &&& self.estimates(
            rows,
            crate::prediction::bucket::bucket_key("recompute"@, size, regime),
            current.recompute_est,
            r.recompute_est,
        )
        &&& self.estimates(
            rows,
            crate::prediction::bucket::bucket_key("remote"@, size, regime),
            current.remote_est,
            r.remote_est,
        )
    }

    /// What is learnt is in the store.
    open spec fn learns(
        before: Self,
        action: Seq<char>,
        state: ResourceState,
        actual_ms: F64,
        after: Self,
    ) -> bool {
        after == before
    }

    fn predict(&self, store: &ObservationStore, object: &ObjectSpec, state: &ResourceState) -> (r:
        ActionPredictions) {
        let move_bucket = action_bucket(object, "move", state);
        let recompute_bucket = action_bucket(object, "recompute", state);
        let remote_bucket = action_bucket(object, "remote", state);
        ActionPredictions {
            move_est: self.estimate(store, &move_bucket, self.model.move_cost(state, object)),
            recompute_est: self.estimate(
                store,
                &recompute_bucket,
                self.model.recompute_cost(state, object),
            ),
            remote_est: self.estimate(
                store,
                &remote_bucket,
                self.model.remote_recompute_cost(state, object),
            ),
        }
    }

    fn update(&mut self, action: &str, object: &ObjectSpec, state: &ResourceState, actual_ms: F64) {
    }
}

/// A cold start falls back on the present state: without recorded samples the prediction is the
/// model's.
pub proof fn cold_start_uses_the_model(
    p: HistoricalPredictor,
    rows: Map<Seq<char>, Seq<u8>>,
    object: ObjectSpec,
    state: ResourceState,
    r: ActionPredictions,
)
    requires
        p.predicts(rows, object, state, r),
        forall|bucket: Seq<char>| #[trigger] rows.contains_key(bucket) ==> (
        crate::observation::store::stored(rows, bucket) matches Some(row) ==> row.sample_count
            == 0),
    ensures
        r == crate::prediction::cost::model_predictions(p.model, object, state),
{
}

/// History never has more than its greatest share, nor less than none.
pub proof fn history_share_is_bounded(n: u64, k: F64, max: F64)
    requires
        crate::binary64::order::is_amount(k),
        k.is_finite(),
        k.magnitude() > 0,
        crate::binary64::order::is_amount(max),
    ensures
        history_share(n, k, max).at_most(max),
        F64::zero().at_most(history_share(n, k, max)),
{
    crate::binary64::order::from_u64_keeps_order(n, n);
    let x = F64::from_u64(n);
    crate::binary64::order::over_keeps_order(x, x, k);
}

/// The quantiles of an estimate from history are in order.
pub proof fn historical_quantiles_are_ordered(
    row: crate::observation::aggregate::RowView,
    current: CostEstimate,
    k: F64,
    max: F64,
)
    requires
        row.sample_count > 0,
        0 < row.samples.len() <= u64::MAX,
        forall|i: int|
            0 <= i < row.samples.len() ==> crate::binary64::order::is_amount(
                #[trigger] row.samples[i],
            ) && row.samples[i].is_finite(),
        crate::binary64::order::is_amount(k),
        k.is_finite(),
        k.magnitude() > 0,
        crate::binary64::order::is_amount(max),
        max.is_finite(),
        F64::one().minus(history_share(row.sample_count, k, max)).times(
            current.expected_ms,
        ).is_finite(),
    ensures
        historical(row, current, k, max).p50_ms.at_most(historical(row, current, k, max).p90_ms),
        historical(row, current, k, max).p90_ms.at_most(historical(row, current, k, max).p95_ms),
{
    let w = history_share(row.sample_count, k, max);
    history_share_is_bounded(row.sample_count, k, max);
    lemma_share_is_amount(row.sample_count, k, max);
    lemma_blend_order(row.samples, F64 { bits: Q50 }, F64 { bits: Q90 }, w, current.expected_ms);
    lemma_blend_order(row.samples, F64 { bits: Q90 }, F64 { bits: Q95 }, w, current.expected_ms);
}

proof fn lemma_share_is_amount(n: u64, k: F64, max: F64)
    requires
        crate::binary64::order::is_amount(k),
        k.is_finite(),
        k.magnitude() > 0,
        crate::binary64::order::is_amount(max),
        max.is_finite(),
    ensures
        crate::binary64::order::is_amount(history_share(n, k, max)),
        history_share(n, k, max).is_finite(),
{
    crate::binary64::order::from_u64_keeps_order(n, n);
    let x = F64::from_u64(n);
    crate::binary64::order::over_keeps_order(x, x, k);
}

proof fn lemma_blend_order(samples: Seq<F64>, p: F64, q: F64, w: F64, cur: F64)
    requires
        0 < samples.len() <= u64::MAX,
        forall|i: int|
            0 <= i < samples.len() ==> crate::binary64::order::is_amount(#[trigger] samples[i])
                && samples[i].is_finite(),
        crate::binary64::order::is_amount(p),
        crate::binary64::order::is_amount(q),
        q.is_finite(),
        p.at_most(q),
        crate::binary64::order::is_amount(w),
        w.is_finite(),
        F64::one().minus(w).times(cur).is_finite(),
    ensures
        blended_quantile(samples, p, w, cur).at_most(blended_quantile(samples, q, w, cur)),
{
    let a = crate::observation::aggregate::quantile(samples, p);
    let b = crate::observation::aggregate::quantile(samples, q);
    crate::observation::aggregate::quantile_is_a_sample(samples, p);
    crate::observation::aggregate::quantile_is_a_sample(samples, q);
    crate::observation::aggregate::quantiles_are_ordered(samples, p, q);
    crate::binary64::order::times_keeps_order(a, b, w);
    crate::binary64::order::times_commute(a, w);
    crate::binary64::order::times_commute(b, w);
    crate::binary64::order::plus_keeps_order(
        w.times(a),
        w.times(b),
        F64::one().minus(w).times(cur),
    );
}

/// What history says counts with its share, `n / k` of the whole up to the greatest share, and
/// the expected time of the present state with the rest.  Quantiles need retained samples: where
/// there are none, that expected time stands for them.
pub proof fn history_counts_with_its_share(
    row: crate::observation::aggregate::RowView,
    current: CostEstimate,
    k: F64,
    max: F64,
)
    requires
        row.sample_count > 0,
    ensures
        ({
            let w = F64::from_u64(row.sample_count).over(k).min(max);
            let rest = F64::one().minus(w).times(current.expected_ms);
            let e = historical(row, current, k, max);
            let at = |q: F64|
                if row.samples.len() == 0 {
                    current.expected_ms
                } else {
                    w.times(crate::observation::aggregate::quantile(row.samples, q)).plus(rest)
                };
            &&& e.expected_ms == w.times(row.ewma_mean).plus(rest)
            &&& e.p50_ms == at(F64 { bits: 0x3FE0_0000_0000_0000 })
            &&& e.p90_ms == at(F64 { bits: 0x3FEC_CCCC_CCCC_CCCD })
            &&& e.p95_ms == at(F64 { bits: 0x3FEE_6666_6666_6666 })
            &&& e.deadline_probability is None
        }),
{
}

/// A history with enough samples and nothing held back from it has the whole say: the expected
/// time compares alike with the recorded mean, and each quantile with that of the samples,
/// whatever the present state is like.
pub proof fn full_history_decides(
    row: crate::observation::aggregate::RowView,
    current: CostEstimate,
    k: F64,
    max: F64,
)
    requires
        row.sample_count > 0,
        0 < row.samples.len() <= u64::MAX,
        forall|i: int| 0 <= i < row.samples.len() ==> (#[trigger] row.samples[i]).is_finite(),
        row.ewma_mean.is_finite(),
        current.expected_ms.is_finite(),
        crate::binary64::order::is_amount(k),
        k.is_finite(),
        k.magnitude() > 0,
        k.at_most(F64::from_u64(row.sample_count)),
        max == F64::one(),
    ensures
        ({
            let e = historical(row, current, k, max);
            let at = |q: F64| crate::observation::aggregate::quantile(row.samples, q);
            &&& crate::binary64::order::alike(e.expected_ms, row.ewma_mean)
            &&& crate::binary64::order::alike(e.p50_ms, at(F64 { bits: 0x3FE0_0000_0000_0000 }))
            &&& crate::binary64::order::alike(e.p90_ms, at(F64 { bits: 0x3FEC_CCCC_CCCC_CCCD }))
            &&& crate::binary64::order::alike(e.p95_ms, at(F64 { bits: 0x3FEE_6666_6666_6666 }))
        }),
{
    let n = F64::from_u64(row.sample_count);
    crate::binary64::order::from_u64_keeps_order(row.sample_count, row.sample_count);
    crate::binary64::order::over_keeps_order(k, n, k);
    crate::binary64::order::itself_goes_once(k);
    assert(history_share(row.sample_count, k, max) == F64::one());
    crate::binary64::order::whole_shares_decide(row.ewma_mean, current.expected_ms);
    let p50 = F64 { bits: Q50 };
    let p90 = F64 { bits: Q90 };
    let p95 = F64 { bits: Q95 };
    crate::observation::aggregate::quantile_is_a_sample(row.samples, p50);
    crate::observation::aggregate::quantile_is_a_sample(row.samples, p90);
    crate::observation::aggregate::quantile_is_a_sample(row.samples, p95);
    crate::binary64::order::whole_shares_decide(
        crate::observation::aggregate::quantile(row.samples, p50),
        current.expected_ms,
    );
    crate::binary64::order::whole_shares_decide(
        crate::observation::aggregate::quantile(row.samples, p90),
        current.expected_ms,
    );
    crate::binary64::order::whole_shares_decide(
        crate::observation::aggregate::quantile(row.samples, p95),
        current.expected_ms,
    );
}

/// A history that may have no share changes nothing: the expected time and every quantile
/// compare alike with the expected time of the present state.
pub proof fn history_without_a_share_is_ignored(
    row: crate::observation::aggregate::RowView,
    current: CostEstimate,
    k: F64,
    max: F64,
)
    requires
        row.sample_count > 0,
        row.samples.len() <= u64::MAX,
        forall|i: int| 0 <= i < row.samples.len() ==> (#[trigger] row.samples[i]).is_finite(),
        row.ewma_mean.is_finite(),
        current.expected_ms.is_finite(),
        crate::binary64::order::is_amount(k),
        k.is_finite(),
        k.magnitude() > 0,
        max.magnitude() == 0,
    ensures
        ({
            let e = historical(row, current, k, max);
            let cur = current.expected_ms;
            &&& crate::binary64::order::alike(e.expected_ms, cur)
            &&& crate::binary64::order::alike(e.p50_ms, cur)
            &&& crate::binary64::order::alike(e.p90_ms, cur)
            &&& crate::binary64::order::alike(e.p95_ms, cur)
        }),
{
    let n = F64::from_u64(row.sample_count);
    crate::binary64::order::from_u64_keeps_order(row.sample_count, row.sample_count);
    crate::binary64::order::over_keeps_order(n, n, k);
    let w = history_share(row.sample_count, k, max);
    let cur = current.expected_ms;
    crate::binary64::order::no_share_counts_nothing(w, row.ewma_mean, cur);
    if row.samples.len() > 0 {
        let p50 = F64 { bits: Q50 };
        let p90 = F64 { bits: Q90 };
        let p95 = F64 { bits: Q95 };
        crate::observation::aggregate::quantile_is_a_sample(row.samples, p50);
        crate::observation::aggregate::quantile_is_a_sample(row.samples, p90);
        crate::observation::aggregate::quantile_is_a_sample(row.samples, p95);
        crate::binary64::order::no_share_counts_nothing(w, crate::observation::aggregate::quantile(row.samples, p50), cur);
        crate::binary64::order::no_share_counts_nothing(w, crate::observation::aggregate::quantile(row.samples, p90), cur);
        crate::binary64::order::no_share_counts_nothing(w, crate::observation::aggregate::quantile(row.samples, p95), cur);
    }
}

/// A higher recorded mean never lowers the expected time.
pub proof fn slower_history_is_not_faster(
    row: crate::observation::aggregate::RowView,
    slower: crate::observation::aggregate::RowView,
    current: CostEstimate,
    k: F64,
    max: F64,
)
    requires
        slower == (crate::observation::aggregate::RowView { ewma_mean: slower.ewma_mean, ..row }),
        row.ewma_mean.at_most(slower.ewma_mean),
        crate::binary64::order::is_amount(row.ewma_mean),
        crate::binary64::order::is_amount(slower.ewma_mean),
        slower.ewma_mean.is_finite(),
        !current.expected_ms.is_nan(),
        crate::binary64::order::is_amount(k),
        k.is_finite(),
        k.magnitude() > 0,
        crate::binary64::order::is_amount(max),
        max.is_finite(),
        F64::one().minus(history_share(row.sample_count, k, max)).times(
            current.expected_ms,
        ).is_finite(),
    ensures
        historical(row, current, k, max).expected_ms.at_most(
            historical(slower, current, k, max).expected_ms,
        ),
{
    let w = history_share(row.sample_count, k, max);
    lemma_share_is_amount(row.sample_count, k, max);
    crate::binary64::order::times_keeps_order(row.ewma_mean, slower.ewma_mean, w);
    crate::binary64::order::times_commute(row.ewma_mean, w);
    crate::binary64::order::times_commute(slower.ewma_mean, w);
    crate::binary64::order::plus_keeps_order(
        w.times(row.ewma_mean),
        w.times(slower.ewma_mean),
        F64::one().minus(w).times(current.expected_ms),
    );
}

/// A slower present state never lowers the expected time, with a greatest share of one or less.
pub proof fn slower_states_are_not_faster(
    row: crate::observation::aggregate::RowView,
    current: CostEstimate,
    slower: CostEstimate,
    k: F64,
    max: F64,
)
    requires
        current.expected_ms.at_most(slower.expected_ms),
        crate::binary64::order::is_amount(current.expected_ms),
        crate::binary64::order::is_amount(slower.expected_ms),
        slower.expected_ms.is_finite(),
        crate::binary64::order::is_amount(k),
        k.is_finite(),
        k.magnitude() > 0,
        crate::binary64::order::is_amount(max),
        max.at_most(F64::one()),
        history_share(row.sample_count, k, max).times(row.ewma_mean).is_finite(),
    ensures
        historical(row, current, k, max).expected_ms.at_most(
            historical(row, slower, k, max).expected_ms,
        ),
{
    let w = history_share(row.sample_count, k, max);
    lemma_share_is_amount(row.sample_count, k, max);
    history_share_is_bounded(row.sample_count, k, max);
    let rest = F64::one().minus(w);
    crate::binary64::order::difference_is_an_amount(F64::one(), w);
    crate::binary64::order::minus_an_amount_is_less(F64::one(), w);
    crate::binary64::order::times_keeps_order(current.expected_ms, slower.expected_ms, rest);
    crate::binary64::order::times_commute(current.expected_ms, rest);
    crate::binary64::order::times_commute(slower.expected_ms, rest);
    crate::binary64::order::plus_keeps_order(
        rest.times(current.expected_ms),
        rest.times(slower.expected_ms),
        w.times(row.ewma_mean),
    );
}

/// The share of history never shrinks as samples come in, and is the greatest one from `k`
/// samples on, where that is at most one.
pub proof fn more_samples_count_more(n: u64, more: u64, k: F64, max: F64)
    requires
        n <= more,
        crate::binary64::order::is_amount(k),
        k.is_finite(),
        k.magnitude() > 0,
        crate::binary64::order::is_amount(max),
    ensures
        history_share(n, k, max).at_most(history_share(more, k, max)),
        n > 0 && k.at_most(F64::from_u64(n)) && max.at_most(F64::one()) ==> history_share(n, k, max)
            == max,
{
    let a = F64::from_u64(n);
    let b = F64::from_u64(more);
    crate::binary64::order::from_u64_keeps_order(n, more);
    crate::binary64::order::over_keeps_order(a, b, k);
    if n > 0 && k.at_most(a) {
        crate::binary64::order::over_keeps_order(k, a, k);
        crate::binary64::order::itself_goes_once(k);
    }
}

} // verus!
