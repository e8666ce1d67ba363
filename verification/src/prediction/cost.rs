//! Cost estimates from the machine's present state.
use vstd::prelude::*;
use vstd::string::*;

use crate::binary64::F64;
use crate::object::ObjectSpec;
use crate::observation::ObservationStore;
use crate::prediction::deadline::{deadline_exceed_probability, Elementary};
use crate::resource::ResourceState;

verus! {

/// 0.05: contention never slows a rate to less than this share.
pub const RATE_FLOOR: u64 = 0x3FA9_9999_9999_999A;

/// 0.2: latency never slows a move to less than this share.
pub const LATENCY_FLOOR: u64 = 0x3FC9_9999_9999_999A;

/// 1000: milliseconds in a second.
pub const MS_PER_S: u64 = 0x408F_4000_0000_0000;

/// The predicted completion time of one action.
///
/// An estimate from the present state alone has no spread; one from history has the quantiles;
/// the deadline model adds the probability of a miss.
#[derive(Debug, Clone, Copy, PartialEq, Eq, Structural)]
pub struct CostEstimate {
    pub expected_ms: F64,
    pub p50_ms: F64,
    pub p90_ms: F64,
    pub p95_ms: F64,
    pub deadline_probability: Option<F64>,
}

impl CostEstimate {
    /// An estimate without spread.
    pub open spec fn spec_point(expected_ms: F64) -> CostEstimate {
        CostEstimate {
            expected_ms,
            p50_ms: expected_ms,
            p90_ms: expected_ms,
            p95_ms: expected_ms,
            deadline_probability: None,
        }
    }

    #[verifier::when_used_as_spec(spec_point)]
    pub fn point(expected_ms: F64) -> (e: Self)
        ensures
            e == CostEstimate::point(expected_ms),
    {
        CostEstimate {
            expected_ms,
            p50_ms: expected_ms,
            p90_ms: expected_ms,
            p95_ms: expected_ms,
            deadline_probability: None,
        }
    }
}

/// One estimate per action.
#[derive(Debug, Clone, Copy, PartialEq, Eq, Structural)]
pub struct ActionPredictions {
    pub move_est: CostEstimate,
    pub recompute_est: CostEstimate,
    /// Recomputing on a remote CPU and fetching the result.
    pub remote_est: CostEstimate,
}

/// One bundle of elementary-function values per action.
#[derive(Debug, Clone, Copy)]
pub struct ActionElementary {
    pub move_values: Elementary,
    pub recompute_values: Elementary,
    pub remote_values: Elementary,
}

/// `est` with the probability of missing a deadline that is `d` ms away.
pub open spec fn with_miss(est: CostEstimate, d: F64, values: Elementary) -> CostEstimate {
    CostEstimate {
        deadline_probability: Some(
            crate::prediction::deadline::miss_probability(est, d, values),
        ),
        ..est
    }
}

impl ActionPredictions {
    /// The predictions with the probabilities of missing the deadline, if there is one.
    pub open spec fn spec_assessed(
        self,
        deadline_remaining_ms: Option<F64>,
        values: ActionElementary,
    ) -> ActionPredictions {
        match deadline_remaining_ms {
            Some(d) => ActionPredictions {
                move_est: with_miss(self.move_est, d, values.move_values),
                recompute_est: with_miss(self.recompute_est, d, values.recompute_values),
                remote_est: with_miss(self.remote_est, d, values.remote_values),
            },
            None => self,
        }
    }

    /// The predictions with the probabilities of missing the deadline, if there is one.
    #[verifier::when_used_as_spec(spec_assessed)]
    pub fn assessed(self, deadline_remaining_ms: Option<F64>, values: ActionElementary) -> (r: Self)
        ensures
            r == self.assessed(deadline_remaining_ms, values),
    {
        let mut r = self;
        if let Some(d) = deadline_remaining_ms {
            r.move_est.deadline_probability = Some(
                deadline_exceed_probability(&self.move_est, d, values.move_values),
            );
            r.recompute_est.deadline_probability = Some(
                deadline_exceed_probability(&self.recompute_est, d, values.recompute_values),
            );
            r.remote_est.deadline_probability = Some(
                deadline_exceed_probability(&self.remote_est, d, values.remote_values),
            );
        }
        r
    }
}

/// A model of what each action costs.
pub trait CostModel {
    spec fn move_model(&self, state: ResourceState, object: ObjectSpec) -> CostEstimate;

    spec fn recompute_model(&self, state: ResourceState, object: ObjectSpec) -> CostEstimate;

    spec fn remote_model(&self, state: ResourceState, object: ObjectSpec) -> CostEstimate;

    fn move_cost(&self, state: &ResourceState, object: &ObjectSpec) -> (e: CostEstimate)
        ensures
            e == self.move_model(*state, *object),
    ;

    fn recompute_cost(&self, state: &ResourceState, object: &ObjectSpec) -> (e: CostEstimate)
        ensures
            e == self.recompute_model(*state, *object),
    ;

    fn remote_recompute_cost(&self, state: &ResourceState, object: &ObjectSpec) -> (e: CostEstimate)
        ensures
            e == self.remote_model(*state, *object),
    ;
}

/// Estimates each action, and learns from the actions that ran to completion.
///
/// The estimates have no probability of a miss yet: `ActionPredictions::assessed` adds it.
pub trait Predictor: Sized {
    /// `r` is a prediction from the stored `rows`.
    spec fn predicts(
        &self,
        rows: Map<Seq<char>, Seq<u8>>,
        object: ObjectSpec,
        state: ResourceState,
        r: ActionPredictions,
    ) -> bool;

    /// `after` is what `before` becomes when `action` took `actual_ms`.
    spec fn learns(
        before: Self,
        action: Seq<char>,
        state: ResourceState,
        actual_ms: F64,
        after: Self,
    ) -> bool;

    fn predict(&self, store: &ObservationStore, object: &ObjectSpec, state: &ResourceState) -> (r:
        ActionPredictions)
        ensures
            self.predicts(store.rows(), *object, *state, r),
    ;

    fn update(&mut self, action: &str, object: &ObjectSpec, state: &ResourceState, actual_ms: F64)
        ensures
            Self::learns(*old(self), action@, *state, actual_ms, *final(self)),
    ;
}

/// A cost model on the machine's present state alone, without history.
///
/// The coefficients fit one development machine.  What matters is the shape: how contention
/// scales the rates.
#[derive(Debug, Clone, Copy)]
pub struct CurrentStateCostModel {
    /// Bytes per second of a move there and back on an idle machine.
    pub move_rate_bps: F64,
    /// Bytes per second of one recompute pass on an idle machine.
    pub recompute_rate_bps: F64,
    /// Recompute passes of the workload; may be fractional.
    pub recompute_passes: F64,
    pub move_overhead_ms: F64,
    pub recompute_overhead_ms: F64,
    /// Read latency, in microseconds, up to which a move runs at full rate.
    pub nvme_latency_ref_us: F64,
    /// Slowdown of a move per queued request.
    pub queue_penalty: F64,
    /// Share of the recompute rate lost at full CPU load.
    pub cpu_contention: F64,
    /// Share of the recompute rate lost at full GPU load.
    pub gpu_contention: F64,
    /// Whether there is a remote node.  Without one its estimate is infinite.
    pub remote_enabled: bool,
    /// Bytes per second of one pass on the remote node.
    pub remote_rate_bps: F64,
    /// Share of the remote rate lost at full remote load.
    pub remote_contention: F64,
    /// Network latency one way, in ms.
    pub network_latency_ms: F64,
    /// Network bandwidth, in bytes per second.
    pub network_bandwidth_bps: F64,
}

impl CurrentStateCostModel {
    /// The model that fits the development machine.
    pub open spec fn standard() -> CurrentStateCostModel {
        CurrentStateCostModel {
            move_rate_bps: F64 { bits: 0x41D6_5A0B_C000_0000 },
            recompute_rate_bps: F64 { bits: 0x41EF_4ADD_4000_0000 },
            recompute_passes: F64 { bits: 0x4000_0000_0000_0000 },
            move_overhead_ms: F64 { bits: 0x4000_0000_0000_0000 },
            recompute_overhead_ms: F64::one(),
            nvme_latency_ref_us: F64 { bits: 0x4062_C000_0000_0000 },
            queue_penalty: F64 { bits: 0x3FE0_0000_0000_0000 },
            cpu_contention: F64 { bits: 0x3FE6_6666_6666_6666 },
            gpu_contention: F64 { bits: 0x3FE6_6666_6666_6666 },
            remote_enabled: false,
            remote_rate_bps: F64 { bits: 0x41EF_4ADD_4000_0000 },
            remote_contention: F64 { bits: 0x3FE6_6666_6666_6666 },
            network_latency_ms: F64 { bits: 0x4014_0000_0000_0000 },
            network_bandwidth_bps: F64 { bits: 0x4202_A05F_2000_0000 },
        }
    }
}

impl Default for CurrentStateCostModel {
    fn default() -> (m: Self)
        ensures
            m == CurrentStateCostModel::standard(),
    {
        CurrentStateCostModel {
            // 1.5e9 and 4.2e9 bytes per second, 2 passes.
            move_rate_bps: F64 { bits: 0x41D6_5A0B_C000_0000 },
            recompute_rate_bps: F64 { bits: 0x41EF_4ADD_4000_0000 },
            recompute_passes: F64 { bits: 0x4000_0000_0000_0000 },
            // 2 ms and 1 ms.
            move_overhead_ms: F64 { bits: 0x4000_0000_0000_0000 },
            recompute_overhead_ms: F64::one(),
            // 150 us, 0.5, 0.7, 0.7.
            nvme_latency_ref_us: F64 { bits: 0x4062_C000_0000_0000 },
            queue_penalty: F64 { bits: 0x3FE0_0000_0000_0000 },
            cpu_contention: F64 { bits: 0x3FE6_6666_6666_6666 },
            gpu_contention: F64 { bits: 0x3FE6_6666_6666_6666 },
            remote_enabled: false,
            // 4.2e9 bytes per second, 0.7, 5 ms, 1e10 bytes per second.
            remote_rate_bps: F64 { bits: 0x41EF_4ADD_4000_0000 },
            remote_contention: F64 { bits: 0x3FE6_6666_6666_6666 },
            network_latency_ms: F64 { bits: 0x4014_0000_0000_0000 },
            network_bandwidth_bps: F64 { bits: 0x4202_A05F_2000_0000 },
        }
    }
}

/// `rate` under a load that takes the share `contention` of it when full.
pub open spec fn slowed(rate: F64, contention: F64, load: F64) -> F64 {
    rate.times(F64::one().minus(contention.times(load)).max(F64 { bits: RATE_FLOOR }))
}

/// The ms that `bytes` take at `rate` bytes per second.
pub open spec fn ms_at(bytes: F64, rate: F64) -> F64 {
    bytes.over(rate).times(F64 { bits: MS_PER_S })
}

impl CurrentStateCostModel {
    /// The rate of a move: latency above the reference and queued requests slow it, and it never
    /// exceeds the PCIe bandwidth.
    pub open spec fn move_rate_in(self, state: ResourceState) -> F64 {
        let base = self.move_rate_bps;
        let after_latency = match state.nvme_latency_us {
            Some(lat) => base.times(
                self.nvme_latency_ref_us.over(lat.max(F64::one())).clamp(
                    F64 { bits: LATENCY_FLOOR },
                    F64::one(),
                ),
            ),
            None => base,
        };
        let after_queue = match state.nvme_queue_depth {
            Some(q) => after_latency.over(
                F64::one().plus(self.queue_penalty.times(F64::from_u64(q as u64))),
            ),
            None => after_latency,
        };
        match state.pcie_bandwidth {
            Some(pcie) => after_queue.min(pcie),
            None => after_queue,
        }
    }

    /// The rate of a recompute pass: CPU load and GPU load slow it.
    pub open spec fn recompute_rate_in(self, state: ResourceState) -> F64 {
        let after_cpu = match state.cpu_util {
            Some(u) => slowed(self.recompute_rate_bps, self.cpu_contention, u),
            None => self.recompute_rate_bps,
        };
        match state.gpu_util {
            Some(g) => slowed(after_cpu, self.gpu_contention, g),
            None => after_cpu,
        }
    }

    /// The rate of a pass on the remote node; without a reading it counts as idle.
    pub open spec fn remote_rate_in(self, state: ResourceState) -> F64 {
        slowed(
            self.remote_rate_bps,
            self.remote_contention,
            match state.remote_cpu_util {
                Some(u) => u,
                None => F64::zero(),
            },
        )
    }

    fn move_rate(&self, state: &ResourceState) -> (r: F64)
        ensures
            r == self.move_rate_in(*state),
    {
        let mut rate = self.move_rate_bps;
        if let Some(lat) = state.nvme_latency_us {
            rate =
            rate.times(
                self.nvme_latency_ref_us.over(lat.max(F64::one())).clamp(
                    F64 { bits: LATENCY_FLOOR },
                    F64::one(),
                ),
            );
        }
        if let Some(q) = state.nvme_queue_depth {
            rate = rate.over(F64::one().plus(self.queue_penalty.times(F64::from_u64(q as u64))));
        }
        if let Some(pcie) = state.pcie_bandwidth {
            rate = rate.min(pcie);
        }
        rate
    }

    fn recompute_rate(&self, state: &ResourceState) -> (r: F64)
        ensures
            r == self.recompute_rate_in(*state),
    {
        let mut rate = self.recompute_rate_bps;
        if let Some(u) = state.cpu_util {
            rate =
            rate.times(F64::one().minus(self.cpu_contention.times(u)).max(F64 { bits: RATE_FLOOR }));
        }
        if let Some(g) = state.gpu_util {
            rate =
            rate.times(F64::one().minus(self.gpu_contention.times(g)).max(F64 { bits: RATE_FLOOR }));
        }
        rate
    }
}

impl CostModel for CurrentStateCostModel {
    /// Overhead, then the bytes at the rate of a move.
    open spec fn move_model(&self, state: ResourceState, object: ObjectSpec) -> CostEstimate {
        CostEstimate::point(
            self.move_overhead_ms.plus(
                ms_at(F64::from_u64(object.size_bytes), self.move_rate_in(state)),
            ),
        )
    }

    /// Overhead, then every pass over the bytes at the rate of a recompute pass.
    open spec fn recompute_model(&self, state: ResourceState, object: ObjectSpec) -> CostEstimate {
        CostEstimate::point(
            self.recompute_overhead_ms.plus(
                ms_at(
                    self.recompute_passes.times(F64::from_u64(object.size_bytes)),
                    self.recompute_rate_in(state),
                ),
            ),
        )
    }

    /// Overhead, the passes at the remote rate, and the transfer; infinite without a remote node.
    open spec fn remote_model(&self, state: ResourceState, object: ObjectSpec) -> CostEstimate {
        if !self.remote_enabled {
            CostEstimate::point(F64::infinity())
        } else {
            let size = F64::from_u64(object.size_bytes);
            let compute = ms_at(self.recompute_passes.times(size), self.remote_rate_in(state));
            let transfer = self.network_latency_ms.plus(ms_at(size, self.network_bandwidth_bps));
            CostEstimate::point(self.recompute_overhead_ms.plus(compute).plus(transfer))
        }
    }

    fn move_cost(&self, state: &ResourceState, object: &ObjectSpec) -> (e: CostEstimate) {
        let size = F64::from_u64(object.size_bytes);
        let est = self.move_overhead_ms.plus(
            size.over(self.move_rate(state)).times(F64 { bits: MS_PER_S }),
        );
        CostEstimate::point(est)
    }

    fn recompute_cost(&self, state: &ResourceState, object: &ObjectSpec) -> (e: CostEstimate) {
        let work = self.recompute_passes.times(F64::from_u64(object.size_bytes));
        let est = self.recompute_overhead_ms.plus(
            work.over(self.recompute_rate(state)).times(F64 { bits: MS_PER_S }),
        );
        CostEstimate::point(est)
    }

    fn remote_recompute_cost(&self, state: &ResourceState, object: &ObjectSpec) -> (e:
        CostEstimate) {
        if !self.remote_enabled {
            return CostEstimate::point(F64::infinity());
        }
        let load = match state.remote_cpu_util {
            Some(u) => u,
            None => F64::zero(),
        };
        let rate = self.remote_rate_bps.times(
            F64::one().minus(self.remote_contention.times(load)).max(F64 { bits: RATE_FLOOR }),
        );
        let size = F64::from_u64(object.size_bytes);
        let compute_ms = self.recompute_passes.times(size).over(rate).times(F64 { bits: MS_PER_S });
        let transfer_ms = self.network_latency_ms.plus(
            size.over(self.network_bandwidth_bps).times(F64 { bits: MS_PER_S }),
        );
        CostEstimate::point(self.recompute_overhead_ms.plus(compute_ms).plus(transfer_ms))
    }
}

/// The estimates of a cost model.
pub open spec fn model_predictions<M: CostModel>(
    model: M,
    object: ObjectSpec,
    state: ResourceState,
) -> ActionPredictions {
    ActionPredictions {
        move_est: model.move_model(state, object),
        recompute_est: model.recompute_model(state, object),
        remote_est: model.remote_model(state, object),
    }
}

/// Predicts from the machine's present state alone, and learns nothing.
pub struct CurrentStatePredictor {
    pub model: CurrentStateCostModel,
}

impl Predictor for CurrentStatePredictor {
    open spec fn predicts(
        &self,
        rows: Map<Seq<char>, Seq<u8>>,
        object: ObjectSpec,
        state: ResourceState,
        r: ActionPredictions,
    ) -> bool {
        r == model_predictions(self.model, object, state)
    }

    open spec fn learns(
        before: Self,
        action: Seq<char>,
        state: ResourceState,
        actual_ms: F64,
        after: Self,
    ) -> bool {
        after == before
    }

    fn predict(&self, store: &ObservationStore, object: &ObjectSpec, state: &ResourceState) -> (r:
        ActionPredictions) {
        ActionPredictions {
            move_est: self.model.move_cost(state, object),
            recompute_est: self.model.recompute_cost(state, object),
            remote_est: self.model.remote_recompute_cost(state, object),
        }
    }

    fn update(&mut self, action: &str, object: &ObjectSpec, state: &ResourceState, actual_ms: F64) {
    }
}

/// What was not measured does not move the estimates: without readings each rate is the idle one.
pub proof fn missing_readings_are_neutral(model: CurrentStateCostModel, ms: u64)
    ensures
        model.move_rate_in(ResourceState::blank(ms)) == model.move_rate_bps,
        model.recompute_rate_in(ResourceState::blank(ms)) == model.recompute_rate_bps,
{
}

/// Without a remote node the remote estimate is infinite, whatever the state and the object.
pub proof fn disabled_remote_is_infinite(
    model: CurrentStateCostModel,
    state: ResourceState,
    object: ObjectSpec,
)
    requires
        !model.remote_enabled,
    ensures
        model.remote_model(state, object).expected_ms == F64::infinity(),
        model.remote_model(state, object).p90_ms == F64::infinity(),
{
}

/// A larger object is never expected to move faster.
pub proof fn move_cost_grows_with_size(
    model: CurrentStateCostModel,
    state: ResourceState,
    small: ObjectSpec,
    large: ObjectSpec,
)
    requires
        small.size_bytes <= large.size_bytes,
        model.move_overhead_ms.is_finite(),
        crate::binary64::order::is_amount(model.move_rate_in(state)),
        model.move_rate_in(state).is_finite(),
        model.move_rate_in(state).magnitude() > 0,
    ensures
        model.move_model(state, small).expected_ms.at_most(
            model.move_model(state, large).expected_ms,
        ),
{
    crate::binary64::order::from_u64_keeps_order(small.size_bytes, large.size_bytes);
    lemma_ms_order(
        F64::from_u64(small.size_bytes),
        F64::from_u64(large.size_bytes),
        model.move_rate_in(state),
    );
    crate::binary64::order::plus_keeps_order(
        ms_at(F64::from_u64(small.size_bytes), model.move_rate_in(state)),
        ms_at(F64::from_u64(large.size_bytes), model.move_rate_in(state)),
        model.move_overhead_ms,
    );
}

/// More passes over a larger object are never expected to be faster.
pub proof fn recompute_cost_grows_with_work(
    few: CurrentStateCostModel,
    many: CurrentStateCostModel,
    state: ResourceState,
    small: ObjectSpec,
    large: ObjectSpec,
)
    requires
        many == (CurrentStateCostModel { recompute_passes: many.recompute_passes, ..few }),
        few.recompute_passes.at_most(many.recompute_passes),
        crate::binary64::order::is_amount(few.recompute_passes),
        crate::binary64::order::is_amount(many.recompute_passes),
        many.recompute_passes.is_finite(),
        small.size_bytes <= large.size_bytes,
        few.recompute_overhead_ms.is_finite(),
        crate::binary64::order::is_amount(few.recompute_rate_in(state)),
        few.recompute_rate_in(state).is_finite(),
        few.recompute_rate_in(state).magnitude() > 0,
    ensures
        few.recompute_model(state, small).expected_ms.at_most(
            many.recompute_model(state, large).expected_ms,
        ),
{
    let a = F64::from_u64(small.size_bytes);
    let b = F64::from_u64(large.size_bytes);
    crate::binary64::order::from_u64_keeps_order(small.size_bytes, large.size_bytes);
    crate::binary64::order::from_u64_keeps_order(large.size_bytes, large.size_bytes);
    crate::binary64::order::times_keeps_order(few.recompute_passes, many.recompute_passes, a);
    crate::binary64::order::times_commute(many.recompute_passes, a);
    crate::binary64::order::times_commute(many.recompute_passes, b);
    crate::binary64::order::times_keeps_order(a, b, many.recompute_passes);
    let x = few.recompute_passes.times(a);
    let y = many.recompute_passes.times(b);
    let rate = few.recompute_rate_in(state);
    lemma_ms_order(x, y, rate);
    crate::binary64::order::plus_keeps_order(
        ms_at(x, rate),
        ms_at(y, rate),
        few.recompute_overhead_ms,
    );
}

proof fn lemma_ms_order(a: F64, b: F64, rate: F64)
    requires
        crate::binary64::order::is_amount(a),
        crate::binary64::order::is_amount(b),
        a.at_most(b),
        crate::binary64::order::is_amount(rate),
        rate.is_finite(),
        rate.magnitude() > 0,
    ensures
        ms_at(a, rate).at_most(ms_at(b, rate)),
        crate::binary64::order::is_amount(ms_at(a, rate)),
        crate::binary64::order::is_amount(ms_at(b, rate)),
{
    crate::binary64::order::over_keeps_order(a, b, rate);
    crate::binary64::order::times_keeps_order(a.over(rate), b.over(rate), F64 { bits: MS_PER_S });
}

/// The same bytes are never expected to be faster at a lower rate.
pub proof fn lower_rates_take_longer(bytes: F64, slow: F64, fast: F64)
    requires
        crate::binary64::order::is_amount(bytes),
        crate::binary64::order::is_amount(slow),
        crate::binary64::order::is_amount(fast),
        slow.magnitude() > 0,
        slow.at_most(fast),
        fast.is_finite(),
    ensures
        ms_at(bytes, fast).at_most(ms_at(bytes, slow)),
{
    crate::binary64::order::over_more_is_less(bytes, slow, fast);
    crate::binary64::order::times_keeps_order(
        bytes.over(fast),
        bytes.over(slow),
        F64 { bits: MS_PER_S },
    );
}

/// A higher read latency never raises the rate of a move, nor does one that becomes known.
pub proof fn latency_slows_moves(
    model: CurrentStateCostModel,
    state: ResourceState,
    low_us: F64,
    high_us: F64,
)
    requires
        low_us.at_most(high_us),
        crate::binary64::order::is_amount(model.move_rate_bps),
        model.move_rate_bps.is_finite(),
        crate::binary64::order::is_amount(model.nvme_latency_ref_us),
        model.nvme_latency_ref_us.is_finite(),
        crate::binary64::order::is_amount(model.queue_penalty),
        state.nvme_queue_depth matches Some(q) ==> F64::one().plus(
            model.queue_penalty.times(F64::from_u64(q as u64)),
        ).is_finite(),
    ensures
        model.move_rate_in(ResourceState { nvme_latency_us: Some(high_us), ..state }).at_most(
            model.move_rate_in(ResourceState { nvme_latency_us: Some(low_us), ..state }),
        ),
        model.move_rate_in(ResourceState { nvme_latency_us: Some(low_us), ..state }).at_most(
            model.move_rate_in(ResourceState { nvme_latency_us: None, ..state }),
        ),
{
    let one = F64::one();
    let reference = model.nvme_latency_ref_us;
    let a = low_us.max(one);
    let b = high_us.max(one);
    lemma_latency_order(reference, a, b);
    let floor = F64 { bits: LATENCY_FLOOR };
    let x = reference.over(b).clamp(floor, one);
    let y = reference.over(a).clamp(floor, one);
    assert(x.at_most(y));
    crate::binary64::order::times_keeps_order(x, y, model.move_rate_bps);
    crate::binary64::order::times_keeps_order(y, one, model.move_rate_bps);
    crate::binary64::order::times_commute(model.move_rate_bps, x);
    crate::binary64::order::times_commute(model.move_rate_bps, y);
    crate::binary64::order::one_is_neutral(model.move_rate_bps);
    if let Some(q) = state.nvme_queue_depth {
        let queued = F64::from_u64(q as u64);
        crate::binary64::order::from_u64_keeps_order(q as u64, q as u64);
        let slowdown = model.queue_penalty.times(queued);
        lemma_penalty_is_amount(model.queue_penalty, queued);
        crate::binary64::order::amounts_add_up(one, slowdown);
        crate::binary64::order::over_keeps_order(
            model.move_rate_bps.times(x),
            model.move_rate_bps.times(y),
            one.plus(slowdown),
        );
        crate::binary64::order::over_keeps_order(
            model.move_rate_bps.times(y),
            model.move_rate_bps,
            one.plus(slowdown),
        );
    }
}

/// The reference over a higher latency is not more, be that infinite.
proof fn lemma_latency_order(reference: F64, a: F64, b: F64)
    requires
        crate::binary64::order::is_amount(reference),
        reference.is_finite(),
        F64::one().at_most(a),
        a.at_most(b),
    ensures
        reference.over(b).at_most(reference.over(a)),
        crate::binary64::order::is_amount(reference.over(b)),
{
    if b.is_finite() {
        crate::binary64::order::over_more_is_less(reference, a, b);
    } else {
        reveal(F64::spec_over);
        if a.is_finite() {
            crate::binary64::order::over_more_is_less(reference, a, a);
        }
    }
}

/// A higher read latency never lowers the expected time of a move, nor does one that becomes
/// known.
pub proof fn latency_raises_move_cost(
    model: CurrentStateCostModel,
    state: ResourceState,
    object: ObjectSpec,
    low_us: F64,
    high_us: F64,
)
    requires
        low_us.at_most(high_us),
        crate::binary64::order::is_amount(model.move_rate_bps),
        model.move_rate_bps.is_finite(),
        crate::binary64::order::is_amount(model.nvme_latency_ref_us),
        model.nvme_latency_ref_us.is_finite(),
        crate::binary64::order::is_amount(model.queue_penalty),
        model.move_overhead_ms.is_finite(),
        state.nvme_queue_depth matches Some(q) ==> F64::one().plus(
            model.queue_penalty.times(F64::from_u64(q as u64)),
        ).is_finite(),
        F64::zero().less(
            model.move_rate_in(ResourceState { nvme_latency_us: Some(high_us), ..state }),
        ),
    ensures
        ({
            let unknown = ResourceState { nvme_latency_us: None, ..state };
            let low = ResourceState { nvme_latency_us: Some(low_us), ..state };
            let high = ResourceState { nvme_latency_us: Some(high_us), ..state };
            &&& model.move_model(unknown, object).expected_ms.at_most(
                model.move_model(low, object).expected_ms,
            )
            &&& model.move_model(low, object).expected_ms.at_most(
                model.move_model(high, object).expected_ms,
            )
        }),
{
    let unknown = model.move_rate_in(ResourceState { nvme_latency_us: None, ..state });
    let low = model.move_rate_in(ResourceState { nvme_latency_us: Some(low_us), ..state });
    let high = model.move_rate_in(ResourceState { nvme_latency_us: Some(high_us), ..state });
    latency_slows_moves(model, state, low_us, high_us);
    lemma_move_rate_is_finite(model, state);
    let bytes = F64::from_u64(object.size_bytes);
    crate::binary64::order::from_u64_keeps_order(object.size_bytes, object.size_bytes);
    lower_rates_take_longer(bytes, low, unknown);
    lower_rates_take_longer(bytes, high, low);
    crate::binary64::order::plus_keeps_order(
        ms_at(bytes, unknown),
        ms_at(bytes, low),
        model.move_overhead_ms,
    );
    crate::binary64::order::plus_keeps_order(
        ms_at(bytes, low),
        ms_at(bytes, high),
        model.move_overhead_ms,
    );
}

/// Without a latency the rate of a move is finite: at most the idle one.
proof fn lemma_move_rate_is_finite(model: CurrentStateCostModel, state: ResourceState)
    requires
        crate::binary64::order::is_amount(model.move_rate_bps),
        model.move_rate_bps.is_finite(),
        crate::binary64::order::is_amount(model.queue_penalty),
        state.nvme_queue_depth matches Some(q) ==> F64::one().plus(
            model.queue_penalty.times(F64::from_u64(q as u64)),
        ).is_finite(),
    ensures
        model.move_rate_in(ResourceState { nvme_latency_us: None, ..state }).at_most(
            model.move_rate_bps,
        ),
{
    let one = F64::one();
    let base = model.move_rate_bps;
    if let Some(q) = state.nvme_queue_depth {
        let queued = F64::from_u64(q as u64);
        crate::binary64::order::from_u64_keeps_order(q as u64, q as u64);
        let slowdown = model.queue_penalty.times(queued);
        lemma_penalty_is_amount(model.queue_penalty, queued);
        crate::binary64::order::amounts_add_up(one, slowdown);
        crate::binary64::order::over_more_is_less(base, one, one.plus(slowdown));
        crate::binary64::order::one_changes_no_quotient(base);
    }
}

/// With the default model a higher read latency, or one that becomes known, never lowers the
/// expected time of a move, whatever the queue, unless the PCIe bandwidth is no positive number.
pub proof fn latency_raises_default_move_cost(
    state: ResourceState,
    object: ObjectSpec,
    low_us: F64,
    high_us: F64,
)
    requires
        low_us.at_most(high_us),
        state.pcie_bandwidth matches Some(b) ==> F64::zero().less(b),
    ensures
        ({
            let model = CurrentStateCostModel::standard();
            let unknown = ResourceState { nvme_latency_us: None, ..state };
            let low = ResourceState { nvme_latency_us: Some(low_us), ..state };
            let high = ResourceState { nvme_latency_us: Some(high_us), ..state };
            &&& model.move_model(unknown, object).expected_ms.at_most(
                model.move_model(low, object).expected_ms,
            )
            &&& model.move_model(low, object).expected_ms.at_most(
                model.move_model(high, object).expected_ms,
            )
        }),
{
    let model = CurrentStateCostModel::standard();
    let one = F64::one();
    let base = model.move_rate_bps;
    let floor = F64 { bits: LATENCY_FLOOR };
    let x = model.nvme_latency_ref_us.over(high_us.max(one)).clamp(floor, one);
    lemma_latency_order(model.nvme_latency_ref_us, high_us.max(one), high_us.max(one));
    crate::binary64::order::times_keeps_order(one, base, x);
    crate::binary64::order::times_keeps_order(x, one, base);
    crate::binary64::order::one_is_neutral(x);
    crate::binary64::order::one_is_neutral(base);
    crate::binary64::order::times_commute(x, base);
    if let Some(q) = state.nvme_queue_depth {
        lemma_default_slowdown(q);
        crate::binary64::order::quotients_stay_positive(
            base.times(x),
            one.plus(model.queue_penalty.times(F64::from_u64(q as u64))),
        );
    }
    latency_raises_move_cost(model, state, object, low_us, high_us);
}

/// The slowdown of the default model by a queue is a positive finite number.
proof fn lemma_default_slowdown(q: u32)
    ensures
        ({
            let s = F64::one().plus(
                (F64 { bits: 0x3FE0_0000_0000_0000 }).times(F64::from_u64(q as u64)),
            );
            F64::zero().less(s) && s.is_finite()
        }),
{
    let one = F64::one();
    let half = F64 { bits: 0x3FE0_0000_0000_0000 };
    let queued = F64::from_u64(q as u64);
    let top = F64::from_u64(0x1_0000_0000);
    crate::binary64::order::from_u64_keeps_order(q as u64, 0x1_0000_0000);
    crate::binary64::order::from_u64_keeps_order(0x1_0000_0000, 0x1_0000_0000);
    crate::binary64::order::times_keeps_order(half, one, queued);
    crate::binary64::order::one_is_neutral(queued);
    crate::binary64::order::amounts_add_up(one, half.times(queued));
    crate::binary64::order::plus_keeps_order(half.times(queued), top, one);
    lemma_one_is_below(0x1_0000_0000);
    crate::binary64::order::plus_keeps_order(one, top, top);
    crate::binary64::order::doubling_is_exact(0x1_0000_0000);
    crate::binary64::order::from_u64_keeps_order(0x2_0000_0000, 0x2_0000_0000);
}

proof fn lemma_one_is_below(n: u64)
    requires
        n >= 1,
    ensures
        F64::one().at_most(F64::from_u64(n)),
{
    crate::binary64::order::from_u64_keeps_order(1, n);
    crate::binary64::order::one_is_whole();
}

/// A penalty that leaves the slowdown finite is an amount.
proof fn lemma_penalty_is_amount(penalty: F64, queued: F64)
    requires
        crate::binary64::order::is_amount(penalty),
        crate::binary64::order::is_amount(queued),
        F64::one().plus(penalty.times(queued)).is_finite(),
    ensures
        crate::binary64::order::is_amount(penalty.times(queued)),
{
    reveal(F64::spec_times);
    reveal(F64::spec_plus);
}

/// A higher load never raises the rate that is left under it.
pub proof fn load_slows_recompute(rate: F64, contention: F64, low: F64, high: F64)
    requires
        low.at_most(high),
        high.is_finite(),
        crate::binary64::order::is_amount(low),
        crate::binary64::order::is_amount(high),
        crate::binary64::order::is_amount(contention),
        contention.is_finite(),
        crate::binary64::order::is_amount(rate),
        rate.is_finite(),
    ensures
        slowed(rate, contention, high).at_most(slowed(rate, contention, low)),
{
    let one = F64::one();
    let floor = F64 { bits: RATE_FLOOR };
    crate::binary64::order::times_keeps_order(low, high, contention);
    crate::binary64::order::times_commute(contention, low);
    crate::binary64::order::times_commute(contention, high);
    crate::binary64::order::minus_more_is_less(one, contention.times(low), contention.times(high));
    let x = one.minus(contention.times(high)).max(floor);
    let y = one.minus(contention.times(low)).max(floor);
    assert(x.at_most(y));
    crate::binary64::order::minus_an_amount_is_less(one, contention.times(low));
    crate::binary64::order::times_keeps_order(x, y, rate);
    crate::binary64::order::times_commute(rate, x);
    crate::binary64::order::times_commute(rate, y);
}

/// Under any load a rate stays an amount, and at most itself.
proof fn lemma_slowed(rate: F64, contention: F64, load: F64)
    requires
        crate::binary64::order::is_amount(rate),
        rate.is_finite(),
        crate::binary64::order::is_amount(contention),
        contention.is_finite(),
        crate::binary64::order::is_amount(load),
        load.is_finite(),
    ensures
        crate::binary64::order::is_amount(slowed(rate, contention, load)),
        slowed(rate, contention, load).at_most(rate),
        slowed(rate, contention, load).is_finite(),
{
    let one = F64::one();
    let floor = F64 { bits: RATE_FLOOR };
    crate::binary64::order::times_keeps_order(load, load, contention);
    crate::binary64::order::times_commute(contention, load);
    crate::binary64::order::minus_an_amount_is_less(one, contention.times(load));
    let left = one.minus(contention.times(load)).max(floor);
    crate::binary64::order::times_keeps_order(left, one, rate);
    crate::binary64::order::times_commute(rate, left);
    crate::binary64::order::one_is_neutral(rate);
}

/// A lower rate is not higher under the same load.
proof fn lemma_slowed_order(slow: F64, fast: F64, contention: F64, load: F64)
    requires
        crate::binary64::order::is_amount(slow),
        crate::binary64::order::is_amount(fast),
        fast.is_finite(),
        slow.at_most(fast),
        crate::binary64::order::is_amount(contention),
        contention.is_finite(),
        crate::binary64::order::is_amount(load),
        load.is_finite(),
    ensures
        slowed(slow, contention, load).at_most(slowed(fast, contention, load)),
{
    let one = F64::one();
    let floor = F64 { bits: RATE_FLOOR };
    crate::binary64::order::times_keeps_order(load, load, contention);
    crate::binary64::order::times_commute(contention, load);
    crate::binary64::order::minus_an_amount_is_less(one, contention.times(load));
    let left = one.minus(contention.times(load)).max(floor);
    crate::binary64::order::times_keeps_order(slow, fast, left);
}

/// Without a load nothing is lost of a rate.
proof fn lemma_idle(rate: F64, contention: F64)
    requires
        rate.is_finite(),
        contention.is_finite(),
    ensures
        slowed(rate, contention, F64::zero()) == rate,
{
    let one = F64::one();
    let none = contention.times(F64::zero());
    crate::binary64::order::zero_of_anything_is_zero(contention, F64::zero());
    reveal(F64::spec_minus);
    crate::binary64::order::zero_adds_nothing(one, none.negated());
    assert(one.minus(none) == one);
    crate::binary64::order::one_is_neutral(rate);
}

/// An idle reading is like none: no CPU load, no GPU load, no queued request, no latency beyond
/// the reference and no limit of the PCIe bandwidth leave the estimates as they are without the
/// reading.
pub proof fn idle_readings_are_like_none(
    model: CurrentStateCostModel,
    state: ResourceState,
    object: ObjectSpec,
    latency_us: F64,
)
    requires
        model.move_rate_bps.is_finite(),
        crate::binary64::order::is_amount(model.move_rate_bps),
        model.recompute_rate_bps.is_finite(),
        model.cpu_contention.is_finite(),
        model.gpu_contention.is_finite(),
        model.queue_penalty.is_finite(),
        model.recompute_rate_in(ResourceState { gpu_util: None, ..state }).is_finite(),
        model.move_rate_in(
            ResourceState { nvme_queue_depth: None, pcie_bandwidth: None, ..state },
        ).is_finite(),
        !model.move_rate_in(ResourceState { pcie_bandwidth: None, ..state }).is_nan(),
        crate::binary64::order::is_amount(model.nvme_latency_ref_us),
        model.nvme_latency_ref_us.is_finite(),
        F64::one().at_most(latency_us),
        latency_us.at_most(model.nvme_latency_ref_us),
    ensures
        model.recompute_model(ResourceState { cpu_util: Some(F64::zero()), ..state }, object)
            == model.recompute_model(ResourceState { cpu_util: None, ..state }, object),
        model.recompute_model(ResourceState { gpu_util: Some(F64::zero()), ..state }, object)
            == model.recompute_model(ResourceState { gpu_util: None, ..state }, object),
        model.remote_model(ResourceState { remote_cpu_util: Some(F64::zero()), ..state }, object)
            == model.remote_model(ResourceState { remote_cpu_util: None, ..state }, object),
        model.move_model(ResourceState { nvme_queue_depth: Some(0), ..state }, object)
            == model.move_model(ResourceState { nvme_queue_depth: None, ..state }, object),
        model.move_model(ResourceState { nvme_latency_us: Some(latency_us), ..state }, object)
            == model.move_model(ResourceState { nvme_latency_us: None, ..state }, object),
        model.move_model(ResourceState { pcie_bandwidth: Some(F64::infinity()), ..state }, object)
            == model.move_model(ResourceState { pcie_bandwidth: None, ..state }, object),
{
    let one = F64::one();
    lemma_idle(model.recompute_rate_bps, model.cpu_contention);
    lemma_idle(
        model.recompute_rate_in(ResourceState { gpu_util: None, ..state }),
        model.gpu_contention,
    );
    // No queued request.
    let unqueued = model.move_rate_in(
        ResourceState { nvme_queue_depth: None, pcie_bandwidth: None, ..state },
    );
    let none = F64::from_u64(0);
    crate::binary64::order::small_wholes_are_exact(0);
    assert(none.magnitude() == 0) by {
        assert(0 * crate::binary64::arith::unit() == 0);
        if none.magnitude() > 0 {
            crate::binary64::lemma_units_of_strict(0, none.magnitude() as nat);
        }
    }
    crate::binary64::order::zero_of_anything_is_zero(model.queue_penalty, none);
    crate::binary64::order::zero_adds_nothing(one, model.queue_penalty.times(none));
    assert(one.plus(model.queue_penalty.times(none)) == one);
    crate::binary64::order::one_changes_no_quotient(unqueued);
    // A latency up to the reference.
    let reference = model.nvme_latency_ref_us;
    crate::binary64::order::over_keeps_order(latency_us, reference, latency_us);
    crate::binary64::order::itself_goes_once(latency_us);
    assert(latency_us.max(one) == latency_us);
    assert(reference.over(latency_us).clamp(F64 { bits: LATENCY_FLOOR }, one) == one);
    crate::binary64::order::one_is_neutral(model.move_rate_bps);
}

/// A higher CPU load never lowers the expected time of a recompute, nor does one that becomes
/// known.
pub proof fn cpu_load_raises_recompute_cost(
    model: CurrentStateCostModel,
    state: ResourceState,
    object: ObjectSpec,
    low: F64,
    high: F64,
)
    requires
        low.at_most(high),
        crate::binary64::order::is_amount(low),
        crate::binary64::order::is_amount(high),
        high.is_finite(),
        crate::binary64::order::is_amount(model.recompute_rate_bps),
        model.recompute_rate_bps.is_finite(),
        crate::binary64::order::is_amount(model.cpu_contention),
        model.cpu_contention.is_finite(),
        crate::binary64::order::is_amount(model.gpu_contention),
        model.gpu_contention.is_finite(),
        crate::binary64::order::is_amount(model.recompute_passes),
        model.recompute_passes.is_finite(),
        model.recompute_overhead_ms.is_finite(),
        state.gpu_util matches Some(g) ==> crate::binary64::order::is_amount(g) && g.is_finite(),
        F64::zero().less(model.recompute_rate_in(ResourceState { cpu_util: Some(high), ..state })),
    ensures
        ({
            let unknown = ResourceState { cpu_util: None, ..state };
            let calm = ResourceState { cpu_util: Some(low), ..state };
            let busy = ResourceState { cpu_util: Some(high), ..state };
            &&& model.recompute_model(unknown, object).expected_ms.at_most(
                model.recompute_model(calm, object).expected_ms,
            )
            &&& model.recompute_model(calm, object).expected_ms.at_most(
                model.recompute_model(busy, object).expected_ms,
            )
        }),
{
    let base = model.recompute_rate_bps;
    let c = model.cpu_contention;
    let calm = slowed(base, c, low);
    let busy = slowed(base, c, high);
    lemma_slowed(base, c, low);
    lemma_slowed(base, c, high);
    load_slows_recompute(base, c, low, high);
    if let Some(g) = state.gpu_util {
        lemma_slowed(base, model.gpu_contention, g);
        lemma_slowed(calm, model.gpu_contention, g);
        lemma_slowed(busy, model.gpu_contention, g);
        lemma_slowed_order(busy, calm, model.gpu_contention, g);
        lemma_slowed_order(calm, base, model.gpu_contention, g);
    }
    lemma_recompute_cost_order(
        model,
        object,
        ResourceState { cpu_util: None, ..state },
        ResourceState { cpu_util: Some(low), ..state },
    );
    lemma_recompute_cost_order(
        model,
        object,
        ResourceState { cpu_util: Some(low), ..state },
        ResourceState { cpu_util: Some(high), ..state },
    );
}

/// A higher GPU load never lowers the expected time of a recompute, nor does one that becomes
/// known.
pub proof fn gpu_load_raises_recompute_cost(
    model: CurrentStateCostModel,
    state: ResourceState,
    object: ObjectSpec,
    low: F64,
    high: F64,
)
    requires
        low.at_most(high),
        crate::binary64::order::is_amount(low),
        crate::binary64::order::is_amount(high),
        high.is_finite(),
        crate::binary64::order::is_amount(model.recompute_rate_bps),
        model.recompute_rate_bps.is_finite(),
        crate::binary64::order::is_amount(model.cpu_contention),
        model.cpu_contention.is_finite(),
        crate::binary64::order::is_amount(model.gpu_contention),
        model.gpu_contention.is_finite(),
        crate::binary64::order::is_amount(model.recompute_passes),
        model.recompute_passes.is_finite(),
        model.recompute_overhead_ms.is_finite(),
        state.cpu_util matches Some(c) ==> crate::binary64::order::is_amount(c) && c.is_finite(),
        F64::zero().less(model.recompute_rate_in(ResourceState { gpu_util: Some(high), ..state })),
    ensures
        ({
            let unknown = ResourceState { gpu_util: None, ..state };
            let calm = ResourceState { gpu_util: Some(low), ..state };
            let busy = ResourceState { gpu_util: Some(high), ..state };
            &&& model.recompute_model(unknown, object).expected_ms.at_most(
                model.recompute_model(calm, object).expected_ms,
            )
            &&& model.recompute_model(calm, object).expected_ms.at_most(
                model.recompute_model(busy, object).expected_ms,
            )
        }),
{
    if let Some(c) = state.cpu_util {
        lemma_slowed(model.recompute_rate_bps, model.cpu_contention, c);
    }
    let base = model.recompute_rate_in(ResourceState { gpu_util: None, ..state });
    lemma_slowed(base, model.gpu_contention, low);
    lemma_slowed(base, model.gpu_contention, high);
    load_slows_recompute(base, model.gpu_contention, low, high);
    lemma_recompute_cost_order(
        model,
        object,
        ResourceState { gpu_util: None, ..state },
        ResourceState { gpu_util: Some(low), ..state },
    );
    lemma_recompute_cost_order(
        model,
        object,
        ResourceState { gpu_util: Some(low), ..state },
        ResourceState { gpu_util: Some(high), ..state },
    );
}

/// A state with a lower rate makes a recompute no faster.
proof fn lemma_recompute_cost_order(
    model: CurrentStateCostModel,
    object: ObjectSpec,
    calm: ResourceState,
    busy: ResourceState,
)
    requires
        crate::binary64::order::is_amount(model.recompute_passes),
        model.recompute_passes.is_finite(),
        model.recompute_overhead_ms.is_finite(),
        F64::zero().less(model.recompute_rate_in(busy)),
        model.recompute_rate_in(busy).at_most(model.recompute_rate_in(calm)),
        model.recompute_rate_in(calm).is_finite(),
    ensures
        model.recompute_model(calm, object).expected_ms.at_most(
            model.recompute_model(busy, object).expected_ms,
        ),
{
    let size = F64::from_u64(object.size_bytes);
    crate::binary64::order::from_u64_keeps_order(object.size_bytes, object.size_bytes);
    crate::binary64::order::times_keeps_order(model.recompute_passes, model.recompute_passes, size);
    let work = model.recompute_passes.times(size);
    let slow = model.recompute_rate_in(busy);
    let fast = model.recompute_rate_in(calm);
    lower_rates_take_longer(work, slow, fast);
    crate::binary64::order::plus_keeps_order(
        ms_at(work, fast),
        ms_at(work, slow),
        model.recompute_overhead_ms,
    );
}

/// A deeper queue never lowers the expected time of a move, nor does one that becomes known.
pub proof fn queues_raise_move_cost(
    model: CurrentStateCostModel,
    state: ResourceState,
    object: ObjectSpec,
    short: u32,
    long: u32,
)
    requires
        short <= long,
        crate::binary64::order::is_amount(model.queue_penalty),
        model.queue_penalty.is_finite(),
        F64::one().plus(model.queue_penalty.times(F64::from_u64(long as u64))).is_finite(),
        model.move_overhead_ms.is_finite(),
        ({
            let alone = model.move_rate_in(
                ResourceState { nvme_queue_depth: None, pcie_bandwidth: None, ..state },
            );
            crate::binary64::order::is_amount(alone) && alone.is_finite()
        }),
        !(state.pcie_bandwidth matches Some(p) && p.is_nan()),
        F64::zero().less(
            model.move_rate_in(ResourceState { nvme_queue_depth: Some(long), ..state }),
        ),
    ensures
        ({
            let unknown = ResourceState { nvme_queue_depth: None, ..state };
            let calm = ResourceState { nvme_queue_depth: Some(short), ..state };
            let busy = ResourceState { nvme_queue_depth: Some(long), ..state };
            &&& model.move_model(unknown, object).expected_ms.at_most(
                model.move_model(calm, object).expected_ms,
            )
            &&& model.move_model(calm, object).expected_ms.at_most(
                model.move_model(busy, object).expected_ms,
            )
        }),
{
    let one = F64::one();
    let alone = model.move_rate_in(
        ResourceState { nvme_queue_depth: None, pcie_bandwidth: None, ..state },
    );
    let a = F64::from_u64(short as u64);
    let b = F64::from_u64(long as u64);
    crate::binary64::order::from_u64_keeps_order(short as u64, long as u64);
    crate::binary64::order::from_u64_keeps_order(long as u64, long as u64);
    let x = model.queue_penalty.times(a);
    let y = model.queue_penalty.times(b);
    crate::binary64::order::times_commute(model.queue_penalty, a);
    crate::binary64::order::times_commute(model.queue_penalty, b);
    crate::binary64::order::times_keeps_order(a, b, model.queue_penalty);
    crate::binary64::order::plus_keeps_order(x, y, one);
    crate::binary64::order::amounts_add_up(one, x);
    crate::binary64::order::amounts_add_up(one, y);
    crate::binary64::order::over_more_is_less(alone, one.plus(x), one.plus(y));
    crate::binary64::order::over_more_is_less(alone, one, one.plus(x));
    crate::binary64::order::one_changes_no_quotient(alone);
    lemma_move_cost_order(
        model,
        object,
        ResourceState { nvme_queue_depth: None, ..state },
        ResourceState { nvme_queue_depth: Some(short), ..state },
    );
    lemma_move_cost_order(
        model,
        object,
        ResourceState { nvme_queue_depth: Some(short), ..state },
        ResourceState { nvme_queue_depth: Some(long), ..state },
    );
}

/// A state with a lower rate makes a move no faster.
proof fn lemma_move_cost_order(
    model: CurrentStateCostModel,
    object: ObjectSpec,
    calm: ResourceState,
    busy: ResourceState,
)
    requires
        model.move_overhead_ms.is_finite(),
        F64::zero().less(model.move_rate_in(busy)),
        model.move_rate_in(busy).at_most(model.move_rate_in(calm)),
        model.move_rate_in(calm).is_finite(),
    ensures
        model.move_model(calm, object).expected_ms.at_most(
            model.move_model(busy, object).expected_ms,
        ),
{
    let size = F64::from_u64(object.size_bytes);
    crate::binary64::order::from_u64_keeps_order(object.size_bytes, object.size_bytes);
    let slow = model.move_rate_in(busy);
    let fast = model.move_rate_in(calm);
    lower_rates_take_longer(size, slow, fast);
    crate::binary64::order::plus_keeps_order(
        ms_at(size, fast),
        ms_at(size, slow),
        model.move_overhead_ms,
    );
}

/// A move is never faster than the PCIe bandwidth lets it be, and less bandwidth never lowers its
/// expected time.
pub proof fn bandwidth_limits_moves(
    model: CurrentStateCostModel,
    state: ResourceState,
    object: ObjectSpec,
    narrow: F64,
    wide: F64,
)
    requires
        F64::zero().less(narrow),
        narrow.at_most(wide),
        model.move_overhead_ms.is_finite(),
        F64::zero().less(model.move_rate_in(ResourceState { pcie_bandwidth: None, ..state })),
        model.move_rate_in(ResourceState { pcie_bandwidth: None, ..state }).is_finite(),
    ensures
        ({
            let unknown = ResourceState { pcie_bandwidth: None, ..state };
            let much = ResourceState { pcie_bandwidth: Some(wide), ..state };
            let little = ResourceState { pcie_bandwidth: Some(narrow), ..state };
            &&& model.move_rate_in(little).at_most(narrow)
            &&& model.move_model(unknown, object).expected_ms.at_most(
                model.move_model(much, object).expected_ms,
            )
            &&& model.move_model(much, object).expected_ms.at_most(
                model.move_model(little, object).expected_ms,
            )
        }),
{
    lemma_move_cost_order(
        model,
        object,
        ResourceState { pcie_bandwidth: None, ..state },
        ResourceState { pcie_bandwidth: Some(wide), ..state },
    );
    lemma_move_cost_order(
        model,
        object,
        ResourceState { pcie_bandwidth: Some(wide), ..state },
        ResourceState { pcie_bandwidth: Some(narrow), ..state },
    );
}

/// A higher load of the remote node never lowers the expected time of a remote recompute.
pub proof fn load_raises_remote_cost(
    model: CurrentStateCostModel,
    state: ResourceState,
    object: ObjectSpec,
    low: F64,
    high: F64,
)
    requires
        model.remote_enabled,
        low.at_most(high),
        crate::binary64::order::is_amount(low),
        crate::binary64::order::is_amount(high),
        high.is_finite(),
        crate::binary64::order::is_amount(model.remote_rate_bps),
        model.remote_rate_bps.is_finite(),
        crate::binary64::order::is_amount(model.remote_contention),
        model.remote_contention.is_finite(),
        crate::binary64::order::is_amount(model.recompute_passes),
        model.recompute_passes.is_finite(),
        model.recompute_overhead_ms.is_finite(),
        F64::zero().less(
            model.remote_rate_in(ResourceState { remote_cpu_util: Some(high), ..state }),
        ),
        model.network_latency_ms.plus(
            ms_at(F64::from_u64(object.size_bytes), model.network_bandwidth_bps),
        ).is_finite(),
    ensures
        model.remote_model(
            ResourceState { remote_cpu_util: Some(low), ..state },
            object,
        ).expected_ms.at_most(
            model.remote_model(
                ResourceState { remote_cpu_util: Some(high), ..state },
                object,
            ).expected_ms,
        ),
{
    let base = model.remote_rate_bps;
    let fast = slowed(base, model.remote_contention, low);
    let slow = slowed(base, model.remote_contention, high);
    lemma_slowed(base, model.remote_contention, low);
    lemma_slowed(base, model.remote_contention, high);
    load_slows_recompute(base, model.remote_contention, low, high);
    let size = F64::from_u64(object.size_bytes);
    crate::binary64::order::from_u64_keeps_order(object.size_bytes, object.size_bytes);
    crate::binary64::order::times_keeps_order(model.recompute_passes, model.recompute_passes, size);
    let work = model.recompute_passes.times(size);
    lower_rates_take_longer(work, slow, fast);
    let overhead = model.recompute_overhead_ms;
    crate::binary64::order::plus_keeps_order(ms_at(work, fast), ms_at(work, slow), overhead);
    crate::binary64::order::plus_keeps_order(
        overhead.plus(ms_at(work, fast)),
        overhead.plus(ms_at(work, slow)),
        model.network_latency_ms.plus(ms_at(size, model.network_bandwidth_bps)),
    );
}

/// A remote node as fast and as loaded as this machine takes what a recompute here takes, and on
/// top of it the latency of the network and the bytes at its bandwidth.
pub proof fn remote_is_local_and_a_transfer(
    model: CurrentStateCostModel,
    state: ResourceState,
    object: ObjectSpec,
    load: F64,
)
    requires
        model.remote_enabled,
        model.remote_rate_bps == model.recompute_rate_bps,
        model.remote_contention == model.cpu_contention,
        state.remote_cpu_util == Some(load),
        state.cpu_util == Some(load),
        state.gpu_util is None,
    ensures
        model.remote_model(state, object).expected_ms == model.recompute_model(
            state,
            object,
        ).expected_ms.plus(
            model.network_latency_ms.plus(
                F64::from_u64(object.size_bytes).over(model.network_bandwidth_bps).times(
                    F64 { bits: 0x408F_4000_0000_0000 },
                ),
            ),
        ),
{
}

/// The time of a move or a recompute beyond its overhead: the bytes, as often as there are
/// passes, over the rate, in ms; and a loaded CPU takes `contention` times its load off the rate.
pub proof fn times_are_bytes_over_rates(
    model: CurrentStateCostModel,
    state: ResourceState,
    object: ObjectSpec,
    cpu: F64,
    gpu: F64,
)
    requires
        state.cpu_util == Some(cpu),
        state.gpu_util == Some(gpu),
    ensures
        ({
            let size = F64::from_u64(object.size_bytes);
            let thousand = F64 { bits: 0x408F_4000_0000_0000 };
            let least = F64 { bits: 0x3FA9_9999_9999_999A };
            let one = F64::one();
            let left_by_cpu = one.minus(model.cpu_contention.times(cpu)).max(least);
            let left_by_gpu = one.minus(model.gpu_contention.times(gpu)).max(least);
            let rate = model.recompute_rate_bps.times(left_by_cpu).times(left_by_gpu);
            &&& model.recompute_model(state, object).expected_ms
                == model.recompute_overhead_ms.plus(
                model.recompute_passes.times(size).over(rate).times(thousand),
            )
            &&& model.move_model(state, object).expected_ms == model.move_overhead_ms.plus(
                size.over(model.move_rate_in(state)).times(thousand),
            )
        }),
{
}

/// Assessing predictions gives each estimate the probability that it misses the deadline, with
/// its own values, and changes nothing else; without a deadline it changes nothing.
pub proof fn assessing_adds_probabilities(
    pred: ActionPredictions,
    d: F64,
    values: ActionElementary,
)
    ensures
        ({
            let r = pred.assessed(Some(d), values);
            let miss = |e: CostEstimate, v: Elementary|
                Some(crate::prediction::deadline::miss_probability(e, d, v));
            &&& r.move_est == (CostEstimate {
                deadline_probability: miss(pred.move_est, values.move_values),
                ..pred.move_est
            })
            &&& r.recompute_est == (CostEstimate {
                deadline_probability: miss(pred.recompute_est, values.recompute_values),
                ..pred.recompute_est
            })
            &&& r.remote_est == (CostEstimate {
                deadline_probability: miss(pred.remote_est, values.remote_values),
                ..pred.remote_est
            })
            &&& pred.assessed(None, values) == pred
            &&& r.assessed(Some(d), values) == r
        }),
{
}

/// The rate of a move with every reading: the full rate, times the share that the reference
/// latency has of the latency, from a fifth to the whole, over one and the penalty of each queued
/// request, and no more than the PCIe bandwidth.
pub proof fn move_rates_follow_every_reading(
    model: CurrentStateCostModel,
    state: ResourceState,
    latency_us: F64,
    queued: u32,
    pcie: F64,
)
    requires
        state.nvme_latency_us == Some(latency_us),
        state.nvme_queue_depth == Some(queued),
        state.pcie_bandwidth == Some(pcie),
        F64::one().at_most(latency_us),
    ensures
        ({
            let share = model.nvme_latency_ref_us.over(latency_us);
            let fifth = F64 { bits: 0x3FC9_9999_9999_999A };
            let one = F64::one();
            let penalty = one.plus(model.queue_penalty.times(F64::from_u64(queued as u64)));
            let rate = |kept: F64| model.move_rate_bps.times(kept).over(penalty).min(pcie);
            &&& share.less(fifth) ==> model.move_rate_in(state) == rate(fifth)
            &&& one.less(share) ==> model.move_rate_in(state) == rate(one)
            &&& fifth.at_most(share) && share.at_most(one) ==> model.move_rate_in(state) == rate(
                share,
            )
        }),
{
    assert(latency_us.max(F64::one()) == latency_us);
}

} // verus!
