//! A simulated remote node: a recompute on a remote CPU, fetched over the network.
use vstd::prelude::*;
use vstd::string::*;

use crate::binary64::F64;
use crate::executor::report::{in_time, Progress, Span};
use crate::object::ObjectSpec;
use crate::prediction::cost::{MS_PER_S, RATE_FLOOR};

verus! {

/// The result of a remote recompute.
#[derive(Debug, Clone, Copy, PartialEq, Eq, Structural)]
pub struct RemoteRecomputeReport {
    pub total: Span,
    pub remote_compute_elapsed: Span,
    pub transfer_elapsed: Span,
    pub bytes: u64,
    pub deadline_met: bool,
    pub aborted: bool,
}

/// A model of a remote node and of the network to it:
///
/// - `T = T_compute + T_transfer`,
/// - `T_compute = passes * size / (rate * (1 - load))`,
/// - `T_transfer = latency + size / bandwidth`.
///
/// Both parts are waited for; the decisions around them are real.
#[derive(Debug, Clone, Copy)]
pub struct SimRemoteExecutor {
    /// Load of the remote CPU, from 0 to below 1.
    pub remote_load: F64,
    /// Bytes per second of one pass.
    pub remote_rate_bps: F64,
    pub passes: F64,
    /// Network latency one way, in ms.
    pub network_latency_ms: F64,
    /// Network bandwidth, in bytes per second.
    pub network_bandwidth_bps: F64,
}

impl Default for SimRemoteExecutor {
    fn default() -> (e: Self)
        ensures
            e == (SimRemoteExecutor {
                remote_load: F64 { bits: 0x3FB9_9999_9999_999A },
                remote_rate_bps: F64 { bits: 0x41EF_4ADD_4000_0000 },
                passes: F64::one(),
                network_latency_ms: F64 { bits: 0x4014_0000_0000_0000 },
                network_bandwidth_bps: F64 { bits: 0x4202_A05F_2000_0000 },
            }),
    {
        // 0.1, 4.2e9 bytes per second, 1 pass, 5 ms, 1e10 bytes per second.
        SimRemoteExecutor {
            remote_load: F64 { bits: 0x3FB9_9999_9999_999A },
            remote_rate_bps: F64 { bits: 0x41EF_4ADD_4000_0000 },
            passes: F64::one(),
            network_latency_ms: F64 { bits: 0x4014_0000_0000_0000 },
            network_bandwidth_bps: F64 { bits: 0x4202_A05F_2000_0000 },
        }
    }
}

impl SimRemoteExecutor {
    /// The ms of computing `size` bytes.
    pub open spec fn compute_ms(self, size: u64) -> F64 {
        let rate = self.remote_rate_bps.times(
            F64::one().minus(self.remote_load).max(F64 { bits: RATE_FLOOR }),
        );
        self.passes.times(F64::from_u64(size)).over(rate).times(F64 { bits: MS_PER_S })
    }

    /// The ms of fetching `size` bytes.
    pub open spec fn transfer_ms(self, size: u64) -> F64 {
        self.network_latency_ms.plus(
            F64::from_u64(size).over(self.network_bandwidth_bps).times(F64 { bits: MS_PER_S }),
        )
    }

    pub fn name(&self) -> (s: &'static str)
        ensures
            s@ == "sim/remote"@,
    {
        "sim/remote"
    }

    /// The ms of computing an object and those of fetching it.
    pub fn modeled(&self, spec: &ObjectSpec) -> (r: (F64, F64))
        ensures
            r == (self.compute_ms(spec.size_bytes), self.transfer_ms(spec.size_bytes)),
    {
        let rate = self.remote_rate_bps.times(
            F64::one().minus(self.remote_load).max(F64 { bits: RATE_FLOOR }),
        );
        let size = F64::from_u64(spec.size_bytes);
        let compute_ms = self.passes.times(size).over(rate).times(F64 { bits: MS_PER_S });
        let transfer_ms = self.network_latency_ms.plus(
            size.over(self.network_bandwidth_bps).times(F64 { bits: MS_PER_S }),
        );
        (compute_ms, transfer_ms)
    }
}

/// Where a remote recompute stands.
#[derive(Debug, Clone, Copy, PartialEq, Eq, Structural)]
pub enum RemoteStage {
    /// The computing is to come.
    Compute,
    /// The fetching is to come.
    Transfer,
    /// Everything is done.
    Over,
}

/// A remote recompute on its way.
#[derive(Debug, Clone, Copy, PartialEq, Eq, Structural)]
pub struct RemoteRun {
    pub size_bytes: u64,
    pub compute_ms: F64,
    pub transfer_ms: F64,
    pub stage: RemoteStage,
    pub aborted: bool,
}

impl RemoteRun {
    /// The progress to report before the next wait; none once everything is done.
    pub open spec fn checkpoint_fraction(self) -> F64 {
        match self.stage {
            RemoteStage::Compute => F64::zero(),
            _ => self.compute_ms.over(self.compute_ms.plus(self.transfer_ms).max(F64::one())),
        }
    }

    /// The run when it is asked on, and the ms to wait, if any.
    pub open spec fn polled(self, abort: bool) -> (RemoteRun, Option<F64>) {
        if self.aborted || self.stage == RemoteStage::Over {
            (self, None)
        } else if abort {
            (RemoteRun { aborted: true, ..self }, None)
        } else {
            match self.stage {
                RemoteStage::Compute => (
                    RemoteRun { stage: RemoteStage::Transfer, ..self },
                    Some(self.compute_ms),
                ),
                _ => (RemoteRun { stage: RemoteStage::Over, ..self }, Some(self.transfer_ms)),
            }
        }
    }

    /// A remote recompute of an object.
    pub fn start(exec: &SimRemoteExecutor, spec: &ObjectSpec) -> (r: Self)
        ensures
            r == (RemoteRun {
                size_bytes: spec.size_bytes,
                compute_ms: exec.compute_ms(spec.size_bytes),
                transfer_ms: exec.transfer_ms(spec.size_bytes),
                stage: RemoteStage::Compute,
                aborted: false,
            }),
    {
        let (compute_ms, transfer_ms) = exec.modeled(spec);
        RemoteRun {
            size_bytes: spec.size_bytes,
            compute_ms,
            transfer_ms,
            stage: RemoteStage::Compute,
            aborted: false,
        }
    }

    /// The progress before the next wait, after `elapsed`; `None` once everything is done.
    pub fn checkpoint(&self, elapsed: Span) -> (p: Option<Progress>)
        ensures
            match p {
                Some(p) => {
                    &&& self.stage != RemoteStage::Over
                    &&& p.phase@ == match self.stage {
                        RemoteStage::Compute => "remote:compute"@,
                        _ => "remote:network"@,
                    }
                    &&& p.elapsed == elapsed
                    &&& p.fraction_done == self.checkpoint_fraction()
                    &&& p.bytes_done == match self.stage {
                        RemoteStage::Compute => 0,
                        _ => self.size_bytes,
                    }
                },
                None => self.stage == RemoteStage::Over,
            },
    {
        match self.stage {
            RemoteStage::Compute => Some(
                Progress {
                    phase: "remote:compute",
                    elapsed,
                    fraction_done: F64::zero(),
                    bytes_done: 0,
                },
            ),
            RemoteStage::Transfer => Some(
                Progress {
                    phase: "remote:network",
                    elapsed,
                    fraction_done: self.compute_ms.over(
                        self.compute_ms.plus(self.transfer_ms).max(F64::one()),
                    ),
                    bytes_done: self.size_bytes,
                },
            ),
            RemoteStage::Over => None,
        }
    }

    /// Asks the run on: the ms to wait, or `None` when it is done or given up.
    pub fn poll(&mut self, abort: bool) -> (ms: Option<F64>)
        ensures
            (*final(self), ms) == old(self).polled(abort),
    {
        if self.aborted {
            return None;
        }
        match self.stage {
            RemoteStage::Over => None,
            RemoteStage::Compute => {
                if abort {
                    self.aborted = true;
                    return None;
                }
                self.stage = RemoteStage::Transfer;
                Some(self.compute_ms)
            },
            RemoteStage::Transfer => {
                if abort {
                    self.aborted = true;
                    return None;
                }
                self.stage = RemoteStage::Over;
                Some(self.transfer_ms)
            },
        }
    }

    /// The report at the time `now`: `total` in all, of which the computing took `compute`.  A run
    /// that was given up has met no deadline, and one that was given up before it began has no
    /// bytes.
    pub fn report(&self, total: Span, compute: Span, deadline: Option<Span>, now: Span) -> (r:
        RemoteRecomputeReport)
        requires
            total.wf(),
            compute.wf(),
            compute.as_nanos() <= total.as_nanos(),
        ensures
            r.total == total,
            r.aborted == self.aborted,
            r.deadline_met == (!self.aborted && crate::executor::report::in_time(deadline, now)),
            r.bytes == if self.aborted && self.stage == RemoteStage::Compute {
                0
            } else {
                self.size_bytes
            },
            r.remote_compute_elapsed == if self.aborted && self.stage == RemoteStage::Compute {
                Span::zero()
            } else {
                compute
            },
            r.transfer_elapsed.as_nanos() == if self.aborted {
                0
            } else {
                total.as_nanos() - compute.as_nanos()
            },
            r.transfer_elapsed.wf(),
    {
        if self.aborted {
            match self.stage {
                RemoteStage::Compute => RemoteRecomputeReport {
                    total,
                    remote_compute_elapsed: Span::zero(),
                    transfer_elapsed: Span::zero(),
                    bytes: 0,
                    deadline_met: false,
                    aborted: true,
                },
                _ => RemoteRecomputeReport {
                    total,
                    remote_compute_elapsed: compute,
                    transfer_elapsed: Span::zero(),
                    bytes: self.size_bytes,
                    deadline_met: false,
                    aborted: true,
                },
            }
        } else {
            RemoteRecomputeReport {
                total,
                remote_compute_elapsed: compute,
                transfer_elapsed: total.since(compute),
                bytes: self.size_bytes,
                deadline_met: in_time(deadline, now),
                aborted: false,
            }
        }
    }
}

/// A remote recompute that is not given up waits for both of its parts, in their order, and no
/// more.
pub proof fn remote_waits_for_both_parts(exec: SimRemoteExecutor, size: u64)
    ensures
        ({
            let start = RemoteRun {
                size_bytes: size,
                compute_ms: exec.compute_ms(size),
                transfer_ms: exec.transfer_ms(size),
                stage: RemoteStage::Compute,
                aborted: false,
            };
            let (second, wait1) = start.polled(false);
            let (third, wait2) = second.polled(false);
            &&& wait1 == Some(exec.compute_ms(size))
            &&& wait2 == Some(exec.transfer_ms(size))
            &&& third.polled(false).1 is None
            &&& !third.aborted
        }),
{
}

/// The reported share of a remote recompute is from zero to one.
pub proof fn remote_fraction_is_a_share(run: RemoteRun)
    requires
        crate::binary64::order::is_amount(run.compute_ms),
        crate::binary64::order::is_amount(run.transfer_ms),
        run.compute_ms.plus(run.transfer_ms).is_finite(),
    ensures
        F64::zero().at_most(run.checkpoint_fraction()),
        run.checkpoint_fraction().at_most(F64::one()),
{
    let whole = run.compute_ms.plus(run.transfer_ms);
    crate::binary64::order::amounts_add_up(run.compute_ms, run.transfer_ms);
    crate::binary64::order::share_is_at_most_one(run.compute_ms, whole.max(F64::one()));
}

/// A remote recompute takes what the model expects of it beyond the overhead: with the same
/// rates, passes and network, a node whose whole rate is open to contention and whose load is
/// that of the executor.
pub proof fn remote_runs_as_modelled(
    exec: SimRemoteExecutor,
    model: crate::prediction::cost::CurrentStateCostModel,
    state: crate::resource::ResourceState,
    object: ObjectSpec,
)
    requires
        model.remote_enabled,
        model.remote_rate_bps == exec.remote_rate_bps,
        model.recompute_passes == exec.passes,
        model.remote_contention == F64::one(),
        model.network_latency_ms == exec.network_latency_ms,
        model.network_bandwidth_bps == exec.network_bandwidth_bps,
        state.remote_cpu_util == Some(exec.remote_load),
        exec.remote_load.is_finite(),
    ensures
        crate::prediction::cost::model_predictions(
            model,
            object,
            state,
        ).remote_est.expected_ms == model.recompute_overhead_ms.plus(
            exec.compute_ms(object.size_bytes),
        ).plus(exec.transfer_ms(object.size_bytes)),
{
    crate::binary64::order::one_is_neutral(exec.remote_load);
}

/// More bytes are never computed or fetched faster, nor does a higher load speed the computing
/// up; an idle node computes at its full rate.
pub proof fn remote_work_takes_its_time(
    exec: SimRemoteExecutor,
    busier: SimRemoteExecutor,
    size: u64,
    larger: u64,
)
    requires
        size <= larger,
        busier == (SimRemoteExecutor { remote_load: busier.remote_load, ..exec }),
        crate::binary64::order::is_amount(exec.remote_load),
        exec.remote_load.at_most(busier.remote_load),
        crate::binary64::order::is_amount(exec.remote_rate_bps),
        exec.remote_rate_bps.is_finite(),
        F64::zero().less(
            exec.remote_rate_bps.times(
                F64::one().minus(busier.remote_load).max(F64 { bits: RATE_FLOOR }),
            ),
        ),
        crate::binary64::order::is_amount(exec.passes),
        exec.passes.is_finite(),
        exec.network_latency_ms.is_finite(),
        F64::zero().less(exec.network_bandwidth_bps),
        exec.network_bandwidth_bps.is_finite(),
    ensures
        exec.compute_ms(size).at_most(exec.compute_ms(larger)),
        exec.compute_ms(size).at_most(busier.compute_ms(size)),
        exec.transfer_ms(size).at_most(exec.transfer_ms(larger)),
        busier.transfer_ms(size) == exec.transfer_ms(size),
        exec.remote_load.magnitude() == 0 ==> exec.compute_ms(size) == exec.passes.times(
            F64::from_u64(size),
        ).over(exec.remote_rate_bps).times(F64 { bits: 0x408F_4000_0000_0000 }),
{
    let one = F64::one();
    let floor = F64 { bits: RATE_FLOOR };
    let thousand = F64 { bits: MS_PER_S };
    let base = exec.remote_rate_bps;
    let left = one.minus(exec.remote_load).max(floor);
    let less = one.minus(busier.remote_load).max(floor);
    crate::binary64::order::minus_more_is_less(one, exec.remote_load, busier.remote_load);
    crate::binary64::order::minus_an_amount_is_less(one, exec.remote_load);
    assert(less.at_most(left) && left.at_most(one));
    crate::binary64::order::times_keeps_order(less, left, base);
    crate::binary64::order::times_keeps_order(left, one, base);
    crate::binary64::order::times_commute(base, left);
    crate::binary64::order::times_commute(base, less);
    crate::binary64::order::one_is_neutral(base);
    let fast = base.times(left);
    let slow = base.times(less);
    let a = F64::from_u64(size);
    let b = F64::from_u64(larger);
    crate::binary64::order::from_u64_keeps_order(size, larger);
    crate::binary64::order::from_u64_keeps_order(larger, larger);
    crate::binary64::order::times_keeps_order(a, b, exec.passes);
    crate::binary64::order::times_commute(exec.passes, a);
    crate::binary64::order::times_commute(exec.passes, b);
    let x = exec.passes.times(a);
    let y = exec.passes.times(b);
    crate::binary64::order::over_keeps_order(x, y, fast);
    crate::binary64::order::times_keeps_order(x.over(fast), y.over(fast), thousand);
    crate::binary64::order::over_more_is_less(x, slow, fast);
    crate::binary64::order::times_keeps_order(x.over(fast), x.over(slow), thousand);
    let net = exec.network_bandwidth_bps;
    crate::binary64::order::over_keeps_order(a, b, net);
    crate::binary64::order::times_keeps_order(a.over(net), b.over(net), thousand);
    crate::binary64::order::plus_keeps_order(
        a.over(net).times(thousand),
        b.over(net).times(thousand),
        exec.network_latency_ms,
    );
    if exec.remote_load.magnitude() == 0 {
        reveal(F64::spec_minus);
        crate::binary64::order::zero_adds_nothing(one, exec.remote_load.negated());
        assert(left == one);
    }
}

/// Before the computing nothing is done; after it the computing's share of both parts is, which
/// is all of it without a transfer and nothing without computing.
pub proof fn remote_progress_is_the_computed_share(run: RemoteRun)
    requires
        crate::binary64::order::is_amount(run.compute_ms),
        crate::binary64::order::is_amount(run.transfer_ms),
        run.compute_ms.plus(run.transfer_ms).is_finite(),
        F64::one().at_most(run.compute_ms.plus(run.transfer_ms)),
    ensures
        run.stage == RemoteStage::Compute ==> run.checkpoint_fraction() == F64::zero(),
        run.stage == RemoteStage::Transfer ==> {
            let share = run.checkpoint_fraction();
            &&& share == run.compute_ms.over(run.compute_ms.plus(run.transfer_ms))
            &&& run.compute_ms.magnitude() == 0 ==> share.magnitude() == 0
            &&& run.transfer_ms.magnitude() == 0 ==> share == F64::one()
        },
{
    let whole = run.compute_ms.plus(run.transfer_ms);
    assert(whole.max(F64::one()) == whole);
    if run.compute_ms.magnitude() == 0 {
        crate::binary64::order::zero_shared_is_zero(run.compute_ms, whole);
    }
    if run.transfer_ms.magnitude() == 0 {
        crate::binary64::order::zero_adds_nothing(run.compute_ms, run.transfer_ms);
        crate::binary64::order::itself_goes_once(run.compute_ms);
    }
}

/// A remote recompute that is asked to stop waits no more, keeps where it stood, and is over.
pub proof fn stopped_remote_runs_wait_no_more(run: RemoteRun, again: bool)
    requires
        run.stage != RemoteStage::Over,
    ensures
        ({
            let (stopped, wait) = run.polled(true);
            &&& wait is None
            &&& stopped.aborted
            &&& stopped.stage == run.stage
            &&& stopped.size_bytes == run.size_bytes
            &&& stopped.polled(again) == (stopped, None::<F64>)
        }),
{
}

} // verus!
