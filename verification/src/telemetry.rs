//! Machine readings, normalised to a `ResourceState`.
use vstd::prelude::*;

use crate::binary64::F64;
use crate::resource::ResourceState;

verus! {

/// Counts of CPU time since boot, in ticks.
#[derive(Debug, Clone, Copy, PartialEq, Eq, Structural)]
pub struct CpuTicks {
    pub user: F64,
    pub sys: F64,
    pub idle: F64,
    pub nice: F64,
}

/// The share of the ticks from `p` to `t` that user and system had; `None` where no time passed.
pub open spec fn busy_share(p: CpuTicks, t: CpuTicks) -> Option<F64> {
    let du = t.user.minus(p.user);
    let ds = t.sys.minus(p.sys);
    let di = t.idle.minus(p.idle);
    let dn = t.nice.minus(p.nice);
    let total = du.plus(ds).plus(di).plus(dn);
    if F64::zero().less(total) {
        Some(du.plus(ds).over(total))
    } else {
        None
    }
}

/// CPU utilisation between samples.
#[derive(Debug, Clone, Copy, PartialEq, Eq, Structural)]
pub struct CpuMeter {
    pub prev: Option<CpuTicks>,
}

impl CpuMeter {
    pub fn new() -> (m: Self)
        ensures
            m.prev is None,
    {
        CpuMeter { prev: None }
    }

    /// The utilisation since the last sample that could be read; `None` for the first one and
    /// where the counts cannot be read.
    pub fn sample(&mut self, ticks: Option<CpuTicks>) -> (r: Option<F64>)
        ensures
            final(self).prev == match ticks {
                Some(t) => Some(t),
                None => old(self).prev,
            },
            r == match (old(self).prev, ticks) {
                (Some(p), Some(t)) => busy_share(p, t),
                _ => None,
            },
    {
        let t = match ticks {
            Some(t) => t,
            None => return None,
        };
        let util = match self.prev {
            Some(p) => {
                let du = t.user.minus(p.user);
                let ds = t.sys.minus(p.sys);
                let di = t.idle.minus(p.idle);
                let dn = t.nice.minus(p.nice);
                let total = du.plus(ds).plus(di).plus(dn);
                if F64::zero().less(total) {
                    Some(du.plus(ds).over(total))
                } else {
                    None
                }
            },
            None => None,
        };
        self.prev = Some(t);
        util
    }
}

/// A state with the readings of the development machine: CPU and storage latency.
pub fn system_state(now: u64, cpu_util: Option<F64>, nvme_latency_us: Option<F64>) -> (s:
    ResourceState)
    ensures
        s == (ResourceState { cpu_util, nvme_latency_us, ..ResourceState::blank(now) }),
{
    ResourceState {
        cpu_util,
        nvme_latency_us,
        captured_at_unix_ms: now,
        ..ResourceState::default()
    }
}

/// Readings of a CUDA machine as the backend gives them: negative where there is none.
#[derive(Debug, Clone, Copy)]
pub struct CudaReadings {
    pub gpu_util: F64,
    pub gpu_mem_used: F64,
    pub nvme_queue_depth: F64,
    pub nvme_latency_us: F64,
    pub pcie_bandwidth: F64,
}

/// A reading that is there: not negative, and a number.
pub open spec fn present(x: F64) -> Option<F64> {
    if F64::zero().at_most(x) {
        Some(x)
    } else {
        None
    }
}

/// A reading as a whole number, kept within `max`.
pub open spec fn present_whole(x: F64, max: u64) -> Option<u64> {
    if F64::zero().at_most(x) {
        Some(
            if x.to_u64() < max {
                x.to_u64()
            } else {
                max
            },
        )
    } else {
        None
    }
}

fn reading(x: F64) -> (r: Option<F64>)
    ensures
        r == present(x),
{
    if F64::zero().at_most(x) {
        Some(x)
    } else {
        None
    }
}

/// The sampler of a CUDA machine.
#[derive(Debug, Clone, Copy)]
pub struct CudaSampler;

impl CudaSampler {
    /// The state that the readings stand for.
    pub open spec fn state_of(r: CudaReadings, now: u64) -> ResourceState {
        ResourceState {
            gpu_util: present(r.gpu_util),
            gpu_memory_used: present_whole(r.gpu_mem_used, u64::MAX),
            nvme_queue_depth: match present_whole(r.nvme_queue_depth, u32::MAX as u64) {
                Some(q) => Some(q as u32),
                None => None,
            },
            nvme_latency_us: present(r.nvme_latency_us),
            pcie_bandwidth: present(r.pcie_bandwidth),
            ..ResourceState::blank(now)
        }
    }

    /// The state that the readings, taken at the time `now`, stand for.
    pub fn state(&self, r: CudaReadings, now: u64) -> (s: ResourceState)
        ensures
            s == CudaSampler::state_of(r, now),
    {
        let gpu_memory_used = if F64::zero().at_most(r.gpu_mem_used) {
            Some(r.gpu_mem_used.to_u64())
        } else {
            None
        };
        let nvme_queue_depth = if F64::zero().at_most(r.nvme_queue_depth) {
            let q = r.nvme_queue_depth.to_u64();
            Some(
                if q < u32::MAX as u64 {
                    q as u32
                } else {
                    u32::MAX
                },
            )
        } else {
            None
        };
        ResourceState {
            gpu_util: reading(r.gpu_util),
            gpu_memory_used,
            nvme_queue_depth,
            nvme_latency_us: reading(r.nvme_latency_us),
            pcie_bandwidth: reading(r.pcie_bandwidth),
            captured_at_unix_ms: now,
            ..ResourceState::default()
        }
    }
}

/// Counts that do not run backwards give a utilisation from zero to one.
pub proof fn utilisation_is_a_share(p: CpuTicks, t: CpuTicks)
    requires
        crate::binary64::order::is_amount(t.user.minus(p.user)),
        crate::binary64::order::is_amount(t.sys.minus(p.sys)),
        crate::binary64::order::is_amount(t.idle.minus(p.idle)),
        crate::binary64::order::is_amount(t.nice.minus(p.nice)),
        t.user.minus(p.user).plus(t.sys.minus(p.sys)).plus(t.idle.minus(p.idle)).plus(
            t.nice.minus(p.nice),
        ).is_finite(),
    ensures
        busy_share(p, t) matches Some(u) ==> F64::zero().at_most(u) && u.at_most(F64::one()),
{
    let du = t.user.minus(p.user);
    let ds = t.sys.minus(p.sys);
    let di = t.idle.minus(p.idle);
    let dn = t.nice.minus(p.nice);
    let busy = du.plus(ds);
    crate::binary64::order::amounts_add_up(du, ds);
    crate::binary64::order::amounts_add_up(busy, di);
    crate::binary64::order::amounts_add_up(busy.plus(di), dn);
    if F64::zero().less(busy.plus(di).plus(dn)) {
        crate::binary64::order::share_is_at_most_one(busy, busy.plus(di).plus(dn));
    }
}

/// A CPU that only idled has no load, one that did nothing but work has a full one, and one that
/// was not ahead has none that can be told.
pub proof fn utilisation_spans_idle_and_full(p: CpuTicks, t: CpuTicks)
    requires
        crate::binary64::order::is_amount(t.user.minus(p.user)),
        crate::binary64::order::is_amount(t.sys.minus(p.sys)),
        crate::binary64::order::is_amount(t.idle.minus(p.idle)),
        crate::binary64::order::is_amount(t.nice.minus(p.nice)),
        t.user.minus(p.user).plus(t.sys.minus(p.sys)).plus(t.idle.minus(p.idle)).plus(
            t.nice.minus(p.nice),
        ).is_finite(),
    ensures
        ({
            let user = t.user.minus(p.user);
            let sys = t.sys.minus(p.sys);
            let idle = t.idle.minus(p.idle);
            let nice = t.nice.minus(p.nice);
            let none = |x: F64| x.magnitude() == 0;
            &&& none(user) && none(sys) && (!none(idle) || !none(nice)) ==> (busy_share(
                p,
                t,
            ) matches Some(u) && none(u))
            &&& none(idle) && none(nice) && (!none(user) || !none(sys)) ==> busy_share(p, t)
                == Some(F64::one())
            &&& none(user) && none(sys) && none(idle) && none(nice) ==> busy_share(p, t) is None
        }),
{
    let du = t.user.minus(p.user);
    let ds = t.sys.minus(p.sys);
    let di = t.idle.minus(p.idle);
    let dn = t.nice.minus(p.nice);
    let busy = du.plus(ds);
    crate::binary64::order::amounts_add_up(du, ds);
    crate::binary64::order::amounts_add_up(busy, di);
    crate::binary64::order::amounts_add_up(busy.plus(di), dn);
    let total = busy.plus(di).plus(dn);
    if du.magnitude() == 0 {
        crate::binary64::order::zero_adds_nothing_in_front(du, ds);
    }
    if busy.magnitude() == 0 {
        crate::binary64::order::zero_adds_nothing_in_front(busy, di);
        if di.magnitude() == 0 {
            crate::binary64::order::zero_adds_nothing_in_front(busy.plus(di), dn);
        }
        if total.magnitude() > 0 {
            crate::binary64::order::zero_shared_is_zero(busy, total);
        }
    }
    if di.magnitude() == 0 && dn.magnitude() == 0 {
        crate::binary64::order::zero_adds_nothing(busy, di);
        crate::binary64::order::zero_adds_nothing(busy.plus(di), dn);
        if busy.magnitude() > 0 {
            crate::binary64::order::itself_goes_once(busy);
        }
    }
}

/// More idle ticks beside the same work never raise the utilisation.
pub proof fn idling_lowers_utilisation(p: CpuTicks, t: CpuTicks, lazier: CpuTicks)
    requires
        lazier == (CpuTicks { idle: lazier.idle, ..t }),
        crate::binary64::order::is_amount(t.user.minus(p.user)),
        crate::binary64::order::is_amount(t.sys.minus(p.sys)),
        crate::binary64::order::is_amount(t.idle.minus(p.idle)),
        crate::binary64::order::is_amount(lazier.idle.minus(p.idle)),
        crate::binary64::order::is_amount(t.nice.minus(p.nice)),
        t.idle.minus(p.idle).at_most(lazier.idle.minus(p.idle)),
        t.user.minus(p.user).plus(t.sys.minus(p.sys)).is_finite(),
        t.nice.minus(p.nice).is_finite(),
        t.user.minus(p.user).plus(t.sys.minus(p.sys)).plus(lazier.idle.minus(p.idle)).plus(
            t.nice.minus(p.nice),
        ).is_finite(),
    ensures
        busy_share(p, t) matches Some(u) ==> (busy_share(p, lazier) matches Some(v) && v.at_most(
            u,
        )),
{
    let du = t.user.minus(p.user);
    let ds = t.sys.minus(p.sys);
    let di = t.idle.minus(p.idle);
    let more = lazier.idle.minus(p.idle);
    let dn = t.nice.minus(p.nice);
    let busy = du.plus(ds);
    crate::binary64::order::amounts_add_up(du, ds);
    crate::binary64::order::amounts_add_up(busy, di);
    crate::binary64::order::amounts_add_up(busy, more);
    crate::binary64::order::plus_keeps_order(di, more, busy);
    crate::binary64::order::amounts_add_up(busy.plus(di), dn);
    crate::binary64::order::amounts_add_up(busy.plus(more), dn);
    crate::binary64::order::plus_keeps_order(busy.plus(di), busy.plus(more), dn);
    let total = busy.plus(di).plus(dn);
    if F64::zero().less(total) {
        crate::binary64::order::over_more_is_less(busy, total, busy.plus(more).plus(dn));
    }
}

/// A reading of a CUDA machine is there exactly when it is a number that is not negative, and is
/// taken over as it is; a whole one is the last whole number up to it, or the greatest there is.
pub proof fn readings_are_taken_over(r: CudaReadings, now: u64)
    ensures
        ({
            let s = CudaSampler::state_of(r, now);
            let there = |x: F64| F64::zero().at_most(x);
            let one = crate::binary64::arith::unit() as int;
            &&& s.gpu_util == if there(r.gpu_util) {
                Some(r.gpu_util)
            } else {
                None
            }
            &&& s.nvme_latency_us == if there(r.nvme_latency_us) {
                Some(r.nvme_latency_us)
            } else {
                None
            }
            &&& s.pcie_bandwidth == if there(r.pcie_bandwidth) {
                Some(r.pcie_bandwidth)
            } else {
                None
            }
            &&& s.gpu_memory_used is Some == there(r.gpu_mem_used)
            &&& s.nvme_queue_depth is Some == there(r.nvme_queue_depth)
            &&& s.cpu_util is None
            &&& s.remote_cpu_util is None
            &&& s.captured_at_unix_ms == now
            &&& s.gpu_memory_used matches Some(m) ==> (m < u64::MAX ==> m * one
                <= r.gpu_mem_used.units() < (m + 1) * one)
            &&& s.nvme_queue_depth matches Some(q) ==> (q < u32::MAX ==> q * one
                <= r.nvme_queue_depth.units() < (q + 1) * one)
        }),
{
    lemma_whole_part(r.gpu_mem_used);
    lemma_whole_part(r.nvme_queue_depth);
}

/// A whole part below the greatest is the last whole number up to the value.
proof fn lemma_whole_part(x: F64)
    ensures
        F64::zero().at_most(x) && x.to_u64() < u64::MAX ==> x.to_u64() * (
        crate::binary64::arith::unit() as int) <= x.units() < (x.to_u64() + 1) * (
        crate::binary64::arith::unit() as int),
{
    reveal(F64::spec_to_u64);
    let u = crate::binary64::arith::unit();
    vstd::arithmetic::power2::lemma_pow2_pos(1074);
    if F64::zero().at_most(x) && x.to_u64() < u64::MAX {
        let n = crate::binary64::arith::size(x.units());
        vstd::arithmetic::div_mod::lemma_fundamental_div_mod(n as int, u as int);
        let q = n / u;
        assert(u * q == q * u && (q + 1) * u == q * u + u) by (nonlinear_arith);
        if x.negative() {
            assert(x.magnitude() == 0);
        }
    }
}

} // verus!
