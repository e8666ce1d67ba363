//! Keys of the observation store.
use vstd::prelude::*;
use vstd::string::*;

use crate::binary64::F64;
use crate::object::ObjectSpec;
use crate::resource::ResourceState;
use crate::text::push_decimal;

verus! {

/// Below this share the CPU is lightly loaded: 0.33.
pub const CPU_LOW: u64 = 0x3FD5_1EB8_51EB_851F;

/// Below this share the CPU is moderately loaded: 0.66.
pub const CPU_MEDIUM: u64 = 0x3FE5_1EB8_51EB_851F;

/// From this read latency on, in microseconds, the storage is contended: 200.
pub const IO_HIGH: u64 = 0x4069_0000_0000_0000;

/// From this share on the GPU is busy: 0.5.
pub const GPU_HIGH: u64 = 0x3FE0_0000_0000_0000;

/// The CPU part of a regime.
pub open spec fn cpu_regime(state: ResourceState) -> Seq<char> {
    match state.cpu_util {
        Some(u) => if u.less(F64 { bits: CPU_LOW }) {
            "cpu-lo"@
        } else if u.less(F64 { bits: CPU_MEDIUM }) {
            "cpu-med"@
        } else {
            "cpu-hi"@
        },
        None => "cpu-na"@,
    }
}

/// The storage part of a regime; without a reading it counts as idle.
pub open spec fn io_regime(state: ResourceState) -> Seq<char> {
    if state.nvme_latency_us matches Some(l) && (F64 { bits: IO_HIGH }).at_most(l) {
        "io-hi"@
    } else {
        "io-lo"@
    }
}

/// The GPU part of a regime; without a reading it counts as idle.
pub open spec fn gpu_regime(state: ResourceState) -> Seq<char> {
    if state.gpu_util matches Some(u) && (F64 { bits: GPU_HIGH }).at_most(u) {
        "gpu-hi"@
    } else {
        "gpu-lo"@
    }
}

/// The regime of a machine state.
pub open spec fn regime(state: ResourceState) -> Seq<char> {
    cpu_regime(state).push('/') + io_regime(state).push('/') + gpu_regime(state)
}

/// The key of an action over objects of a size in a regime.
pub open spec fn bucket_key(action: Seq<char>, size_bytes: u64, regime: Seq<char>) -> Seq<char> {
    action + "/sim/"@ + crate::text::decimal(size_bytes as nat).push('/') + regime
}

/// The regime of `state`, as text.
///
/// Statistics are kept per regime, so what was seen under contention does not colour the
/// estimates for an idle machine.
pub fn regime_suffix(state: &ResourceState) -> (s: String)
    ensures
        s@ == regime(*state),
{
    let cpu = match state.cpu_util {
        Some(u) => if u.less(F64 { bits: CPU_LOW }) {
            "cpu-lo"
        } else if u.less(F64 { bits: CPU_MEDIUM }) {
            "cpu-med"
        } else {
            "cpu-hi"
        },
        None => "cpu-na",
    };
    let io_high = match state.nvme_latency_us {
        Some(l) => (F64 { bits: IO_HIGH }).at_most(l),
        None => false,
    };
    let gpu_high = match state.gpu_util {
        Some(u) => (F64 { bits: GPU_HIGH }).at_most(u),
        None => false,
    };
    let mut s = cpu.to_owned();
    s.push('/');
    s.append(
        if io_high {
            "io-hi"
        } else {
            "io-lo"
        },
    );
    s.push('/');
    s.append(
        if gpu_high {
            "gpu-hi"
        } else {
            "gpu-lo"
        },
    );
    assert(s@ =~= regime(*state));
    s
}

/// The key for `action` over `object` in the regime of `state`.
pub fn action_bucket(object: &ObjectSpec, action: &str, state: &ResourceState) -> (s: String)
    ensures
        s@ == bucket_key(action@, object.size_bytes, regime(*state)),
{
    let mut s = action.to_owned();
    s.append("/sim/");
    push_decimal(&mut s, object.size_bytes);
    s.push('/');
    let suffix = regime_suffix(state);
    s.append(suffix.as_str());
    assert(s@ =~= bucket_key(action@, object.size_bytes, regime(*state)));
    s
}

/// Two texts split at their first slash in one way only.
proof fn lemma_split_at_slash(a: Seq<char>, x: Seq<char>, b: Seq<char>, y: Seq<char>)
    requires
        !a.contains('/'),
        !b.contains('/'),
        a.push('/') + x == b.push('/') + y,
    ensures
        a == b,
        x == y,
{
    let s = a.push('/') + x;
    if a.len() < b.len() {
        assert(s[a.len() as int] == '/');
        assert(b.contains(b[a.len() as int]));
    }
    if b.len() < a.len() {
        assert(s[b.len() as int] == '/');
        assert(a.contains(a[b.len() as int]));
    }
    assert(a =~= s.take(a.len() as int));
    assert(b =~= s.take(a.len() as int));
    assert(x =~= s.skip(a.len() as int + 1));
    assert(y =~= s.skip(a.len() as int + 1));
}

proof fn lemma_labels_have_no_slash(a: crate::decision::action::Action)
    ensures
        !a.label().contains('/'),
{
    reveal_strlit("move");
    reveal_strlit("recompute");
    reveal_strlit("remote");
}

/// Buckets keep apart what differs: the same key means the same action, the same size and the
/// same regime.
pub proof fn buckets_are_distinct(
    a: crate::decision::action::Action,
    b: crate::decision::action::Action,
    size_a: u64,
    size_b: u64,
    regime_a: Seq<char>,
    regime_b: Seq<char>,
)
    requires
        bucket_key(a.label(), size_a, regime_a) == bucket_key(b.label(), size_b, regime_b),
    ensures
        a == b,
        size_a == size_b,
        regime_a == regime_b,
{
    let da = crate::text::decimal(size_a as nat);
    let db = crate::text::decimal(size_b as nat);
    reveal_strlit("/sim/");
    reveal_strlit("sim/");
    lemma_labels_have_no_slash(a);
    lemma_labels_have_no_slash(b);
    crate::text::lemma_decimal_has_no_slash(size_a as nat);
    crate::text::lemma_decimal_has_no_slash(size_b as nat);
    let x = "sim/"@ + (da.push('/') + regime_a);
    let y = "sim/"@ + (db.push('/') + regime_b);
    assert(bucket_key(a.label(), size_a, regime_a) =~= a.label().push('/') + x);
    assert(bucket_key(b.label(), size_b, regime_b) =~= b.label().push('/') + y);
    lemma_split_at_slash(a.label(), x, b.label(), y);
    crate::decision::action::labels_tell_actions_apart(a, b);
    assert(x.skip(4) =~= da.push('/') + regime_a);
    assert(y.skip(4) =~= db.push('/') + regime_b);
    lemma_split_at_slash(da, regime_a, db, regime_b);
    crate::text::decimal_is_injective(size_a as nat, size_b as nat);
}

/// Readings share a regime exactly when they lie on the same sides of the bounds: the CPU load of
/// 0.33 and 0.66, the read latency of 200 microseconds and the GPU load of one half.  Without a
/// reading the CPU has a regime of its own, and the storage and the GPU count as idle.
pub proof fn regimes_part_at_their_bounds(a: ResourceState, b: ResourceState)
    ensures
        ({
            let low = F64 { bits: 0x3FD5_1EB8_51EB_851F };
            let medium = F64 { bits: 0x3FE5_1EB8_51EB_851F };
            let slow = F64 { bits: 0x4069_0000_0000_0000 };
            let half = F64 { bits: 0x3FE0_0000_0000_0000 };
            let same_cpu = match (a.cpu_util, b.cpu_util) {
                (Some(u), Some(v)) => u.less(low) == v.less(low) && u.less(medium) == v.less(
                    medium,
                ),
                (None, None) => true,
                _ => false,
            };
            let contended = |s: ResourceState| s.nvme_latency_us matches Some(l) && slow.at_most(l);
            let busy = |s: ResourceState| s.gpu_util matches Some(g) && half.at_most(g);
            regime(a) == regime(b) <==> same_cpu && contended(a) == contended(b) && busy(a) == busy(
                b,
            )
        }),
{
    reveal_strlit("cpu-lo");
    reveal_strlit("cpu-med");
    reveal_strlit("cpu-hi");
    reveal_strlit("cpu-na");
    reveal_strlit("io-hi");
    reveal_strlit("io-lo");
    reveal_strlit("gpu-hi");
    reveal_strlit("gpu-lo");
    assert("cpu-lo"@[4] == 'l');
    assert("cpu-med"@[4] == 'm');
    assert("cpu-hi"@[4] == 'h');
    assert("cpu-na"@[4] == 'n');
    assert("io-hi"@[3] == 'h');
    assert("io-lo"@[3] == 'l');
    assert("gpu-hi"@[4] == 'h');
    assert("gpu-lo"@[4] == 'l');
    if regime(a) == regime(b) {
        lemma_regime_parts(a);
        lemma_regime_parts(b);
        lemma_split_at_slash(
            cpu_regime(a),
            io_regime(a).push('/') + gpu_regime(a),
            cpu_regime(b),
            io_regime(b).push('/') + gpu_regime(b),
        );
        lemma_split_at_slash(io_regime(a), gpu_regime(a), io_regime(b), gpu_regime(b));
    }
}

/// The parts of a regime have no slash, so its slashes part them.
proof fn lemma_regime_parts(s: ResourceState)
    ensures
        !cpu_regime(s).contains('/'),
        !io_regime(s).contains('/'),
        regime(s) == cpu_regime(s).push('/') + (io_regime(s).push('/') + gpu_regime(s)),
{
    reveal_strlit("cpu-lo");
    reveal_strlit("cpu-med");
    reveal_strlit("cpu-hi");
    reveal_strlit("cpu-na");
    reveal_strlit("io-hi");
    reveal_strlit("io-lo");
    assert(regime(s) =~= cpu_regime(s).push('/') + (io_regime(s).push('/') + gpu_regime(s)));
}

} // verus!
