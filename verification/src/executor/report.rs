//! Progress and results of an execution.
use vstd::prelude::*;

use crate::binary64::F64;
use crate::prediction::cost::MS_PER_S;

verus! {

/// 1e9: nanoseconds in a second.
pub const NS_PER_S: u64 = 0x41CD_CD65_0000_0000;

/// 1e6: bytes in a megabyte.
pub const MEGABYTE: u64 = 0x412E_8480_0000_0000;

/// A length of time.
#[derive(Debug, Clone, Copy, PartialEq, Eq, Structural)]
pub struct Span {
    pub secs: u64,
    /// Below one second.
    pub nanos: u32,
}

impl Span {
    pub open spec fn spec_zero() -> Span {
        Span { secs: 0, nanos: 0 }
    }

    #[verifier::when_used_as_spec(spec_zero)]
    pub fn zero() -> (s: Span)
        ensures
            s == Span::zero(),
    {
        Span { secs: 0, nanos: 0 }
    }

    /// The seconds: the whole ones, plus the nanoseconds as a fraction.
    pub open spec fn spec_as_secs(self) -> F64 {
        F64::from_u64(self.secs).plus(F64::from_u64(self.nanos as u64).over(F64 { bits: NS_PER_S }))
    }

    #[verifier::when_used_as_spec(spec_as_secs)]
    pub fn as_secs(self) -> (r: F64)
        ensures
            r == self.as_secs(),
    {
        F64::from_u64(self.secs).plus(F64::from_u64(self.nanos as u64).over(F64 { bits: NS_PER_S }))
    }

    /// The milliseconds.
    pub open spec fn spec_as_ms(self) -> F64 {
        self.as_secs().times(F64 { bits: MS_PER_S })
    }

    #[verifier::when_used_as_spec(spec_as_ms)]
    pub fn as_ms(self) -> (r: F64)
        ensures
            r == self.as_ms(),
    {
        self.as_secs().times(F64 { bits: MS_PER_S })
    }
}

impl Span {
    /// The nanoseconds are below one second.
    pub open spec fn wf(self) -> bool {
        self.nanos < 1_000_000_000
    }

    /// All the nanoseconds.
    pub open spec fn as_nanos(self) -> int {
        self.secs * 1_000_000_000 + self.nanos
    }

    /// The time from `earlier` to `self`.
    pub fn since(self, earlier: Span) -> (r: Span)
        requires
            self.wf(),
            earlier.wf(),
            earlier.as_nanos() <= self.as_nanos(),
        ensures
            r.wf(),
            r.as_nanos() == self.as_nanos() - earlier.as_nanos(),
    {
        if self.nanos >= earlier.nanos {
            Span { secs: self.secs - earlier.secs, nanos: self.nanos - earlier.nanos }
        } else {
            Span {
                secs: self.secs - earlier.secs - 1,
                nanos: self.nanos + 1_000_000_000 - earlier.nanos,
            }
        }
    }
}

/// A deadline, if there is one, has not passed at `now`; the two are counted from one start.
pub open spec fn spec_in_time(deadline: Option<Span>, now: Span) -> bool {
    match deadline {
        Some(d) => now.as_nanos() <= d.as_nanos(),
        None => true,
    }
}

/// Whether a deadline, if there is one, has not passed at `now`; the two are counted from one
/// start.
#[verifier::when_used_as_spec(spec_in_time)]
pub fn in_time(deadline: Option<Span>, now: Span) -> (r: bool)
    ensures
        r == in_time(deadline, now),
{
    match deadline {
        Some(d) => now.secs as u128 * 1_000_000_000 + now.nanos as u128 <= d.secs as u128
            * 1_000_000_000 + d.nanos as u128,
        None => true,
    }
}

/// How far an execution has come.  `fraction_done` is over all the work of the path: what is
/// written and read for a move, every pass for a recompute.
#[derive(Debug, Clone, Copy)]
pub struct Progress {
    pub phase: &'static str,
    pub elapsed: Span,
    pub fraction_done: F64,
    pub bytes_done: u64,
}

/// `bytes` in the time `total`, in megabytes per second; zero for no time at all.
pub open spec fn megabytes_per_second(bytes: u64, total: Span) -> F64 {
    if total.as_secs().at_most(F64::zero()) {
        F64::zero()
    } else {
        F64::from_u64(bytes).over(total.as_secs()).over(F64 { bits: MEGABYTE })
    }
}

fn throughput(bytes: u64, total: Span) -> (r: F64)
    ensures
        r == megabytes_per_second(bytes, total),
{
    let s = total.as_secs();
    if s.at_most(F64::zero()) {
        F64::zero()
    } else {
        F64::from_u64(bytes).over(s).over(F64 { bits: MEGABYTE })
    }
}

/// The result of a move.
#[derive(Debug, Clone, Copy, PartialEq, Eq, Structural)]
pub struct MoveReport {
    pub total: Span,
    pub bytes: u64,
    pub write_elapsed: Span,
    pub read_elapsed: Span,
    pub deadline_met: bool,
    /// The move was given up before its end.
    pub aborted: bool,
}

impl MoveReport {
    /// The throughput in megabytes, of 10^6 bytes, per second.
    pub fn throughput_mb_s(&self) -> (r: F64)
        ensures
            r == megabytes_per_second(self.bytes, self.total),
    {
        throughput(self.bytes, self.total)
    }
}

/// The result of a recompute.
#[derive(Debug, Clone, Copy, PartialEq, Eq, Structural)]
pub struct RecomputeReport {
    pub total: Span,
    pub bytes: u64,
    pub passes: u32,
    pub deadline_met: bool,
    /// The recompute was given up before its end.
    pub aborted: bool,
}

impl RecomputeReport {
    /// The throughput in megabytes, of 10^6 bytes, per second.
    pub fn throughput_mb_s(&self) -> (r: F64)
        ensures
            r == megabytes_per_second(self.bytes, self.total),
    {
        throughput(self.bytes, self.total)
    }
}

/// A longer time is never fewer seconds, nor fewer milliseconds.
pub proof fn longer_is_not_fewer_seconds(a: Span, b: Span)
    requires
        a.wf(),
        b.wf(),
        a.as_nanos() <= b.as_nanos(),
        b.secs < 0x20_0000_0000_0000,
    ensures
        a.as_secs().at_most(b.as_secs()),
        a.as_ms().at_most(b.as_ms()),
        F64::zero().at_most(a.as_secs()),
{
    let thousand = F64 { bits: MS_PER_S };
    lemma_secs(a);
    lemma_secs(b);
    let per = F64 { bits: NS_PER_S };
    crate::binary64::order::from_u64_keeps_order(a.secs, a.secs);
    let x = F64::from_u64(a.nanos as u64).over(per);
    let y = F64::from_u64(b.nanos as u64).over(per);
    if a.secs == b.secs {
        crate::binary64::order::from_u64_keeps_order(a.nanos as u64, b.nanos as u64);
        crate::binary64::order::over_keeps_order(
            F64::from_u64(a.nanos as u64),
            F64::from_u64(b.nanos as u64),
            per,
        );
        crate::binary64::order::plus_keeps_order(x, y, F64::from_u64(a.secs));
    } else {
        crate::binary64::order::plus_keeps_order(x, F64::one(), F64::from_u64(a.secs));
        crate::binary64::order::one_more_whole(a.secs);
        crate::binary64::order::from_u64_keeps_order((a.secs + 1) as u64, b.secs);
    }
    crate::binary64::order::times_keeps_order(a.as_secs(), b.as_secs(), thousand);
}

/// The seconds of a time are an amount, finite, from the whole seconds on to one more.
proof fn lemma_secs(s: Span)
    requires
        s.wf(),
        s.secs < 0x20_0000_0000_0000,
    ensures
        crate::binary64::order::is_amount(s.as_secs()),
        s.as_secs().is_finite(),
        F64::from_u64(s.secs).at_most(s.as_secs()),
        F64::from_u64(s.nanos as u64).over(F64 { bits: NS_PER_S }).at_most(F64::one()),
{
    let per = F64 { bits: NS_PER_S };
    let whole = F64::from_u64(s.secs);
    let part = F64::from_u64(s.nanos as u64);
    crate::binary64::order::from_u64_keeps_order(s.secs, s.secs);
    crate::binary64::order::from_u64_keeps_order(s.nanos as u64, 1_000_000_000);
    lemma_billion();
    crate::binary64::order::over_keeps_order(part, per, per);
    crate::binary64::order::itself_goes_once(per);
    crate::binary64::order::amounts_add_up(whole, part.over(per));
    crate::binary64::order::plus_keeps_order(part.over(per), F64::one(), whole);
    crate::binary64::order::one_more_whole(s.secs);
    crate::binary64::order::from_u64_keeps_order((s.secs + 1) as u64, (s.secs + 1) as u64);
}

/// The nanoseconds in a second are a thousand million.
proof fn lemma_billion()
    ensures
        F64::from_u64(1_000_000_000) == (F64 { bits: NS_PER_S }),
{
    crate::binary64::order::small_wholes_are_exact(1_000_000_000);
    crate::binary64::root::lemma_units_of_binade(1051, 0x001D_CD65_0000_0000);
    vstd::arithmetic::power2::lemma_pow2_adds(23, 1051);
    vstd::arithmetic::power2::lemma2_to64();
    reveal(F64::spec_from_u64);
    crate::binary64::order::numbers_round_to_themselves(NS_PER_S as nat);
}

/// Whole seconds are as many seconds, and a thousand times as many milliseconds.
pub proof fn whole_seconds_are_exact(secs: u64)
    requires
        secs > 0,
    ensures
        (Span { secs, nanos: 0 }).as_secs() == F64::from_u64(secs),
        (Span { secs, nanos: 0 }).as_ms() == F64::from_u64(secs).times(
            F64 { bits: 0x408F_4000_0000_0000 },
        ),
{
    let none = F64::from_u64(0);
    crate::binary64::order::small_wholes_are_exact(0);
    if none.magnitude() > 0 {
        crate::binary64::lemma_units_of_strict(0, none.magnitude() as nat);
    }
    crate::binary64::order::zero_shared_is_zero(none, F64 { bits: NS_PER_S });
    crate::binary64::order::zero_adds_nothing(
        F64::from_u64(secs),
        none.over(F64 { bits: NS_PER_S }),
    );
    crate::binary64::order::from_u64_keeps_order(secs, secs);
}

/// The throughput is in millions of bytes per second: in one second it is the millions of bytes;
/// more bytes in the same time are never less, the same bytes in a longer time never more, and in
/// no time at all there is none.
pub proof fn throughput_is_bytes_over_time(bytes: u64, more: u64, total: Span, longer: Span)
    requires
        bytes <= more,
        total.wf(),
        longer.wf(),
        0 < total.as_nanos() <= longer.as_nanos(),
        longer.secs < 0x20_0000_0000_0000,
        F64::zero().less(total.as_secs()),
    ensures
        megabytes_per_second(bytes, Span { secs: 1, nanos: 0 }) == F64::from_u64(bytes).over(
            F64 { bits: 0x412E_8480_0000_0000 },
        ),
        megabytes_per_second(bytes, total).at_most(megabytes_per_second(more, total)),
        megabytes_per_second(bytes, longer).at_most(megabytes_per_second(bytes, total)),
        megabytes_per_second(bytes, Span::zero()) == F64::zero(),
{
    let mega = F64 { bits: MEGABYTE };
    let a = F64::from_u64(bytes);
    let b = F64::from_u64(more);
    crate::binary64::order::from_u64_keeps_order(bytes, more);
    longer_is_not_fewer_seconds(total, longer);
    lemma_secs(total);
    lemma_secs(longer);
    let s = total.as_secs();
    let l = longer.as_secs();
    crate::binary64::order::over_keeps_order(a, b, s);
    crate::binary64::order::over_keeps_order(a.over(s), b.over(s), mega);
    crate::binary64::order::over_more_is_less(a, s, l);
    crate::binary64::order::over_keeps_order(a.over(l), a.over(s), mega);
    whole_seconds_are_exact(1);
    crate::binary64::order::one_is_whole();
    crate::binary64::order::one_changes_no_quotient(a);
    let none = F64::from_u64(0);
    crate::binary64::order::small_wholes_are_exact(0);
    if none.magnitude() > 0 {
        crate::binary64::lemma_units_of_strict(0, none.magnitude() as nat);
    }
    crate::binary64::order::zero_shared_is_zero(none, F64 { bits: NS_PER_S });
    crate::binary64::order::zero_adds_nothing(none, none.over(F64 { bits: NS_PER_S }));
}

/// A deadline is met up to its last nanosecond and missed from the next one on; who is in time was
/// so earlier too, and without a deadline everyone is.
pub proof fn deadlines_are_met_to_the_nanosecond(deadline: Span, now: Span, earlier: Span)
    requires
        earlier.as_nanos() <= now.as_nanos(),
    ensures
        in_time(Some(deadline), deadline),
        now.as_nanos() == deadline.as_nanos() + 1 ==> !in_time(Some(deadline), now),
        in_time(Some(deadline), now) ==> in_time(Some(deadline), earlier),
        in_time(None, now),
{
}

} // verus!
