//! Simulated local paths: a move through a file, and a recompute on the CPU.
use std::collections::HashMap;

use vstd::prelude::*;
use vstd::string::*;

use crate::binary64::F64;
use crate::error::{Error, Result};
use crate::executor::report::{in_time, MoveReport, Progress, RecomputeReport, Span};
use crate::object::ObjectSpec;
use crate::prediction::cost::RATE_FLOOR;
use crate::text::push_decimal;
use crate::util::fill_xorshift;

verus! {

/// Bytes per step, 16 MiB: small enough to be asked often whether to go on, large enough for
/// full speed.
pub const CHUNK: usize = 0x100_0000;

/// A move of an object out to a file on local storage and back.
///
/// The bytes of an object are generated once and kept, so generating them is not part of what is
/// timed.
pub struct SimMoveExecutor {
    dir: String,
    buffers: HashMap<u64, Vec<u8>>,
}

/// The name of the file that holds an object.
pub open spec fn file_name_of(id: u64) -> Seq<char> {
    "obj-"@ + crate::text::decimal(id as nat) + ".bin"@
}

/// The message for an object that came back different.
pub open spec fn mismatch_text(id: u64) -> Seq<char> {
    "move integrity mismatch for object "@ + crate::text::decimal(id as nat)
}

impl SimMoveExecutor {
    /// The bytes that are kept, by object.
    pub closed spec fn kept(&self) -> Map<u64, Seq<u8>> {
        self.buffers@.map_values(|v: Vec<u8>| v@)
    }

    pub closed spec fn directory(&self) -> String {
        self.dir
    }

    /// An executor that puts its files into `dir`.
    pub fn new(dir: String) -> (e: Self)
        ensures
            e.kept() == Map::<u64, Seq<u8>>::empty(),
            e.directory() == dir,
    {
        broadcast use vstd::std_specs::hash::group_hash_axioms;

        let e = SimMoveExecutor { dir, buffers: HashMap::new() };
        assert(e.kept() =~= Map::<u64, Seq<u8>>::empty());
        e
    }

    pub fn name(&self) -> (s: &'static str)
        ensures
            s@ == "sim/ssd"@,
    {
        "sim/ssd"
    }

    /// The directory of the files.
    pub fn dir(&self) -> (d: &String)
        ensures
            *d == self.directory(),
    {
        &self.dir
    }

    /// The name of the object's file.
    pub fn file_name(&self, spec: &ObjectSpec) -> (s: String)
        ensures
            s@ == file_name_of(spec.id),
    {
        let mut s = "obj-".to_owned();
        push_decimal(&mut s, spec.id);
        s.append(".bin");
        s
    }

    /// Makes sure that the bytes of an object are there: those that are kept, or else new ones
    /// from its seed.
    pub fn prepare(&mut self, spec: &ObjectSpec)
        requires
            spec.size_bytes <= usize::MAX,
        ensures
            final(self).kept() == if old(self).kept().contains_key(spec.id) {
                old(self).kept()
            } else {
                old(self).kept().insert(
                    spec.id,
                    crate::util::xorshift_bytes(spec.id, spec.size_bytes as nat),
                )
            },
            final(self).directory() == old(self).directory(),
    {
        broadcast use vstd::std_specs::hash::group_hash_axioms;

        if !self.buffers.contains_key(&spec.id) {
            let mut b: Vec<u8> = vec![0; spec.size_bytes as usize];
            fill_xorshift(&mut b, spec.seed());
            self.buffers.insert(spec.id, b);
        }
        assert(self.kept() =~= if old(self).kept().contains_key(spec.id) {
            old(self).kept()
        } else {
            old(self).kept().insert(
                spec.id,
                crate::util::xorshift_bytes(spec.id, spec.size_bytes as nat),
            )
        });
    }

    /// The kept bytes of an object.
    pub fn buffer(&self, id: u64) -> (r: Option<&Vec<u8>>)
        ensures
            match r {
                Some(b) => self.kept().contains_key(id) && b@ == self.kept()[id],
                None => !self.kept().contains_key(id),
            },
    {
        broadcast use vstd::std_specs::hash::group_hash_axioms;

        self.buffers.get(&id)
    }
}

/// What a move is doing.
#[derive(Debug, Clone, Copy, PartialEq, Eq, Structural)]
pub enum MovePhase {
    Writing,
    Reading,
}

/// A move on its way.
#[derive(Debug, Clone, Copy, PartialEq, Eq, Structural)]
pub struct MoveRun {
    size_bytes: u64,
    len: u64,
    phase: MovePhase,
    done: u64,
    aborted: bool,
}

/// Where a move stands.
pub struct MoveView {
    /// The size of the object.
    pub size_bytes: u64,
    /// The bytes to write and to read back.
    pub len: u64,
    pub phase: MovePhase,
    /// Bytes done in this phase.
    pub done: u64,
    pub aborted: bool,
}

impl View for MoveRun {
    type V = MoveView;

    closed spec fn view(&self) -> MoveView {
        MoveView {
            size_bytes: self.size_bytes,
            len: self.len,
            phase: self.phase,
            done: self.done,
            aborted: self.aborted,
        }
    }
}

/// What a move asks for.
#[derive(Debug, Clone, Copy, PartialEq, Eq, Structural)]
pub enum MoveStep {
    /// Write `n` bytes from `from` on, then report them with `completed`.
    Write { from: u64, n: u64 },
    /// Flush what was written to the device, and start reading from the beginning.
    Sync,
    /// Read `n` bytes from `from` on, then report them with `completed`.
    Read { from: u64, n: u64 },
    /// There is nothing left to do.
    Finish,
}

impl MoveView {
    pub open spec fn wf(self) -> bool {
        &&& self.done <= self.len
        &&& 2 * self.size_bytes <= u64::MAX
    }

    /// The size of the next chunk.
    pub open spec fn chunk(self) -> u64 {
        if self.len - self.done < CHUNK {
            (self.len - self.done) as u64
        } else {
            CHUNK as u64
        }
    }

    /// The move when it is asked on, and what it asks for.  It is given up only between chunks
    /// and after the last one, so a move of no bytes never is.
    pub open spec fn polled(self, abort: bool) -> (MoveView, MoveStep) {
        if self.aborted {
            (self, MoveStep::Finish)
        } else if abort && self.len > 0 {
            (MoveView { aborted: true, ..self }, MoveStep::Finish)
        } else if self.done < self.len {
            match self.phase {
                MovePhase::Writing => (
                    self,
                    MoveStep::Write { from: self.done, n: self.chunk() },
                ),
                MovePhase::Reading => (self, MoveStep::Read { from: self.done, n: self.chunk() }),
            }
        } else {
            match self.phase {
                MovePhase::Writing => (
                    MoveView { phase: MovePhase::Reading, done: 0, ..self },
                    MoveStep::Sync,
                ),
                MovePhase::Reading => (self, MoveStep::Finish),
            }
        }
    }

    /// The share of all the work, writing and reading, that is done.
    pub open spec fn fraction(self) -> F64 {
        let total = F64::from_u64((2 * self.size_bytes) as u64);
        match self.phase {
            MovePhase::Writing => F64::from_u64(self.done).over(total),
            MovePhase::Reading => F64::from_u64(self.size_bytes).plus(
                F64::from_u64(self.done),
            ).over(total),
        }
    }
}

impl MoveRun {
    /// A move of an object whose bytes are `len` long.
    pub fn start(spec: &ObjectSpec, len: u64) -> (r: Self)
        requires
            2 * spec.size_bytes <= u64::MAX,
        ensures
            r@.wf(),
            r@ == (MoveView {
                size_bytes: spec.size_bytes,
                len,
                phase: MovePhase::Writing,
                done: 0,
                aborted: false,
            }),
    {
        MoveRun {
            size_bytes: spec.size_bytes,
            len,
            phase: MovePhase::Writing,
            done: 0,
            aborted: false,
        }
    }

    /// Asks the move on; `abort` says whether it is to be given up.
    pub fn poll(&mut self, abort: bool) -> (step: MoveStep)
        requires
            old(self)@.wf(),
        ensures
            final(self)@.wf(),
            (final(self)@, step) == old(self)@.polled(abort),
    {
        if self.aborted {
            return MoveStep::Finish;
        }
        if abort && self.len > 0 {
            self.aborted = true;
            return MoveStep::Finish;
        }
        if self.done < self.len {
            let left = self.len - self.done;
            let n = if left < CHUNK as u64 {
                left
            } else {
                CHUNK as u64
            };
            match self.phase {
                MovePhase::Writing => MoveStep::Write { from: self.done, n },
                MovePhase::Reading => MoveStep::Read { from: self.done, n },
            }
        } else {
            match self.phase {
                MovePhase::Writing => {
                    self.phase = MovePhase::Reading;
                    self.done = 0;
                    MoveStep::Sync
                },
                MovePhase::Reading => MoveStep::Finish,
            }
        }
    }

    /// What the move is doing.
    pub fn phase(&self) -> (p: MovePhase)
        ensures
            p == self@.phase,
    {
        self.phase
    }

    /// The bytes done in this phase.
    pub fn done(&self) -> (n: u64)
        ensures
            n == self@.done,
    {
        self.done
    }

    /// Whether the move was given up.
    pub fn aborted(&self) -> (r: bool)
        ensures
            r == self@.aborted,
    {
        self.aborted
    }

    /// Takes in that the next `n` bytes are done, `elapsed` after the move began.
    pub fn completed(&mut self, n: u64, elapsed: Span) -> (p: Progress)
        requires
            old(self)@.wf(),
            old(self)@.done + n <= old(self)@.len,
        ensures
            final(self)@.wf(),
            final(self)@ == (MoveView { done: (old(self)@.done + n) as u64, ..old(self)@ }),
            p.phase@ == match old(self)@.phase {
                MovePhase::Writing => "move:write"@,
                MovePhase::Reading => "move:read"@,
            },
            p.elapsed == elapsed,
            p.fraction_done == final(self)@.fraction(),
            p.bytes_done == final(self)@.done,
    {
        self.done = self.done + n;
        let total = F64::from_u64(2 * self.size_bytes);
        match self.phase {
            MovePhase::Writing => Progress {
                phase: "move:write",
                elapsed,
                fraction_done: F64::from_u64(self.done).over(total),
                bytes_done: self.done,
            },
            MovePhase::Reading => Progress {
                phase: "move:read",
                elapsed,
                fraction_done: F64::from_u64(self.size_bytes).plus(F64::from_u64(self.done)).over(
                    total,
                ),
                bytes_done: self.done,
            },
        }
    }

    /// Whether what came back is what was sent; a move that was given up is not held to it.
    pub fn verify(&self, id: u64, sent: &Vec<u8>, back: &Vec<u8>) -> (r: Result<()>)
        ensures
            match r {
                Ok(()) => self@.aborted || sent@ == back@,
                Err(e) => !self@.aborted && sent@ != back@ && (e matches Error::Invalid(m) && m@
                    == mismatch_text(id)),
            },
    {
        if self.aborted || same_bytes(sent, back) {
            return Ok(());
        }
        let mut m = "move integrity mismatch for object ".to_owned();
        push_decimal(&mut m, id);
        Err(Error::Invalid(m))
    }

    /// The report of a finished move, at the time `now`.  One that was given up while writing has
    /// read nothing.
    pub fn report(
        &self,
        total: Span,
        write_elapsed: Span,
        read_elapsed: Span,
        deadline: Option<Span>,
        now: Span,
    ) -> (r: MoveReport)
        ensures
            r == (MoveReport {
                total,
                bytes: self@.size_bytes,
                write_elapsed,
                read_elapsed: if self@.phase == MovePhase::Writing {
                    Span::zero()
                } else {
                    read_elapsed
                },
                deadline_met: crate::executor::report::in_time(deadline, now),
                aborted: self@.aborted,
            }),
    {
        MoveReport {
            total,
            bytes: self.size_bytes,
            write_elapsed,
            read_elapsed: match self.phase {
                MovePhase::Writing => Span::zero(),
                MovePhase::Reading => read_elapsed,
            },
            deadline_met: in_time(deadline, now),
            aborted: self.aborted,
        }
    }
}

/// Whether two byte strings are the same.
fn same_bytes(a: &Vec<u8>, b: &Vec<u8>) -> (r: bool)
    ensures
        r == (a@ == b@),
{
    if a.len() != b.len() {
        return false;
    }
    let mut i: usize = 0;
    while i < a.len()
        invariant
            i <= a@.len() == b@.len(),
            forall|j: int| 0 <= j < i ==> a@[j] == b@[j],
        decreases a@.len() - i,
    {
        if a[i] != b[i] {
            return false;
        }
        i = i + 1;
    }
    assert(a@ =~= b@);
    true
}

/// The chunks of a move follow one another without gap or overlap: each begins where the last
/// ended, is not empty, and stays within the bytes.
pub proof fn move_chunks_tile(run: MoveView, abort: bool)
    requires
        run.wf(),
    ensures
        match run.polled(abort).1 {
            MoveStep::Write { from, n } => run.phase == MovePhase::Writing && from == run.done && 0
                < n <= CHUNK && from + n <= run.len,
            MoveStep::Read { from, n } => run.phase == MovePhase::Reading && from == run.done && 0
                < n <= CHUNK && from + n <= run.len,
            MoveStep::Sync => run.phase == MovePhase::Writing && run.done == run.len,
            MoveStep::Finish => run.polled(abort).0.aborted || (run.phase == MovePhase::Reading
                && run.done == run.len),
        },
{
}

/// A recompute of an object on the CPU, in passes over its bytes; there may be a fraction of one.
///
/// A busy GPU slows a kernel.  `gpu_load` stands for that by more work, not by waiting: the
/// passes grow by `1 / (1 - gpu_load)`.
#[derive(Debug, Clone, Copy)]
pub struct SimRecomputeExecutor {
    pub passes: F64,
    pub gpu_load: F64,
}

impl Default for SimRecomputeExecutor {
    fn default() -> (e: Self)
        ensures
            e.passes == (F64 { bits: 0x4000_0000_0000_0000 }),
            e.gpu_load == F64::zero(),
    {
        SimRecomputeExecutor {
            passes: F64 { bits: 0x4000_0000_0000_0000 },
            gpu_load: F64::zero(),
        }
    }
}

/// The work of a recompute.
#[derive(Debug, Clone, Copy, PartialEq, Eq, Structural)]
pub struct RecomputePlan {
    /// Whole passes.
    pub full: u64,
    /// Bytes of the pass that is not whole.
    pub partial: u64,
    /// Bytes over all the passes.
    pub total_work: F64,
}

impl RecomputePlan {
    /// The plan can be carried out over `size` bytes: the last pass stays within them, and the
    /// count of bytes stays within its type.
    pub open spec fn fits_in(self, size: u64) -> bool {
        self.partial <= size && size * self.full + self.partial <= u64::MAX
    }

    pub fn fits(&self, size: u64) -> (r: bool)
        ensures
            r == self.fits_in(size),
    {
        if self.partial > size {
            return false;
        }
        let full = self.full;
        assert(size * full <= 0xffff_ffff_ffff_ffff * 0xffff_ffff_ffff_ffff) by (nonlinear_arith)
            requires
                size <= 0xffff_ffff_ffff_ffff,
                full <= 0xffff_ffff_ffff_ffff,
        ;
        size as u128 * full as u128 + self.partial as u128 <= u64::MAX as u128
    }
}

impl SimRecomputeExecutor {
    /// The passes under the GPU load.
    pub open spec fn effective_passes(self) -> F64 {
        self.passes.over(F64::one().minus(self.gpu_load).max(F64 { bits: RATE_FLOOR }))
    }

    /// The plan for an object of `size` bytes.
    pub open spec fn plan_for(self, size: u64) -> RecomputePlan {
        let full = self.effective_passes().to_u64();
        let rest = self.effective_passes().minus(F64::from_u64(full));
        RecomputePlan {
            full,
            partial: if F64::zero().less(rest) {
                F64::from_u64(size).times(rest).to_u64()
            } else {
                0
            },
            total_work: self.effective_passes().times(F64::from_u64(size)),
        }
    }

    /// The bytes of all the passes over `size` bytes are counted without loss: there are at most
    /// `2^53` of them, or those of the last pass were not rounded up.
    pub open spec fn counts_exactly(self, size: u64) -> bool {
        let plan = self.plan_for(size);
        ||| size * plan.full + plan.partial <= 0x20_0000_0000_0000
        ||| plan.partial * crate::binary64::arith::unit() <= size
            * self.effective_passes().minus(F64::from_u64(plan.full)).units()
    }

    pub fn name(&self) -> (s: &'static str)
        ensures
            s@ == "sim/recompute"@,
    {
        "sim/recompute"
    }

    /// The plan for an object.
    pub fn plan(&self, spec: &ObjectSpec) -> (p: RecomputePlan)
        ensures
            p == self.plan_for(spec.size_bytes),
    {
        let effective = self.passes.over(
            F64::one().minus(self.gpu_load).max(F64 { bits: RATE_FLOOR }),
        );
        let full = effective.to_u64();
        let rest = effective.minus(F64::from_u64(full));
        let size = F64::from_u64(spec.size_bytes);
        RecomputePlan {
            full,
            partial: if F64::zero().less(rest) {
                size.times(rest).to_u64()
            } else {
                0
            },
            total_work: effective.times(size),
        }
    }
}

/// Byte `i` of a pass with the seed `seed`: each chunk is filled from the seed plus its place.
pub open spec fn pass_byte(seed: u64, i: int) -> u8 {
    let start = i - i % (CHUNK as int);
    crate::util::xorshift_bytes(
        ((seed + start) % 0x1_0000_0000_0000_0000) as u64,
        CHUNK as nat,
    )[i - start]
}

/// The seed of a pass.
pub open spec fn pass_seed(seed: u64, pass: u64) -> u64 {
    ((seed + pass) % 0x1_0000_0000_0000_0000) as u64
}

/// Byte `i` once `pass` passes are over: that of the last one; zero before the first.
pub open spec fn byte_after(seed: u64, pass: u64, i: int) -> u8 {
    if pass == 0 {
        0
    } else {
        pass_byte(pass_seed(seed, (pass - 1) as u64), i)
    }
}

/// A recompute on its way.
pub struct RecomputeRun {
    seed: u64,
    plan: RecomputePlan,
    pass: u64,
    off: u64,
    aborted: bool,
    buf: Vec<u8>,
}

/// Where a recompute stands.
#[verifier::ext_equal]
pub struct RecomputeView {
    pub seed: u64,
    pub plan: RecomputePlan,
    /// The pass that is going on.
    pub pass: u64,
    /// Bytes done in this pass.
    pub off: u64,
    pub aborted: bool,
    /// The object's bytes.
    pub buf: Seq<u8>,
}

impl View for RecomputeRun {
    type V = RecomputeView;

    closed spec fn view(&self) -> RecomputeView {
        RecomputeView {
            seed: self.seed,
            plan: self.plan,
            pass: self.pass,
            off: self.off,
            aborted: self.aborted,
            buf: self.buf@,
        }
    }
}

/// What a recompute has come to.
#[derive(Debug, Clone, Copy)]
pub enum RecomputeStep {
    /// One more chunk is filled.
    Checkpoint { phase: &'static str, bytes_done: u64, fraction_done: F64 },
    /// There is nothing left to do.
    Finish,
}

impl RecomputeView {
    /// The bytes of the pass that is going on.
    pub open spec fn limit(self) -> int {
        if self.pass < self.plan.full {
            self.buf.len() as int
        } else {
            self.plan.partial as int
        }
    }

    /// The bytes are those of the pass that is going on up to `off`, and those of the one before
    /// it from there on.
    pub open spec fn wf(self) -> bool {
        &&& self.pass <= self.plan.full
        &&& self.buf.len() <= u64::MAX
        &&& self.plan.fits_in(self.buf.len() as u64)
        &&& self.off <= self.limit()
        &&& self.off % (CHUNK as u64) == 0 || self.off == self.limit()
        &&& forall|i: int|
            0 <= i < self.off ==> #[trigger] self.buf[i] == pass_byte(
                pass_seed(self.seed, self.pass),
                i,
            )
        &&& forall|i: int|
            self.off <= i < self.buf.len() ==> #[trigger] self.buf[i] == byte_after(
                self.seed,
                self.pass,
                i,
            )
    }

    /// A chunk is left to fill, in the pass that is going on or in a later one.
    pub open spec fn chunk_left(self) -> bool {
        ||| self.off < self.limit()
        ||| self.pass + 1 < self.plan.full && self.buf.len() > 0
        ||| self.pass < self.plan.full && self.plan.partial > 0
    }

    /// Everything is done.
    pub open spec fn complete(self) -> bool {
        self.pass == self.plan.full && self.off == self.plan.partial
    }
}

impl RecomputeRun {
    /// A recompute of an object by a plan.
    pub fn start(spec: &ObjectSpec, plan: RecomputePlan) -> (r: Self)
        requires
            spec.size_bytes <= usize::MAX,
            plan.fits_in(spec.size_bytes),
        ensures
            r@.wf(),
            r@.seed == spec.id,
            r@.plan == plan,
            r@.pass == 0,
            r@.off == 0,
            !r@.aborted,
            r@.buf.len() == spec.size_bytes,
    {
        let buf: Vec<u8> = vec![0; spec.size_bytes as usize];
        RecomputeRun { seed: spec.seed(), plan, pass: 0, off: 0, aborted: false, buf }
    }

    /// Fills the next chunk and reports it, as long as there is one; `abort` says whether the
    /// recompute is to be given up.  It is given up only between chunks and after the last one.
    pub fn step(&mut self, abort: bool) -> (r: RecomputeStep)
        requires
            old(self)@.wf(),
        ensures
            final(self)@.wf(),
            final(self)@.seed == old(self)@.seed,
            final(self)@.plan == old(self)@.plan,
            final(self)@.buf.len() == old(self)@.buf.len(),
            final(self)@.aborted == (old(self)@.aborted || (abort && old(self)@.limit() > 0)),
            final(self)@.aborted ==> r is Finish && final(self)@.buf == old(self)@.buf,
            !final(self)@.aborted && r is Finish ==> final(self)@.complete(),
            !final(self)@.aborted ==> (r is Checkpoint <==> old(self)@.chunk_left()),
            r matches RecomputeStep::Checkpoint { phase, bytes_done, fraction_done } ==> {
                let next = old(self)@.off == old(self)@.limit();
                let size = final(self)@.buf.len();
                let from: int = if next {
                    0
                } else {
                    old(self)@.off as int
                };
                &&& final(self)@.pass == if next {
                    old(self)@.pass + 1
                } else {
                    old(self)@.pass as int
                }
                &&& final(self)@.off == if final(self)@.limit() - from < CHUNK {
                    final(self)@.limit()
                } else {
                    from + CHUNK
                }
                &&& phase@ == if final(self)@.pass < final(self)@.plan.full {
                    "recompute:pass"@
                } else {
                    "recompute:partial"@
                }
                &&& bytes_done == size * final(self)@.pass + final(self)@.off
                &&& fraction_done == F64::from_u64(bytes_done).over(final(self)@.plan.total_work)
            },
    {
        if self.aborted {
            return RecomputeStep::Finish;
        }
        if abort && self.end() > 0 {
            self.aborted = true;
            return RecomputeStep::Finish;
        }
        if self.off == self.end() && self.pass < self.plan.full {
            self.next_pass();
        }
        if self.off == self.end() {
            return RecomputeStep::Finish;
        }
        self.fill_chunk();
        self.checkpoint()
    }

    /// The bytes of the pass that is going on.
    fn end(&self) -> (r: u64)
        requires
            self@.wf(),
        ensures
            r == self@.limit(),
    {
        if self.pass < self.plan.full {
            self.buf.len() as u64
        } else {
            self.plan.partial
        }
    }

    /// Begins the next pass; over no bytes, the last one.
    fn next_pass(&mut self)
        requires
            old(self)@.wf(),
            old(self)@.pass < old(self)@.plan.full,
            old(self)@.off == old(self)@.limit(),
        ensures
            final(self)@.wf(),
            final(self)@.seed == old(self)@.seed,
            final(self)@.plan == old(self)@.plan,
            final(self)@.aborted == old(self)@.aborted,
            final(self)@.buf == old(self)@.buf,
            final(self)@.off == 0,
            final(self)@.pass == if old(self)@.buf.len() == 0 {
                old(self)@.plan.full as int
            } else {
                old(self)@.pass + 1
            },
    {
        self.pass =
        if self.buf.len() == 0 {
            self.plan.full
        } else {
            self.pass + 1
        };
        self.off = 0;
    }

    /// Fills the next chunk of the pass that is going on.
    fn fill_chunk(&mut self)
        requires
            old(self)@.wf(),
            old(self)@.off < old(self)@.limit(),
        ensures
            final(self)@.wf(),
            final(self)@.seed == old(self)@.seed,
            final(self)@.plan == old(self)@.plan,
            final(self)@.aborted == old(self)@.aborted,
            final(self)@.pass == old(self)@.pass,
            final(self)@.buf.len() == old(self)@.buf.len(),
            final(self)@.off == if old(self)@.limit() - old(self)@.off < CHUNK {
                old(self)@.limit()
            } else {
                old(self)@.off + CHUNK
            },
    {
        let ghost before = self@;
        let left: u64 = self.end() - self.off;
        let n: u64 = if left < CHUNK as u64 {
            left
        } else {
            CHUNK as u64
        };
        let seed = self.seed.wrapping_add(self.pass).wrapping_add(self.off);
        let len: usize = self.buf.len();
        assert(self.off + n <= len);
        fill_at(&mut self.buf, self.off as usize, n as usize, seed);
        self.off = self.off + n;
        proof {
            lemma_filled(before, self@, n, seed);
        }
    }

    /// The progress after a chunk.
    fn checkpoint(&self) -> (r: RecomputeStep)
        requires
            self@.wf(),
        ensures
            r matches RecomputeStep::Checkpoint { phase, bytes_done, fraction_done } && phase@
                == (if self@.pass < self@.plan.full {
                "recompute:pass"@
            } else {
                "recompute:partial"@
            }) && bytes_done == self@.buf.len() * self@.pass + self@.off && fraction_done
                == F64::from_u64(bytes_done).over(self@.plan.total_work),
    {
        let size = self.buf.len() as u64;
        proof {
            lemma_work_fits(size, self.pass, self.plan, self.off);
        }
        let bytes_done = size * self.pass + self.off;
        RecomputeStep::Checkpoint {
            phase: if self.pass < self.plan.full {
                "recompute:pass"
            } else {
                "recompute:partial"
            },
            bytes_done,
            fraction_done: F64::from_u64(bytes_done).over(self.plan.total_work),
        }
    }

    /// The object's bytes, as far as they are recomputed.
    pub fn bytes(&self) -> (b: &Vec<u8>)
        ensures
            b@ == self@.buf,
    {
        &self.buf
    }

    /// Whether the recompute was given up.
    pub fn aborted(&self) -> (r: bool)
        ensures
            r == self@.aborted,
    {
        self.aborted
    }

    /// The report of a finished recompute, at the time `now`.
    pub fn report(&self, total: Span, deadline: Option<Span>, now: Span) -> (r: RecomputeReport)
        ensures
            r == (RecomputeReport {
                total,
                bytes: self@.buf.len() as u64,
                passes: (self@.plan.full % 0x1_0000_0000) as u32,
                deadline_met: crate::executor::report::in_time(deadline, now),
                aborted: self@.aborted,
            }),
    {
        RecomputeReport {
            total,
            bytes: self.buf.len() as u64,
            passes: (self.plan.full % 0x1_0000_0000) as u32,
            deadline_met: in_time(deadline, now),
            aborted: self.aborted,
        }
    }
}

/// Fills `n` bytes from `from` on with those that `seed` generates.
fn fill_at(buf: &mut Vec<u8>, from: usize, n: usize, seed: u64)
    requires
        from + n <= old(buf)@.len(),
    ensures
        final(buf)@ == old(buf)@.take(from as int) + crate::util::xorshift_bytes(seed, n as nat)
            + old(buf)@.skip(from + n),
{
    let (head, rest) = buf.as_mut_slice().split_at_mut(from);
    let (chunk, tail) = rest.split_at_mut(n);
    fill_xorshift(chunk, seed);
    assert(buf@ =~= old(buf)@.take(from as int) + crate::util::xorshift_bytes(seed, n as nat)
        + old(buf)@.skip(from + n));
}

proof fn lemma_work_fits(size: u64, pass: u64, plan: RecomputePlan, off: u64)
    requires
        plan.fits_in(size),
        pass < plan.full && off <= size || pass == plan.full && off <= plan.partial,
    ensures
        size * pass + off <= size * plan.full + plan.partial,
        size * pass <= u64::MAX,
{
    let full = plan.full;
    if pass < full {
        assert(size * pass + size <= size * full) by (nonlinear_arith)
            requires
                pass + 1 <= full,
        ;
    }
}

proof fn lemma_filled(before: RecomputeView, after: RecomputeView, n: u64, seed: u64)
    requires
        before.wf(),
        before.off < before.limit(),
        after.seed == before.seed,
        after.plan == before.plan,
        after.pass == before.pass,
        after.off == before.off + n,
        n == CHUNK && before.off + n <= before.limit() || (n < CHUNK && before.off + n
            == before.limit()),
        seed == (pass_seed(before.seed, before.pass) + before.off) % 0x1_0000_0000_0000_0000,
        after.buf == before.buf.take(before.off as int) + crate::util::xorshift_bytes(
            seed,
            n as nat,
        ) + before.buf.skip(before.off + n),
    ensures
        after.wf(),
{
    crate::util::fills_share_prefixes(seed, n as nat, CHUNK as nat);
    let off = before.off as int;
    assert forall|i: int| 0 <= i < after.off implies #[trigger] after.buf[i] == pass_byte(
        pass_seed(after.seed, after.pass),
        i,
    ) by {
        if i < off {
            assert(after.buf[i] == before.buf[i]);
        } else {
            assert(off == 0x100_0000 * (off / 0x100_0000));
            assert(i % 0x100_0000 == i - off);
            assert(after.buf[i] == crate::util::xorshift_bytes(seed, n as nat)[i - off]);
        }
    }
    assert forall|i: int| after.off <= i < after.buf.len() implies #[trigger] after.buf[i]
        == byte_after(after.seed, after.pass, i) by {
        assert(after.buf[i] == before.buf[i]);
    }
}

/// A recompute that runs to its end gives bytes that its seed, its size and its passes alone
/// determine, so doing it again gives the same.
pub proof fn recompute_is_deterministic(a: RecomputeView, b: RecomputeView)
    requires
        a.wf() && a.complete(),
        b.wf() && b.complete(),
        a.seed == b.seed,
        a.plan == b.plan,
        a.buf.len() == b.buf.len(),
    ensures
        a.buf == b.buf,
{
    assert forall|i: int| 0 <= i < a.buf.len() implies a.buf[i] == b.buf[i] by {
        if i < a.off {
            assert(b.buf[i] == pass_byte(pass_seed(b.seed, b.pass), i));
        } else {
            assert(b.buf[i] == byte_after(b.seed, b.pass, i));
        }
    }
    assert(a.buf =~= b.buf);
}

/// The reported share of a move is from zero to one.
pub proof fn move_fraction_is_a_share(run: MoveView)
    requires
        run.wf(),
        run.size_bytes > 0,
        run.len <= run.size_bytes,
    ensures
        F64::zero().at_most(run.fraction()),
        run.fraction().at_most(F64::one()),
{
    let size = run.size_bytes;
    let twice = (2 * size) as u64;
    let total = F64::from_u64(twice);
    crate::binary64::order::from_u64_keeps_order(run.done, size);
    crate::binary64::order::from_u64_keeps_order(size, twice);
    crate::binary64::order::from_u64_keeps_order(twice, twice);
    let s = F64::from_u64(size);
    let d = F64::from_u64(run.done);
    crate::binary64::order::plus_keeps_order(d, s, s);
    crate::binary64::order::doubling_is_exact(size);
    crate::binary64::order::amounts_add_up(s, d);
    match run.phase {
        MovePhase::Writing => {
            crate::binary64::order::share_is_at_most_one(d, total);
        },
        MovePhase::Reading => {
            crate::binary64::order::share_is_at_most_one(s.plus(d), total);
        },
    }
}

/// The bytes of all the passes are never more than the work that their share is taken of.
///
/// The bytes of the last pass are rounded.  Where they were rounded up, the count of bytes must be
/// a binary64 number itself, as every one up to `2^53` is.
proof fn lemma_work_covers_bytes(exec: SimRecomputeExecutor, size: u64)
    requires
        exec.effective_passes().is_finite(),
        !exec.effective_passes().negative(),
        size < 0x20_0000_0000_0000,
        exec.plan_for(size).full < 0x20_0000_0000_0000,
        exec.plan_for(size).fits_in(size),
        exec.counts_exactly(size),
    ensures
        ({
            let plan = exec.plan_for(size);
            F64::from_u64((size * plan.full + plan.partial) as u64).at_most(plan.total_work)
        }),
{
    let e = exec.effective_passes();
    let plan = exec.plan_for(size);
    let (full, partial) = (plan.full, plan.partial);
    let rest = e.minus(F64::from_u64(full));
    let u = crate::binary64::arith::unit();
    crate::binary64::error::rest_is_exact(e);
    crate::binary64::order::small_wholes_are_exact(size);
    crate::binary64::order::small_wholes_are_exact(partial);
    reveal(F64::spec_times);
    reveal(F64::spec_from_u64);
    let r = rest.units() as nat;
    let x = size as nat * r;
    let c = size as nat * (full as nat * u);
    let y = partial as nat * u;
    let n = e.units() as nat;
    assert(n * (size as nat * u) == (c + x) * u) by (nonlinear_arith)
        requires
            n == full * u + r,
            c == size as nat * (full as nat * u),
            x == size as nat * r,
    ;
    crate::binary64::error::lemma_grain();
    crate::binary64::arith::lemma_nearest_scale(c + x, 1, u);
    assert(1 * u == u);
    let done = (size * full + partial) as nat;
    assert(done * u == c + y) by (nonlinear_arith)
        requires
            done == size * full + partial,
            c == size as nat * (full as nat * u),
            y == partial as nat * u,
    ;
    if y <= x {
        crate::binary64::order::rounding_keeps_order(c + y, 1, c + x, 1);
    } else {
        let last = F64::from_u64(size).times(rest);
        assert((size as nat * u) * r == x * u) by (nonlinear_arith)
            requires
                x == size as nat * r,
        ;
        crate::binary64::arith::lemma_nearest_scale(x, 1, u);
        lemma_whole_part(last, partial);
        let low = F64::from_u64(partial).magnitude() as nat;
        assert(low <= crate::binary64::round::nearest(x, 1)) by {
            if crate::binary64::round::nearest(x, 1) < low {
                crate::binary64::lemma_units_of_strict(
                    crate::binary64::round::nearest(x, 1),
                    low,
                );
            }
        }
        if full == 0 {
            assert(c == 0) by (nonlinear_arith)
                requires
                    c == size as nat * (full as nat * u),
                    full == 0,
            ;
        } else {
            assert(c >= y) by (nonlinear_arith)
                requires
                    c == size as nat * (full as nat * u),
                    y == partial as nat * u,
                    full >= 1,
                    partial <= size,
            ;
            assert(y >= u) by (nonlinear_arith)
                requires
                    y == partial as nat * u,
                    partial >= 1,
            ;
            lemma_far_up(low, u);
            let sum = lemma_whole_number(done);
            crate::binary64::order::numbers_round_to_themselves(sum);
            crate::binary64::error::sums_outweigh_rounded_terms(x, c, low, sum);
        }
    }
}

/// Passes over some bytes are a positive finite number of them.
proof fn lemma_some_passes(exec: SimRecomputeExecutor, size: u64, done: int)
    requires
        exec.plan_for(size).full < 0x20_0000_0000_0000,
        0 < done <= size * exec.plan_for(size).full + exec.plan_for(size).partial,
    ensures
        exec.effective_passes().is_finite(),
        !exec.effective_passes().negative(),
{
    let e = exec.effective_passes();
    let plan = exec.plan_for(size);
    reveal(F64::spec_to_u64);
    if e.is_nan() || e.negative() {
        assert(plan.full == 0);
        crate::binary64::order::from_u64_keeps_order(0, 0);
        crate::binary64::order::small_wholes_are_exact(0);
        let none = F64::from_u64(0);
        assert(!F64::zero().less(e.minus(none))) by {
            reveal(F64::spec_minus);
            reveal(F64::spec_plus);
            if e.is_finite() {
                crate::binary64::order::plus_keeps_order(e, F64::zero(), none.negated());
                crate::binary64::order::zero_adds_nothing(F64::zero(), none.negated());
            }
        }
        assert(size * 0 == 0);
    }
}

/// What is at least one is above every subnormal.
proof fn lemma_far_up(low: nat, u: nat)
    requires
        u == crate::binary64::arith::unit(),
        crate::binary64::round::units_of(low) >= u,
    ensures
        low > crate::binary64::round::BINADE,
{
    crate::binary64::error::lemma_grain();
    if low <= crate::binary64::round::BINADE {
        assert(crate::binary64::round::units_of(low) == low);
    }
}

/// The whole part of a number is not more than the number.
proof fn lemma_whole_part(a: F64, whole: u64)
    requires
        whole == a.to_u64(),
        whole > 0,
        whole < 0x20_0000_0000_0000,
    ensures
        a.is_finite(),
        !a.negative(),
        whole as nat * crate::binary64::arith::unit() <= a.units(),
{
    reveal(F64::spec_to_u64);
    let u = crate::binary64::arith::unit();
    crate::binary64::error::lemma_grain();
    let n = crate::binary64::arith::size(a.units());
    vstd::arithmetic::div_mod::lemma_fundamental_div_mod(n as int, u as int);
    assert(whole as nat * u <= n) by (nonlinear_arith)
        requires
            whole == n / u,
            n == u * (n / u) + n % u,
            n % u >= 0,
    ;
}

/// A whole number up to `2^53` is a binary64 number.
proof fn lemma_whole_number(n: nat) -> (mag: nat)
    requires
        n <= 0x20_0000_0000_0000,
    ensures
        crate::binary64::round::units_of(mag) == n * crate::binary64::arith::unit(),
{
    if n < 0x20_0000_0000_0000 {
        crate::binary64::error::lemma_is_number(n, 1074)
    } else {
        let mag = crate::binary64::error::lemma_is_number(0x10_0000_0000_0000, 1075);
        vstd::arithmetic::power2::lemma_pow2_unfold(1075);
        mag
    }
}

/// The reported share of a recompute is from zero to one, with whole passes and with a fraction
/// of one.
pub proof fn recompute_fraction_is_a_share(run: RecomputeView, exec: SimRecomputeExecutor)
    requires
        run.wf(),
        run.buf.len() < 0x20_0000_0000_0000,
        run.plan.full < 0x20_0000_0000_0000,
        run.plan == exec.plan_for(run.buf.len() as u64),
        exec.counts_exactly(run.buf.len() as u64),
        run.buf.len() * run.pass + run.off > 0,
    ensures
        ({
            let done = F64::from_u64((run.buf.len() * run.pass + run.off) as u64);
            &&& F64::zero().at_most(done.over(run.plan.total_work))
            &&& done.over(run.plan.total_work).at_most(F64::one())
        }),
{
    let size = run.buf.len() as u64;
    let plan = run.plan;
    let done = size * run.pass + run.off;
    let all = size * plan.full + plan.partial;
    lemma_work_fits(size, run.pass, plan, run.off);
    lemma_some_passes(exec, size, done);
    lemma_work_covers_bytes(exec, size);
    crate::binary64::order::from_u64_keeps_order(done as u64, all as u64);
    let a = F64::from_u64(done as u64);
    if plan.total_work.is_finite() {
        crate::binary64::order::share_is_at_most_one(a, plan.total_work);
    } else {
        reveal(F64::spec_over);
    }
}

/// A busier GPU never means fewer passes, and an idle one means the passes themselves.
pub proof fn gpu_load_adds_passes(idler: SimRecomputeExecutor, busier: SimRecomputeExecutor)
    requires
        crate::binary64::order::is_amount(idler.passes),
        idler.passes.is_finite(),
        busier.passes == idler.passes,
        crate::binary64::order::is_amount(idler.gpu_load),
        idler.gpu_load.at_most(busier.gpu_load),
    ensures
        idler.passes.at_most(idler.effective_passes()),
        idler.effective_passes().at_most(busier.effective_passes()),
        idler.gpu_load.magnitude() == 0 ==> idler.effective_passes() == idler.passes,
        idler.gpu_load == (F64 { bits: 0x3FE0_0000_0000_0000 }) ==> idler.effective_passes()
            == idler.passes.over(F64 { bits: 0x3FE0_0000_0000_0000 }),
{
    let one = F64::one();
    let floor = F64 { bits: RATE_FLOOR };
    let left = one.minus(idler.gpu_load).max(floor);
    let less = one.minus(busier.gpu_load).max(floor);
    crate::binary64::order::minus_more_is_less(one, idler.gpu_load, busier.gpu_load);
    crate::binary64::order::minus_an_amount_is_less(one, idler.gpu_load);
    assert(floor.at_most(less) && less.at_most(left) && left.at_most(one));
    crate::binary64::order::over_more_is_less(idler.passes, less, left);
    crate::binary64::order::over_more_is_less(idler.passes, left, one);
    crate::binary64::order::one_changes_no_quotient(idler.passes);
    if idler.gpu_load.magnitude() == 0 {
        reveal(F64::spec_minus);
        crate::binary64::order::zero_adds_nothing(one, idler.gpu_load.negated());
        assert(left == one);
    }
    crate::binary64::order::half_is_left_of_one();
}

/// A plan does what the passes say: its whole passes are the last whole number up to them, and
/// the bytes of the last one are the whole bytes in the rest's share of the size, but for the last
/// bit of that.
pub proof fn plans_split_the_passes(exec: SimRecomputeExecutor, size: u64)
    requires
        size <= 0x10_0000_0000_0000,
        exec.effective_passes().is_finite(),
        !exec.effective_passes().negative(),
        exec.plan_for(size).full < 0x20_0000_0000_0000,
    ensures
        ({
            let one = crate::binary64::arith::unit() as int;
            let passes = exec.effective_passes().units();
            let plan = exec.plan_for(size);
            let rest = passes - plan.full * one;
            &&& 0 <= rest < one
            &&& 0x20_0000_0000_0000 * (plan.partial * one - size * rest) <= size * rest
            &&& 0x20_0000_0000_0000 * (size * rest - plan.partial * one - one) <= size * rest
            &&& plan.partial <= size
            &&& plan.total_work == exec.effective_passes().times(F64::from_u64(size))
        }),
{
    let e = exec.effective_passes();
    let one = crate::binary64::arith::unit() as int;
    let plan = exec.plan_for(size);
    crate::binary64::error::rest_is_exact(e);
    let rest = e.minus(F64::from_u64(e.to_u64()));
    crate::binary64::order::lemma_one();
    crate::binary64::error::lemma_grain();
    crate::binary64::order_is_by_value(F64::zero(), rest);
    crate::binary64::order_is_by_value(rest, F64::one());
    if F64::zero().less(rest) {
        crate::binary64::error::shares_of_wholes_are_close(size, rest);
        let p = F64::from_u64(size).times(rest);
        reveal(F64::spec_to_u64);
        let q = p.units() / one;
        vstd::arithmetic::div_mod::lemma_fundamental_div_mod(p.units(), one);
        assert(one * q == q * one) by (nonlinear_arith);
        assert(0 <= q <= size) by (nonlinear_arith)
            requires
                0 <= p.units() <= size * one,
                q * one <= p.units() < q * one + one,
                one > 0,
        ;
        assert(q == plan.partial);
    } else {
        assert(rest.units() == 0);
        assert(size * 0 == 0);
    }
}

/// A move is half done when everything is written, all done when everything is read, and never
/// less done with more bytes written or read.
pub proof fn moves_are_half_written_and_half_read(run: MoveView, further: MoveView)
    requires
        run.size_bytes > 0,
        2 * run.size_bytes <= u64::MAX,
        further == (MoveView { done: further.done, ..run }),
        run.done <= further.done <= run.size_bytes,
    ensures
        run.fraction().at_most(further.fraction()),
        run.phase == MovePhase::Writing && run.done == 0 ==> run.fraction().magnitude() == 0,
        run.phase == MovePhase::Writing && run.done == run.size_bytes ==> run.fraction() == (F64 {
            bits: 0x3FE0_0000_0000_0000,
        }),
        run.phase == MovePhase::Reading && run.done == 0 ==> run.fraction() == (F64 {
            bits: 0x3FE0_0000_0000_0000,
        }),
        run.phase == MovePhase::Reading && run.done == run.size_bytes ==> run.fraction()
            == F64::one(),
{
    let size = run.size_bytes;
    let twice = (2 * size) as u64;
    let s = F64::from_u64(size);
    let total = F64::from_u64(twice);
    let a = F64::from_u64(run.done);
    let b = F64::from_u64(further.done);
    crate::binary64::order::from_u64_keeps_order(run.done, further.done);
    crate::binary64::order::from_u64_keeps_order(size, twice);
    crate::binary64::order::from_u64_keeps_order(twice, twice);
    crate::binary64::order::doubling_is_exact(size);
    crate::binary64::order::over_keeps_order(a, b, total);
    crate::binary64::order::plus_keeps_order(a, b, s);
    crate::binary64::order::amounts_add_up(s, a);
    crate::binary64::order::amounts_add_up(s, b);
    crate::binary64::order::over_keeps_order(s.plus(a), s.plus(b), total);
    crate::binary64::order::itself_goes_once(total);
    crate::binary64::order::from_u64_keeps_order(1, size);
    crate::binary64::order::one_is_whole();
    crate::binary64::order::half_of_the_double(s);
    if run.done == 0 {
        crate::binary64::order::small_wholes_are_exact(0);
        if a.magnitude() > 0 {
            crate::binary64::lemma_units_of_strict(0, a.magnitude() as nat);
        }
        crate::binary64::order::zero_shared_is_zero(a, total);
        crate::binary64::order::zero_adds_nothing(s, a);
    }
}

/// A move of some bytes that is asked to stop stops there, wherever it stands, and stays so.
pub proof fn stopped_moves_stay_stopped(run: MoveView, again: bool)
    requires
        run.len > 0,
    ensures
        run.polled(true).1 is Finish,
        run.polled(true).0 == (MoveView { aborted: true, ..run }),
        run.polled(true).0.polled(again) == (run.polled(true).0, MoveStep::Finish),
{
}

/// A recompute that runs to its end leaves the bytes of its last passes: each chunk of 16 MiB is
/// filled from the object's seed, the number of the pass and the chunk's place together, and what
/// the last, partial pass did not reach is left from the one before.
pub proof fn recomputes_leave_their_last_pass(run: RecomputeView, i: int)
    requires
        run.wf(),
        run.complete(),
        0 <= i < run.buf.len(),
        run.plan.full > 0,
    ensures
        ({
            let start = i - i % 0x100_0000;
            let pass = if i < run.plan.partial {
                run.plan.full as int
            } else {
                run.plan.full - 1
            };
            run.buf[i] == crate::util::xorshift_bytes(
                ((run.seed + pass + start) % 0x1_0000_0000_0000_0000) as u64,
                0x100_0000,
            )[i % 0x100_0000]
        }),
{
    let start = i - i % (CHUNK as int);
    let pass = if i < run.plan.partial {
        run.plan.full
    } else {
        (run.plan.full - 1) as u64
    };
    assert(run.buf[i] == pass_byte(pass_seed(run.seed, pass), i));
    let two = 0x1_0000_0000_0000_0000int;
    vstd::arithmetic::div_mod::lemma_add_mod_noop((run.seed + pass) as int, start, two);
    vstd::arithmetic::div_mod::lemma_add_mod_noop(
        ((run.seed + pass) % two) as int,
        start,
        two,
    );
    vstd::arithmetic::div_mod::lemma_mod_twice((run.seed + pass) as int, two);
}

/// The chunks of a move are 16 MiB, but for the last one, which is what is left.
pub proof fn moves_go_by_sixteen_mebibytes(run: MoveView)
    requires
        run.wf(),
        run.done < run.len,
        !run.aborted,
    ensures
        ({
            let left = run.len - run.done;
            let n = if left < 0x100_0000 {
                left
            } else {
                0x100_0000
            };
            run.polled(false) == (run, match run.phase {
                MovePhase::Writing => MoveStep::Write { from: run.done, n: n as u64 },
                MovePhase::Reading => MoveStep::Read { from: run.done, n: n as u64 },
            })
        }),
{
}

/// A move reads back what it wrote: once everything is written it asks for a sync and reads from
/// the first byte on; until it is asked to stop, asking on changes nothing else.
pub proof fn moves_read_back_what_they_wrote(run: MoveView)
    requires
        !run.aborted,
        run.done == run.len,
    ensures
        run.phase == MovePhase::Writing ==> run.polled(false) == (
            MoveView { phase: MovePhase::Reading, done: 0, ..run },
            MoveStep::Sync,
        ),
        run.phase == MovePhase::Reading ==> run.polled(false) == (run, MoveStep::Finish),
        run.len == 0 ==> run.polled(true) == run.polled(false),
{
}

} // verus!
