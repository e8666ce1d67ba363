//! What the CUDA backend's answers mean.
use vstd::prelude::*;
use vstd::string::*;

use crate::error::{Error, Result};
use crate::executor::report::{in_time, MoveReport, RecomputeReport, Span};

verus! {

/// The answer of the backend to a move or a recompute.
#[derive(Debug, Clone, Copy, PartialEq, Eq, Structural)]
pub struct ExecutionResult {
    pub elapsed: Span,
    pub bytes_moved: u64,
    /// Zero for a failure.
    pub success: u8,
    /// Other than zero for an execution that was given up.
    pub aborted: u8,
}

/// Whether the backend can be used with `count` devices.
pub fn require_device(count: i32) -> (r: Result<()>)
    ensures
        match r {
            Ok(()) => count > 0,
            Err(e) => count <= 0 && (e matches Error::Backend(m) && m@
                == "no CUDA device available for CudaBackend"@),
        },
{
    if count <= 0 {
        return Err(Error::Backend("no CUDA device available for CudaBackend".to_owned()));
    }
    Ok(())
}

impl ExecutionResult {
    /// The answer, or `what` as an error if it is a failure.
    pub fn check(self, what: &str) -> (r: Result<ExecutionResult>)
        ensures
            match r {
                Ok(res) => self.success != 0 && res == self,
                Err(e) => self.success == 0 && (e matches Error::Backend(m) && m@ == what@),
            },
    {
        if self.success == 0 {
            Err(Error::Backend(what.to_owned()))
        } else {
            Ok(self)
        }
    }

    /// The report of a move, at the time `now`; the backend times it as a whole.
    pub fn move_report(self, deadline: Option<Span>, now: Span) -> (r: MoveReport)
        ensures
            r == (MoveReport {
                total: self.elapsed,
                bytes: self.bytes_moved,
                write_elapsed: self.elapsed,
                read_elapsed: Span::zero(),
                deadline_met: crate::executor::report::in_time(deadline, now),
                aborted: self.aborted != 0,
            }),
    {
        MoveReport {
            total: self.elapsed,
            bytes: self.bytes_moved,
            write_elapsed: self.elapsed,
            read_elapsed: Span::zero(),
            deadline_met: in_time(deadline, now),
            aborted: self.aborted != 0,
        }
    }

    /// The report of a recompute in `passes` passes, at the time `now`.
    pub fn recompute_report(self, passes: u32, deadline: Option<Span>, now: Span) -> (r: RecomputeReport)
        ensures
            r == (RecomputeReport {
                total: self.elapsed,
                bytes: self.bytes_moved,
                passes,
                deadline_met: crate::executor::report::in_time(deadline, now),
                aborted: self.aborted != 0,
            }),
    {
        RecomputeReport {
            total: self.elapsed,
            bytes: self.bytes_moved,
            passes,
            deadline_met: in_time(deadline, now),
            aborted: self.aborted != 0,
        }
    }
}

} // verus!
