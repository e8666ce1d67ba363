//! An uncertainty-aware runtime that decides, per object, whether to move its bytes or to
//! recompute them, and learns from what the decision cost.
//!
//! The crate holds the decisions: the cost models, the predictors, the policies, the record of
//! outcomes and the step machines that drive an execution.  Reading clocks, files and devices
//! is left to the program around it.
pub mod binary64;
pub mod cli;
pub mod contention;
pub mod decision;
pub mod error;
pub mod executor;
pub mod object;
pub mod observation;
pub mod prediction;
pub mod resource;
pub mod study;
pub mod telemetry;
pub mod text;
pub mod util;

pub use error::{Error, Result};
pub use object::{DataLoc, ObjectId, ObjectSpec};
pub use resource::ResourceState;

use vstd::prelude::*;

verus! {

/// `std::time::SystemTime`, an opaque reading of the wall clock.
#[verifier::external_type_specification]
#[verifier::external_body]
pub struct ExSystemTime(std::time::SystemTime);

/// Contract of `std::time::SystemTime::now`, which reads the wall clock: nothing holds of every
/// reading.
pub assume_specification[ std::time::SystemTime::now ]() -> std::time::SystemTime
;

/// Contract of `std::time::Duration::as_millis`, the whole milliseconds of a duration: durations
/// are opaque here, so nothing is stated of the number.
pub assume_specification[ std::time::Duration::as_millis ](d: &std::time::Duration) -> u128
;

/// Calls `std::time::SystemTime::duration_since` for the Unix epoch, which gives the time passed
/// since it, or an error where the clock stands before it.  Nothing is stated of the result,
/// which depends on the clock.
#[verifier::external_body]
fn since_epoch(t: std::time::SystemTime) -> (d: Option<std::time::Duration>) {
    t.duration_since(std::time::UNIX_EPOCH).ok()
}

/// The timestamp for `elapsed` milliseconds since the Unix epoch, in its low 64 bits; zero where
/// the clock stands before the epoch.
pub fn unix_ms(elapsed: Option<u128>) -> (ms: u64)
    ensures
        ms == match elapsed {
            Some(e) => e % 0x1_0000_0000_0000_0000,
            None => 0,
        },
{
    match elapsed {
        Some(e) => (e % 0x1_0000_0000_0000_0000) as u64,
        None => 0,
    }
}

/// The wall clock in milliseconds since the Unix epoch.
pub fn now_unix_ms() -> (ms: u64) {
    match since_epoch(std::time::SystemTime::now()) {
        Some(d) => unix_ms(Some(d.as_millis())),
        None => unix_ms(None),
    }
}

} // verus!
