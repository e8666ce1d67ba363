//! The paths that produce an object's bytes, as step machines: the program around them does the
//! I/O and the waiting that they ask for.
pub mod cuda;
pub mod remote;
pub mod report;
pub mod sim;

pub use remote::{RemoteRecomputeReport, SimRemoteExecutor};
pub use report::{in_time, MoveReport, Progress, RecomputeReport, Span};
pub use sim::{SimMoveExecutor, SimRecomputeExecutor};
