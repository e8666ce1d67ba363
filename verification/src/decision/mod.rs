//! Choosing an action, and seeing it through.
pub mod action;
pub mod engine;
pub mod policy;
pub mod run;

pub use action::Action;
pub use engine::{DecisionEngine, Proposal};
pub use policy::{
    AlwaysMove, AlwaysRecompute, DeadlineAware, DecisionContext, ExpectedCost, Policy, RiskAware,
};
pub use run::{DecisionOutcome, DecisionRun, Measurement, Mode, Next};
