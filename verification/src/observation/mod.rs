//! Recorded outcomes: per-bucket statistics and the log of decisions.
pub mod aggregate;
pub mod codec;
pub mod event;
pub mod store;

pub use aggregate::AggregateRow;
pub use event::DecisionEvent;
pub use store::ObservationStore;
