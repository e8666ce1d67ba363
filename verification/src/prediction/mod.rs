//! Estimates of what each action will cost.
pub mod bucket;
pub mod cost;
pub mod deadline;
pub mod erf;
pub mod historical;
pub mod learning;
pub mod regression;

pub use bucket::{action_bucket, regime_suffix};
pub use cost::{
    ActionPredictions, CostEstimate, CostModel, CurrentStateCostModel, CurrentStatePredictor,
    Predictor,
};
pub use deadline::{deadline_exceed_probability, uncertainty_ms};
pub use historical::HistoricalPredictor;
pub use regression::{features, OnlineLinearRegression, OnlineRegressionPredictor};
