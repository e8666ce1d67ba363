//! Estimates from an online linear regression on the machine's state.
//!
//! Fixed coefficients misread how state and cost relate, so the relation is learnt: recursive
//! least squares with exponential forgetting, which follows drift.  The residuals give the
//! spread of the estimates.
use vstd::prelude::*;
use vstd::string::*;

use crate::binary64::F64;
use crate::object::ObjectSpec;
use crate::observation::aggregate::{halved, quantile_of};
use crate::observation::ObservationStore;
use crate::prediction::cost::{
    ActionPredictions, CostEstimate, CostModel, CurrentStateCostModel, Predictor,
};
use crate::prediction::historical::{Q50, Q90, Q95};
use crate::resource::ResourceState;
use crate::text::same_text;

verus! {

/// The number of features of a machine state.
pub const N_FEATURES: usize = 4;

/// Bound on the number of retained residuals.
pub const RESIDUALS: usize = 512;

/// 500: the read latency, in microseconds, that counts as one.
pub const LATENCY_SCALE: u64 = 0x407F_4000_0000_0000;

/// The features of a state: the constant one, CPU load, scaled read latency and queue depth.
/// What was not measured is zero.
pub open spec fn feature_values(state: ResourceState) -> Seq<F64> {
    seq![
        F64::one(),
        match state.cpu_util {
            Some(u) => u,
            None => F64::zero(),
        },
        match state.nvme_latency_us {
            Some(l) => l.over(F64 { bits: LATENCY_SCALE }),
            None => F64::zero(),
        },
        match state.nvme_queue_depth {
            Some(q) => F64::from_u64(q as u64),
            None => F64::zero(),
        },
    ]
}

/// The features of a state, scaled so that their weights compare.
pub fn features(state: &ResourceState) -> (x: [F64; 4])
    ensures
        x@ == feature_values(*state),
{
    let cpu = match state.cpu_util {
        Some(u) => u,
        None => F64::zero(),
    };
    let latency = match state.nvme_latency_us {
        Some(l) => l.over(F64 { bits: LATENCY_SCALE }),
        None => F64::zero(),
    };
    let queue = match state.nvme_queue_depth {
        Some(q) => F64::from_u64(q as u64),
        None => F64::zero(),
    };
    let x = [F64::one(), cpu, latency, queue];
    assert(x@ =~= feature_values(*state));
    x
}

/// The sum of the products of four pairs, from the first on.
pub open spec fn dot(a: Seq<F64>, b: Seq<F64>) -> F64 {
    a[0].times(b[0]).plus(a[1].times(b[1])).plus(a[2].times(b[2])).plus(a[3].times(b[3]))
}

fn product(a: &[F64; 4], b: &[F64; 4]) -> (r: F64)
    ensures
        r == dot(a@, b@),
{
    a[0].times(b[0]).plus(a[1].times(b[1])).plus(a[2].times(b[2])).plus(a[3].times(b[3]))
}

/// What a regression holds.
#[verifier::ext_equal]
pub struct RegressionView {
    pub w: Seq<F64>,
    pub p: Seq<Seq<F64>>,
    pub n: u64,
    pub residuals: Seq<F64>,
    pub forget: F64,
    pub l2: F64,
}

impl RegressionView {
    /// Nothing learnt yet: weights of zero, and 100 on the diagonal of the covariance.
    pub open spec fn fresh() -> RegressionView {
        RegressionView {
            w: Seq::new(4, |i: int| F64::zero()),
            p: Seq::new(
                4,
                |i: int|
                    Seq::new(
                        4,
                        |j: int|
                            if i == j {
                                F64 { bits: 0x4059_0000_0000_0000 }
                            } else {
                                F64::zero()
                            },
                    ),
            ),
            n: 0,
            residuals: Seq::empty(),
            forget: F64 { bits: 0x3FEF_AE14_7AE1_47AE },
            l2: F64 { bits: 0x3F50_624D_D2F1_A9FC },
        }
    }

    /// The covariance times the features.
    pub open spec fn px(self, x: Seq<F64>) -> Seq<F64> {
        Seq::new(4, |i: int| dot(self.p[i], x))
    }

    /// The gain of each weight.
    pub open spec fn gain(self, x: Seq<F64>) -> Seq<F64> {
        let denom = self.forget.plus(dot(x, self.px(x))).plus(self.l2);
        Seq::new(4, |i: int| self.px(x)[i].over(denom))
    }

    /// The regression after the outcome `y` for the features `x`.
    pub open spec fn updated(self, x: Seq<F64>, y: F64) -> RegressionView {
        let resid = y.minus(dot(self.w, x));
        let k = self.gain(x);
        RegressionView {
            w: Seq::new(4, |i: int| self.w[i].plus(k[i].times(resid))),
            p: Seq::new(
                4,
                |i: int|
                    Seq::new(
                        4,
                        |j: int| self.p[i][j].minus(k[i].times(self.px(x)[j])).over(self.forget),
                    ),
            ),
            n: (self.n + 1) as u64,
            residuals: crate::observation::aggregate::retained(
                self.residuals,
                resid,
                RESIDUALS as nat,
            ),
            ..self
        }
    }

    /// The quantile `q` of the residuals; zero without any.
    pub open spec fn residual(self, q: F64) -> F64 {
        if self.residuals.len() == 0 {
            F64::zero()
        } else {
            crate::observation::aggregate::quantile(self.residuals, q)
        }
    }

    /// The estimate for the features `x`: the fitted value, moved by the quantiles of the
    /// residuals.
    pub open spec fn estimate(self, x: Seq<F64>) -> CostEstimate {
        let base = dot(self.w, x);
        CostEstimate {
            expected_ms: base.plus(self.residual(F64 { bits: Q50 })),
            p50_ms: base.plus(self.residual(F64 { bits: Q50 })),
            p90_ms: base.plus(self.residual(F64 { bits: Q90 })),
            p95_ms: base.plus(self.residual(F64 { bits: Q95 })),
            deadline_probability: None,
        }
    }
}

/// Recursive least squares with exponential forgetting.
#[derive(Debug)]
pub struct OnlineLinearRegression {
    w: [F64; 4],
    p: [[F64; 4]; 4],
    n: u64,
    residuals: Vec<F64>,
    forget: F64,
    l2: F64,
}

impl View for OnlineLinearRegression {
    type V = RegressionView;

    closed spec fn view(&self) -> RegressionView {
        RegressionView {
            w: self.w@,
            p: Seq::new(4, |i: int| self.p@[i]@),
            n: self.n,
            residuals: self.residuals@,
            forget: self.forget,
            l2: self.l2,
        }
    }
}

impl Clone for OnlineLinearRegression {
    fn clone(&self) -> (r: Self)
        ensures
            r@ == self@,
    {
        let residuals = self.residuals.clone();
        assert(residuals@ =~= self.residuals@);
        OnlineLinearRegression {
            w: self.w,
            p: self.p,
            n: self.n,
            residuals,
            forget: self.forget,
            l2: self.l2,
        }
    }
}

impl Default for OnlineLinearRegression {
    fn default() -> (r: Self)
        ensures
            r@ == RegressionView::fresh(),
    {
        OnlineLinearRegression::new()
    }
}

impl OnlineLinearRegression {
    pub fn new() -> (r: Self)
        ensures
            r@ == RegressionView::fresh(),
    {
        let z = F64::zero();
        let d = F64 { bits: 0x4059_0000_0000_0000 };
        // Forgetting 0.99, damping 0.001.
        let r = OnlineLinearRegression {
            w: [z, z, z, z],
            p: [[d, z, z, z], [z, d, z, z], [z, z, d, z], [z, z, z, d]],
            n: 0,
            residuals: Vec::new(),
            forget: F64 { bits: 0x3FEF_AE14_7AE1_47AE },
            l2: F64 { bits: 0x3F50_624D_D2F1_A9FC },
        };
        proof {
            let f = RegressionView::fresh();
            assert(r@.w =~= f.w);
            assert forall|i: int| 0 <= i < 4 implies r@.p[i] == #[trigger] f.p[i] by {
                assert(r@.p[i] =~= f.p[i]);
            }
            assert(r@.p =~= f.p);
            assert(r@.residuals =~= f.residuals);
        }
        r
    }

    pub fn n(&self) -> (n: u64)
        ensures
            n == self@.n,
    {
        self.n
    }

    pub fn weights(&self) -> (w: [F64; 4])
        ensures
            w@ == self@.w,
    {
        self.w
    }

    pub fn predict(&self, x: &[F64; 4]) -> (r: F64)
        ensures
            r == dot(self@.w, x@),
    {
        product(&self.w, x)
    }

    /// Takes in the outcome `y` for the features `x`.
    pub fn update(&mut self, x: &[F64; 4], y: F64)
        requires
            old(self)@.n < u64::MAX,
        ensures
            final(self)@ == old(self)@.updated(x@, y),
    {
        let ghost before = self@;
        self.n = self.n + 1;
        let pred = product(&self.w, x);
        let resid = y.minus(pred);
        self.residuals.push(resid);
        if self.residuals.len() > RESIDUALS {
            self.residuals = halved(&self.residuals);
        }
        let px = [
            product(&self.p[0], x),
            product(&self.p[1], x),
            product(&self.p[2], x),
            product(&self.p[3], x),
        ];
        assert(px@ =~= before.px(x@));
        let denom = self.forget.plus(product(x, &px)).plus(self.l2);
        let k = [px[0].over(denom), px[1].over(denom), px[2].over(denom), px[3].over(denom)];
        assert(k@ =~= before.gain(x@));
        self.w = [
            self.w[0].plus(k[0].times(resid)),
            self.w[1].plus(k[1].times(resid)),
            self.w[2].plus(k[2].times(resid)),
            self.w[3].plus(k[3].times(resid)),
        ];
        let p0 = reduced(&self.p[0], k[0], &px, self.forget);
        let p1 = reduced(&self.p[1], k[1], &px, self.forget);
        let p2 = reduced(&self.p[2], k[2], &px, self.forget);
        let p3 = reduced(&self.p[3], k[3], &px, self.forget);
        self.p = [p0, p1, p2, p3];
        proof {
            let after = before.updated(x@, y);
            assert(self@.w =~= after.w);
            assert forall|i: int| 0 <= i < 4 implies self@.p[i] == #[trigger] after.p[i] by {
                assert(self@.p[i] =~= after.p[i]);
            }
            assert(self@.p =~= after.p);
            assert(self@.residuals =~= after.residuals);
        }
    }

    /// The quantile `q` of the residuals around the fitted value, in ms.
    pub fn residual_quantile(&self, q: F64) -> (r: F64)
        ensures
            r == self@.residual(q),
    {
        if self.residuals.len() == 0 {
            return F64::zero();
        }
        quantile_of(&self.residuals, q)
    }

    fn estimate(&self, x: &[F64; 4]) -> (e: CostEstimate)
        ensures
            e == self@.estimate(x@),
    {
        let base = self.predict(x);
        CostEstimate {
            expected_ms: base.plus(self.residual_quantile(F64 { bits: Q50 })),
            p50_ms: base.plus(self.residual_quantile(F64 { bits: Q50 })),
            p90_ms: base.plus(self.residual_quantile(F64 { bits: Q90 })),
            p95_ms: base.plus(self.residual_quantile(F64 { bits: Q95 })),
            deadline_probability: None,
        }
    }

    /// Takes in the outcome `y`, unless the count of outcomes is at its limit.
    fn learn(&mut self, x: &[F64; 4], y: F64)
        ensures
            final(self)@ == if old(self)@.n < u64::MAX {
                old(self)@.updated(x@, y)
            } else {
                old(self)@
            },
    {
        if self.n < u64::MAX {
            self.update(x, y);
        }
    }
}

/// One row of the covariance after an update.
fn reduced(row: &[F64; 4], k: F64, px: &[F64; 4], forget: F64) -> (r: [F64; 4])
    ensures
        r@ == Seq::new(4, |j: int| row@[j].minus(k.times(px@[j])).over(forget)),
{
    let r = [
        row[0].minus(k.times(px[0])).over(forget),
        row[1].minus(k.times(px[1])).over(forget),
        row[2].minus(k.times(px[2])).over(forget),
        row[3].minus(k.times(px[3])).over(forget),
    ];
    assert(r@ =~= Seq::new(4, |j: int| row@[j].minus(k.times(px@[j])).over(forget)));
    r
}

/// Learns one regression per action, and uses the present-state model until it has seen enough
/// outcomes.
pub struct OnlineRegressionPredictor {
    pub move_reg: OnlineLinearRegression,
    pub recompute_reg: OnlineLinearRegression,
    pub remote_reg: OnlineLinearRegression,
    pub model: CurrentStateCostModel,
    /// Outcomes of an action from which on its regression counts.
    pub min_samples: u64,
}

/// The estimate of a regression that has seen enough, else that of the model.
pub open spec fn regressed(
    reg: RegressionView,
    min_samples: u64,
    x: Seq<F64>,
    current: CostEstimate,
) -> CostEstimate {
    if reg.n >= min_samples {
        reg.estimate(x)
    } else {
        current
    }
}

/// What a regression becomes with the outcome `y`: a full count stays as it is.
pub open spec fn taught(reg: RegressionView, x: Seq<F64>, y: F64) -> RegressionView {
    if reg.n < u64::MAX {
        reg.updated(x, y)
    } else {
        reg
    }
}

impl OnlineRegressionPredictor {
    pub fn new(model: CurrentStateCostModel) -> (p: Self)
        ensures
            p.move_reg@ == RegressionView::fresh(),
            p.recompute_reg@ == RegressionView::fresh(),
            p.remote_reg@ == RegressionView::fresh(),
            p.model == model,
            p.min_samples == 5,
    {
        OnlineRegressionPredictor {
            move_reg: OnlineLinearRegression::new(),
            recompute_reg: OnlineLinearRegression::new(),
            remote_reg: OnlineLinearRegression::new(),
            model,
            min_samples: 5,
        }
    }

    /// The weights of the three regressions.
    pub fn weights(&self) -> (r: ([F64; 4], [F64; 4], [F64; 4]))
        ensures
            r.0@ == self.move_reg@.w,
            r.1@ == self.recompute_reg@.w,
            r.2@ == self.remote_reg@.w,
    {
        (self.move_reg.weights(), self.recompute_reg.weights(), self.remote_reg.weights())
    }
}

impl Predictor for OnlineRegressionPredictor {
    open spec fn predicts(
        &self,
        rows: Map<Seq<char>, Seq<u8>>,
        object: ObjectSpec,
        state: ResourceState,
        r: ActionPredictions,
    ) -> bool {
        let x = feature_values(state);
        let current = crate::prediction::cost::model_predictions(self.model, object, state);
        &&& r.move_est == regressed(self.move_reg@, self.min_samples, x, current.move_est)
        &&& r.recompute_est == regressed(
            self.recompute_reg@,
            self.min_samples,
            x,
            current.recompute_est,
        )
        &&& r.remote_est == regressed(self.remote_reg@, self.min_samples, x, current.remote_est)
    }

    /// The regression of the action takes in the outcome; the others stay.
    open spec fn learns(
        before: Self,
        action: Seq<char>,
        state: ResourceState,
        actual_ms: F64,
        after: Self,
    ) -> bool {
        let x = feature_values(state);
        &&& after.move_reg@ == if action == "move"@ {
            taught(before.move_reg@, x, actual_ms)
        } else {
            before.move_reg@
        }
        &&& after.recompute_reg@ == if action != "move"@ && action == "recompute"@ {
            taught(before.recompute_reg@, x, actual_ms)
        } else {
            before.recompute_reg@
        }
        &&& after.remote_reg@ == if action != "move"@ && action != "recompute"@ && action
            == "remote"@ {
            taught(before.remote_reg@, x, actual_ms)
        } else {
            before.remote_reg@
        }
        &&& after.model == before.model
        &&& after.min_samples == before.min_samples
    }

    fn predict(&self, store: &ObservationStore, object: &ObjectSpec, state: &ResourceState) -> (r:
        ActionPredictions) {
        let x = features(state);
        let move_est = if self.move_reg.n() >= self.min_samples {
            self.move_reg.estimate(&x)
        } else {
            self.model.move_cost(state, object)
        };
        let recompute_est = if self.recompute_reg.n() >= self.min_samples {
            self.recompute_reg.estimate(&x)
        } else {
            self.model.recompute_cost(state, object)
        };
        let remote_est = if self.remote_reg.n() >= self.min_samples {
            self.remote_reg.estimate(&x)
        } else {
            self.model.remote_recompute_cost(state, object)
        };
        ActionPredictions { move_est, recompute_est, remote_est }
    }

    fn update(&mut self, action: &str, object: &ObjectSpec, state: &ResourceState, actual_ms: F64) {
        let x = features(state);
        if same_text(action, "move") {
            self.move_reg.learn(&x, actual_ms);
        } else if same_text(action, "recompute") {
            self.recompute_reg.learn(&x, actual_ms);
        } else if same_text(action, "remote") {
            self.remote_reg.learn(&x, actual_ms);
        }
    }
}

/// Until an action has been seen often enough, its estimate is the model's.
pub proof fn few_outcomes_use_the_model(
    p: OnlineRegressionPredictor,
    rows: Map<Seq<char>, Seq<u8>>,
    object: ObjectSpec,
    state: ResourceState,
    r: ActionPredictions,
)
    requires
        p.predicts(rows, object, state, r),
        p.move_reg@.n < p.min_samples,
        p.recompute_reg@.n < p.min_samples,
        p.remote_reg@.n < p.min_samples,
    ensures
        r == crate::prediction::cost::model_predictions(p.model, object, state),
{
}

/// The retained residuals never outgrow their bound.
pub proof fn residuals_stay_bounded(reg: RegressionView, x: Seq<F64>, y: F64)
    requires
        reg.residuals.len() <= RESIDUALS,
    ensures
        reg.updated(x, y).residuals.len() <= RESIDUALS,
{
}

/// The quantiles of a regression's estimate are in order, while the fitted value is finite and
/// the residuals are numbers.
pub proof fn regressed_quantiles_are_ordered(reg: RegressionView, x: Seq<F64>)
    requires
        reg.residuals.len() <= u64::MAX,
        forall|i: int| 0 <= i < reg.residuals.len() ==> !(#[trigger] reg.residuals[i]).is_nan(),
        dot(reg.w, x).is_finite(),
    ensures
        reg.estimate(x).p50_ms.at_most(reg.estimate(x).p90_ms),
        reg.estimate(x).p90_ms.at_most(reg.estimate(x).p95_ms),
{
    let base = dot(reg.w, x);
    let p50 = F64 { bits: Q50 };
    let p90 = F64 { bits: Q90 };
    let p95 = F64 { bits: Q95 };
    if reg.residuals.len() > 0 {
        crate::observation::aggregate::quantiles_are_numbers(reg.residuals, p50);
        crate::observation::aggregate::quantiles_are_numbers(reg.residuals, p90);
        crate::observation::aggregate::quantiles_are_numbers(reg.residuals, p95);
        crate::observation::aggregate::quantiles_are_ordered(reg.residuals, p50, p90);
        crate::observation::aggregate::quantiles_are_ordered(reg.residuals, p90, p95);
    }
    crate::binary64::order::plus_keeps_order(reg.residual(p50), reg.residual(p90), base);
    crate::binary64::order::plus_keeps_order(reg.residual(p90), reg.residual(p95), base);
}

/// Every weight moves by its gain times the surprise, the outcome less the fitted value: the gain
/// is the row of the covariance times the features, over the forgetting, the covariance form of
/// the features and the damping together.  The covariance gives up what the outcome explains and
/// grows by the forgetting, and the surprise is kept.
pub proof fn weights_move_by_gain_times_surprise(
    reg: RegressionView,
    x: Seq<F64>,
    y: F64,
    i: int,
    j: int,
)
    requires
        0 <= i < 4,
        0 <= j < 4,
        reg.n < u64::MAX,
        reg.residuals.len() < 512,
    ensures
        ({
            let sum = |a: Seq<F64>, b: Seq<F64>|
                a[0].times(b[0]).plus(a[1].times(b[1])).plus(a[2].times(b[2])).plus(
                    a[3].times(b[3]),
                );
            let surprise = y.minus(sum(reg.w, x));
            let towards = seq![
                sum(reg.p[0], x),
                sum(reg.p[1], x),
                sum(reg.p[2], x),
                sum(reg.p[3], x),
            ];
            let gain = towards[i].over(reg.forget.plus(sum(x, towards)).plus(reg.l2));
            let after = reg.updated(x, y);
            &&& after.w[i] == reg.w[i].plus(gain.times(surprise))
            &&& after.p[i][j] == reg.p[i][j].minus(gain.times(towards[j])).over(reg.forget)
            &&& after.residuals == reg.residuals.push(surprise)
            &&& after.n == reg.n + 1
            &&& after.forget == reg.forget
            &&& after.l2 == reg.l2
        }),
{
}

/// A surprise pulls every weight its way: an outcome above the fitted value raises the weights
/// that the features are positive towards and lowers those that they are negative towards, and an
/// outcome below it does the reverse.
pub proof fn surprises_pull_the_weights(reg: RegressionView, x: Seq<F64>, y: F64, i: int)
    requires
        0 <= i < 4,
        reg.w[i].is_finite(),
        y.minus(dot(reg.w, x)).is_finite(),
        dot(reg.p[i], x).is_finite(),
        F64::zero().less(reg.forget.plus(dot(x, reg.px(x))).plus(reg.l2)),
        reg.forget.plus(dot(x, reg.px(x))).plus(reg.l2).is_finite(),
        reg.gain(x)[i].is_finite(),
    ensures
        ({
            let towards = dot(reg.p[i], x);
            let surprise = y.minus(dot(reg.w, x));
            let none = F64::zero();
            let before = reg.w[i];
            let after = reg.updated(x, y).w[i];
            &&& none.at_most(towards) && none.at_most(surprise) ==> before.at_most(after)
            &&& towards.at_most(none) && surprise.at_most(none) ==> before.at_most(after)
            &&& none.at_most(towards) && surprise.at_most(none) ==> after.at_most(before)
            &&& towards.at_most(none) && none.at_most(surprise) ==> after.at_most(before)
        }),
{
    let towards = dot(reg.p[i], x);
    let surprise = y.minus(dot(reg.w, x));
    let denom = reg.forget.plus(dot(x, reg.px(x))).plus(reg.l2);
    crate::binary64::order::signs_of_quotients(towards, denom);
    crate::binary64::order::signs_of_products(towards.over(denom), surprise);
    crate::binary64::order::signs_move_sums(reg.w[i], towards.over(denom).times(surprise));
}

/// The outcome that was fitted teaches nothing: every weight stays where it is.
pub proof fn fitted_outcomes_keep_the_weights(reg: RegressionView, x: Seq<F64>, i: int)
    requires
        0 <= i < 4,
        dot(reg.w, x).is_finite(),
        reg.gain(x)[i].is_finite(),
    ensures
        crate::binary64::order::alike(reg.updated(x, dot(reg.w, x)).w[i], reg.w[i]),
{
    let fitted = dot(reg.w, x);
    crate::binary64::order::difference_with_itself(fitted);
    crate::binary64::order::zero_of_anything_is_zero(reg.gain(x)[i], fitted.minus(fitted));
    crate::binary64::order::zero_adds_nothing(
        reg.w[i],
        reg.gain(x)[i].times(fitted.minus(fitted)),
    );
}

/// Of two outcomes for the same features, the higher one leaves no lower a weight that the
/// features are positive towards.
pub proof fn higher_outcomes_leave_higher_weights(
    reg: RegressionView,
    x: Seq<F64>,
    y: F64,
    higher: F64,
    i: int,
)
    requires
        0 <= i < 4,
        y.at_most(higher),
        reg.w[i].is_finite(),
        dot(reg.w, x).is_finite(),
        y.minus(dot(reg.w, x)).is_finite(),
        higher.minus(dot(reg.w, x)).is_finite(),
        dot(reg.p[i], x).is_finite(),
        crate::binary64::order::is_amount(dot(reg.p[i], x)),
        F64::zero().less(reg.forget.plus(dot(x, reg.px(x))).plus(reg.l2)),
        reg.forget.plus(dot(x, reg.px(x))).plus(reg.l2).is_finite(),
        reg.gain(x)[i].is_finite(),
    ensures
        reg.updated(x, y).w[i].at_most(reg.updated(x, higher).w[i]),
{
    let fitted = dot(reg.w, x);
    let towards = dot(reg.p[i], x);
    let denom = reg.forget.plus(dot(x, reg.px(x))).plus(reg.l2);
    reveal(F64::spec_minus);
    crate::binary64::order::plus_keeps_order(y, higher, fitted.negated());
    crate::binary64::order::over_keeps_order(towards, towards, denom);
    let gain = towards.over(denom);
    crate::binary64::order::times_an_amount_keeps_order(
        y.minus(fitted),
        higher.minus(fitted),
        gain,
    );
    crate::binary64::order::plus_keeps_order(
        gain.times(y.minus(fitted)),
        gain.times(higher.minus(fitted)),
        reg.w[i],
    );
}

/// Where all products but one are nothing, the sum of the products is that one.
pub proof fn one_product_counts(a: Seq<F64>, b: Seq<F64>, i: int)
    requires
        0 <= i < 4,
        forall|j: int| 0 <= j < 4 && j != i ==> (#[trigger] a[j]).times(b[j]).magnitude() == 0,
    ensures
        crate::binary64::order::alike(dot(a, b), a[i].times(b[i])),
{
    let t0 = a[0].times(b[0]);
    let t1 = a[1].times(b[1]);
    let t2 = a[2].times(b[2]);
    let t3 = a[3].times(b[3]);
    crate::binary64::order::zero_adds_nothing_in_front(F64::zero(), F64::zero());
    if i == 0 {
        crate::binary64::order::zero_adds_nothing(t0, t1);
    } else {
        crate::binary64::order::zero_adds_nothing_in_front(t0, t1);
    }
    let s1 = t0.plus(t1);
    if i == 2 {
        crate::binary64::order::zero_adds_nothing_in_front(s1, t2);
    } else {
        crate::binary64::order::zero_adds_nothing(s1, t2);
    }
    let s2 = s1.plus(t2);
    if i == 3 {
        crate::binary64::order::zero_adds_nothing(s1, t2);
        crate::binary64::order::zero_adds_nothing_in_front(s2, t3);
    } else {
        crate::binary64::order::zero_adds_nothing(s2, t3);
    }
}

/// Each feature is fitted with its own weight: the fitted value for a single feature compares
/// alike with that feature times the weight at its place.
pub proof fn features_meet_their_weights(reg: RegressionView, x: Seq<F64>, i: int)
    requires
        0 <= i < 4,
        forall|j: int| 0 <= j < 4 ==> (#[trigger] reg.w[j]).is_finite(),
        forall|j: int| 0 <= j < 4 && j != i ==> #[trigger] x[j] == F64::zero(),
    ensures
        crate::binary64::order::alike(dot(reg.w, x), x[i].times(reg.w[i])),
        x[i] == F64::one() ==> crate::binary64::order::alike(dot(reg.w, x), reg.w[i]),
{
    assert forall|j: int| 0 <= j < 4 && j != i implies (#[trigger] reg.w[j]).times(
        x[j],
    ).magnitude() == 0 by {
        assert(x[j] == F64::zero());
        crate::binary64::order::zero_of_anything_is_zero(reg.w[j], x[j]);
    }
    one_product_counts(reg.w, x, i);
    crate::binary64::order::times_commute(reg.w[i], x[i]);
    crate::binary64::order::one_is_neutral(reg.w[i]);
}

/// The first outcome of a regression, with a single feature `v` at any of the four places: the
/// weight there becomes `100 v / (0.99 + v * 100 v + 0.001)` times the outcome, the other weights
/// stay zero, and their covariance only grows by the forgetting.  So the four features count
/// alike.
pub proof fn first_outcomes_teach_the_active_feature(x: Seq<F64>, y: F64, i: int)
    requires
        0 <= i < 4,
        forall|j: int| 0 <= j < 4 && j != i ==> #[trigger] x[j] == F64::zero(),
        crate::binary64::order::is_amount(x[i]),
        x[i].is_finite(),
        x[i].magnitude() > 0,
        (F64 { bits: 0x4059_0000_0000_0000 }).times(x[i]).is_finite(),
        y.is_finite(),
    ensures
        ({
            let v = x[i];
            let towards = (F64 { bits: 0x4059_0000_0000_0000 }).times(v);
            let gain = towards.over(
                (F64 { bits: 0x3FEF_AE14_7AE1_47AE }).plus(v.times(towards)).plus(
                    F64 { bits: 0x3F50_624D_D2F1_A9FC },
                ),
            );
            let after = RegressionView::fresh().updated(x, y);
            &&& gain.is_finite() ==> crate::binary64::order::alike(after.w[i], gain.times(y))
            &&& forall|j: int|
                0 <= j < 4 && j != i ==> (#[trigger] after.w[j]).magnitude() == 0 && after.p[j][j]
                    == (F64 { bits: 0x4059_0000_0000_0000 }).over(
                    F64 { bits: 0x3FEF_AE14_7AE1_47AE },
                )
        }),
{
    let reg = RegressionView::fresh();
    let h = F64 { bits: 0x4059_0000_0000_0000 };
    let v = x[i];
    let towards = h.times(v);
    crate::binary64::order::times_keeps_order(F64::one(), h, v);
    crate::binary64::order::one_is_neutral(v);
    assert(towards.magnitude() > 0);
    // The covariance times the features.
    assert forall|k: int| 0 <= k < 4 && k != i implies (#[trigger] reg.px(x)[k]).magnitude()
        == 0 by {
        assert forall|j: int| 0 <= j < 4 && j != k implies (#[trigger] reg.p[k][j]).times(
            x[j],
        ).magnitude() == 0 by {
            crate::binary64::order::zero_of_anything_is_zero(x[j], reg.p[k][j]);
        }
        one_product_counts(reg.p[k], x, k);
        assert(x[k] == F64::zero());
        crate::binary64::order::zero_of_anything_is_zero(reg.p[k][k], x[k]);
    }
    assert forall|j: int| 0 <= j < 4 && j != i implies (#[trigger] reg.p[i][j]).times(
        x[j],
    ).magnitude() == 0 by {
        assert(x[j] == F64::zero());
        crate::binary64::order::zero_of_anything_is_zero(reg.p[i][j], x[j]);
    }
    one_product_counts(reg.p[i], x, i);
    assert(reg.px(x)[i] == towards);
    // The covariance form.
    assert forall|j: int| 0 <= j < 4 && j != i implies (#[trigger] x[j]).times(
        reg.px(x)[j],
    ).magnitude() == 0 by {
        assert(reg.px(x)[j].magnitude() == 0);
        crate::binary64::order::zero_of_anything_is_zero(x[j], reg.px(x)[j]);
    }
    one_product_counts(x, reg.px(x), i);
    let form = dot(x, reg.px(x));
    let s = v.times(towards);
    crate::binary64::order::times_keeps_order(v, v, towards);
    let forget = F64 { bits: 0x3FEF_AE14_7AE1_47AE };
    let l2 = F64 { bits: 0x3F50_624D_D2F1_A9FC };
    lemma_like_zeros_add_alike(forget, form, s);
    let denom = forget.plus(s).plus(l2);
    crate::binary64::order::amounts_add_up(forget, s);
    crate::binary64::order::amounts_add_up(forget.plus(s), l2);
    // The surprise is the outcome.
    assert forall|j: int| 0 <= j < 4 implies (#[trigger] reg.w[j]).times(x[j]).magnitude()
        == 0 by {
        crate::binary64::order::zero_of_anything_is_zero(x[j], reg.w[j]);
    }
    one_product_counts(reg.w, x, i);
    let fitted = dot(reg.w, x);
    assert(reg.w[i].times(x[i]).magnitude() == 0);
    reveal(F64::spec_minus);
    crate::binary64::order::zero_adds_nothing(y, fitted.negated());
    let surprise = y.minus(fitted);
    let gain = towards.over(denom);
    if gain.is_finite() {
        crate::binary64::order::likeness_of_products(gain, surprise, y);
        crate::binary64::order::zero_adds_nothing_in_front(reg.w[i], gain.times(surprise));
        assert(reg.updated(x, y).w[i] == reg.w[i].plus(gain.times(surprise)));
    }
    let after = reg.updated(x, y);
    assert forall|j: int| 0 <= j < 4 && j != i implies (#[trigger] after.w[j]).magnitude() == 0
        && after.p[j][j] == h.over(forget) by {
        let px = reg.px(x)[j];
        assert(px.magnitude() == 0);
        crate::binary64::order::zero_shared_is_zero(px, denom);
        let g = px.over(denom);
        crate::binary64::order::zero_of_anything_is_zero(surprise, g);
        crate::binary64::order::zero_adds_nothing(reg.w[j], g.times(surprise));
        crate::binary64::order::zero_of_anything_is_zero(px, g);
        crate::binary64::order::zero_adds_nothing(h, g.times(px).negated());
        assert(h.minus(g.times(px)) == h);
    }
    assert(gain.is_finite() ==> crate::binary64::order::alike(after.w[i], gain.times(y)));
    assert(forall|j: int|
        0 <= j < 4 && j != i ==> (#[trigger] after.w[j]).magnitude() == 0 && after.p[j][j]
            == h.over(forget));
}

/// Two numbers that compare alike add alike to one that is larger than zero.
proof fn lemma_like_zeros_add_alike(a: F64, b: F64, c: F64)
    requires
        crate::binary64::order::is_amount(a),
        a.is_finite(),
        a.magnitude() > 0,
        crate::binary64::order::alike(b, c),
        crate::binary64::order::is_amount(c),
    ensures
        a.plus(b) == a.plus(c),
{
    reveal(F64::spec_plus);
    if b != c {
        assert(b.magnitude() == 0 && c.magnitude() == 0);
        crate::binary64::lemma_units_of_strict(0, a.magnitude() as nat);
    }
}

/// The first feature is always one, the others are the CPU load, the read latency in units of 500
/// microseconds and the queue depth; each moves with its own reading alone, and is zero without.
pub proof fn features_follow_their_readings(state: ResourceState, cpu: F64, latency: F64, depth: u32)
    ensures
        ({
            let x = feature_values(state);
            let five_hundred = F64 { bits: 0x407F_4000_0000_0000 };
            &&& x.len() == 4
            &&& x[0] == F64::one()
            &&& feature_values(ResourceState { cpu_util: Some(cpu), ..state }) == x.update(1, cpu)
            &&& feature_values(ResourceState { cpu_util: None, ..state }) == x.update(
                1,
                F64::zero(),
            )
            &&& feature_values(ResourceState { nvme_latency_us: Some(latency), ..state })
                == x.update(2, latency.over(five_hundred))
            &&& feature_values(ResourceState { nvme_latency_us: None, ..state }) == x.update(
                2,
                F64::zero(),
            )
            &&& feature_values(ResourceState { nvme_latency_us: Some(five_hundred), ..state })[2]
                == F64::one()
            &&& feature_values(ResourceState { nvme_queue_depth: Some(depth), ..state })
                == x.update(3, F64::from_u64(depth as u64))
            &&& feature_values(ResourceState { nvme_queue_depth: None, ..state }) == x.update(
                3,
                F64::zero(),
            )
        }),
{
    crate::binary64::order::itself_goes_once(F64 { bits: 0x407F_4000_0000_0000 });
}

/// An estimate is the fitted value moved by what it was off before: by as much as it was always
/// off, and by nothing where it was never seen.
pub proof fn estimates_correct_for_what_was_off(reg: RegressionView, x: Seq<F64>, off: F64)
    requires
        forall|i: int| 0 <= i < reg.residuals.len() ==> #[trigger] reg.residuals[i] == off,
    ensures
        reg.residuals.len() > 0 ==> reg.estimate(x) == CostEstimate::point(
            dot(reg.w, x).plus(off),
        ),
        reg.residuals.len() == 0 ==> crate::binary64::order::alike(
            reg.estimate(x).expected_ms,
            dot(reg.w, x),
        ),
        reg.estimate(x).expected_ms == reg.estimate(x).p50_ms,
{
    if reg.residuals.len() > 0 {
        crate::observation::aggregate::quantile_is_a_sample(reg.residuals, F64 { bits: Q50 });
        crate::observation::aggregate::quantile_is_a_sample(reg.residuals, F64 { bits: Q90 });
        crate::observation::aggregate::quantile_is_a_sample(reg.residuals, F64 { bits: Q95 });
    } else {
        crate::binary64::order::zero_adds_nothing(dot(reg.w, x), F64::zero());
    }
}

/// An estimate is the fitted value and the quantiles of what it was off: 0.5 for the expected
/// time and the median, 0.9 and 0.95 for the percentiles.
pub proof fn estimates_spread_as_the_residuals(reg: RegressionView, x: Seq<F64>)
    requires
        reg.residuals.len() > 0,
    ensures
        ({
            let fitted = dot(reg.w, x);
            let off = |q: F64| crate::observation::aggregate::quantile(reg.residuals, q);
            let e = reg.estimate(x);
            &&& e.expected_ms == fitted.plus(off(F64 { bits: 0x3FE0_0000_0000_0000 }))
            &&& e.p90_ms == fitted.plus(off(F64 { bits: 0x3FEC_CCCC_CCCC_CCCD }))
            &&& e.p95_ms == fitted.plus(off(F64 { bits: 0x3FEE_6666_6666_6666 }))
            &&& e.deadline_probability is None
        }),
{
}

/// The regression counts from its least number of outcomes on, and the model up to there.
pub proof fn enough_outcomes_decide(
    reg: RegressionView,
    min_samples: u64,
    x: Seq<F64>,
    current: CostEstimate,
)
    ensures
        reg.n < min_samples ==> regressed(reg, min_samples, x, current) == current,
        reg.n >= min_samples ==> regressed(reg, min_samples, x, current) == reg.estimate(x),
{
}

/// A fresh regression has seen nothing, fits zero to every finite feature, and so leaves the
/// estimates to the model.
pub proof fn fresh_regressions_know_nothing(x: Seq<F64>, min_samples: u64, current: CostEstimate)
    requires
        forall|j: int| 0 <= j < 4 ==> (#[trigger] x[j]).is_finite(),
        min_samples > 0,
    ensures
        RegressionView::fresh().n == 0,
        RegressionView::fresh().residuals.len() == 0,
        dot(RegressionView::fresh().w, x).magnitude() == 0,
        regressed(RegressionView::fresh(), min_samples, x, current) == current,
{
    let reg = RegressionView::fresh();
    assert forall|j: int| 0 <= j < 4 implies (#[trigger] reg.w[j]).times(x[j]).magnitude()
        == 0 by {
        crate::binary64::order::zero_of_anything_is_zero(x[j], reg.w[j]);
    }
    one_product_counts(reg.w, x, 0);
    assert(reg.w[0].times(x[0]).magnitude() == 0);
}

/// An outcome draws the fitted value its way: for features that are not negative, towards which
/// the covariance is not negative either, an outcome above the fitted value never lowers what is
/// fitted to the features afterwards, and one below it never raises it.
pub proof fn outcomes_draw_the_fit(reg: RegressionView, x: Seq<F64>, y: F64)
    requires
        y.minus(dot(reg.w, x)).is_finite(),
        F64::zero().less(reg.forget.plus(dot(x, reg.px(x))).plus(reg.l2)),
        reg.forget.plus(dot(x, reg.px(x))).plus(reg.l2).is_finite(),
        forall|j: int|
            0 <= j < 4 ==> {
                let before = #[trigger] reg.w[j];
                let after = reg.updated(x, y).w[j];
                &&& crate::binary64::order::is_amount(x[j]) && x[j].is_finite()
                &&& F64::zero().at_most(dot(reg.p[j], x)) && dot(reg.p[j], x).is_finite()
                &&& reg.gain(x)[j].is_finite()
                &&& before.is_finite() && before.times(x[j]).is_finite()
                &&& after.is_finite() && after.times(x[j]).is_finite()
            },
        ({
            let w = reg.w;
            let v = reg.updated(x, y).w;
            let first = w[0].times(x[0]).plus(w[1].times(x[1]));
            let last = v[0].times(x[0]).plus(v[1].times(x[1]));
            &&& first.is_finite() && first.plus(w[2].times(x[2])).is_finite()
            &&& last.is_finite() && last.plus(v[2].times(x[2])).is_finite()
        }),
    ensures
        ({
            let surprise = y.minus(dot(reg.w, x));
            let before = dot(reg.w, x);
            let after = dot(reg.updated(x, y).w, x);
            &&& F64::zero().at_most(surprise) ==> before.at_most(after)
            &&& surprise.at_most(F64::zero()) ==> after.at_most(before)
        }),
{
    let surprise = y.minus(dot(reg.w, x));
    let v = reg.updated(x, y).w;
    assert(reg.w[0].is_finite() && reg.w[1].is_finite());
    assert(reg.w[2].is_finite() && reg.w[3].is_finite());
    surprises_pull_the_weights(reg, x, y, 0);
    surprises_pull_the_weights(reg, x, y, 1);
    surprises_pull_the_weights(reg, x, y, 2);
    surprises_pull_the_weights(reg, x, y, 3);
    if F64::zero().at_most(surprise) {
        lemma_larger_weights_fit_more(reg.w, v, x);
    }
    if surprise.at_most(F64::zero()) {
        lemma_larger_weights_fit_more(v, reg.w, x);
    }
}

/// Larger weights never fit less to features that are not negative.
proof fn lemma_larger_weights_fit_more(small: Seq<F64>, large: Seq<F64>, x: Seq<F64>)
    requires
        forall|j: int|
            0 <= j < 4 ==> {
                &&& (#[trigger] small[j]).is_finite() && large[j].is_finite()
                &&& small[j].at_most(large[j])
                &&& crate::binary64::order::is_amount(x[j]) && x[j].is_finite()
                &&& small[j].times(x[j]).is_finite() && large[j].times(x[j]).is_finite()
            },
        large[0].times(x[0]).plus(large[1].times(x[1])).is_finite(),
        large[0].times(x[0]).plus(large[1].times(x[1])).plus(large[2].times(x[2])).is_finite(),
    ensures
        dot(small, x).at_most(dot(large, x)),
{
    let a = |j: int| small[j].times(x[j]);
    let b = |j: int| large[j].times(x[j]);
    assert forall|j: int| 0 <= j < 4 implies (#[trigger] a(j)).at_most(b(j)) by {
        assert(small[j].is_finite());
        crate::binary64::order::times_an_amount_keeps_order(small[j], large[j], x[j]);
        crate::binary64::order::times_commute(x[j], small[j]);
        crate::binary64::order::times_commute(x[j], large[j]);
    }
    assert(a(0).at_most(b(0)) && a(1).at_most(b(1)) && a(2).at_most(b(2)) && a(3).at_most(b(3)));
    assert(small[0].is_finite() && small[1].is_finite());
    assert(small[2].is_finite() && small[3].is_finite());
    crate::binary64::order::plus_keeps_order(a(0), b(0), a(1));
    crate::binary64::order::plus_keeps_order(a(1), b(1), b(0));
    let s = a(0).plus(a(1));
    let t = b(0).plus(b(1));
    crate::binary64::order::plus_keeps_order(s, t, a(2));
    crate::binary64::order::plus_keeps_order(a(2), b(2), t);
    crate::binary64::order::plus_keeps_order(s.plus(a(2)), t.plus(b(2)), a(3));
    crate::binary64::order::plus_keeps_order(a(3), b(3), t.plus(b(2)));
}

/// What an outcome shows of a weight makes it surer: the covariance of the weight with itself ends
/// up at most where the forgetting alone would have taken it.
pub proof fn outcomes_make_weights_surer(reg: RegressionView, x: Seq<F64>, y: F64, i: int)
    requires
        0 <= i < 4,
        dot(reg.p[i], x).is_finite(),
        F64::zero().less(reg.forget.plus(dot(x, reg.px(x))).plus(reg.l2)),
        reg.forget.plus(dot(x, reg.px(x))).plus(reg.l2).is_finite(),
        reg.gain(x)[i].is_finite(),
        reg.p[i][i].is_finite(),
        reg.p[i][i].minus(reg.gain(x)[i].times(dot(reg.p[i], x))).is_finite(),
        F64::zero().less(reg.forget),
        reg.forget.is_finite(),
    ensures
        reg.updated(x, y).p[i][i].at_most(reg.p[i][i].over(reg.forget)),
{
    let towards = dot(reg.p[i], x);
    let denom = reg.forget.plus(dot(x, reg.px(x))).plus(reg.l2);
    let gain = towards.over(denom);
    let shown = gain.times(towards);
    crate::binary64::order::signs_of_quotients(towards, denom);
    crate::binary64::order::signs_of_products(gain, towards);
    reveal(F64::spec_minus);
    crate::binary64::order::signs_move_sums(reg.p[i][i], shown.negated());
    crate::binary64::order::over_a_positive_keeps_order(
        reg.p[i][i].minus(shown),
        reg.p[i][i],
        reg.forget,
    );
}

} // verus!
