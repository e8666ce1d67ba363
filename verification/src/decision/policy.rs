//! Policies: which action to take, given the estimates.
use vstd::prelude::*;

use crate::binary64::F64;
use crate::decision::action::Action;
use crate::object::ObjectSpec;
use crate::prediction::cost::{ActionElementary, ActionPredictions, CostEstimate};
use crate::prediction::deadline::{deadline_exceed_probability, uncertainty_ms, Elementary};
use crate::resource::ResourceState;

verus! {

/// A deadline that is still ahead.
#[derive(Debug, Clone, Copy)]
pub struct DeadlineAhead {
    /// The time until it, in ms.
    pub remaining_ms: F64,
    /// Elementary-function values for it, for estimates without a probability of a miss.
    pub values: ActionElementary,
}

/// What a policy sees besides the estimates.  History is the predictor's business, so policies
/// are functions of this and of the predictions alone.
#[derive(Debug, Clone, Copy)]
pub struct DecisionContext {
    pub object: ObjectSpec,
    pub resource: ResourceState,
    pub deadline: Option<DeadlineAhead>,
}

/// A rule that chooses an action.
pub trait Policy {
    spec fn label(&self) -> Seq<char>;

    spec fn picks(&self, ctx: DecisionContext, pred: ActionPredictions) -> Action;

    fn name(&self) -> (s: &'static str)
        ensures
            s@ == self.label(),
    ;

    fn choose_action(&self, ctx: &DecisionContext, pred: &ActionPredictions) -> (a: Action)
        ensures
            a == self.picks(*ctx, *pred),
    ;
}

/// The action with the lowest score; of equal ones, the first.
pub open spec fn lowest(move_score: F64, recompute_score: F64, remote_score: F64) -> Action {
    if recompute_score.less(move_score) {
        if remote_score.less(recompute_score) {
            Action::RemoteRecompute
        } else {
            Action::Recompute
        }
    } else if remote_score.less(move_score) {
        Action::RemoteRecompute
    } else {
        Action::Move
    }
}

fn pick_lowest(move_score: F64, recompute_score: F64, remote_score: F64) -> (a: Action)
    ensures
        a == lowest(move_score, recompute_score, remote_score),
{
    let mut best = Action::Move;
    let mut best_score = move_score;
    if recompute_score.less(best_score) {
        best = Action::Recompute;
        best_score = recompute_score;
    }
    if remote_score.less(best_score) {
        best = Action::RemoteRecompute;
    }
    best
}

/// Always moves: a baseline.
pub struct AlwaysMove;

impl Policy for AlwaysMove {
    open spec fn label(&self) -> Seq<char> {
        "always_move"@
    }

    open spec fn picks(&self, ctx: DecisionContext, pred: ActionPredictions) -> Action {
        Action::Move
    }

    fn name(&self) -> (s: &'static str) {
        "always_move"
    }

    fn choose_action(&self, ctx: &DecisionContext, pred: &ActionPredictions) -> (a: Action) {
        Action::Move
    }
}

/// Always recomputes: a baseline.
pub struct AlwaysRecompute;

impl Policy for AlwaysRecompute {
    open spec fn label(&self) -> Seq<char> {
        "always_recompute"@
    }

    open spec fn picks(&self, ctx: DecisionContext, pred: ActionPredictions) -> Action {
        Action::Recompute
    }

    fn name(&self) -> (s: &'static str) {
        "always_recompute"
    }

    fn choose_action(&self, ctx: &DecisionContext, pred: &ActionPredictions) -> (a: Action) {
        Action::Recompute
    }
}

/// Takes the action that is expected to finish first.
pub struct ExpectedCost;

impl Policy for ExpectedCost {
    open spec fn label(&self) -> Seq<char> {
        "expected_cost"@
    }

    open spec fn picks(&self, ctx: DecisionContext, pred: ActionPredictions) -> Action {
        lowest(
            pred.move_est.expected_ms,
            pred.recompute_est.expected_ms,
            pred.remote_est.expected_ms,
        )
    }

    fn name(&self) -> (s: &'static str) {
        "expected_cost"
    }

    fn choose_action(&self, ctx: &DecisionContext, pred: &ActionPredictions) -> (a: Action) {
        pick_lowest(
            pred.move_est.expected_ms,
            pred.recompute_est.expected_ms,
            pred.remote_est.expected_ms,
        )
    }
}

/// Weighs the uncertainty of the estimates: the lowest `E[T] + mu * U` wins, with `U` the spread.
pub struct RiskAware {
    pub mu: F64,
}

impl RiskAware {
    /// The score of an estimate.
    pub open spec fn score_of(self, est: CostEstimate) -> F64 {
        est.expected_ms.plus(self.mu.times(crate::prediction::deadline::spread(est)))
    }

    fn score(&self, est: &CostEstimate) -> (r: F64)
        ensures
            r == self.score_of(*est),
    {
        est.expected_ms.plus(self.mu.times(uncertainty_ms(est)))
    }
}

impl Policy for RiskAware {
    open spec fn label(&self) -> Seq<char> {
        "risk_aware"@
    }

    open spec fn picks(&self, ctx: DecisionContext, pred: ActionPredictions) -> Action {
        lowest(
            self.score_of(pred.move_est),
            self.score_of(pred.recompute_est),
            self.score_of(pred.remote_est),
        )
    }

    fn name(&self) -> (s: &'static str) {
        "risk_aware"
    }

    fn choose_action(&self, ctx: &DecisionContext, pred: &ActionPredictions) -> (a: Action) {
        pick_lowest(
            self.score(&pred.move_est),
            self.score(&pred.recompute_est),
            self.score(&pred.remote_est),
        )
    }
}

/// The probability that an action misses the deadline: the estimate's own, else the one that the
/// deadline model gives; zero without a deadline ahead.
pub open spec fn miss_of(
    deadline: Option<DeadlineAhead>,
    est: CostEstimate,
    values: Elementary,
) -> F64 {
    match (deadline, est.deadline_probability) {
        (Some(_), Some(p)) => p,
        (Some(d), None) => crate::prediction::deadline::miss_probability(
            est,
            d.remaining_ms,
            values,
        ),
        _ => F64::zero(),
    }
}

/// Weighs deadline and uncertainty: the lowest `E[T] + lambda * P(T > D) + mu * U` wins.
///
/// A fast but risky path can so lose to a slow but safe one when a deadline is near.
pub struct DeadlineAware {
    pub lambda: F64,
    pub mu: F64,
}

impl DeadlineAware {
    /// The score of an estimate that misses the deadline with probability `miss`.
    pub open spec fn score_of(self, est: CostEstimate, miss: F64) -> F64 {
        est.expected_ms.plus(self.lambda.times(miss)).plus(
            self.mu.times(crate::prediction::deadline::spread(est)),
        )
    }

    /// The score of an estimate in a context.
    pub open spec fn score_in(
        self,
        ctx: DecisionContext,
        est: CostEstimate,
        values: Elementary,
    ) -> F64 {
        self.score_of(est, miss_of(ctx.deadline, est, values))
    }

    fn score(&self, deadline: Option<F64>, est: &CostEstimate, values: Elementary) -> (r: F64)
        ensures
            r == self.score_of(
                *est,
                match (deadline, est.deadline_probability) {
                    (Some(_), Some(p)) => p,
                    (Some(d), None) => crate::prediction::deadline::miss_probability(
                        *est,
                        d,
                        values,
                    ),
                    _ => F64::zero(),
                },
            ),
    {
        let miss = match (deadline, est.deadline_probability) {
            (Some(_), Some(p)) => p,
            (Some(d), None) => deadline_exceed_probability(est, d, values),
            _ => F64::zero(),
        };
        est.expected_ms.plus(self.lambda.times(miss)).plus(self.mu.times(uncertainty_ms(est)))
    }
}

impl Policy for DeadlineAware {
    open spec fn label(&self) -> Seq<char> {
        "deadline_aware"@
    }

    open spec fn picks(&self, ctx: DecisionContext, pred: ActionPredictions) -> Action {
        let values = ctx.deadline->0.values;
        lowest(
            self.score_in(ctx, pred.move_est, values.move_values),
            self.score_in(ctx, pred.recompute_est, values.recompute_values),
            self.score_in(ctx, pred.remote_est, values.remote_values),
        )
    }

    fn name(&self) -> (s: &'static str) {
        "deadline_aware"
    }

    fn choose_action(&self, ctx: &DecisionContext, pred: &ActionPredictions) -> (a: Action) {
        match ctx.deadline {
            Some(d) => {
                let r = Some(d.remaining_ms);
                pick_lowest(
                    self.score(r, &pred.move_est, d.values.move_values),
                    self.score(r, &pred.recompute_est, d.values.recompute_values),
                    self.score(r, &pred.remote_est, d.values.remote_values),
                )
            },
            None => {
                let none = Elementary::unused();
                pick_lowest(
                    self.score(None, &pred.move_est, none),
                    self.score(None, &pred.recompute_est, none),
                    self.score(None, &pred.remote_est, none),
                )
            },
        }
    }
}

/// No action scores lower than the chosen one.
pub proof fn lowest_is_a_minimum(move_score: F64, recompute_score: F64, remote_score: F64)
    ensures
        ({
            let chosen = match lowest(move_score, recompute_score, remote_score) {
                Action::Move => move_score,
                Action::Recompute => recompute_score,
                Action::RemoteRecompute => remote_score,
            };
            &&& !move_score.less(chosen)
            &&& !recompute_score.less(chosen)
            &&& !remote_score.less(chosen)
        }),
{
}

proof fn lemma_infinite_sum(x: F64)
    ensures
        F64::infinity().plus(x).is_nan() || F64::infinity().plus(x) == F64::infinity(),
{
    reveal(F64::spec_plus);
}

proof fn lemma_nan_sum(x: F64, y: F64)
    requires
        x.is_nan() || x == F64::infinity(),
    ensures
        x.plus(y).is_nan() || x.plus(y) == F64::infinity(),
{
    reveal(F64::spec_plus);
}

/// An action with an infinite estimate, such as the remote one without a remote node, is never
/// chosen by a policy that looks at the estimates.
pub proof fn infinite_remote_is_never_chosen(
    ctx: DecisionContext,
    pred: ActionPredictions,
    risk: RiskAware,
    deadline: DeadlineAware,
)
    requires
        pred.remote_est.expected_ms == F64::infinity(),
    ensures
        ExpectedCost.picks(ctx, pred) != Action::RemoteRecompute,
        risk.picks(ctx, pred) != Action::RemoteRecompute,
        deadline.picks(ctx, pred) != Action::RemoteRecompute,
{
    let est = pred.remote_est;
    let u = crate::prediction::deadline::spread(est);
    lemma_infinite_sum(risk.mu.times(u));
    let values = ctx.deadline->0.values.remote_values;
    let miss = miss_of(ctx.deadline, est, values);
    lemma_infinite_sum(deadline.lambda.times(miss));
    lemma_nan_sum(est.expected_ms.plus(deadline.lambda.times(miss)), deadline.mu.times(u));
}

/// Without a remote node the remote action is never chosen: not by what the present-state model
/// predicts, whatever the deadline.
pub proof fn disabled_remote_is_never_chosen(
    model: crate::prediction::cost::CurrentStateCostModel,
    ctx: DecisionContext,
    deadline_remaining_ms: Option<F64>,
    values: ActionElementary,
    risk: RiskAware,
    deadline: DeadlineAware,
)
    requires
        !model.remote_enabled,
    ensures
        ({
            let pred = crate::prediction::cost::model_predictions(
                model,
                ctx.object,
                ctx.resource,
            ).assessed(deadline_remaining_ms, values);
            &&& AlwaysMove.picks(ctx, pred) != Action::RemoteRecompute
            &&& AlwaysRecompute.picks(ctx, pred) != Action::RemoteRecompute
            &&& ExpectedCost.picks(ctx, pred) != Action::RemoteRecompute
            &&& risk.picks(ctx, pred) != Action::RemoteRecompute
            &&& deadline.picks(ctx, pred) != Action::RemoteRecompute
        }),
{
    let pred = crate::prediction::cost::model_predictions(
        model,
        ctx.object,
        ctx.resource,
    ).assessed(deadline_remaining_ms, values);
    infinite_remote_is_never_chosen(ctx, pred, risk, deadline);
}

/// Scores that compare alike lead to the same action.
proof fn lemma_alike_scores(a: F64, b: F64, c: F64, x: F64, y: F64, z: F64)
    requires
        crate::binary64::order::alike(a, x),
        crate::binary64::order::alike(b, y),
        crate::binary64::order::alike(c, z),
    ensures
        lowest(a, b, c) == lowest(x, y, z),
{
}

proof fn lemma_no_miss(policy: DeadlineAware, est: CostEstimate)
    requires
        policy.lambda.is_finite(),
    ensures
        crate::binary64::order::alike(
            policy.score_of(est, F64::zero()),
            RiskAware { mu: policy.mu }.score_of(est),
        ),
{
    let none = policy.lambda.times(F64::zero());
    crate::binary64::order::zero_of_anything_is_zero(policy.lambda, F64::zero());
    crate::binary64::order::zero_adds_nothing(est.expected_ms, none);
    crate::binary64::order::plus_keeps_likeness(
        est.expected_ms.plus(none),
        est.expected_ms,
        policy.mu.times(crate::prediction::deadline::spread(est)),
    );
}

/// Without a deadline ahead its weight counts for nothing: the deadline-aware policy chooses as
/// the risk-aware one does, even where the estimates have probabilities of a miss.
pub proof fn without_a_deadline_only_risk_counts(
    policy: DeadlineAware,
    ctx: DecisionContext,
    pred: ActionPredictions,
)
    requires
        ctx.deadline is None,
        policy.lambda.is_finite(),
    ensures
        policy.picks(ctx, pred) == (RiskAware { mu: policy.mu }).picks(ctx, pred),
{
    let risk = RiskAware { mu: policy.mu };
    lemma_no_miss(policy, pred.move_est);
    lemma_no_miss(policy, pred.recompute_est);
    lemma_no_miss(policy, pred.remote_est);
    lemma_alike_scores(
        policy.score_of(pred.move_est, F64::zero()),
        policy.score_of(pred.recompute_est, F64::zero()),
        policy.score_of(pred.remote_est, F64::zero()),
        risk.score_of(pred.move_est),
        risk.score_of(pred.recompute_est),
        risk.score_of(pred.remote_est),
    );
}

proof fn lemma_no_risk(policy: RiskAware, est: CostEstimate)
    requires
        policy.mu.magnitude() == 0,
        crate::prediction::deadline::spread(est).is_finite(),
    ensures
        crate::binary64::order::alike(policy.score_of(est), est.expected_ms),
{
    let u = crate::prediction::deadline::spread(est);
    crate::binary64::order::zero_of_anything_is_zero(u, policy.mu);
    crate::binary64::order::zero_adds_nothing(est.expected_ms, policy.mu.times(u));
}

/// A risk-aware policy that gives the spread no weight chooses by the expected cost, as long as
/// the spreads are finite.
pub proof fn without_weight_only_cost_counts(
    policy: RiskAware,
    ctx: DecisionContext,
    pred: ActionPredictions,
)
    requires
        policy.mu.magnitude() == 0,
        crate::prediction::deadline::spread(pred.move_est).is_finite(),
        crate::prediction::deadline::spread(pred.recompute_est).is_finite(),
        crate::prediction::deadline::spread(pred.remote_est).is_finite(),
    ensures
        policy.picks(ctx, pred) == ExpectedCost.picks(ctx, pred),
{
    lemma_no_risk(policy, pred.move_est);
    lemma_no_risk(policy, pred.recompute_est);
    lemma_no_risk(policy, pred.remote_est);
    lemma_alike_scores(
        policy.score_of(pred.move_est),
        policy.score_of(pred.recompute_est),
        policy.score_of(pred.remote_est),
        pred.move_est.expected_ms,
        pred.recompute_est.expected_ms,
        pred.remote_est.expected_ms,
    );
}

/// By expected cost the action that is expected to finish first is taken, and the first of
/// several: moving, recomputing, recomputing remotely.
pub proof fn the_fastest_is_expected_cost(ctx: DecisionContext, pred: ActionPredictions)
    ensures
        ({
            let by_move = pred.move_est.expected_ms;
            let here = pred.recompute_est.expected_ms;
            let there = pred.remote_est.expected_ms;
            match ExpectedCost.picks(ctx, pred) {
                Action::Move => !here.less(by_move) && !there.less(by_move),
                Action::Recompute => here.less(by_move) && !there.less(here),
                Action::RemoteRecompute => if here.less(by_move) {
                    there.less(here)
                } else {
                    there.less(by_move)
                },
            }
        }),
{
}

/// Spread weighs like time: the risk-aware policy chooses as if each action took `mu` times the
/// way from its median to its 90th percentile longer, and its spread did not matter.
pub proof fn spread_weighs_like_time(
    policy: RiskAware,
    ctx: DecisionContext,
    pred: ActionPredictions,
    longer: ActionPredictions,
)
    requires
        ({
            let moved = pred.move_est;
            let here = pred.recompute_est;
            let there = pred.remote_est;
            let none = F64::zero();
            &&& longer.move_est.expected_ms == moved.expected_ms.plus(
                policy.mu.times(moved.p90_ms.minus(moved.p50_ms).max(none)),
            )
            &&& longer.recompute_est.expected_ms == here.expected_ms.plus(
                policy.mu.times(here.p90_ms.minus(here.p50_ms).max(none)),
            )
            &&& longer.remote_est.expected_ms == there.expected_ms.plus(
                policy.mu.times(there.p90_ms.minus(there.p50_ms).max(none)),
            )
        }),
    ensures
        policy.picks(ctx, pred) == ExpectedCost.picks(ctx, longer),
{
}

/// A probable miss weighs like time: with a deadline ahead the deadline-aware policy chooses as
/// the risk-aware one would if each action took `lambda` times its probability of a miss longer.
pub proof fn misses_weigh_like_time(
    policy: DeadlineAware,
    ctx: DecisionContext,
    pred: ActionPredictions,
    longer: ActionPredictions,
)
    requires
        ctx.deadline is Some,
        pred.move_est.deadline_probability is Some,
        pred.recompute_est.deadline_probability is Some,
        pred.remote_est.deadline_probability is Some,
        longer.move_est == (CostEstimate {
            expected_ms: pred.move_est.expected_ms.plus(
                policy.lambda.times(pred.move_est.deadline_probability->0),
            ),
            ..pred.move_est
        }),
        longer.recompute_est == (CostEstimate {
            expected_ms: pred.recompute_est.expected_ms.plus(
                policy.lambda.times(pred.recompute_est.deadline_probability->0),
            ),
            ..pred.recompute_est
        }),
        longer.remote_est == (CostEstimate {
            expected_ms: pred.remote_est.expected_ms.plus(
                policy.lambda.times(pred.remote_est.deadline_probability->0),
            ),
            ..pred.remote_est
        }),
    ensures
        policy.picks(ctx, pred) == (RiskAware { mu: policy.mu }).picks(ctx, longer),
{
}

/// Estimates that have no probability of a miss count with the one that the deadline ahead gives
/// them, and the others with their own.
pub proof fn unknown_misses_are_estimated(
    policy: DeadlineAware,
    ctx: DecisionContext,
    pred: ActionPredictions,
)
    requires
        ctx.deadline is Some,
    ensures
        ({
            let d = ctx.deadline->0;
            let told = |e: CostEstimate, v: Elementary|
                CostEstimate {
                    deadline_probability: match e.deadline_probability {
                        Some(p) => Some(p),
                        None => Some(
                            crate::prediction::deadline::miss_probability(e, d.remaining_ms, v),
                        ),
                    },
                    ..e
                };
            policy.picks(ctx, pred) == policy.picks(
                ctx,
                ActionPredictions {
                    move_est: told(pred.move_est, d.values.move_values),
                    recompute_est: told(pred.recompute_est, d.values.recompute_values),
                    remote_est: told(pred.remote_est, d.values.remote_values),
                },
            )
        }),
{
}

/// Where the spread has no weight, the score of an estimate compares alike with its expected time
/// and `lambda` times its probability of a miss, whatever that is.
pub proof fn every_chance_of_a_miss_counts(policy: DeadlineAware, est: CostEstimate, miss: F64)
    requires
        policy.mu.magnitude() == 0,
        crate::prediction::deadline::spread(est).is_finite(),
    ensures
        crate::binary64::order::alike(
            policy.score_of(est, miss),
            est.expected_ms.plus(policy.lambda.times(miss)),
        ),
{
    let u = crate::prediction::deadline::spread(est);
    crate::binary64::order::zero_of_anything_is_zero(u, policy.mu);
    crate::binary64::order::zero_adds_nothing(
        est.expected_ms.plus(policy.lambda.times(miss)),
        policy.mu.times(u),
    );
}

/// A safe recompute is preferred to a move exactly when the move, with `lambda` times its chance
/// of a miss, is expected to take longer, where there is no remote node and the spread has no
/// weight.
pub proof fn risky_moves_lose_to_safe_recomputes(
    policy: DeadlineAware,
    ctx: DecisionContext,
    pred: ActionPredictions,
    chance: F64,
)
    requires
        policy.mu.magnitude() == 0,
        policy.lambda.is_finite(),
        ctx.deadline is Some,
        pred.move_est.deadline_probability == Some(chance),
        pred.recompute_est.deadline_probability == Some(F64::zero()),
        pred.remote_est.expected_ms == F64::infinity(),
        crate::prediction::deadline::spread(pred.move_est).is_finite(),
        crate::prediction::deadline::spread(pred.recompute_est).is_finite(),
    ensures
        policy.picks(ctx, pred) == if pred.recompute_est.expected_ms.less(
            pred.move_est.expected_ms.plus(policy.lambda.times(chance)),
        ) {
            Action::Recompute
        } else {
            Action::Move
        },
{
    let values = ctx.deadline->0.values;
    every_chance_of_a_miss_counts(policy, pred.move_est, chance);
    every_chance_of_a_miss_counts(policy, pred.recompute_est, F64::zero());
    crate::binary64::order::zero_of_anything_is_zero(policy.lambda, F64::zero());
    crate::binary64::order::zero_adds_nothing(
        pred.recompute_est.expected_ms,
        policy.lambda.times(F64::zero()),
    );
    infinite_remote_is_never_chosen(ctx, pred, RiskAware { mu: policy.mu }, policy);
    let there = policy.score_in(ctx, pred.remote_est, values.remote_values);
    let miss = miss_of(ctx.deadline, pred.remote_est, values.remote_values);
    lemma_infinite_sum(policy.lambda.times(miss));
    lemma_nan_sum(
        pred.remote_est.expected_ms.plus(policy.lambda.times(miss)),
        policy.mu.times(crate::prediction::deadline::spread(pred.remote_est)),
    );
}

} // verus!
