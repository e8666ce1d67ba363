//! The benchmark studies: which policies and predictors they compare, and the tally of what the
//! decisions came to.
use vstd::prelude::*;
use vstd::string::*;

use crate::binary64::F64;
use crate::decision::action::Action;
use crate::decision::policy::{
    AlwaysMove, AlwaysRecompute, DeadlineAware, DecisionContext, ExpectedCost, Policy, RiskAware,
};
use crate::decision::run::DecisionOutcome;
use crate::error::{Error, Result};
use crate::object::ObjectSpec;
use crate::observation::ObservationStore;
use crate::prediction::cost::{
    ActionPredictions, CurrentStateCostModel, CurrentStatePredictor, Predictor,
};
use crate::prediction::historical::HistoricalPredictor;
use crate::prediction::regression::OnlineRegressionPredictor;
use crate::resource::ResourceState;
use crate::text::same_text;

verus! {

/// A study.
#[derive(Debug, Clone, Copy, PartialEq, Eq, Structural)]
pub enum Study {
    /// The fixed policies.
    Baseline,
    /// History against the present state.
    History,
    /// Deadlines and risk.
    Deadline,
    /// Giving up a path that is about to be late.
    Replanning,
    /// Online regression.
    Regression,
    /// A remote node as a third way.
    Remote,
    /// The whole loop under a simulated GPU load.
    Demo,
}

/// A policy that a study can use.
#[derive(Debug, Clone, Copy, PartialEq, Eq, Structural)]
pub enum PolicyKind {
    AlwaysMove,
    AlwaysRecompute,
    ExpectedCost,
    RiskAware,
    DeadlineAware,
}

/// A predictor that a study can use.
#[derive(Debug, Clone, Copy, PartialEq, Eq, Structural)]
pub enum PredictorKind {
    CurrentState,
    Historical,
    Regression,
}

/// The policy that a study knows under `name`, and the predictor that goes with it.
pub open spec fn setup_of(study: Study, name: Seq<char>) -> Option<(PolicyKind, PredictorKind)> {
    let fixed = study != Study::Remote && study != Study::Demo;
    if name == "always_move"@ && fixed {
        Some((PolicyKind::AlwaysMove, PredictorKind::CurrentState))
    } else if name == "always_recompute"@ && fixed {
        Some((PolicyKind::AlwaysRecompute, PredictorKind::CurrentState))
    } else if name == "expected_cost"@ && study != Study::Baseline {
        Some((PolicyKind::ExpectedCost, PredictorKind::CurrentState))
    } else if name == "historical_cost"@ && (study == Study::History || study
        == Study::Regression) {
        Some((PolicyKind::ExpectedCost, PredictorKind::Historical))
    } else if name == "regression_cost"@ && study == Study::Regression {
        Some((PolicyKind::ExpectedCost, PredictorKind::Regression))
    } else if name == "risk_aware"@ && study == Study::Deadline {
        Some((PolicyKind::RiskAware, PredictorKind::Historical))
    } else if name == "deadline_aware"@ && (study == Study::Deadline || study
        == Study::Replanning) {
        Some((PolicyKind::DeadlineAware, PredictorKind::Historical))
    } else if name == "deadline_aware"@ && (study == Study::Remote || study == Study::Demo) {
        Some((PolicyKind::DeadlineAware, PredictorKind::CurrentState))
    } else {
        None
    }
}

/// The policy that a study knows under `name`, and the predictor that goes with it; an unknown
/// name is an error.
pub fn setup(study: Study, name: &str) -> (r: Result<(PolicyKind, PredictorKind)>)
    ensures
        match (setup_of(study, name@), r) {
            (Some(kinds), Ok(k)) => k == kinds,
            (None, Err(e)) => e matches Error::Invalid(m) && m@ == "unknown policy: "@ + name@,
            _ => false,
        },
{
    let fixed = match study {
        Study::Remote | Study::Demo => false,
        _ => true,
    };
    if same_text(name, "always_move") && fixed {
        return Ok((PolicyKind::AlwaysMove, PredictorKind::CurrentState));
    }
    if same_text(name, "always_recompute") && fixed {
        return Ok((PolicyKind::AlwaysRecompute, PredictorKind::CurrentState));
    }
    if same_text(name, "expected_cost") && study != Study::Baseline {
        return Ok((PolicyKind::ExpectedCost, PredictorKind::CurrentState));
    }
    if same_text(name, "historical_cost") && (study == Study::History || study
        == Study::Regression) {
        return Ok((PolicyKind::ExpectedCost, PredictorKind::Historical));
    }
    if same_text(name, "regression_cost") && study == Study::Regression {
        return Ok((PolicyKind::ExpectedCost, PredictorKind::Regression));
    }
    if same_text(name, "risk_aware") && study == Study::Deadline {
        return Ok((PolicyKind::RiskAware, PredictorKind::Historical));
    }
    if same_text(name, "deadline_aware") {
        match study {
            Study::Deadline | Study::Replanning => {
                return Ok((PolicyKind::DeadlineAware, PredictorKind::Historical));
            },
            Study::Remote | Study::Demo => {
                return Ok((PolicyKind::DeadlineAware, PredictorKind::CurrentState));
            },
            _ => {},
        }
    }
    let mut m = "unknown policy: ".to_owned();
    m.append(name);
    Err(Error::Invalid(m))
}

/// Any policy of the studies.
pub enum AnyPolicy {
    Move(AlwaysMove),
    Recompute(AlwaysRecompute),
    Cost(ExpectedCost),
    Risk(RiskAware),
    Deadline(DeadlineAware),
}

impl AnyPolicy {
    /// The policy of a kind, with its weights.
    pub fn of(kind: PolicyKind, lambda: F64, mu: F64) -> (p: Self)
        ensures
            match kind {
                PolicyKind::AlwaysMove => p is Move,
                PolicyKind::AlwaysRecompute => p is Recompute,
                PolicyKind::ExpectedCost => p is Cost,
                PolicyKind::RiskAware => p matches AnyPolicy::Risk(r) && r.mu == mu,
                PolicyKind::DeadlineAware => p matches AnyPolicy::Deadline(d) && d.lambda == lambda
                    && d.mu == mu,
            },
    {
        match kind {
            PolicyKind::AlwaysMove => AnyPolicy::Move(AlwaysMove),
            PolicyKind::AlwaysRecompute => AnyPolicy::Recompute(AlwaysRecompute),
            PolicyKind::ExpectedCost => AnyPolicy::Cost(ExpectedCost),
            PolicyKind::RiskAware => AnyPolicy::Risk(RiskAware { mu }),
            PolicyKind::DeadlineAware => AnyPolicy::Deadline(DeadlineAware { lambda, mu }),
        }
    }
}

impl Policy for AnyPolicy {
    open spec fn label(&self) -> Seq<char> {
        match self {
            AnyPolicy::Move(p) => p.label(),
            AnyPolicy::Recompute(p) => p.label(),
            AnyPolicy::Cost(p) => p.label(),
            AnyPolicy::Risk(p) => p.label(),
            AnyPolicy::Deadline(p) => p.label(),
        }
    }

    open spec fn picks(&self, ctx: DecisionContext, pred: ActionPredictions) -> Action {
        match self {
            AnyPolicy::Move(p) => p.picks(ctx, pred),
            AnyPolicy::Recompute(p) => p.picks(ctx, pred),
            AnyPolicy::Cost(p) => p.picks(ctx, pred),
            AnyPolicy::Risk(p) => p.picks(ctx, pred),
            AnyPolicy::Deadline(p) => p.picks(ctx, pred),
        }
    }

    fn name(&self) -> (s: &'static str) {
        match self {
            AnyPolicy::Move(p) => p.name(),
            AnyPolicy::Recompute(p) => p.name(),
            AnyPolicy::Cost(p) => p.name(),
            AnyPolicy::Risk(p) => p.name(),
            AnyPolicy::Deadline(p) => p.name(),
        }
    }

    fn choose_action(&self, ctx: &DecisionContext, pred: &ActionPredictions) -> (a: Action) {
        match self {
            AnyPolicy::Move(p) => p.choose_action(ctx, pred),
            AnyPolicy::Recompute(p) => p.choose_action(ctx, pred),
            AnyPolicy::Cost(p) => p.choose_action(ctx, pred),
            AnyPolicy::Risk(p) => p.choose_action(ctx, pred),
            AnyPolicy::Deadline(p) => p.choose_action(ctx, pred),
        }
    }
}

/// Any predictor of the studies.
pub enum AnyPredictor {
    CurrentState(CurrentStatePredictor),
    Historical(HistoricalPredictor),
    Regression(OnlineRegressionPredictor),
}

impl AnyPredictor {
    /// The predictor of a kind, on a cost model.
    pub fn of(kind: PredictorKind, model: CurrentStateCostModel) -> (p: Self)
        ensures
            match kind {
                PredictorKind::CurrentState => p matches AnyPredictor::CurrentState(c) && c.model
                    == model,
                PredictorKind::Historical => p matches AnyPredictor::Historical(h) && h.model
                    == model && h.history_k == (F64 { bits: 0x4034_0000_0000_0000 })
                    && h.history_weight_max == (F64 { bits: 0x3FEE_6666_6666_6666 }),
                PredictorKind::Regression => p matches AnyPredictor::Regression(r) && r.model
                    == model && r.min_samples == 5 && r.move_reg@
                    == crate::prediction::regression::RegressionView::fresh() && r.recompute_reg@
                    == crate::prediction::regression::RegressionView::fresh() && r.remote_reg@
                    == crate::prediction::regression::RegressionView::fresh(),
            },
    {
        match kind {
            PredictorKind::CurrentState => AnyPredictor::CurrentState(
                CurrentStatePredictor { model },
            ),
            PredictorKind::Historical => AnyPredictor::Historical(HistoricalPredictor::new(model)),
            PredictorKind::Regression => AnyPredictor::Regression(
                OnlineRegressionPredictor::new(model),
            ),
        }
    }
}

impl Predictor for AnyPredictor {
    open spec fn predicts(
        &self,
        rows: Map<Seq<char>, Seq<u8>>,
        object: ObjectSpec,
        state: ResourceState,
        r: ActionPredictions,
    ) -> bool {
        match self {
            AnyPredictor::CurrentState(p) => p.predicts(rows, object, state, r),
            AnyPredictor::Historical(p) => p.predicts(rows, object, state, r),
            AnyPredictor::Regression(p) => p.predicts(rows, object, state, r),
        }
    }

    open spec fn learns(
        before: Self,
        action: Seq<char>,
        state: ResourceState,
        actual_ms: F64,
        after: Self,
    ) -> bool {
        match (before, after) {
            (AnyPredictor::CurrentState(p), AnyPredictor::CurrentState(q)) => {
                CurrentStatePredictor::learns(p, action, state, actual_ms, q)
            },
            (AnyPredictor::Historical(p), AnyPredictor::Historical(q)) => {
                HistoricalPredictor::learns(p, action, state, actual_ms, q)
            },
            (AnyPredictor::Regression(p), AnyPredictor::Regression(q)) => {
                OnlineRegressionPredictor::learns(p, action, state, actual_ms, q)
            },
            _ => false,
        }
    }

    fn predict(&self, store: &ObservationStore, object: &ObjectSpec, state: &ResourceState) -> (r:
        ActionPredictions) {
        match self {
            AnyPredictor::CurrentState(p) => p.predict(store, object, state),
            AnyPredictor::Historical(p) => p.predict(store, object, state),
            AnyPredictor::Regression(p) => p.predict(store, object, state),
        }
    }

    fn update(&mut self, action: &str, object: &ObjectSpec, state: &ResourceState, actual_ms: F64) {
        match self {
            AnyPredictor::CurrentState(p) => p.update(action, object, state, actual_ms),
            AnyPredictor::Historical(p) => p.update(action, object, state, actual_ms),
            AnyPredictor::Regression(p) => p.update(action, object, state, actual_ms),
        }
    }
}

/// The tally of some outcomes.
pub struct Tally {
    pub moves: u64,
    pub recomputes: u64,
    pub remotes: u64,
    /// Deadlines met.
    pub met: u64,
    pub fallbacks: u64,
    /// What each decision took, in ms.
    pub actuals: Vec<F64>,
    /// Its regret, zero where it is unknown.
    pub regrets: Vec<F64>,
    /// Its prediction error, zero where it is unknown.
    pub errors: Vec<F64>,
    /// Its time lost.
    pub wasted: Vec<F64>,
}

/// `x`, or zero.
pub open spec fn or_zero(x: Option<F64>) -> F64 {
    match x {
        Some(v) => v,
        None => F64::zero(),
    }
}

/// How many of the outcomes satisfy `f`.
pub open spec fn count(outcomes: Seq<DecisionOutcome>, f: spec_fn(DecisionOutcome) -> bool) -> nat {
    outcomes.filter(f).len()
}

impl Tally {
    /// The tally is that of `outcomes`.
    pub open spec fn of(self, outcomes: Seq<DecisionOutcome>) -> bool {
        &&& self.moves == count(outcomes, |o: DecisionOutcome| o.action == Action::Move)
        &&& self.recomputes == count(outcomes, |o: DecisionOutcome| o.action == Action::Recompute)
        &&& self.remotes == count(
            outcomes,
            |o: DecisionOutcome| o.action == Action::RemoteRecompute,
        )
        &&& self.met == count(outcomes, |o: DecisionOutcome| o.deadline_met)
        &&& self.fallbacks == count(outcomes, |o: DecisionOutcome| o.fallback_used)
        &&& self.actuals@ == outcomes.map_values(|o: DecisionOutcome| o.actual_ms)
        &&& self.regrets@ == outcomes.map_values(|o: DecisionOutcome| or_zero(o.regret_ms))
        &&& self.errors@ == outcomes.map_values(|o: DecisionOutcome| or_zero(o.prediction_error_ms))
        &&& self.wasted@ == outcomes.map_values(|o: DecisionOutcome| o.wasted_ms)
    }

    pub fn new() -> (t: Self)
        ensures
            t.of(Seq::empty()),
    {
        let t = Tally {
            moves: 0,
            recomputes: 0,
            remotes: 0,
            met: 0,
            fallbacks: 0,
            actuals: Vec::new(),
            regrets: Vec::new(),
            errors: Vec::new(),
            wasted: Vec::new(),
        };
        proof {
            let s = Seq::<DecisionOutcome>::empty();
            reveal(Seq::filter);
            assert(t.actuals@ =~= s.map_values(|o: DecisionOutcome| o.actual_ms));
            assert(t.regrets@ =~= s.map_values(|o: DecisionOutcome| or_zero(o.regret_ms)));
            assert(t.errors@ =~= s.map_values(|o: DecisionOutcome| or_zero(o.prediction_error_ms)));
            assert(t.wasted@ =~= s.map_values(|o: DecisionOutcome| o.wasted_ms));
        }
        t
    }

    /// Counts one more outcome in.
    pub fn count_in(&mut self, o: DecisionOutcome)
        requires
            old(self).moves < u64::MAX,
            old(self).recomputes < u64::MAX,
            old(self).remotes < u64::MAX,
            old(self).met < u64::MAX,
            old(self).fallbacks < u64::MAX,
        ensures
            forall|outcomes: Seq<DecisionOutcome>| #[trigger]
                old(self).of(outcomes) ==> final(self).of(outcomes.push(o)),
    {
        match o.action {
            Action::Move => {
                self.moves = self.moves + 1;
            },
            Action::Recompute => {
                self.recomputes = self.recomputes + 1;
            },
            Action::RemoteRecompute => {
                self.remotes = self.remotes + 1;
            },
        }
        if o.deadline_met {
            self.met = self.met + 1;
        }
        if o.fallback_used {
            self.fallbacks = self.fallbacks + 1;
        }
        self.actuals.push(o.actual_ms);
        self.regrets.push(value_or_zero(o.regret_ms));
        self.errors.push(value_or_zero(o.prediction_error_ms));
        self.wasted.push(o.wasted_ms);
        proof {
            assert forall|outcomes: Seq<DecisionOutcome>| #[trigger]
                old(self).of(outcomes) implies self.of(outcomes.push(o)) by {
                let more = outcomes.push(o);
                reveal(Seq::filter);
                assert(more.drop_last() =~= outcomes);
                assert(self.actuals@ =~= more.map_values(|o: DecisionOutcome| o.actual_ms));
                assert(self.regrets@ =~= more.map_values(|o: DecisionOutcome| or_zero(o.regret_ms)));
                assert(self.errors@ =~= more.map_values(
                    |o: DecisionOutcome| or_zero(o.prediction_error_ms),
                ));
                assert(self.wasted@ =~= more.map_values(|o: DecisionOutcome| o.wasted_ms));
            }
        }
    }
}

fn value_or_zero(x: Option<F64>) -> (r: F64)
    ensures
        r == or_zero(x),
{
    match x {
        Some(v) => v,
        None => F64::zero(),
    }
}

/// A name means one policy in every study that knows it, and none in the others.
pub proof fn names_mean_one_policy(a: Study, b: Study, name: Seq<char>)
    ensures
        setup_of(a, name) matches Some(x) ==> (setup_of(b, name) matches Some(y) ==> x.0 == y.0),
{
    reveal_strlit("always_move");
    reveal_strlit("always_recompute");
    reveal_strlit("expected_cost");
    reveal_strlit("historical_cost");
    reveal_strlit("regression_cost");
    reveal_strlit("risk_aware");
    reveal_strlit("deadline_aware");
    assert("always_move"@.len() == 11);
    assert("always_recompute"@.len() == 16);
    assert("expected_cost"@.len() == 13);
    assert("historical_cost"@.len() == 15);
    assert("regression_cost"@.len() == 15);
    assert("historical_cost"@[0] == 'h');
    assert("regression_cost"@[0] == 'r');
    assert("risk_aware"@.len() == 10);
    assert("deadline_aware"@.len() == 14);
}

/// Any policy chooses as the policy that it holds.
pub proof fn any_policy_chooses_as_its_own(
    lambda: F64,
    mu: F64,
    ctx: DecisionContext,
    pred: ActionPredictions,
)
    ensures
        AnyPolicy::Move(AlwaysMove).picks(ctx, pred) == Action::Move,
        AnyPolicy::Recompute(AlwaysRecompute).picks(ctx, pred) == Action::Recompute,
        AnyPolicy::Cost(ExpectedCost).picks(ctx, pred) == ExpectedCost.picks(ctx, pred),
        AnyPolicy::Risk(RiskAware { mu }).picks(ctx, pred) == (RiskAware { mu }).picks(ctx, pred),
        AnyPolicy::Deadline(DeadlineAware { lambda, mu }).picks(ctx, pred) == (DeadlineAware {
            lambda,
            mu,
        }).picks(ctx, pred),
{
}

/// A tally counts every outcome under one action, and never more met deadlines or fallbacks than
/// outcomes.
pub proof fn tallies_count_every_outcome(tally: Tally, outcomes: Seq<DecisionOutcome>)
    requires
        tally.of(outcomes),
    ensures
        tally.moves + tally.recomputes + tally.remotes == outcomes.len(),
        tally.met <= outcomes.len(),
        tally.fallbacks <= outcomes.len(),
        tally.actuals@.len() == outcomes.len(),
        tally.regrets@.len() == outcomes.len(),
        tally.errors@.len() == outcomes.len(),
        tally.wasted@.len() == outcomes.len(),
        forall|i: int|
            0 <= i < outcomes.len() ==> #[trigger] tally.actuals@[i] == outcomes[i].actual_ms,
        forall|i: int|
            0 <= i < outcomes.len() ==> #[trigger] tally.wasted@[i] == outcomes[i].wasted_ms,
        forall|i: int|
            0 <= i < outcomes.len() ==> #[trigger] tally.regrets@[i] == match outcomes[i].regret_ms {
                Some(r) => r,
                None => F64::zero(),
            },
        forall|i: int|
            0 <= i < outcomes.len() ==> #[trigger] tally.errors@[i]
                == match outcomes[i].prediction_error_ms {
                Some(e) => e,
                None => F64::zero(),
            },
{
    lemma_counts(outcomes);
}

proof fn lemma_counts(outcomes: Seq<DecisionOutcome>)
    ensures
        count(outcomes, |o: DecisionOutcome| o.action == Action::Move) + count(
            outcomes,
            |o: DecisionOutcome| o.action == Action::Recompute,
        ) + count(outcomes, |o: DecisionOutcome| o.action == Action::RemoteRecompute)
            == outcomes.len(),
        count(outcomes, |o: DecisionOutcome| o.deadline_met) <= outcomes.len(),
        count(outcomes, |o: DecisionOutcome| o.fallback_used) <= outcomes.len(),
    decreases outcomes.len(),
{
    reveal(Seq::filter);
    if outcomes.len() > 0 {
        lemma_counts(outcomes.drop_last());
    }
}

/// Which predictor goes with a policy: the fixed ones look at none, expected cost goes with the
/// one that its name says, and those that weigh risk go with history where a study has any.
pub proof fn policies_have_their_predictors(study: Study, kind: PolicyKind, name: Seq<char>)
    requires
        setup_of(study, name) matches Some(k) && k.0 == kind,
    ensures
        ({
            let predictor = (setup_of(study, name)->0).1;
            match kind {
                PolicyKind::AlwaysMove => name == "always_move"@ && predictor
                    == PredictorKind::CurrentState,
                PolicyKind::AlwaysRecompute => name == "always_recompute"@ && predictor
                    == PredictorKind::CurrentState,
                PolicyKind::ExpectedCost => name == match predictor {
                    PredictorKind::CurrentState => "expected_cost"@,
                    PredictorKind::Historical => "historical_cost"@,
                    PredictorKind::Regression => "regression_cost"@,
                },
                PolicyKind::RiskAware => name == "risk_aware"@ && predictor
                    == PredictorKind::Historical,
                PolicyKind::DeadlineAware => name == "deadline_aware"@ && predictor == if study
                    == Study::Remote || study == Study::Demo {
                    PredictorKind::CurrentState
                } else {
                    PredictorKind::Historical
                },
            }
        }),
{
}

} // verus!
