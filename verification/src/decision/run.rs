//! One decision on its way: which execution comes next, what its measurement teaches, and when
//! the decision is done.
use vstd::prelude::*;

use crate::binary64::F64;
use crate::decision::action::Action;
use crate::executor::report::Span;
use crate::object::ObjectSpec;
use crate::prediction::cost::ActionPredictions;
use crate::resource::ResourceState;

verus! {

/// How a decision is carried out.
#[derive(Debug, Clone, Copy, PartialEq, Eq, Structural)]
pub enum Mode {
    /// The chosen action alone is executed.
    Plain,
    /// The alternatives are executed too, after the chosen action, to know the regret.
    Measured,
    /// The chosen action is watched, and swapped for an alternative if it is about to be late.
    Guarded,
}

/// Where a decision stands.
#[derive(Debug, Clone, Copy, PartialEq, Eq, Structural)]
pub enum Stage {
    /// The chosen action is to be executed.
    Chosen,
    /// An alternative is to be executed, for its time.
    Alternative { chosen_ms: F64, chosen_met: bool, least_ms: F64, second: bool },
    /// The chosen action was given up, and `action` is to be executed instead.
    Fallback { wasted_ms: F64, action: Action },
}

/// A decision on its way.
#[derive(Debug, Clone, Copy)]
pub struct DecisionRun {
    pub mode: Mode,
    pub object: ObjectSpec,
    pub resource: ResourceState,
    pub deadline_remaining_ms: Option<F64>,
    pub pred: ActionPredictions,
    /// The chosen action.
    pub action: Action,
    /// There is a remote executor.
    pub remote: bool,
    pub stage: Stage,
}

/// What an execution came to.
#[derive(Debug, Clone, Copy)]
pub struct Measurement {
    pub ms: F64,
    pub deadline_met: bool,
    pub aborted: bool,
}

/// What an execution teaches of its action.
#[derive(Debug, Clone, Copy, PartialEq, Eq, Structural)]
pub struct Lesson {
    pub action: Action,
    pub ms: F64,
    /// Whether the deadline was met; `None` where the execution had none to meet.
    pub met: Option<bool>,
}

/// What a decision came to.
#[derive(Debug, Clone, Copy, PartialEq, Eq, Structural)]
pub struct DecisionOutcome {
    pub action: Action,
    pub actual_ms: F64,
    /// What the chosen action took beyond the fastest one; `None` when the others were not
    /// measured.
    pub regret_ms: Option<F64>,
    pub deadline_met: bool,
    /// What the chosen action took beyond what was expected of it.
    pub prediction_error_ms: Option<F64>,
    /// The chosen action was given up, and an alternative executed.
    pub fallback_used: bool,
    /// The time lost on the action that was given up, in ms.
    pub wasted_ms: F64,
}

/// What follows a measurement.
#[derive(Debug, Clone, Copy)]
pub enum Next {
    Execute(DecisionRun),
    Done(DecisionOutcome),
}

/// What a measurement leads to: up to two lessons, in their order, and what follows.
#[derive(Debug, Clone, Copy)]
pub struct Advance {
    pub first: Option<Lesson>,
    pub second: Option<Lesson>,
    pub next: Next,
}

/// The alternative to fall back on: of those that have an executor, the one expected to be the
/// fastest, and the first of equal ones.
pub open spec fn fallback_for(action: Action, pred: ActionPredictions, remote: bool) -> Action {
    let a = action.first_other();
    let b = action.second_other();
    if (b != Action::RemoteRecompute || remote) && b.estimate_in(pred).expected_ms.total_before(
        a.estimate_in(pred).expected_ms,
    ) {
        b
    } else {
        a
    }
}

/// A path that has come to `fraction` in `elapsed_ms` is to be given up for an alternative that
/// is expected to take `alt_ms`, with the deadline `deadline_ms` after the start: at its pace it
/// would end after the deadline, and the alternative would not, begun now.
pub open spec fn gives_up(
    elapsed_ms: F64,
    fraction: F64,
    deadline_ms: Option<F64>,
    alt_ms: F64,
) -> bool {
    deadline_ms matches Some(d) && {
        &&& F64::zero().less(fraction)
        &&& d.less(elapsed_ms.over(fraction))
        &&& alt_ms.less(d.minus(elapsed_ms))
    }
}

impl DecisionRun {
    /// The outcome of a decision whose chosen action was executed to its end.
    pub open spec fn finished(self, ms: F64, met: bool, regret_ms: Option<F64>) -> DecisionOutcome {
        DecisionOutcome {
            action: self.action,
            actual_ms: ms,
            regret_ms,
            deadline_met: met,
            prediction_error_ms: Some(ms.minus(self.action.estimate_in(self.pred).expected_ms)),
            fallback_used: false,
            wasted_ms: F64::zero(),
        }
    }

    /// The action to execute now.
    pub open spec fn current_action(self) -> Action {
        match self.stage {
            Stage::Chosen => self.action,
            Stage::Alternative { second, .. } => if second {
                self.action.second_other()
            } else {
                self.action.first_other()
            },
            Stage::Fallback { action, .. } => action,
        }
    }

    /// The time until the deadline of the execution to come: none for an alternative, and what
    /// the given-up action has left of it for the one in its place.
    pub open spec fn current_deadline(self) -> Option<F64> {
        match self.stage {
            Stage::Chosen => self.deadline_remaining_ms,
            Stage::Alternative { .. } => None,
            Stage::Fallback { wasted_ms, .. } => match self.deadline_remaining_ms {
                Some(d) => Some(d.minus(wasted_ms).max(F64::zero())),
                None => None,
            },
        }
    }

    /// The second alternative has an executor.
    pub open spec fn measures_second(self) -> bool {
        self.action.second_other() != Action::RemoteRecompute || self.remote
    }

    /// What the measurement `m` leads to.
    pub open spec fn after(self, m: Measurement) -> Advance {
        match self.stage {
            Stage::Chosen => if self.mode == Mode::Measured {
                Advance {
                    first: None,
                    second: None,
                    next: Next::Execute(
                        DecisionRun {
                            stage: Stage::Alternative {
                                chosen_ms: m.ms,
                                chosen_met: m.deadline_met,
                                least_ms: m.ms,
                                second: false,
                            },
                            ..self
                        },
                    ),
                }
            } else if self.mode == Mode::Guarded && m.aborted {
                Advance {
                    first: None,
                    second: None,
                    next: Next::Execute(
                        DecisionRun {
                            stage: Stage::Fallback {
                                wasted_ms: m.ms,
                                action: fallback_for(self.action, self.pred, self.remote),
                            },
                            ..self
                        },
                    ),
                }
            } else {
                Advance {
                    first: Some(
                        Lesson { action: self.action, ms: m.ms, met: Some(m.deadline_met) },
                    ),
                    second: None,
                    next: Next::Done(self.finished(m.ms, m.deadline_met, None)),
                }
            },
            Stage::Alternative { chosen_ms, chosen_met, least_ms, second } => {
                let least = least_ms.min(m.ms);
                let seen = Lesson { action: self.current_action(), ms: m.ms, met: None };
                if !second && self.measures_second() {
                    Advance {
                        first: Some(seen),
                        second: None,
                        next: Next::Execute(
                            DecisionRun {
                                stage: Stage::Alternative {
                                    chosen_ms,
                                    chosen_met,
                                    least_ms: least,
                                    second: true,
                                },
                                ..self
                            },
                        ),
                    }
                } else {
                    Advance {
                        first: Some(seen),
                        second: Some(
                            Lesson { action: self.action, ms: chosen_ms, met: Some(chosen_met) },
                        ),
                        next: Next::Done(
                            self.finished(chosen_ms, chosen_met, Some(chosen_ms.minus(least))),
                        ),
                    }
                }
            },
            Stage::Fallback { wasted_ms, action } => Advance {
                first: Some(Lesson { action, ms: m.ms, met: Some(m.deadline_met) }),
                second: None,
                next: Next::Done(
                    DecisionOutcome {
                        action: self.action,
                        actual_ms: wasted_ms.plus(m.ms),
                        regret_ms: None,
                        deadline_met: m.deadline_met,
                        prediction_error_ms: None,
                        fallback_used: true,
                        wasted_ms,
                    },
                ),
            },
        }
    }

    /// How many executions can still come.
    pub open spec fn executions_left(self) -> nat {
        match self.stage {
            Stage::Chosen => 3,
            Stage::Alternative { second, .. } => if second {
                1
            } else {
                2
            },
            Stage::Fallback { .. } => 1,
        }
    }

    /// The action to execute now.
    pub fn action_now(&self) -> (a: Action)
        ensures
            a == self.current_action(),
    {
        let others = self.action.alternatives();
        match self.stage {
            Stage::Chosen => self.action,
            Stage::Alternative { second, .. } => if second {
                others[1]
            } else {
                others[0]
            },
            Stage::Fallback { action, .. } => action,
        }
    }

    /// The time until the deadline of the execution to come, in ms.
    pub fn deadline_now(&self) -> (d: Option<F64>)
        ensures
            d == self.current_deadline(),
    {
        match self.stage {
            Stage::Chosen => self.deadline_remaining_ms,
            Stage::Alternative { .. } => None,
            Stage::Fallback { wasted_ms, .. } => match self.deadline_remaining_ms {
                Some(d) => Some(d.minus(wasted_ms).max(F64::zero())),
                None => None,
            },
        }
    }

    /// Whether the execution to come is to be watched, and given up when `should_abort` says so.
    pub fn watched(&self) -> (w: bool)
        ensures
            w == (self.mode == Mode::Guarded && self.stage == Stage::Chosen),
    {
        match (self.mode, self.stage) {
            (Mode::Guarded, Stage::Chosen) => true,
            _ => false,
        }
    }

    /// The alternative to fall back on.
    pub fn fallback(&self) -> (a: Action)
        ensures
            a == fallback_for(self.action, self.pred, self.remote),
    {
        let others = self.action.alternatives();
        let has_second = match others[1] {
            Action::RemoteRecompute => self.remote,
            _ => true,
        };
        if has_second && others[1].expected(&self.pred).total_before(
            others[0].expected(&self.pred),
        ) {
            others[1]
        } else {
            others[0]
        }
    }

    /// Whether the watched execution is to be given up: at its pace it would end too late, and
    /// the alternative is still expected to be in time.
    pub fn should_abort(&self, elapsed: Span, fraction_done: F64) -> (r: bool)
        ensures
            r == gives_up(
                elapsed.as_ms(),
                fraction_done,
                self.deadline_remaining_ms,
                fallback_for(self.action, self.pred, self.remote).estimate_in(
                    self.pred,
                ).expected_ms,
            ),
    {
        if !F64::zero().less(fraction_done) {
            return false;
        }
        let elapsed_ms = elapsed.as_ms();
        let est_finish_ms = elapsed_ms.over(fraction_done);
        match self.deadline_remaining_ms {
            Some(d) => {
                let remaining_now = d.minus(elapsed_ms);
                let alt_expected = self.fallback().expected(&self.pred);
                d.less(est_finish_ms) && alt_expected.less(remaining_now)
            },
            None => false,
        }
    }

    fn outcome(&self, ms: F64, met: bool, regret_ms: Option<F64>) -> (o: DecisionOutcome)
        ensures
            o == self.finished(ms, met, regret_ms),
    {
        DecisionOutcome {
            action: self.action,
            actual_ms: ms,
            regret_ms,
            deadline_met: met,
            prediction_error_ms: Some(ms.minus(self.action.expected(&self.pred))),
            fallback_used: false,
            wasted_ms: F64::zero(),
        }
    }

    fn at(&self, stage: Stage) -> (r: DecisionRun)
        ensures
            r == (DecisionRun { stage, ..*self }),
    {
        DecisionRun { stage, ..*self }
    }

    /// What the measurement `m` of the execution that was due leads to.
    pub fn advance(&self, m: Measurement) -> (r: Advance)
        ensures
            r == self.after(m),
    {
        match self.stage {
            Stage::Chosen => match self.mode {
                Mode::Measured => Advance {
                    first: None,
                    second: None,
                    next: Next::Execute(
                        self.at(
                            Stage::Alternative {
                                chosen_ms: m.ms,
                                chosen_met: m.deadline_met,
                                least_ms: m.ms,
                                second: false,
                            },
                        ),
                    ),
                },
                Mode::Guarded if m.aborted => Advance {
                    first: None,
                    second: None,
                    next: Next::Execute(
                        self.at(Stage::Fallback { wasted_ms: m.ms, action: self.fallback() }),
                    ),
                },
                _ => Advance {
                    first: Some(
                        Lesson { action: self.action, ms: m.ms, met: Some(m.deadline_met) },
                    ),
                    second: None,
                    next: Next::Done(self.outcome(m.ms, m.deadline_met, None)),
                },
            },
            Stage::Alternative { chosen_ms, chosen_met, least_ms, second } => {
                let least = least_ms.min(m.ms);
                let seen = Lesson { action: self.action_now(), ms: m.ms, met: None };
                let has_second = match self.action.alternatives()[1] {
                    Action::RemoteRecompute => self.remote,
                    _ => true,
                };
                if !second && has_second {
                    Advance {
                        first: Some(seen),
                        second: None,
                        next: Next::Execute(
                            self.at(
                                Stage::Alternative {
                                    chosen_ms,
                                    chosen_met,
                                    least_ms: least,
                                    second: true,
                                },
                            ),
                        ),
                    }
                } else {
                    Advance {
                        first: Some(seen),
                        second: Some(
                            Lesson { action: self.action, ms: chosen_ms, met: Some(chosen_met) },
                        ),
                        next: Next::Done(
                            self.outcome(chosen_ms, chosen_met, Some(chosen_ms.minus(least))),
                        ),
                    }
                }
            },
            Stage::Fallback { wasted_ms, action } => Advance {
                first: Some(Lesson { action, ms: m.ms, met: Some(m.deadline_met) }),
                second: None,
                next: Next::Done(
                    DecisionOutcome {
                        action: self.action,
                        actual_ms: wasted_ms.plus(m.ms),
                        regret_ms: None,
                        deadline_met: m.deadline_met,
                        prediction_error_ms: None,
                        fallback_used: true,
                        wasted_ms,
                    },
                ),
            },
        }
    }
}

/// Every decision comes to an end, after at most three executions.
pub proof fn decisions_come_to_an_end(run: DecisionRun, m: Measurement)
    ensures
        run.executions_left() <= 3,
        run.after(m).next matches Next::Execute(r) ==> r.executions_left() < run.executions_left(),
        run.executions_left() == 1 ==> run.after(m).next is Done,
{
}

/// Only a guarded decision whose chosen action was given up uses the fallback.
pub proof fn fallback_needs_an_abort(run: DecisionRun, m: Measurement)
    requires
        run.stage == Stage::Chosen,
    ensures
        (run.after(m).next matches Next::Execute(r) && r.stage is Fallback) <==> (run.mode
            == Mode::Guarded && m.aborted),
{
}

/// The fallback is never the action that was given up, and it has an executor.
pub proof fn fallback_is_another_action(action: Action, pred: ActionPredictions, remote: bool)
    ensures
        fallback_for(action, pred, remote) != action,
        fallback_for(action, pred, remote) == Action::RemoteRecompute ==> remote,
{
}

/// Without a deadline nothing is given up.
pub proof fn no_deadline_no_abort(elapsed_ms: F64, fraction: F64, alt_ms: F64)
    ensures
        !gives_up(elapsed_ms, fraction, None, alt_ms),
{
}

/// A path is given up only for an alternative that is expected to be in time.
pub proof fn aborts_leave_time(elapsed_ms: F64, fraction: F64, deadline_ms: F64, alt_ms: F64)
    requires
        gives_up(elapsed_ms, fraction, Some(deadline_ms), alt_ms),
    ensures
        alt_ms.less(deadline_ms.minus(elapsed_ms)),
{
}

/// The regret of a measured decision is never negative: the fastest of the measured actions, the
/// chosen one among them, did not take longer than the chosen one.
pub proof fn regret_is_not_negative(run: DecisionRun, m: Measurement)
    requires
        run.stage matches Stage::Alternative { chosen_ms, least_ms, .. } && chosen_ms.is_finite()
            && least_ms.is_finite() && least_ms.at_most(chosen_ms),
        m.ms.is_finite(),
    ensures
        match run.after(m).next {
            Next::Done(o) => o.regret_ms matches Some(r) && F64::zero().at_most(r),
            Next::Execute(r) => r.stage matches Stage::Alternative { chosen_ms, least_ms, .. }
                && chosen_ms.is_finite() && least_ms.is_finite() && least_ms.at_most(chosen_ms),
        },
{
    let (chosen, least) = match run.stage {
        Stage::Alternative { chosen_ms, least_ms, .. } => (chosen_ms, least_ms),
        _ => (m.ms, m.ms),
    };
    crate::binary64::order::difference_is_not_negative(chosen, least.min(m.ms));
}

/// A path that at its pace would end after its deadline is given up, if the alternative is still
/// expected to be in time.
pub proof fn late_paths_are_given_up(elapsed_ms: F64, fraction: F64, deadline_ms: F64, alt_ms: F64)
    requires
        F64::zero().less(fraction),
        deadline_ms.less(elapsed_ms.over(fraction)),
        alt_ms.less(deadline_ms.minus(elapsed_ms)),
    ensures
        gives_up(elapsed_ms, fraction, Some(deadline_ms), alt_ms),
{
}

/// A path that at its pace will end by its deadline is never given up, however fast the
/// alternative.
pub proof fn paths_in_time_are_kept(elapsed_ms: F64, fraction: F64, deadline_ms: F64, alt_ms: F64)
    requires
        elapsed_ms.over(fraction).at_most(deadline_ms),
    ensures
        !gives_up(elapsed_ms, fraction, Some(deadline_ms), alt_ms),
{
}

/// Only actions with an executor are executed: a run that asks for one goes on to ask for such.
pub proof fn only_configured_actions_are_executed(run: DecisionRun, m: Measurement)
    requires
        run.current_action() == Action::RemoteRecompute ==> run.remote,
    ensures
        run.after(m).next matches Next::Execute(r) ==> (r.current_action()
            == Action::RemoteRecompute ==> r.remote),
{
}

/// A plain decision executes the chosen action once, and learns from it.
pub proof fn plain_decisions_execute_once(run: DecisionRun, m: Measurement)
    requires
        run.mode == Mode::Plain,
        run.stage == Stage::Chosen,
    ensures
        run.current_action() == run.action,
        run.after(m).next matches Next::Done(o) && o.action == run.action && o.actual_ms == m.ms
            && o.regret_ms is None,
        run.after(m).first == Some(
            Lesson { action: run.action, ms: m.ms, met: Some(m.deadline_met) },
        ),
        run.after(m).second is None,
{
}

/// A measured decision executes the chosen action first, then each alternative that has an
/// executor, and learns from each once; its regret is what the chosen action took beyond the
/// fastest.
pub proof fn measured_decisions_try_every_action(
    run: DecisionRun,
    m0: Measurement,
    m1: Measurement,
    m2: Measurement,
)
    requires
        run.mode == Mode::Measured,
        run.stage == Stage::Chosen,
    ensures
        run.current_action() == run.action,
        run.after(m0).first is None,
        run.after(m0).next matches Next::Execute(second) && {
            let chosen = Lesson { action: run.action, ms: m0.ms, met: Some(m0.deadline_met) };
            &&& second.current_action() == run.action.first_other()
            &&& second.after(m1).first == Some(
                Lesson { action: run.action.first_other(), ms: m1.ms, met: None },
            )
            &&& if run.measures_second() {
                &&& second.after(m1).second is None
                &&& second.after(m1).next matches Next::Execute(third) && {
                    &&& third.current_action() == run.action.second_other()
                    &&& third.after(m2).first == Some(
                        Lesson { action: run.action.second_other(), ms: m2.ms, met: None },
                    )
                    &&& third.after(m2).second == Some(chosen)
                    &&& third.after(m2).next matches Next::Done(o) && o.actual_ms == m0.ms
                        && o.regret_ms == Some(m0.ms.minus(m0.ms.min(m1.ms).min(m2.ms)))
                }
            } else {
                &&& second.after(m1).second == Some(chosen)
                &&& second.after(m1).next matches Next::Done(o) && o.actual_ms == m0.ms
                    && o.regret_ms == Some(m0.ms.minus(m0.ms.min(m1.ms)))
            }
        },
{
}

/// A path that was given up teaches nothing; the one in its place is learnt from, and the time
/// lost counts.
pub proof fn given_up_paths_teach_nothing(run: DecisionRun, m0: Measurement, m1: Measurement)
    requires
        run.mode == Mode::Guarded,
        run.stage == Stage::Chosen,
        m0.aborted,
    ensures
        run.after(m0).first is None,
        run.after(m0).second is None,
        run.after(m0).next matches Next::Execute(second) && {
            let other = fallback_for(run.action, run.pred, run.remote);
            &&& second.current_action() == other
            &&& second.after(m1).first == Some(
                Lesson { action: other, ms: m1.ms, met: Some(m1.deadline_met) },
            )
            &&& second.after(m1).next matches Next::Done(o) && o.fallback_used && o.wasted_ms
                == m0.ms && o.actual_ms == m0.ms.plus(m1.ms)
        },
{
}

/// The fallback is the fastest of the other actions that have an executor: none of them is
/// expected to be done before it.
pub proof fn fallback_is_the_fastest(
    action: Action,
    pred: ActionPredictions,
    remote: bool,
    other: Action,
)
    requires
        other != action,
        other == Action::RemoteRecompute ==> remote,
    ensures
        ({
            let time = |a: Action|
                match a {
                    Action::Move => pred.move_est.expected_ms,
                    Action::Recompute => pred.recompute_est.expected_ms,
                    Action::RemoteRecompute => pred.remote_est.expected_ms,
                };
            let chosen = fallback_for(action, pred, remote);
            &&& !time(other).total_before(time(chosen))
            &&& !time(other).less(time(chosen))
        }),
{
}

/// A path of which nothing is done is not given up: its pace is not known.
pub proof fn unknown_paces_are_kept(elapsed_ms: F64, fraction: F64, deadline_ms: F64, alt_ms: F64)
    requires
        fraction.at_most(F64::zero()) || fraction.is_nan(),
    ensures
        !gives_up(elapsed_ms, fraction, Some(deadline_ms), alt_ms),
{
}

/// A guarded decision whose chosen action is not given up is a plain one.
pub proof fn kept_paths_are_plain(run: DecisionRun, m: Measurement)
    requires
        run.mode == Mode::Guarded,
        run.stage == Stage::Chosen,
        !m.aborted,
    ensures
        run.after(m) == (DecisionRun { mode: Mode::Plain, ..run }).after(m),
{
}

/// The deadline of the action in a given-up one's place is what is left of the old one: never
/// negative, never later than that, and now once the time is used up.
pub proof fn fallbacks_inherit_the_deadline(run: DecisionRun, m: Measurement, deadline_ms: F64)
    requires
        run.mode == Mode::Guarded,
        run.stage == Stage::Chosen,
        run.deadline_remaining_ms == Some(deadline_ms),
        m.aborted,
        crate::binary64::order::is_amount(deadline_ms),
        deadline_ms.is_finite(),
        crate::binary64::order::is_amount(m.ms),
        m.ms.is_finite(),
    ensures
        run.current_deadline() == Some(deadline_ms),
        run.after(m).next matches Next::Execute(r) && (r.current_deadline() matches Some(left)
            && F64::zero().at_most(left) && left.at_most(deadline_ms) && (deadline_ms.at_most(m.ms)
            ==> left.magnitude() == 0) && (m.ms.magnitude() == 0 ==> crate::binary64::order::alike(
            left,
            deadline_ms,
        )) && (m.ms.at_most(deadline_ms) ==> crate::binary64::order::alike(
            left,
            deadline_ms.minus(m.ms),
        ))),
{
    crate::binary64::order::minus_an_amount_is_less(deadline_ms, m.ms);
    if m.ms.at_most(deadline_ms) {
        crate::binary64::order::difference_is_not_negative(deadline_ms, m.ms);
    }
    if m.ms.magnitude() == 0 {
        reveal(F64::spec_minus);
        crate::binary64::order::zero_adds_nothing(deadline_ms, m.ms.negated());
    }
    if deadline_ms.at_most(m.ms) {
        crate::binary64::order::difference_is_not_positive(deadline_ms, m.ms);
    }
}

/// The alternatives of a measured decision have no deadline to meet.
pub proof fn alternatives_have_no_deadline(run: DecisionRun)
    requires
        run.stage is Alternative,
    ensures
        run.current_deadline() is None,
{
}

/// The prediction error of a decision whose action ran to its end is what it took beyond what was
/// expected of it: not negative where it took longer, not positive where it was faster.
pub proof fn errors_have_the_sign_of_the_surprise(run: DecisionRun, m: Measurement, expected: F64)
    requires
        run.stage == Stage::Chosen,
        run.mode == Mode::Plain,
        expected == match run.action {
            Action::Move => run.pred.move_est.expected_ms,
            Action::Recompute => run.pred.recompute_est.expected_ms,
            Action::RemoteRecompute => run.pred.remote_est.expected_ms,
        },
        expected.is_finite(),
        m.ms.is_finite(),
    ensures
        run.after(m).next matches Next::Done(o) && o.deadline_met == m.deadline_met
            && !o.fallback_used && o.wasted_ms == F64::zero() && (o.prediction_error_ms matches Some(
            e,
        ) && (expected.at_most(m.ms) ==> F64::zero().at_most(e)) && (m.ms.at_most(expected)
            ==> e.at_most(F64::zero())) && e == m.ms.minus(expected)),
{
    if expected.at_most(m.ms) {
        crate::binary64::order::difference_is_not_negative(m.ms, expected);
    }
    if m.ms.at_most(expected) {
        crate::binary64::order::difference_is_not_positive(m.ms, expected);
    }
}

/// The regret of a measured decision is zero exactly when no alternative was faster: where one
/// was, it is the time lost to the fastest.
pub proof fn regret_is_the_time_lost(
    run: DecisionRun,
    m0: Measurement,
    m1: Measurement,
    m2: Measurement,
)
    requires
        run.mode == Mode::Measured,
        run.stage == Stage::Chosen,
        m0.ms.is_finite(),
        m1.ms.is_finite(),
        m2.ms.is_finite(),
        run.measures_second(),
    ensures
        run.after(m0).next matches Next::Execute(second) && (second.after(m1).next matches Next::Execute(
            third,
        ) && (third.after(m2).next matches Next::Done(o) && (o.regret_ms matches Some(r) && {
            &&& m0.ms.at_most(m1.ms) && m0.ms.at_most(m2.ms) ==> r.magnitude() == 0
            &&& m1.ms.less(m0.ms) && m1.ms.at_most(m2.ms) ==> r == m0.ms.minus(m1.ms)
                && F64::zero().less(r)
            &&& m2.ms.less(m0.ms) && m2.ms.less(m1.ms) ==> r == m0.ms.minus(m2.ms)
                && F64::zero().less(r)
        }))),
{
    crate::binary64::order::difference_with_itself(m0.ms);
    if m1.ms.less(m0.ms) {
        crate::binary64::order::difference_is_positive(m0.ms, m1.ms);
    }
    if m2.ms.less(m0.ms) {
        crate::binary64::order::difference_is_positive(m0.ms, m2.ms);
    }
    if m0.ms.at_most(m1.ms) && m0.ms.at_most(m2.ms) {
        assert(m0.ms.min(m1.ms).min(m2.ms) == m0.ms);
    }
}

/// A decision that fell back took the time that was wasted and that of the fallback together, met
/// its deadline if the fallback did, and is told under the action that was chosen; the lesson is
/// the fallback's own.
pub proof fn fallbacks_count_the_wasted_time(run: DecisionRun, m0: Measurement, m1: Measurement)
    requires
        run.mode == Mode::Guarded,
        run.stage == Stage::Chosen,
        m0.aborted,
        crate::binary64::order::is_amount(m0.ms),
        crate::binary64::order::is_amount(m1.ms),
    ensures
        run.after(m0).next matches Next::Execute(r) && (r.after(m1).next matches Next::Done(o) && {
            &&& o.action == run.action
            &&& o.wasted_ms == m0.ms
            &&& o.actual_ms == m0.ms.plus(m1.ms)
            &&& m0.ms.at_most(o.actual_ms)
            &&& o.deadline_met == m1.deadline_met
            &&& o.fallback_used
            &&& o.prediction_error_ms is None
            &&& o.regret_ms is None
            &&& r.after(m1).first matches Some(l) && l.action == r.current_action() && l.action
                != run.action && l.ms == m1.ms && l.met == Some(m1.deadline_met)
            &&& r.after(m1).second is None
        }),
{
    crate::binary64::order::amounts_add_up(m0.ms, m1.ms);
    fallback_is_another_action(run.action, run.pred, run.remote);
}

/// A plain decision teaches what its action took, and whether it met the deadline.
pub proof fn plain_decisions_teach_what_they_took(run: DecisionRun, m: Measurement)
    requires
        run.mode == Mode::Plain,
        run.stage == Stage::Chosen,
    ensures
        run.after(m).first == Some(
            Lesson { action: run.action, ms: m.ms, met: Some(m.deadline_met) },
        ),
        run.after(m).second is None,
        run.after(m).next matches Next::Done(o) && o.action == run.action && o.actual_ms == m.ms
            && o.regret_ms is None,
{
}

/// The outcome of a measured decision is that of the chosen action alone: its time, whether it met
/// the deadline, and its prediction error; the alternatives only tell the regret.
pub proof fn measured_outcomes_are_the_chosen_actions(
    run: DecisionRun,
    m0: Measurement,
    m1: Measurement,
    m2: Measurement,
)
    requires
        run.mode == Mode::Measured,
        run.stage == Stage::Chosen,
    ensures
        ({
            let expected = match run.action {
                Action::Move => run.pred.move_est.expected_ms,
                Action::Recompute => run.pred.recompute_est.expected_ms,
                Action::RemoteRecompute => run.pred.remote_est.expected_ms,
            };
            let told = |o: DecisionOutcome|
                {
                    &&& o.action == run.action
                    &&& o.actual_ms == m0.ms
                    &&& o.deadline_met == m0.deadline_met
                    &&& o.prediction_error_ms == Some(m0.ms.minus(expected))
                    &&& !o.fallback_used
                    &&& o.wasted_ms == F64::zero()
                };
            let remote_is_second = run.action != Action::RemoteRecompute;
            run.after(m0).next matches Next::Execute(second) && if remote_is_second && !run.remote {
                second.after(m1).next matches Next::Done(o) && told(o)
            } else {
                second.after(m1).next matches Next::Execute(third) && (third.after(
                    m2,
                ).next matches Next::Done(o) && told(o))
            }
        }),
{
}

/// With a single alternative to measure, the regret is the time lost to it, and none where it was
/// not faster.
pub proof fn single_regret_is_the_time_lost(run: DecisionRun, m0: Measurement, m1: Measurement)
    requires
        run.mode == Mode::Measured,
        run.stage == Stage::Chosen,
        m0.ms.is_finite(),
        m1.ms.is_finite(),
        !run.measures_second(),
    ensures
        run.after(m0).next matches Next::Execute(second) && (second.after(m1).next matches Next::Done(
            o,
        ) && (o.regret_ms matches Some(r) && {
            &&& m0.ms.at_most(m1.ms) ==> r.magnitude() == 0
            &&& m1.ms.less(m0.ms) ==> r == m0.ms.minus(m1.ms) && F64::zero().less(r)
        })),
{
    crate::binary64::order::difference_with_itself(m0.ms);
    if m1.ms.less(m0.ms) {
        crate::binary64::order::difference_is_positive(m0.ms, m1.ms);
    }
    if m0.ms.at_most(m1.ms) {
        assert(m0.ms.min(m1.ms) == m0.ms);
    }
}

} // verus!
