//! The decision loop: predict, choose, execute, record, log.
//!
//! The engine holds everything but the executions and the clock.  A decision starts with
//! `decide` or one of its variants, which predicts; `choose_for` then chooses; the program
//! executes what the run asks for and hands each measurement to `measured`, until it is done.
use vstd::prelude::*;
use vstd::string::*;

use crate::binary64::F64;
use crate::decision::action::Action;
use crate::decision::policy::{DeadlineAhead, DecisionContext, Policy};
use crate::decision::run::{
    DecisionOutcome, DecisionRun, Lesson, Measurement, Mode, Next, Stage,
};
use crate::error::{invalid, Error, Result};
use crate::object::ObjectSpec;
use crate::observation::{DecisionEvent, ObservationStore};
use crate::prediction::bucket::action_bucket;
use crate::prediction::cost::{ActionElementary, ActionPredictions, Predictor};
use crate::resource::{ReadingTexts, ResourceState};

verus! {

/// A decision with its estimates, before the choice.
#[derive(Debug, Clone, Copy)]
pub struct Proposal {
    pub mode: Mode,
    pub object: ObjectSpec,
    pub resource: ResourceState,
    pub deadline_remaining_ms: Option<F64>,
    pub pred: ActionPredictions,
}

/// The stored rows after a lesson, recorded at the time `now`.
pub open spec fn rows_after(
    rows: Map<Seq<char>, Seq<u8>>,
    run: DecisionRun,
    lesson: Option<Lesson>,
    now: u64,
) -> Map<Seq<char>, Seq<u8>> {
    match lesson {
        Some(l) => {
            let key = lesson_key(run, l);
            let sampled = crate::observation::store::after_sample(rows, key, l.ms, now);
            match l.met {
                Some(met) => crate::observation::store::after_deadline(sampled, key, met),
                None => sampled,
            }
        },
        None => rows,
    }
}

/// The bucket that a lesson belongs to.
pub open spec fn lesson_key(run: DecisionRun, l: Lesson) -> Seq<char> {
    crate::prediction::bucket::bucket_key(
        l.action.label(),
        run.object.size_bytes,
        crate::prediction::bucket::regime(run.resource),
    )
}

/// The store refuses a lesson: the row of its bucket cannot be read, or has no room for it.
pub open spec fn refused(
    rows: Map<Seq<char>, Seq<u8>>,
    run: DecisionRun,
    lesson: Option<Lesson>,
) -> bool {
    lesson matches Some(l) && {
        let key = lesson_key(run, l);
        ||| !crate::observation::store::takes_sample(rows, key)
        ||| l.met matches Some(met) && !crate::observation::store::takes_deadline(rows, key, met)
    }
}

/// `after` is what the predictor `before` becomes with a lesson.
pub open spec fn predictor_after<R: Predictor>(
    before: R,
    run: DecisionRun,
    lesson: Option<Lesson>,
    after: R,
) -> bool {
    match lesson {
        Some(l) => R::learns(before, l.action.label(), run.resource, l.ms, after),
        None => after == before,
    }
}

/// The logged event of a decision.
pub open spec fn event_of(
    run: DecisionRun,
    outcome: DecisionOutcome,
    id: u64,
    now: u64,
    texts: ReadingTexts,
) -> crate::observation::event::EventView {
    crate::observation::event::EventView {
        decision_id: id,
        object_id: run.object.id,
        timestamp_unix_ms: now,
        resource_snapshot: run.resource.snapshot_text(texts),
        predicted_costs_ms: seq![
            run.pred.move_est.expected_ms,
            run.pred.recompute_est.expected_ms,
            run.pred.remote_est.expected_ms,
        ],
        chosen_action: outcome.action.label(),
        actual_cost_ms: outcome.actual_ms,
        deadline_remaining_ms: run.deadline_remaining_ms,
        deadline_met: Some(outcome.deadline_met),
        prediction_error_ms: outcome.prediction_error_ms,
        fallback_used: outcome.fallback_used,
        wasted_ms: outcome.wasted_ms,
        regret_ms: outcome.regret_ms,
    }
}

/// The engine, with its policy, its predictor and the store that it records to.
pub struct DecisionEngine<P: Policy, R: Predictor> {
    store: ObservationStore,
    policy: P,
    predictor: R,
    remote: bool,
    next_decision_id: u64,
    decisions: u64,
}

impl<P: Policy, R: Predictor> DecisionEngine<P, R> {
    /// The stored statistics, by bucket.
    pub closed spec fn rows(&self) -> Map<Seq<char>, Seq<u8>> {
        self.store.rows()
    }

    /// The logged events, by decision.
    pub closed spec fn events(&self) -> Map<u64, Seq<u8>> {
        self.store.events()
    }

    /// The path that the store was opened at.
    pub closed spec fn path(&self) -> Seq<char> {
        self.store.path()
    }

    /// The tables of the store's file, by name.
    pub closed spec fn tables(&self) -> Set<Seq<char>> {
        self.store.tables()
    }

    pub closed spec fn policy_in_use(&self) -> P {
        self.policy
    }

    pub closed spec fn predictor_in_use(&self) -> R {
        self.predictor
    }

    /// There is a remote executor.
    pub closed spec fn has_remote(&self) -> bool {
        self.remote
    }

    /// The id of the next decision.
    pub closed spec fn next_id(&self) -> u64 {
        self.next_decision_id
    }

    /// How many decisions are done.
    pub closed spec fn decided(&self) -> u64 {
        self.decisions
    }

    /// There is room for one more decision: the counters are below their limit.
    pub open spec fn has_room(&self) -> bool {
        self.next_id() < u64::MAX && self.decided() < u64::MAX
    }

    /// Every id in the log is below the next one, so that no event takes another's place.
    pub open spec fn logs_afresh(&self) -> bool {
        forall|k: u64| #[trigger] self.events().contains_key(k) ==> k < self.next_id()
    }

    /// Everything but the store's contents, the predictor and the counters is the same.
    pub open spec fn same_setup(&self, other: &Self) -> bool {
        &&& self.path() == other.path()
        &&& self.policy_in_use() == other.policy_in_use()
        &&& self.has_remote() == other.has_remote()
    }

    /// An engine that goes on with the log of `store`: its ids begin after the greatest one there,
    /// and at one in an empty log.
    ///
    /// A log that has used the last id is refused.
    pub fn new(store: ObservationStore, policy: P, predictor: R) -> (r: Result<Self>)
        ensures
            match r {
                Ok(e) => {
                    &&& e.rows() == store.rows()
                    &&& e.events() == store.events()
                    &&& e.path() == store.path()
                    &&& e.tables() == store.tables()
                    &&& e.policy_in_use() == policy
                    &&& e.predictor_in_use() == predictor
                    &&& !e.has_remote()
                    &&& e.logs_afresh()
                    &&& e.next_id() >= 1
                    &&& e.next_id() > 1 ==> store.events().contains_key((e.next_id() - 1) as u64)
                    &&& e.decided() == 0
                },
                Err(Error::Invalid(m)) => store.events().contains_key(u64::MAX) && m@
                    == "no event id left"@,
                Err(e) => e is Store,
            },
    {
        let last = match store.last_event_id() {
            Ok(k) => k,
            Err(e) => return Err(e),
        };
        let next_decision_id = match first_id_after(last) {
            Some(id) => id,
            None => return Err(invalid("no event id left")),
        };
        let ghost events = store.events();
        let e = DecisionEngine {
            store,
            policy,
            predictor,
            remote: false,
            next_decision_id,
            decisions: 0,
        };
        assert forall|k: u64| #[trigger] e.events().contains_key(k) implies k < e.next_id() by {
            assert(events.contains_key(k));
        }
        Ok(e)
    }

    /// The engine with a remote executor.
    pub fn with_remote_exec(self) -> (e: Self)
        ensures
            e.has_remote(),
            e.rows() == self.rows(),
            e.events() == self.events(),
            e.path() == self.path(),
            e.tables() == self.tables(),
            e.policy_in_use() == self.policy_in_use(),
            e.predictor_in_use() == self.predictor_in_use(),
            e.next_id() == self.next_id(),
            e.decided() == self.decided(),
    {
        DecisionEngine {
            store: self.store,
            policy: self.policy,
            predictor: self.predictor,
            remote: true,
            next_decision_id: self.next_decision_id,
            decisions: self.decisions,
        }
    }

    pub fn policy_name(&self) -> (s: &'static str)
        ensures
            s@ == self.policy_in_use().label(),
    {
        self.policy.name()
    }

    /// The predictor, for inspection.
    pub fn predictor(&self) -> (r: &R)
        ensures
            *r == self.predictor_in_use(),
    {
        &self.predictor
    }

    /// The store, for inspection.
    pub fn store(&self) -> (s: &ObservationStore)
        ensures
            s.rows() == self.rows(),
            s.events() == self.events(),
            s.path() == self.path(),
            s.tables() == self.tables(),
    {
        &self.store
    }

    /// Whether there is room for one more decision.
    pub fn can_decide(&self) -> (r: bool)
        ensures
            r == self.has_room(),
    {
        self.next_decision_id < u64::MAX && self.decisions < u64::MAX
    }

    /// Whether an action has an executor: only the remote one may lack it.
    pub fn configured(&self, action: Action) -> (r: bool)
        ensures
            r == (action != Action::RemoteRecompute || self.has_remote()),
    {
        match action {
            Action::Move | Action::Recompute => true,
            Action::RemoteRecompute => self.remote,
        }
    }

    fn propose(
        &self,
        mode: Mode,
        object: &ObjectSpec,
        resource: ResourceState,
        deadline_remaining_ms: Option<F64>,
    ) -> (r: Proposal)
        ensures
            r.mode == mode,
            r.object == *object,
            r.resource == resource,
            r.deadline_remaining_ms == deadline_remaining_ms,
            self.predictor_in_use().predicts(self.rows(), *object, resource, r.pred),
    {
        let pred = self.predictor.predict(&self.store, object, &resource);
        Proposal { mode, object: *object, resource, deadline_remaining_ms, pred }
    }

    /// Starts a decision that executes the chosen action alone.  The regret stays unknown.
    pub fn decide(
        &self,
        object: &ObjectSpec,
        resource: ResourceState,
        deadline_remaining_ms: Option<F64>,
    ) -> (r: Proposal)
        ensures
            r.mode == Mode::Plain,
            r.object == *object,
            r.resource == resource,
            r.deadline_remaining_ms == deadline_remaining_ms,
            self.predictor_in_use().predicts(self.rows(), *object, resource, r.pred),
    {
        self.propose(Mode::Plain, object, resource, deadline_remaining_ms)
    }

    /// Starts a decision that also executes the alternatives, after the chosen action, so that
    /// the regret is known.
    pub fn decide_and_measure(
        &self,
        object: &ObjectSpec,
        resource: ResourceState,
        deadline_remaining_ms: Option<F64>,
    ) -> (r: Proposal)
        ensures
            r.mode == Mode::Measured,
            r.object == *object,
            r.resource == resource,
            r.deadline_remaining_ms == deadline_remaining_ms,
            self.predictor_in_use().predicts(self.rows(), *object, resource, r.pred),
    {
        self.propose(Mode::Measured, object, resource, deadline_remaining_ms)
    }

    /// Starts a decision that gives the chosen action up if it is about to miss the deadline and
    /// the best alternative is expected to be in time.
    pub fn decide_with_fallback(
        &self,
        object: &ObjectSpec,
        resource: ResourceState,
        deadline_remaining_ms: Option<F64>,
    ) -> (r: Proposal)
        ensures
            r.mode == Mode::Guarded,
            r.object == *object,
            r.resource == resource,
            r.deadline_remaining_ms == deadline_remaining_ms,
            self.predictor_in_use().predicts(self.rows(), *object, resource, r.pred),
    {
        self.propose(Mode::Guarded, object, resource, deadline_remaining_ms)
    }

    /// Chooses the action for a proposal.  `values` are the elementary functions for the
    /// deadline that the proposal has; `ahead` is the deadline as it stands at the choice, `None`
    /// once it has passed.
    ///
    /// Choosing the remote action without a remote executor is an error.
    pub fn choose_for(
        &self,
        proposal: &Proposal,
        values: ActionElementary,
        ahead: Option<DeadlineAhead>,
    ) -> (r: Result<DecisionRun>)
        ensures
            ({
                let pred = proposal.pred.assessed(proposal.deadline_remaining_ms, values);
                let ctx = DecisionContext {
                    object: proposal.object,
                    resource: proposal.resource,
                    deadline: ahead,
                };
                let action = self.policy_in_use().picks(ctx, pred);
                match r {
                    Ok(run) => {
                        &&& action != Action::RemoteRecompute || self.has_remote()
                        &&& run == (DecisionRun {
                            mode: proposal.mode,
                            object: proposal.object,
                            resource: proposal.resource,
                            deadline_remaining_ms: proposal.deadline_remaining_ms,
                            pred,
                            action,
                            remote: self.has_remote(),
                            stage: Stage::Chosen,
                        })
                    },
                    Err(e) => {
                        &&& action == Action::RemoteRecompute && !self.has_remote()
                        &&& e matches Error::Invalid(m) && m@ == "remote executor not configured"@
                    },
                }
            }),
    {
        let pred = proposal.pred.assessed(proposal.deadline_remaining_ms, values);
        let ctx = DecisionContext {
            object: proposal.object,
            resource: proposal.resource,
            deadline: ahead,
        };
        let action = self.policy.choose_action(&ctx, &pred);
        if !self.configured(action) {
            return Err(invalid("remote executor not configured"));
        }
        Ok(
            DecisionRun {
                mode: proposal.mode,
                object: proposal.object,
                resource: proposal.resource,
                deadline_remaining_ms: proposal.deadline_remaining_ms,
                pred,
                action,
                remote: self.remote,
                stage: Stage::Chosen,
            },
        )
    }

    /// Records a lesson and teaches it to the predictor.
    fn learn(&mut self, run: &DecisionRun, lesson: Option<Lesson>) -> (r: Result<()>)
        ensures
            final(self).same_setup(&*old(self)),
            final(self).next_id() == old(self).next_id(),
            final(self).decided() == old(self).decided(),
            r is Ok ==> final(self).events() == old(self).events(),
            r is Ok ==> final(self).tables() == old(self).tables(),
            r is Ok ==> exists|now: u64|
                final(self).rows() == #[trigger] rows_after(old(self).rows(), *run, lesson, now),
            r is Ok ==> predictor_after(
                old(self).predictor_in_use(),
                *run,
                lesson,
                final(self).predictor_in_use(),
            ),
            lesson is None ==> r is Ok,
            r is Ok ==> !refused(old(self).rows(), *run, lesson),
            r matches Err(e) ==> e is Store || e is Invalid,
            r matches Err(Error::Invalid(_)) ==> refused(old(self).rows(), *run, lesson)
                && final(self).events() == old(self).events(),
            r is Err ==> final(self).predictor_in_use() == old(self).predictor_in_use(),
    {
        match lesson {
            Some(l) => {
                let key = action_bucket(&run.object, l.action.as_str(), &run.resource);
                match self.store.record(&key, l.ms) {
                    Ok(()) => {},
                    Err(e) => return Err(e),
                }
                let ghost now = choose|now: u64|
                    self.store.rows() == #[trigger] crate::observation::store::after_sample(
                        old(self).rows(),
                        key@,
                        l.ms,
                        now,
                    );
                if let Some(met) = l.met {
                    proof {
                        crate::observation::store::samples_leave_deadlines(
                            old(self).rows(),
                            key@,
                            l.ms,
                            now,
                            met,
                        );
                    }
                    match self.store.record_deadline(&key, met) {
                        Ok(()) => {},
                        Err(e) => return Err(e),
                    }
                }
                self.predictor.update(l.action.as_str(), &run.object, &run.resource, l.ms);
                assert(self.rows() == rows_after(old(self).rows(), *run, lesson, now));
                Ok(())
            },
            None => {
                assert(self.rows() == rows_after(old(self).rows(), *run, lesson, 0));
                Ok(())
            },
        }
    }

    /// Writes the outcome to the log, under the next id.
    fn log_event(&mut self, run: &DecisionRun, outcome: &DecisionOutcome, texts: &ReadingTexts) -> (r:
        Result<()>)
        requires
            old(self).next_id() < u64::MAX,
        ensures
            final(self).same_setup(&*old(self)),
            final(self).next_id() == old(self).next_id() + 1,
            final(self).decided() == old(self).decided(),
            final(self).predictor_in_use() == old(self).predictor_in_use(),
            r is Ok ==> final(self).rows() == old(self).rows(),
            r is Ok ==> final(self).tables() == old(self).tables().insert("events"@),
            r is Ok ==> exists|now: u64|
                final(self).events() == old(self).events().insert(
                    old(self).next_id(),
                    (#[trigger] event_of(*run, *outcome, old(self).next_id(), now, *texts)).encoded(),
                ),
            r matches Err(e) ==> e is Store,
    {
        let mut ev = DecisionEvent::new(self.next_decision_id, run.object.id);
        self.next_decision_id = self.next_decision_id + 1;
        ev.resource_snapshot = run.resource.snapshot(texts);
        ev.predicted_costs_ms = vec![
            run.pred.move_est.expected_ms,
            run.pred.recompute_est.expected_ms,
            run.pred.remote_est.expected_ms,
        ];
        ev.chosen_action = outcome.action.as_str().to_owned();
        ev.actual_cost_ms = outcome.actual_ms;
        ev.deadline_remaining_ms = run.deadline_remaining_ms;
        ev.deadline_met = Some(outcome.deadline_met);
        ev.prediction_error_ms = outcome.prediction_error_ms;
        ev.fallback_used = outcome.fallback_used;
        ev.wasted_ms = outcome.wasted_ms;
        ev.regret_ms = outcome.regret_ms;
        proof {
            let now = ev.timestamp_unix_ms;
            let e = event_of(*run, *outcome, old(self).next_id(), now, *texts);
            assert(ev@.predicted_costs_ms =~= e.predicted_costs_ms);
            assert(ev@ =~= e);
        }
        self.store.log_event(ev)
    }

    /// Takes in the measurement of the execution that the run asked for: records what it
    /// teaches, and says what follows.  A decision that is done is in the log, with the machine
    /// state that it was made in; `texts` are the readings of that state.
    ///
    /// Where there is nothing to record or to log, it succeeds.  Else the store can fail, or
    /// refuse a lesson, which leaves the log as it was.
    pub fn measured(&mut self, run: &DecisionRun, m: Measurement, texts: &ReadingTexts) -> (r:
        Result<Next>)
        requires
            old(self).has_room(),
        ensures
            final(self).same_setup(&*old(self)),
            r matches Ok(next) ==> next == run.after(m).next,
            run.after(m).first is None && run.after(m).second is None && run.after(m).next is Execute
                ==> r is Ok,
            r is Ok ==> !refused(old(self).rows(), *run, run.after(m).first) && !refused(
                old(self).rows(),
                *run,
                run.after(m).second,
            ),
            r is Ok ==> old(self).tables().subset_of(final(self).tables()),
            r is Ok && old(self).logs_afresh() ==> final(self).logs_afresh(),
            r is Ok ==> exists|mid: R|
                predictor_after(old(self).predictor_in_use(), *run, run.after(m).first, mid)
                    && #[trigger] predictor_after(
                    mid,
                    *run,
                    run.after(m).second,
                    final(self).predictor_in_use(),
                ),
            r is Ok ==> exists|t1: u64, t2: u64|
                final(self).rows() == #[trigger] rows_after(
                    #[trigger] rows_after(old(self).rows(), *run, run.after(m).first, t1),
                    *run,
                    run.after(m).second,
                    t2,
                ),
            r matches Ok(Next::Execute(_)) ==> {
                &&& final(self).events() == old(self).events()
                &&& final(self).next_id() == old(self).next_id()
                &&& final(self).decided() == old(self).decided()
            },
            r matches Ok(Next::Done(outcome)) ==> {
                &&& final(self).next_id() == old(self).next_id() + 1
                &&& final(self).decided() == old(self).decided() + 1
                &&& exists|now: u64|
                    final(self).events() == old(self).events().insert(
                        old(self).next_id(),
                        (#[trigger] event_of(*run, outcome, old(self).next_id(), now, *texts)).encoded(),
                    )
                &&& old(self).logs_afresh() ==> {
                    &&& !old(self).events().contains_key(old(self).next_id())
                    &&& final(self).events().len() == old(self).events().len() + 1
                    &&& forall|k: u64| #[trigger]
                        old(self).events().contains_key(k) ==> final(self).events().contains_key(k)
                            && final(self).events()[k] == old(self).events()[k]
                }
            },
            r matches Err(Error::Invalid(_)) ==> {
                &&& refused(old(self).rows(), *run, run.after(m).first) || refused(
                    old(self).rows(),
                    *run,
                    run.after(m).second,
                )
                &&& final(self).events() == old(self).events()
                &&& final(self).next_id() == old(self).next_id()
            },
            r matches Err(e) ==> {
                &&& e is Store || e is Invalid
                &&& final(self).decided() == old(self).decided()
                &&& old(self).next_id() <= final(self).next_id() <= old(self).next_id() + 1
            },
    {
        let adv = run.advance(m);
        match self.learn(run, adv.first) {
            Ok(()) => {},
            Err(e) => return Err(e),
        }
        let ghost mid = self.predictor_in_use();
        let ghost rows1 = self.rows();
        proof {
            lemma_lessons_apart(old(self).rows(), rows1, *run, m);
        }
        match self.learn(run, adv.second) {
            Ok(()) => {},
            Err(e) => return Err(e),
        }
        proof {
            let t1 = choose|now: u64|
                rows1 == #[trigger] rows_after(old(self).rows(), *run, adv.first, now);
            let t2 = choose|now: u64|
                self.rows() == #[trigger] rows_after(rows1, *run, adv.second, now);
            assert(self.rows() == rows_after(
                rows_after(old(self).rows(), *run, adv.first, t1),
                *run,
                adv.second,
                t2,
            ));
        }
        match adv.next {
            Next::Execute(r) => {
                assert(predictor_after(
                    mid,
                    *run,
                    run.after(m).second,
                    self.predictor_in_use(),
                ));
                Ok(Next::Execute(r))
            },
            Next::Done(outcome) => {
                match self.log_event(run, &outcome, texts) {
                    Ok(()) => {},
                    Err(e) => return Err(e),
                }
                self.decisions = self.decisions + 1;
                proof {
                    let now = choose|now: u64|
                        self.events() == old(self).events().insert(
                            old(self).next_id(),
                            (#[trigger] event_of(
                                *run,
                                outcome,
                                old(self).next_id(),
                                now,
                                *texts,
                            )).encoded(),
                        );
                    crate::observation::store::log_grows_by_new_ids(
                        old(self).events(),
                        old(self).next_id(),
                        event_of(*run, outcome, old(self).next_id(), now, *texts).encoded(),
                    );
                }
                assert(predictor_after(
                    mid,
                    *run,
                    run.after(m).second,
                    self.predictor_in_use(),
                ));
                Ok(Next::Done(outcome))
            },
        }
    }
}

/// The id that follows the greatest one in use: one if there is none, and `None` after the last.
pub fn first_id_after(last: Option<u64>) -> (r: Option<u64>)
    ensures
        r == match last {
            Some(k) => if k == u64::MAX {
                None
            } else {
                Some((k + 1) as u64)
            },
            None => Some(1u64),
        },
{
    match last {
        Some(k) => k.checked_add(1),
        None => Some(1),
    }
}

/// The two lessons of a measurement are of two actions, so the first leaves it open whether the
/// store refuses the second.
proof fn lemma_lessons_apart(
    before: Map<Seq<char>, Seq<u8>>,
    after: Map<Seq<char>, Seq<u8>>,
    run: DecisionRun,
    m: Measurement,
)
    requires
        exists|now: u64| after == #[trigger] rows_after(before, run, run.after(m).first, now),
    ensures
        refused(after, run, run.after(m).second) == refused(before, run, run.after(m).second),
{
    if let (Some(a), Some(b)) = (run.after(m).first, run.after(m).second) {
        assert(a.action != b.action);
        if lesson_key(run, a) == lesson_key(run, b) {
            let regime = crate::prediction::bucket::regime(run.resource);
            let size = run.object.size_bytes;
            crate::prediction::bucket::buckets_are_distinct(
                a.action,
                b.action,
                size,
                size,
                regime,
                regime,
            );
        }
    }
}

/// A lesson reaches the bucket of its action, size and regime, and no other: what was seen under
/// contention does not colour what is known of an idle machine.
pub proof fn lessons_stay_in_their_bucket(
    rows: Map<Seq<char>, Seq<u8>>,
    run: DecisionRun,
    l: Lesson,
    now: u64,
    other: Seq<char>,
)
    requires
        other != lesson_key(run, l),
        crate::observation::store::takes_sample(rows, lesson_key(run, l)),
        l.met matches Some(met) ==> crate::observation::store::takes_deadline(
            rows,
            lesson_key(run, l),
            met,
        ),
    ensures
        ({
            let before = crate::observation::store::stored(rows, lesson_key(run, l))->0;
            let sampled = before.with_sample(
                l.ms,
                F64 { bits: crate::observation::aggregate::DEFAULT_ALPHA },
                crate::observation::aggregate::DEFAULT_RESERVOIR as nat,
                now,
            );
            let after = rows_after(rows, run, Some(l), now);
            &&& crate::observation::store::stored(after, other)
                == crate::observation::store::stored(rows, other)
            &&& crate::observation::store::stored(after, lesson_key(run, l)) == Some(
                match l.met {
                    Some(met) => sampled.with_deadline(met),
                    None => sampled,
                },
            )
        }),
{
    let key = lesson_key(run, l);
    crate::observation::store::sample_is_read_back(rows, key, l.ms, now, other);
    if let Some(met) = l.met {
        let sampled = crate::observation::store::after_sample(rows, key, l.ms, now);
        crate::observation::store::deadline_is_read_back(sampled, key, met, other);
    }
}

/// An event tells what happened: the object, the costs as they were predicted, in the order of
/// the actions, the action that was chosen, and what came of it.
pub proof fn events_tell_what_happened(
    run: DecisionRun,
    outcome: DecisionOutcome,
    id: u64,
    now: u64,
    texts: ReadingTexts,
)
    ensures
        ({
            let e = event_of(run, outcome, id, now, texts);
            &&& e.decision_id == id
            &&& e.object_id == run.object.id
            &&& e.timestamp_unix_ms == now
            &&& e.predicted_costs_ms.len() == 3
            &&& e.predicted_costs_ms[0] == run.pred.move_est.expected_ms
            &&& e.predicted_costs_ms[1] == run.pred.recompute_est.expected_ms
            &&& e.predicted_costs_ms[2] == run.pred.remote_est.expected_ms
            &&& e.chosen_action == match outcome.action {
                Action::Move => "move"@,
                Action::Recompute => "recompute"@,
                Action::RemoteRecompute => "remote"@,
            }
            &&& e.actual_cost_ms == outcome.actual_ms
            &&& e.deadline_remaining_ms == run.deadline_remaining_ms
            &&& e.deadline_met == Some(outcome.deadline_met)
            &&& e.prediction_error_ms == outcome.prediction_error_ms
            &&& e.fallback_used == outcome.fallback_used
            &&& e.wasted_ms == outcome.wasted_ms
            &&& e.regret_ms == outcome.regret_ms
            &&& e.resource_snapshot == run.resource.snapshot_text(texts)
        }),
{
}

/// A lesson goes where the predictions for the same object in the same state are read from: an
/// estimate from history after it is the model's, or that of the row with the lesson in it.
pub proof fn lessons_reach_the_predictions(
    p: crate::prediction::historical::HistoricalPredictor,
    rows: Map<Seq<char>, Seq<u8>>,
    run: DecisionRun,
    l: Lesson,
    now: u64,
    r: ActionPredictions,
)
    requires
        l.met is None,
        crate::observation::store::takes_sample(rows, lesson_key(run, l)),
        p.predicts(rows_after(rows, run, Some(l), now), run.object, run.resource, r),
    ensures
        ({
            let model = crate::prediction::cost::model_predictions(
                p.model,
                run.object,
                run.resource,
            );
            let (from_model, from_history) = match l.action {
                Action::Move => (model.move_est, r.move_est),
                Action::Recompute => (model.recompute_est, r.recompute_est),
                Action::RemoteRecompute => (model.remote_est, r.remote_est),
            };
            let row = crate::observation::store::stored(rows, lesson_key(run, l))->0.with_sample(
                l.ms,
                F64 { bits: crate::observation::aggregate::DEFAULT_ALPHA },
                crate::observation::aggregate::DEFAULT_RESERVOIR as nat,
                now,
            );
            from_history == from_model || from_history == crate::prediction::historical::historical(
                row,
                from_model,
                p.history_k,
                p.history_weight_max,
            )
        }),
{
    let key = lesson_key(run, l);
    let other = key.push('/');
    assert(other.len() != key.len());
    crate::observation::store::sample_is_read_back(rows, key, l.ms, now, other);
}

/// The regression of the action that was executed takes the lesson in, with the features of the
/// state; those of the other actions stay as they are.
pub proof fn lessons_teach_their_own_regression(
    before: crate::prediction::regression::OnlineRegressionPredictor,
    run: DecisionRun,
    l: Lesson,
    after: crate::prediction::regression::OnlineRegressionPredictor,
)
    requires
        predictor_after(before, run, Some(l), after),
        before.move_reg@.n < u64::MAX,
        before.recompute_reg@.n < u64::MAX,
        before.remote_reg@.n < u64::MAX,
    ensures
        ({
            let x = crate::prediction::regression::feature_values(run.resource);
            &&& after.move_reg@ == if l.action == Action::Move {
                before.move_reg@.updated(x, l.ms)
            } else {
                before.move_reg@
            }
            &&& after.recompute_reg@ == if l.action == Action::Recompute {
                before.recompute_reg@.updated(x, l.ms)
            } else {
                before.recompute_reg@
            }
            &&& after.remote_reg@ == if l.action == Action::RemoteRecompute {
                before.remote_reg@.updated(x, l.ms)
            } else {
                before.remote_reg@
            }
            &&& after.model == before.model
        }),
{
    reveal_strlit("move");
    reveal_strlit("recompute");
    reveal_strlit("remote");
    assert("move"@.len() == 4);
    assert("recompute"@.len() == 9);
    assert("remote"@.len() == 6);
}

} // verus!
