//! The record of one decision.
use vstd::prelude::*;
use vstd::string::*;

use crate::binary64::F64;
use crate::now_unix_ms;
use crate::observation::codec::{
    push_bool, push_f64, push_opt_bool, push_opt_f64, push_str, push_u64, push_vec_f64, take_bool,
    take_f64, take_opt_bool, take_opt_f64, take_str, take_u64, take_vec_f64,
};

verus! {

/// One decision in the event log, for analysis and training.
#[derive(Debug)]
pub struct DecisionEvent {
    pub decision_id: u64,
    pub object_id: u64,
    pub timestamp_unix_ms: u64,
    /// The machine state, as text.
    pub resource_snapshot: String,
    /// Predicted completion time of each candidate action, in ms, in a fixed order.
    pub predicted_costs_ms: Vec<F64>,
    pub chosen_action: String,
    pub actual_cost_ms: F64,
    /// Time left until the object was needed, in ms; `None` without a deadline.
    pub deadline_remaining_ms: Option<F64>,
    pub deadline_met: Option<bool>,
    pub prediction_error_ms: Option<F64>,
    pub fallback_used: bool,
    /// Time lost on a path that was given up, in ms.
    pub wasted_ms: F64,
    /// What the decision cost beyond the cheapest measured action, in ms.
    pub regret_ms: Option<F64>,
}

/// What an event holds.
#[verifier::ext_equal]
pub struct EventView {
    pub decision_id: u64,
    pub object_id: u64,
    pub timestamp_unix_ms: u64,
    pub resource_snapshot: Seq<char>,
    pub predicted_costs_ms: Seq<F64>,
    pub chosen_action: Seq<char>,
    pub actual_cost_ms: F64,
    pub deadline_remaining_ms: Option<F64>,
    pub deadline_met: Option<bool>,
    pub prediction_error_ms: Option<F64>,
    pub fallback_used: bool,
    pub wasted_ms: F64,
    pub regret_ms: Option<F64>,
}

impl View for DecisionEvent {
    type V = EventView;

    open spec fn view(&self) -> EventView {
        EventView {
            decision_id: self.decision_id,
            object_id: self.object_id,
            timestamp_unix_ms: self.timestamp_unix_ms,
            resource_snapshot: self.resource_snapshot@,
            predicted_costs_ms: self.predicted_costs_ms@,
            chosen_action: self.chosen_action@,
            actual_cost_ms: self.actual_cost_ms,
            deadline_remaining_ms: self.deadline_remaining_ms,
            deadline_met: self.deadline_met,
            prediction_error_ms: self.prediction_error_ms,
            fallback_used: self.fallback_used,
            wasted_ms: self.wasted_ms,
            regret_ms: self.regret_ms,
        }
    }
}

impl EventView {
    /// An event of which nothing but its ids and its time is known.
    pub open spec fn blank(decision_id: u64, object_id: u64, now: u64) -> EventView {
        EventView {
            decision_id,
            object_id,
            timestamp_unix_ms: now,
            resource_snapshot: Seq::empty(),
            predicted_costs_ms: Seq::empty(),
            chosen_action: Seq::empty(),
            actual_cost_ms: F64::zero(),
            deadline_remaining_ms: None,
            deadline_met: None,
            prediction_error_ms: None,
            fallback_used: false,
            wasted_ms: F64::zero(),
            regret_ms: None,
        }
    }

    /// The stored form.
    pub open spec fn encoded(self) -> Seq<u8> {
        crate::observation::codec::le_bytes(self.decision_id as nat, 8)
            + crate::observation::codec::le_bytes(self.object_id as nat, 8)
            + crate::observation::codec::le_bytes(self.timestamp_unix_ms as nat, 8)
            + crate::observation::codec::str_bytes(self.resource_snapshot)
            + crate::observation::codec::vec_f64_bytes(self.predicted_costs_ms)
            + crate::observation::codec::str_bytes(self.chosen_action)
            + crate::observation::codec::f64_bytes(self.actual_cost_ms)
            + crate::observation::codec::opt_f64_bytes(self.deadline_remaining_ms)
            + crate::observation::codec::opt_bool_bytes(self.deadline_met)
            + crate::observation::codec::opt_f64_bytes(self.prediction_error_ms)
            + crate::observation::codec::bool_bytes(self.fallback_used)
            + crate::observation::codec::f64_bytes(self.wasted_ms)
            + crate::observation::codec::opt_f64_bytes(self.regret_ms)
    }

    /// The event whose stored form `d` begins with, if there is one.
    pub open spec fn decoded(d: Seq<u8>) -> Option<EventView> {
        let id = crate::observation::codec::read_u64(d);
        let object = crate::observation::codec::read_u64((id->0).1);
        let time = crate::observation::codec::read_u64((object->0).1);
        let snapshot = crate::observation::codec::read_str((time->0).1);
        let costs = crate::observation::codec::read_vec_f64((snapshot->0).1);
        let chosen = crate::observation::codec::read_str((costs->0).1);
        let actual = crate::observation::codec::read_f64((chosen->0).1);
        let remaining = crate::observation::codec::read_opt_f64((actual->0).1);
        let met = crate::observation::codec::read_opt_bool((remaining->0).1);
        let error = crate::observation::codec::read_opt_f64((met->0).1);
        let fallback = crate::observation::codec::read_bool((error->0).1);
        let wasted = crate::observation::codec::read_f64((fallback->0).1);
        let regret = crate::observation::codec::read_opt_f64((wasted->0).1);
        if id is Some && object is Some && time is Some && snapshot is Some && costs is Some
            && chosen is Some && actual is Some && remaining is Some && met is Some && error is Some
            && fallback is Some && wasted is Some && regret is Some {
            Some(
                EventView {
                    decision_id: (id->0).0,
                    object_id: (object->0).0,
                    timestamp_unix_ms: (time->0).0,
                    resource_snapshot: (snapshot->0).0,
                    predicted_costs_ms: (costs->0).0,
                    chosen_action: (chosen->0).0,
                    actual_cost_ms: (actual->0).0,
                    deadline_remaining_ms: (remaining->0).0,
                    deadline_met: (met->0).0,
                    prediction_error_ms: (error->0).0,
                    fallback_used: (fallback->0).0,
                    wasted_ms: (wasted->0).0,
                    regret_ms: (regret->0).0,
                },
            )
        } else {
            None
        }
    }
}

impl Clone for DecisionEvent {
    fn clone(&self) -> (r: Self)
        ensures
            r@ == self@,
    {
        let predicted_costs_ms = self.predicted_costs_ms.clone();
        assert(predicted_costs_ms@ =~= self.predicted_costs_ms@);
        DecisionEvent {
            decision_id: self.decision_id,
            object_id: self.object_id,
            timestamp_unix_ms: self.timestamp_unix_ms,
            resource_snapshot: self.resource_snapshot.clone(),
            predicted_costs_ms,
            chosen_action: self.chosen_action.clone(),
            actual_cost_ms: self.actual_cost_ms,
            deadline_remaining_ms: self.deadline_remaining_ms,
            deadline_met: self.deadline_met,
            prediction_error_ms: self.prediction_error_ms,
            fallback_used: self.fallback_used,
            wasted_ms: self.wasted_ms,
            regret_ms: self.regret_ms,
        }
    }
}

impl DecisionEvent {
    /// An event of the present moment, to be filled in.
    pub fn new(decision_id: u64, object_id: u64) -> (e: Self)
        ensures
            e@ == EventView::blank(decision_id, object_id, e.timestamp_unix_ms),
    {
        DecisionEvent {
            decision_id,
            object_id,
            timestamp_unix_ms: now_unix_ms(),
            resource_snapshot: String::new(),
            predicted_costs_ms: Vec::new(),
            chosen_action: String::new(),
            actual_cost_ms: F64::zero(),
            deadline_remaining_ms: None,
            deadline_met: None,
            prediction_error_ms: None,
            fallback_used: false,
            wasted_ms: F64::zero(),
            regret_ms: None,
        }
    }

    /// The stored form.
    pub fn as_bytes(&self) -> (bytes: Vec<u8>)
        ensures
            bytes@ == self@.encoded(),
    {
        let mut v: Vec<u8> = Vec::new();
        push_u64(&mut v, self.decision_id);
        push_u64(&mut v, self.object_id);
        push_u64(&mut v, self.timestamp_unix_ms);
        push_str(&mut v, &self.resource_snapshot);
        push_vec_f64(&mut v, &self.predicted_costs_ms);
        push_str(&mut v, &self.chosen_action);
        push_f64(&mut v, self.actual_cost_ms);
        push_opt_f64(&mut v, self.deadline_remaining_ms);
        push_opt_bool(&mut v, self.deadline_met);
        push_opt_f64(&mut v, self.prediction_error_ms);
        push_bool(&mut v, self.fallback_used);
        push_f64(&mut v, self.wasted_ms);
        push_opt_f64(&mut v, self.regret_ms);
        assert(v@ =~= self@.encoded());
        v
    }

    /// The event that `data` stores; `None` if it stores none.
    pub fn from_bytes(data: &[u8]) -> (r: Option<DecisionEvent>)
        ensures
            match (EventView::decoded(data@), r) {
                (Some(view), Some(event)) => event@ == view,
                (None, None) => true,
                _ => false,
            },
    {
        let mut d = data;
        let decision_id = take_u64(&mut d)?;
        let object_id = take_u64(&mut d)?;
        let timestamp_unix_ms = take_u64(&mut d)?;
        let resource_snapshot = take_str(&mut d)?;
        let predicted_costs_ms = take_vec_f64(&mut d)?;
        let chosen_action = take_str(&mut d)?;
        let actual_cost_ms = take_f64(&mut d)?;
        let deadline_remaining_ms = take_opt_f64(&mut d)?;
        let deadline_met = take_opt_bool(&mut d)?;
        let prediction_error_ms = take_opt_f64(&mut d)?;
        let fallback_used = take_bool(&mut d)?;
        let wasted_ms = take_f64(&mut d)?;
        let regret_ms = take_opt_f64(&mut d)?;
        Some(
            DecisionEvent {
                decision_id,
                object_id,
                timestamp_unix_ms,
                resource_snapshot,
                predicted_costs_ms,
                chosen_action,
                actual_cost_ms,
                deadline_remaining_ms,
                deadline_met,
                prediction_error_ms,
                fallback_used,
                wasted_ms,
                regret_ms,
            },
        )
    }
}

/// The stored form, read from its first field on.
proof fn lemma_event_bytes(e: EventView, rest: Seq<u8>)
    ensures
        e.encoded() + rest == (crate::observation::codec::le_bytes(e.decision_id as nat, 8) + (crate::observation::codec::le_bytes(e.object_id as nat, 8) + (crate::observation::codec::le_bytes(e.timestamp_unix_ms as nat, 8) + (crate::observation::codec::str_bytes(e.resource_snapshot) + (crate::observation::codec::vec_f64_bytes(e.predicted_costs_ms) + (crate::observation::codec::str_bytes(e.chosen_action) + (crate::observation::codec::f64_bytes(e.actual_cost_ms) + (crate::observation::codec::opt_f64_bytes(e.deadline_remaining_ms) + (crate::observation::codec::opt_bool_bytes(e.deadline_met) + (crate::observation::codec::opt_f64_bytes(e.prediction_error_ms) + (crate::observation::codec::bool_bytes(e.fallback_used) + (crate::observation::codec::f64_bytes(e.wasted_ms) + (crate::observation::codec::opt_f64_bytes(e.regret_ms) + rest))))))))))))),
{
    let id = crate::observation::codec::le_bytes(e.decision_id as nat, 8);
    let object = crate::observation::codec::le_bytes(e.object_id as nat, 8);
    let time = crate::observation::codec::le_bytes(e.timestamp_unix_ms as nat, 8);
    let snapshot = crate::observation::codec::str_bytes(e.resource_snapshot);
    let costs = crate::observation::codec::vec_f64_bytes(e.predicted_costs_ms);
    let chosen = crate::observation::codec::str_bytes(e.chosen_action);
    let actual = crate::observation::codec::f64_bytes(e.actual_cost_ms);
    let remaining = crate::observation::codec::opt_f64_bytes(e.deadline_remaining_ms);
    let met = crate::observation::codec::opt_bool_bytes(e.deadline_met);
    let error = crate::observation::codec::opt_f64_bytes(e.prediction_error_ms);
    let fallback = crate::observation::codec::bool_bytes(e.fallback_used);
    let wasted = crate::observation::codec::f64_bytes(e.wasted_ms);
    let regret = crate::observation::codec::opt_f64_bytes(e.regret_ms);
    let s1 = id + object;
    let s2 = s1 + time;
    let s3 = s2 + snapshot;
    let s4 = s3 + costs;
    let s5 = s4 + chosen;
    let s6 = s5 + actual;
    let s7 = s6 + remaining;
    let s8 = s7 + met;
    let s9 = s8 + error;
    let s10 = s9 + fallback;
    let s11 = s10 + wasted;
    crate::observation::codec::lemma_joined(s11, regret, rest);
    let t12 = regret + rest;
    crate::observation::codec::lemma_joined(s10, wasted, t12);
    let t11 = wasted + t12;
    crate::observation::codec::lemma_joined(s9, fallback, t11);
    let t10 = fallback + t11;
    crate::observation::codec::lemma_joined(s8, error, t10);
    let t9 = error + t10;
    crate::observation::codec::lemma_joined(s7, met, t9);
    let t8 = met + t9;
    crate::observation::codec::lemma_joined(s6, remaining, t8);
    let t7 = remaining + t8;
    crate::observation::codec::lemma_joined(s5, actual, t7);
    let t6 = actual + t7;
    crate::observation::codec::lemma_joined(s4, chosen, t6);
    let t5 = chosen + t6;
    crate::observation::codec::lemma_joined(s3, costs, t5);
    let t4 = costs + t5;
    crate::observation::codec::lemma_joined(s2, snapshot, t4);
    let t3 = snapshot + t4;
    crate::observation::codec::lemma_joined(s1, time, t3);
    let t2 = time + t3;
    crate::observation::codec::lemma_joined(id, object, t2);
}

/// An event read back is the event that was written, whatever follows it.
pub proof fn event_round_trip(e: EventView, rest: Seq<u8>)
    requires
        vstd::utf8::encode_utf8(e.resource_snapshot).len() <= u64::MAX,
        vstd::utf8::encode_utf8(e.chosen_action).len() <= u64::MAX,
        e.predicted_costs_ms.len() <= u64::MAX,
    ensures
        EventView::decoded(e.encoded() + rest) == Some(e),
{
    let regret = crate::observation::codec::opt_f64_bytes(e.regret_ms) + rest;
    let wasted = crate::observation::codec::f64_bytes(e.wasted_ms) + regret;
    let fallback = crate::observation::codec::bool_bytes(e.fallback_used) + wasted;
    let error = crate::observation::codec::opt_f64_bytes(e.prediction_error_ms) + fallback;
    let met = crate::observation::codec::opt_bool_bytes(e.deadline_met) + error;
    let remaining = crate::observation::codec::opt_f64_bytes(e.deadline_remaining_ms) + met;
    let actual = crate::observation::codec::f64_bytes(e.actual_cost_ms) + remaining;
    let chosen = crate::observation::codec::str_bytes(e.chosen_action) + actual;
    let costs = crate::observation::codec::vec_f64_bytes(e.predicted_costs_ms) + chosen;
    let snapshot = crate::observation::codec::str_bytes(e.resource_snapshot) + costs;
    let time = crate::observation::codec::le_bytes(e.timestamp_unix_ms as nat, 8) + snapshot;
    let object = crate::observation::codec::le_bytes(e.object_id as nat, 8) + time;
    let id = crate::observation::codec::le_bytes(e.decision_id as nat, 8) + object;
    crate::observation::codec::opt_f64_round_trip(e.regret_ms, rest);
    crate::observation::codec::f64_round_trip(e.wasted_ms, regret);
    crate::observation::codec::bool_round_trip(e.fallback_used, wasted);
    crate::observation::codec::opt_f64_round_trip(e.prediction_error_ms, fallback);
    crate::observation::codec::opt_bool_round_trip(e.deadline_met, error);
    crate::observation::codec::opt_f64_round_trip(e.deadline_remaining_ms, met);
    crate::observation::codec::f64_round_trip(e.actual_cost_ms, remaining);
    crate::observation::codec::str_round_trip(e.chosen_action, actual);
    crate::observation::codec::vec_f64_round_trip(e.predicted_costs_ms, chosen);
    crate::observation::codec::str_round_trip(e.resource_snapshot, costs);
    crate::observation::codec::u64_round_trip(e.timestamp_unix_ms, snapshot);
    crate::observation::codec::u64_round_trip(e.object_id, time);
    crate::observation::codec::u64_round_trip(e.decision_id, object);
    lemma_event_bytes(e, rest);
}

/// An event is stored field by field: its ids and its time, the state, the predicted costs, the
/// action, what it took, the deadline and whether it was met, the error of the prediction, the
/// fallback, the time wasted and the regret.
pub proof fn events_are_stored_field_by_field(e: EventView, rest: Seq<u8>)
    ensures
        e.encoded() + rest == (crate::observation::codec::le_bytes(e.decision_id as nat, 8) + (crate::observation::codec::le_bytes(e.object_id as nat, 8) + (crate::observation::codec::le_bytes(e.timestamp_unix_ms as nat, 8) + (crate::observation::codec::str_bytes(e.resource_snapshot) + (crate::observation::codec::vec_f64_bytes(e.predicted_costs_ms) + (crate::observation::codec::str_bytes(e.chosen_action) + (crate::observation::codec::f64_bytes(e.actual_cost_ms) + (crate::observation::codec::opt_f64_bytes(e.deadline_remaining_ms) + (crate::observation::codec::opt_bool_bytes(e.deadline_met) + (crate::observation::codec::opt_f64_bytes(e.prediction_error_ms) + (crate::observation::codec::bool_bytes(e.fallback_used) + (crate::observation::codec::f64_bytes(e.wasted_ms) + (crate::observation::codec::opt_f64_bytes(e.regret_ms) + rest))))))))))))),
{
    lemma_event_bytes(e, rest);
}

} // verus!
