//! The actions to choose from.
use vstd::prelude::*;

use crate::binary64::F64;
use crate::prediction::cost::{ActionPredictions, CostEstimate};

verus! {

/// A way to have an object's bytes where they are needed.
#[derive(Debug, Clone, Copy, PartialEq, Eq, Structural)]
pub enum Action {
    Move,
    Recompute,
    /// Recompute on a remote CPU and fetch the result over the network.
    RemoteRecompute,
}

impl Action {
    /// The short name of an action.
    pub open spec fn label(self) -> Seq<char> {
        match self {
            Action::Move => "move"@,
            Action::Recompute => "recompute"@,
            Action::RemoteRecompute => "remote"@,
        }
    }

    pub fn as_str(&self) -> (s: &'static str)
        ensures
            s@ == self.label(),
    {
        match self {
            Action::Move => "move",
            Action::Recompute => "recompute",
            Action::RemoteRecompute => "remote",
        }
    }

    /// Every action.
    pub open spec fn spec_all() -> Seq<Action> {
        seq![Action::Move, Action::Recompute, Action::RemoteRecompute]
    }

    /// Every action.
    pub fn all() -> (a: [Action; 3])
        ensures
            a@ == Action::spec_all(),
    {
        let a = [Action::Move, Action::Recompute, Action::RemoteRecompute];
        assert(a@ =~= Action::spec_all());
        a
    }

    /// The first of the other actions.
    pub open spec fn first_other(self) -> Action {
        match self {
            Action::Move => Action::Recompute,
            _ => Action::Move,
        }
    }

    /// The second of the other actions.
    pub open spec fn second_other(self) -> Action {
        match self {
            Action::RemoteRecompute => Action::Recompute,
            _ => Action::RemoteRecompute,
        }
    }

    /// The other actions.
    pub fn alternatives(&self) -> (a: [Action; 2])
        ensures
            a@ == seq![self.first_other(), self.second_other()],
    {
        let a = match self {
            Action::Move => [Action::Recompute, Action::RemoteRecompute],
            Action::Recompute => [Action::Move, Action::RemoteRecompute],
            Action::RemoteRecompute => [Action::Move, Action::Recompute],
        };
        assert(a@ =~= seq![self.first_other(), self.second_other()]);
        a
    }

    /// The estimate of this action.
    pub open spec fn estimate_in(self, pred: ActionPredictions) -> CostEstimate {
        match self {
            Action::Move => pred.move_est,
            Action::Recompute => pred.recompute_est,
            Action::RemoteRecompute => pred.remote_est,
        }
    }

    /// The time that this action is expected to take, in ms.
    pub fn expected(&self, pred: &ActionPredictions) -> (r: F64)
        ensures
            r == self.estimate_in(*pred).expected_ms,
    {
        match self {
            Action::Move => pred.move_est.expected_ms,
            Action::Recompute => pred.recompute_est.expected_ms,
            Action::RemoteRecompute => pred.remote_est.expected_ms,
        }
    }
}

/// An action and its alternatives are all the actions, each once.
pub proof fn alternatives_are_the_others(a: Action, b: Action)
    ensures
        a.first_other() != a,
        a.second_other() != a,
        a.first_other() != a.second_other(),
        b == a || b == a.first_other() || b == a.second_other(),
        Action::spec_all().contains(b),
{
    assert(Action::spec_all()[0] == Action::Move);
    assert(Action::spec_all()[1] == Action::Recompute);
    assert(Action::spec_all()[2] == Action::RemoteRecompute);
}

/// Different actions have different names.
pub proof fn labels_tell_actions_apart(a: Action, b: Action)
    requires
        a.label() == b.label(),
    ensures
        a == b,
{
    reveal_strlit("move");
    reveal_strlit("recompute");
    reveal_strlit("remote");
    assert("move"@.len() == 4);
    assert("recompute"@.len() == 9);
    assert("remote"@.len() == 6);
}

/// Each action has its own estimate.
pub proof fn estimates_are_the_actions_own(pred: ActionPredictions)
    ensures
        Action::Move.estimate_in(pred) == pred.move_est,
        Action::Recompute.estimate_in(pred) == pred.recompute_est,
        Action::RemoteRecompute.estimate_in(pred) == pred.remote_est,
{
}

} // verus!
