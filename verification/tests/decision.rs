use gpuflux::binary64::F64;
use gpuflux::decision::engine::first_id_after;
use gpuflux::decision::policy::DeadlineAhead;
use gpuflux::decision::{
    Action, AlwaysMove, AlwaysRecompute, DeadlineAware, DecisionContext, DecisionEngine,
    DecisionRun, ExpectedCost, Measurement, Mode, Next, Policy, RiskAware,
};
use gpuflux::executor::Span;
use gpuflux::object::{DataLoc, ObjectSpec};
use gpuflux::observation::{AggregateRow, DecisionEvent, ObservationStore};
use gpuflux::prediction::cost::ActionElementary;
use gpuflux::prediction::deadline::Elementary;
use gpuflux::prediction::{
    action_bucket, ActionPredictions, CostEstimate, CostModel, CurrentStateCostModel,
    CurrentStatePredictor, Predictor,
};
use gpuflux::resource::ReadingTexts;
use gpuflux::{Error, ResourceState};

fn f(x: f64) -> F64 {
    F64 { bits: x.to_bits() }
}

fn g(x: F64) -> f64 {
    f64::from_bits(x.bits)
}

fn est(expected: f64, p50: f64, p90: f64, miss: Option<f64>) -> CostEstimate {
    CostEstimate {
        expected_ms: f(expected),
        p50_ms: f(p50),
        p90_ms: f(p90),
        p95_ms: f(p90 + (p90 - p50)),
        deadline_probability: miss.map(f),
    }
}

fn no_values() -> ActionElementary {
    let none = Elementary::unused();
    ActionElementary {
        move_values: none,
        recompute_values: none,
        remote_values: none,
    }
}

fn ctx(deadline: bool) -> DecisionContext {
    DecisionContext {
        object: ObjectSpec::new(1, 1024, DataLoc::GpuMemory),
        resource: ResourceState::now(),
        deadline: if deadline {
            Some(DeadlineAhead {
                remaining_ms: f(1000.0),
                values: no_values(),
            })
        } else {
            None
        },
    }
}

fn test_store(name: &str) -> ObservationStore {
    let nanos = std::time::SystemTime::now()
        .duration_since(std::time::UNIX_EPOCH)
        .unwrap()
        .as_nanos();
    ObservationStore::open(&format!("/tmp/gpuflux-test-{name}-{nanos}.db")).unwrap()
}

fn engine<P: Policy>(name: &str, policy: P) -> DecisionEngine<P, CurrentStatePredictor> {
    let model = CurrentStateCostModel::default();
    DecisionEngine::new(test_store(name), policy, CurrentStatePredictor { model }).unwrap()
}

fn texts() -> ReadingTexts {
    ReadingTexts {
        cpu_util: "0.5".into(),
        gpu_util: "0.25".into(),
        nvme_latency_us: "120.0".into(),
        pcie_bandwidth: "25000000000.0".into(),
        remote_cpu_util: "1.0".into(),
    }
}

fn took(ms: f64) -> Measurement {
    Measurement {
        ms: f(ms),
        deadline_met: true,
        aborted: false,
    }
}

fn execute(next: Next) -> DecisionRun {
    match next {
        Next::Execute(r) => r,
        Next::Done(_) => panic!("done too early"),
    }
}

#[test]
fn expected_cost_picks_min() {
    let pred = ActionPredictions {
        move_est: est(100.0, 100.0, 100.0, None),
        recompute_est: est(80.0, 80.0, 80.0, None),
        remote_est: est(1e9, 1e9, 1e9, None),
    };
    assert_eq!(
        ExpectedCost.choose_action(&ctx(false), &pred),
        Action::Recompute
    );
}

#[test]
fn deadline_aware_inverts_on_risk() {
    // move: faster expected but risky tail near deadline
    let pred = ActionPredictions {
        move_est: est(120.0, 120.0, 300.0, Some(0.9)),
        recompute_est: est(150.0, 150.0, 160.0, Some(0.0)),
        remote_est: est(1e9, 1e9, 1e9, None),
    };
    let policy = DeadlineAware {
        lambda: f(200.0),
        mu: f(0.0),
    };
    assert_eq!(
        policy.choose_action(&ctx(true), &pred),
        Action::Recompute
    );
}

#[test]
fn deadline_aware_prefers_move_when_safe() {
    let pred = ActionPredictions {
        move_est: est(120.0, 120.0, 125.0, Some(0.0)),
        recompute_est: est(150.0, 150.0, 160.0, Some(0.0)),
        remote_est: est(1e9, 1e9, 1e9, None),
    };
    let policy = DeadlineAware {
        lambda: f(200.0),
        mu: f(0.0),
    };
    assert_eq!(policy.choose_action(&ctx(true), &pred), Action::Move);
}

#[test]
fn risk_aware_prefers_low_spread() {
    let pred = ActionPredictions {
        move_est: est(130.0, 130.0, 300.0, None),
        recompute_est: est(140.0, 140.0, 150.0, None),
        remote_est: est(1e9, 1e9, 1e9, None),
    };
    let policy = RiskAware { mu: f(0.5) };
    assert_eq!(
        policy.choose_action(&ctx(false), &pred),
        Action::Recompute
    );
}

#[test]
fn without_a_deadline_ahead_misses_weigh_nothing() {
    let pred = ActionPredictions {
        move_est: est(120.0, 120.0, 300.0, Some(0.9)),
        recompute_est: est(150.0, 150.0, 160.0, Some(0.0)),
        remote_est: est(1e9, 1e9, 1e9, None),
    };
    let policy = DeadlineAware {
        lambda: f(200.0),
        mu: f(0.0),
    };
    assert_eq!(policy.choose_action(&ctx(false), &pred), Action::Move);
}

#[test]
fn estimates_without_a_probability_get_one() {
    // A point estimate of 2000 ms misses a deadline 1000 ms away.
    let pred = ActionPredictions {
        move_est: est(900.0, 900.0, 900.0, None),
        recompute_est: est(1050.0, 1050.0, 1050.0, None),
        remote_est: est(2000.0, 2000.0, 2000.0, None),
    };
    let policy = DeadlineAware {
        lambda: f(-5000.0),
        mu: f(0.0),
    };
    assert_eq!(
        policy.choose_action(&ctx(true), &pred),
        Action::Recompute
    );
}

#[test]
fn fixed_policies_and_names() {
    let pred = ActionPredictions {
        move_est: est(1.0, 1.0, 1.0, None),
        recompute_est: est(1.0, 1.0, 1.0, None),
        remote_est: est(0.0, 0.0, 0.0, None),
    };
    assert_eq!(AlwaysMove.choose_action(&ctx(false), &pred), Action::Move);
    assert_eq!(
        AlwaysRecompute.choose_action(&ctx(false), &pred),
        Action::Recompute
    );
    assert_eq!(
        ExpectedCost.choose_action(&ctx(false), &pred),
        Action::RemoteRecompute
    );
    assert_eq!(AlwaysMove.name(), "always_move");
    assert_eq!(AlwaysRecompute.name(), "always_recompute");
    assert_eq!(ExpectedCost.name(), "expected_cost");
    assert_eq!(RiskAware { mu: f(0.0) }.name(), "risk_aware");
    let d = DeadlineAware {
        lambda: f(0.0),
        mu: f(0.0),
    };
    assert_eq!(d.name(), "deadline_aware");
}

#[test]
fn an_infinite_remote_is_never_taken() {
    let pred = ActionPredictions {
        move_est: est(1e300, 1e300, 1e301, None),
        recompute_est: est(f64::NAN, 1.0, 2.0, None),
        remote_est: CostEstimate::point(F64::infinity()),
    };
    assert_eq!(ExpectedCost.choose_action(&ctx(false), &pred), Action::Move);
    assert_eq!(
        RiskAware { mu: f(3.0) }.choose_action(&ctx(false), &pred),
        Action::Move
    );
}

#[test]
fn actions_and_alternatives() {
    let names: Vec<&str> = Action::all().iter().map(|a| a.as_str()).collect();
    assert_eq!(names, vec!["move", "recompute", "remote"]);
    assert_eq!(
        Action::Move.alternatives(),
        [Action::Recompute, Action::RemoteRecompute]
    );
    assert_eq!(
        Action::Recompute.alternatives(),
        [Action::Move, Action::RemoteRecompute]
    );
    assert_eq!(
        Action::RemoteRecompute.alternatives(),
        [Action::Move, Action::Recompute]
    );
}

#[test]
fn a_plain_decision() {
    let mut e = engine("plain", AlwaysMove);
    assert_eq!(e.policy_name(), "always_move");
    let object = ObjectSpec::new(5, 1 << 20, DataLoc::GpuMemory);
    let state = ResourceState::default();
    let proposal = e.decide(&object, state, None);
    assert_eq!(
        proposal.pred,
        e.predictor().predict(e.store(), &object, &state)
    );
    let run = e.choose_for(&proposal, no_values(), None).unwrap();
    assert_eq!(run.action_now(), Action::Move);
    assert_eq!(run.deadline_now(), None);
    assert!(!run.watched());
    let done = e.measured(&run, took(12.5), &texts()).unwrap();
    match done {
        Next::Done(o) => {
            assert_eq!(o.action, Action::Move);
            assert_eq!(g(o.actual_ms), 12.5);
            assert_eq!(o.regret_ms, None);
            assert_eq!(
                g(o.prediction_error_ms.unwrap()),
                12.5 - g(proposal.pred.move_est.expected_ms)
            );
            assert!(!o.fallback_used && o.deadline_met);
        }
        Next::Execute(_) => panic!("one execution is enough"),
    }
    assert_eq!(e.store().event_count().unwrap(), 1);
    let row = e
        .store()
        .aggregate(&action_bucket(&object, "move", &state))
        .unwrap()
        .unwrap();
    assert_eq!(row.sample_count, 1);
    assert_eq!((row.deadline_ok, row.deadline_total), (1, 1));
}

#[test]
fn a_measured_decision_knows_its_regret() {
    let mut e = engine("measured", AlwaysRecompute).with_remote_exec();
    assert!(e.configured(Action::RemoteRecompute));
    let object = ObjectSpec::new(5, 1 << 20, DataLoc::GpuMemory);
    let state = ResourceState::default();
    let proposal = e.decide_and_measure(&object, state, Some(f(100.0)));
    let run = e.choose_for(&proposal, no_values(), None).unwrap();
    assert_eq!(run.deadline_now(), Some(f(100.0)));
    let run = execute(e.measured(&run, took(30.0), &texts()).unwrap());
    assert_eq!(run.action_now(), Action::Move);
    assert_eq!(run.deadline_now(), None);
    let run = execute(e.measured(&run, took(20.0), &texts()).unwrap());
    assert_eq!(run.action_now(), Action::RemoteRecompute);
    match e.measured(&run, took(25.0), &texts()).unwrap() {
        Next::Done(o) => {
            assert_eq!(o.regret_ms, Some(f(10.0)));
            assert_eq!(g(o.actual_ms), 30.0);
        }
        Next::Execute(_) => panic!("three executions are enough"),
    }
    for (name, n) in [("move", 0), ("recompute", 1), ("remote", 0)] {
        let row = e
            .store()
            .aggregate(&action_bucket(&object, name, &state))
            .unwrap()
            .unwrap();
        assert_eq!(row.sample_count, 1);
        assert_eq!(row.deadline_total, n);
    }
    assert_eq!(e.store().event_count().unwrap(), 1);
}

#[test]
fn without_a_remote_node_two_actions_are_measured() {
    let mut e = engine("two", AlwaysMove);
    assert!(!e.configured(Action::RemoteRecompute));
    let object = ObjectSpec::new(5, 1 << 20, DataLoc::GpuMemory);
    let proposal = e.decide_and_measure(&object, ResourceState::default(), None);
    let run = e.choose_for(&proposal, no_values(), None).unwrap();
    let run = execute(e.measured(&run, took(30.0), &texts()).unwrap());
    assert_eq!(run.action_now(), Action::Recompute);
    match e.measured(&run, took(45.0), &texts()).unwrap() {
        Next::Done(o) => assert_eq!(o.regret_ms, Some(f(0.0))),
        Next::Execute(_) => panic!("two executions are enough"),
    }
}

#[test]
fn a_guarded_decision_falls_back() {
    let mut e = engine("guarded", AlwaysMove);
    let object = ObjectSpec::new(5, 1 << 28, DataLoc::GpuMemory);
    let state = ResourceState::default();
    let proposal = e.decide_with_fallback(&object, state, Some(f(260.0)));
    let run = e.choose_for(&proposal, no_values(), None).unwrap();
    assert!(run.watched());
    assert_eq!(run.fallback(), Action::Recompute);
    // At 50 ms a tenth is done: 500 ms in all, and the recompute still fits.
    let at = Span {
        secs: 0,
        nanos: 50_000_000,
    };
    assert!(run.should_abort(at, f(0.1)));
    assert!(!run.should_abort(at, f(0.5)));
    assert!(!run.should_abort(at, f(0.0)));
    let aborted = Measurement {
        ms: f(50.0),
        deadline_met: true,
        aborted: true,
    };
    let run = execute(e.measured(&run, aborted, &texts()).unwrap());
    assert_eq!(run.action_now(), Action::Recompute);
    assert_eq!(run.deadline_now(), Some(f(210.0)));
    assert!(!run.watched());
    match e.measured(&run, took(130.0), &texts()).unwrap() {
        Next::Done(o) => {
            assert!(o.fallback_used);
            assert_eq!(o.action, Action::Move);
            assert_eq!((g(o.wasted_ms), g(o.actual_ms)), (50.0, 180.0));
            assert_eq!(o.prediction_error_ms, None);
        }
        Next::Execute(_) => panic!("two executions are enough"),
    }
    let moved = e.store().aggregate(&action_bucket(&object, "move", &state));
    assert!(moved.unwrap().is_none());
}

#[test]
fn a_guarded_decision_that_is_in_time_is_plain() {
    let mut e = engine("in-time", AlwaysMove);
    let object = ObjectSpec::new(5, 1 << 20, DataLoc::GpuMemory);
    let proposal = e.decide_with_fallback(&object, ResourceState::default(), Some(f(1000.0)));
    let run = e.choose_for(&proposal, no_values(), None).unwrap();
    match e.measured(&run, took(5.0), &texts()).unwrap() {
        Next::Done(o) => assert!(!o.fallback_used && g(o.wasted_ms) == 0.0),
        Next::Execute(_) => panic!("one execution is enough"),
    }
}

#[test]
fn nothing_is_given_up_without_a_deadline() {
    let e = engine("calm", AlwaysMove);
    let object = ObjectSpec::new(5, 1 << 28, DataLoc::GpuMemory);
    let proposal = e.decide_with_fallback(&object, ResourceState::default(), None);
    let run = e.choose_for(&proposal, no_values(), None).unwrap();
    let long = Span {
        secs: 100,
        nanos: 0,
    };
    assert!(!run.should_abort(long, f(0.001)));
}

#[test]
fn choosing_a_remote_that_is_not_there_is_an_error() {
    let model = CurrentStateCostModel {
        remote_enabled: true,
        remote_rate_bps: f(1e15),
        network_latency_ms: f(0.0),
        network_bandwidth_bps: f(1e15),
        recompute_overhead_ms: f(0.0),
        ..Default::default()
    };
    let e = DecisionEngine::new(
        test_store("no-remote"),
        ExpectedCost,
        CurrentStatePredictor { model },
    )
    .unwrap();
    let object = ObjectSpec::new(5, 1 << 28, DataLoc::GpuMemory);
    let proposal = e.decide(&object, ResourceState::default(), None);
    assert_eq!(proposal.mode, Mode::Plain);
    match e.choose_for(&proposal, no_values(), None) {
        Err(Error::Invalid(m)) => assert_eq!(m, "remote executor not configured"),
        _ => panic!("there is no remote executor"),
    }
}

#[test]
fn deadlines_reach_the_predictions() {
    let e = engine("assessed", AlwaysMove);
    let object = ObjectSpec::new(5, 1 << 28, DataLoc::GpuMemory);
    let proposal = e.decide(&object, ResourceState::default(), Some(f(1.0)));
    assert_eq!(proposal.pred.move_est.deadline_probability, None);
    let run = e.choose_for(&proposal, no_values(), None).unwrap();
    assert_eq!(run.pred.move_est.deadline_probability, Some(f(1.0)));
    assert_eq!(run.pred.recompute_est.deadline_probability, Some(f(1.0)));
}

#[test]
fn decisions_get_ids_of_their_own() {
    let mut e = engine("ids", AlwaysMove);
    let object = ObjectSpec::new(5, 1 << 20, DataLoc::GpuMemory);
    for n in 1..=3u64 {
        let proposal = e.decide(&object, ResourceState::default(), None);
        let run = e.choose_for(&proposal, no_values(), None).unwrap();
        let _ = e.measured(&run, took(1.0), &texts()).unwrap();
        assert_eq!(e.store().event_count().unwrap(), n);
    }
}

fn by_cost(move_ms: f64, recompute_ms: f64, remote_ms: f64) -> Action {
    let pred = ActionPredictions {
        move_est: CostEstimate::point(f(move_ms)),
        recompute_est: CostEstimate::point(f(recompute_ms)),
        remote_est: CostEstimate::point(f(remote_ms)),
    };
    ExpectedCost.choose_action(&ctx(false), &pred)
}

#[test]
fn the_channel_follows_the_state() {
    // Idle, contended storage, busy GPU, busy CPU, loaded remote node.
    assert_eq!(by_cost(150.0, 128.0, 96.0), Action::RemoteRecompute);
    assert_eq!(by_cost(400.0, 128.0, 96.0), Action::RemoteRecompute);
    assert_eq!(by_cost(400.0, 128.0, f64::INFINITY), Action::Recompute);
    assert_eq!(by_cost(150.0, 280.0, 120.0), Action::RemoteRecompute);
    assert_eq!(by_cost(150.0, 280.0, f64::INFINITY), Action::Move);
    assert_eq!(by_cost(150.0, 190.0, 96.0), Action::RemoteRecompute);
    assert_eq!(by_cost(150.0, 128.0, 540.0), Action::Recompute);
}

#[test]
fn gpu_load_turns_recompute_into_move() {
    let model = CurrentStateCostModel::default();
    let object = ObjectSpec::new(37, 256 << 20, DataLoc::GpuMemory);
    let state = |load: f64| ResourceState {
        gpu_util: Some(f(load)),
        pcie_bandwidth: Some(f(25e9)),
        ..Default::default()
    };
    let costs = |load: f64| {
        let s = state(load);
        (
            g(model.move_cost(&s, &object).expected_ms),
            g(model.recompute_cost(&s, &object).expected_ms),
        )
    };
    let (move_ms, recompute_ms) = costs(0.7);
    assert_eq!((move_ms.round(), recompute_ms.round()), (181.0, 252.0));
    assert_eq!(by_cost(move_ms, recompute_ms, f64::INFINITY), Action::Move);
    let (move_ms, recompute_ms) = costs(0.0);
    assert_eq!(
        by_cost(move_ms, recompute_ms, f64::INFINITY),
        Action::Recompute
    );
}

#[test]
fn remote_load_turns_remote_into_move() {
    let model = CurrentStateCostModel {
        recompute_passes: f(4.0),
        remote_enabled: true,
        remote_rate_bps: f(8400.0 * 1e6),
        ..Default::default()
    };
    let object = ObjectSpec::new(31, 256 << 20, DataLoc::GpuMemory);
    let chosen = |load: f64| {
        let s = ResourceState {
            remote_cpu_util: Some(f(load)),
            ..Default::default()
        };
        by_cost(
            g(model.move_cost(&s, &object).expected_ms),
            g(model.recompute_cost(&s, &object).expected_ms),
            g(model.remote_recompute_cost(&s, &object).expected_ms),
        )
    };
    assert_eq!(chosen(0.1), Action::RemoteRecompute);
    assert_eq!(chosen(0.5), Action::Move);
    assert_eq!(chosen(0.9), Action::Move);
}

#[test]
fn a_path_on_the_way_to_be_late_is_given_up() {
    let e = engine("late", AlwaysMove);
    let object = ObjectSpec::new(5, 1 << 20, DataLoc::GpuMemory);
    let proposal = e.decide_with_fallback(&object, ResourceState::default(), Some(f(100.0)));
    let run = e.choose_for(&proposal, no_values(), None).unwrap();
    // Projected to end at 120 ms; 70 ms are left, and the recompute takes about 1.5 ms.
    assert!(run.should_abort(Span { secs: 0, nanos: 30_000_000 }, f(0.25)));
    // With no time left for the alternative it is seen through.
    assert!(!run.should_abort(Span { secs: 0, nanos: 99_900_000 }, f(0.25)));
}

#[test]
fn a_path_in_time_is_not_given_up() {
    let e = engine("in-time", AlwaysMove);
    let object = ObjectSpec::new(5, 1 << 20, DataLoc::GpuMemory);
    let proposal = e.decide_with_fallback(&object, ResourceState::default(), Some(f(120.0)));
    let mut run = e.choose_for(&proposal, no_values(), None).unwrap();
    run.pred.recompute_est = CostEstimate::point(f(50.0));
    let at = Span { secs: 0, nanos: 60_000_000 };
    // It will end at 100 ms.
    assert!(!run.should_abort(at, f(0.6)));
    // It would end at 150 ms, and the recompute at 110 ms.
    assert!(run.should_abort(at, f(0.4)));
}

#[test]
fn an_engine_goes_on_with_the_log() {
    let mut store = test_store("log");
    store.log_event(DecisionEvent::new(1, 7)).unwrap();
    store.log_event(DecisionEvent::new(41, 7)).unwrap();
    assert_eq!(store.last_event_id().unwrap(), Some(41));
    let model = CurrentStateCostModel::default();
    let mut e = DecisionEngine::new(store, AlwaysMove, CurrentStatePredictor { model }).unwrap();
    let object = ObjectSpec::new(5, 1 << 20, DataLoc::GpuMemory);
    let proposal = e.decide(&object, ResourceState::default(), None);
    let run = e.choose_for(&proposal, no_values(), None).unwrap();
    e.measured(&run, took(12.5), &texts()).unwrap();
    assert_eq!(e.store().event_count().unwrap(), 3);
    assert_eq!(e.store().last_event_id().unwrap(), Some(42));
}

#[test]
fn a_log_without_ids_left_is_refused() {
    let mut store = test_store("last-id");
    assert_eq!(store.last_event_id().unwrap(), None);
    store.log_event(DecisionEvent::new(u64::MAX, 7)).unwrap();
    let model = CurrentStateCostModel::default();
    match DecisionEngine::new(store, AlwaysMove, CurrentStatePredictor { model }) {
        Err(Error::Invalid(m)) => assert_eq!(m, "no event id left"),
        _ => panic!("there is no id left"),
    }
    assert_eq!(first_id_after(None), Some(1));
    assert_eq!(first_id_after(Some(9)), Some(10));
    assert_eq!(first_id_after(Some(u64::MAX)), None);
}

#[test]
fn a_lesson_that_is_refused_is_not_logged() {
    let nanos = std::time::SystemTime::now()
        .duration_since(std::time::UNIX_EPOCH)
        .unwrap()
        .as_nanos();
    let path = format!("/tmp/gpuflux-test-refused-{nanos}.db");
    let object = ObjectSpec::new(5, 1 << 20, DataLoc::GpuMemory);
    let state = ResourceState::default();
    {
        let mut row = AggregateRow::default();
        row.sample_count = u64::MAX;
        let bytes = row.as_bytes();
        let db = redb::Database::create(&path).unwrap();
        let txn = db.begin_write().unwrap();
        txn.open_table(redb::TableDefinition::<&str, &[u8]>::new("observations"))
            .unwrap()
            .insert(action_bucket(&object, "move", &state).as_str(), bytes.as_slice())
            .unwrap();
        txn.commit().unwrap();
    }
    let store = ObservationStore::open(&path).unwrap();
    let model = CurrentStateCostModel::default();
    let mut e = DecisionEngine::new(store, AlwaysMove, CurrentStatePredictor { model }).unwrap();
    // Nothing is recorded yet after the first of three executions.
    let proposal = e.decide_and_measure(&object, state, None);
    let run = e.choose_for(&proposal, no_values(), None).unwrap();
    let run = execute(e.measured(&run, took(30.0), &texts()).unwrap());
    match e.measured(&run, took(45.0), &texts()) {
        Err(Error::Invalid(m)) => assert_eq!(m, "sample count at its limit"),
        _ => panic!("the bucket is full"),
    }
    assert_eq!(e.store().event_count().unwrap(), 0);
}

#[test]
fn weights_that_count_for_nothing() {
    let pred = ActionPredictions {
        move_est: est(100.0, 90.0, 300.0, Some(0.9)),
        recompute_est: est(120.0, 120.0, 130.0, Some(0.0)),
        remote_est: est(110.0, 100.0, 110.0, None),
    };
    for mu in [0.0, 0.1, 5.0] {
        let risk = RiskAware { mu: f(mu) }.choose_action(&ctx(false), &pred);
        for lambda in [0.0, 1.0, 1e9] {
            let policy = DeadlineAware {
                lambda: f(lambda),
                mu: f(mu),
            };
            assert_eq!(policy.choose_action(&ctx(false), &pred), risk);
        }
    }
    assert_eq!(
        RiskAware { mu: f(0.0) }.choose_action(&ctx(false), &pred),
        ExpectedCost.choose_action(&ctx(false), &pred)
    );
    assert_eq!(
        RiskAware { mu: f(5.0) }.choose_action(&ctx(false), &pred),
        Action::RemoteRecompute
    );
}
