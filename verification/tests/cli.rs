use gpuflux::binary64::F64;
use gpuflux::cli::{
    deadline_arg, get_arg, mean, mean_abs, parse_size, size_number, stats, sum,
};
use gpuflux::decision::{Action, DecisionContext, DecisionOutcome, Policy};
use gpuflux::executor::Span;
use gpuflux::object::{DataLoc, ObjectSpec};
use gpuflux::prediction::{ActionPredictions, CostEstimate, CurrentStateCostModel};
use gpuflux::study::{setup, AnyPolicy, AnyPredictor, PolicyKind, PredictorKind, Study, Tally};
use gpuflux::{Error, ResourceState};

fn f(x: f64) -> F64 {
    F64 { bits: x.to_bits() }
}

fn g(x: F64) -> f64 {
    f64::from_bits(x.bits)
}

fn size(s: &str) -> Option<u64> {
    let number = size_number(s).parse::<f64>().ok().map(f);
    parse_size(s, number).ok()
}

fn args(v: &[&str]) -> Vec<String> {
    v.iter().map(|s| s.to_string()).collect()
}

#[test]
fn sizes() {
    assert_eq!(size("256MiB"), Some(268_435_456));
    assert_eq!(size("1GiB"), Some(1 << 30));
    assert_eq!(size("500MB"), Some(500_000_000));
    assert_eq!(size("100kb"), Some(100_000));
    assert_eq!(size("4096"), Some(4096));
    assert_eq!(size("2 KiB"), Some(2048));
    assert_eq!(size("  1.5gb\n"), Some(1_500_000_000));
    assert_eq!(size("7B"), Some(7));
    assert_eq!(size("\u{3000}3b"), Some(3));
    assert_eq!(size("-5"), Some(0));
    assert_eq!(size_number("12.5 Mib"), "12.5");
}

#[test]
fn sizes_that_are_none() {
    match parse_size(" 12QB ", size_number(" 12QB ").parse::<f64>().ok().map(f)) {
        Err(Error::Invalid(m)) => assert_eq!(m, "bad size: 12qb"),
        _ => panic!("not a size"),
    }
    assert_eq!(size(""), None);
    assert_eq!(size("MiB"), None);
}

#[test]
fn arguments() {
    let a = args(&["--size=5", "--iters", "7", "--sizes", "9", "--last"]);
    assert_eq!(get_arg(&a, "--size", "1"), "5");
    assert_eq!(get_arg(&a, "--iters", "1"), "7");
    assert_eq!(get_arg(&a, "--sizes", "1"), "9");
    assert_eq!(get_arg(&a, "--last", "x"), "x");
    assert_eq!(get_arg(&a, "--none", "y"), "y");
    assert_eq!(get_arg(&args(&["--k=", "--k=2"]), "--k", "z"), "");
    assert_eq!(get_arg(&args(&["--kk", "--k", "--k=2"]), "--k", "z"), "--k=2");
}

#[test]
fn deadlines() {
    assert!(matches!(deadline_arg("", None), Ok(None)));
    match deadline_arg("5", Some(f(5.0))) {
        Ok(d) => assert_eq!(d, Some(f(5.0))),
        Err(_) => panic!("a number"),
    }
    match deadline_arg("soon", None) {
        Err(Error::Invalid(m)) => assert_eq!(m, "bad --deadline-ms"),
        _ => panic!("not a number"),
    }
}

#[test]
fn statistics() {
    let durs: Vec<Span> = [30u32, 10, 20, 40]
        .iter()
        .map(|ms| Span {
            secs: 0,
            nanos: ms * 1_000_000,
        })
        .collect();
    let s = stats(&durs, 1_000_000);
    assert_eq!(s.n, 4);
    assert_eq!(g(s.mean_ms), 25.0);
    assert_eq!(g(s.std_ms), 125f64.sqrt());
    assert_eq!((g(s.min_ms), g(s.max_ms)), (10.0, 40.0));
    assert_eq!((g(s.p50_ms), g(s.p90_ms), g(s.p95_ms)), (30.0, 40.0, 40.0));
    let mean_s = (0.03 + 0.01 + 0.02 + 0.04) / 4.0;
    assert_eq!(g(s.mb_s), 1e6 / mean_s / 1e6);
    let none = stats(&[Span::zero()], 10);
    assert_eq!(g(none.mb_s), 0.0);
}

#[test]
fn sums_and_means() {
    assert_eq!(g(sum(&[f(0.1), f(0.2), f(0.3)])), 0.1 + 0.2 + 0.3);
    assert_eq!(g(mean(&[f(1.0), f(2.0)])), 1.5);
    assert_eq!(g(mean_abs(&[f(-1.0), f(2.0)])), 1.5);
    assert!(mean(&[]).is_nan());
    assert_eq!(g(sum(&[])), 0.0);
}

#[test]
fn setups_of_the_studies() {
    assert!(matches!(
        setup(Study::Baseline, "always_move"),
        Ok((PolicyKind::AlwaysMove, PredictorKind::CurrentState))
    ));
    assert!(matches!(
        setup(Study::History, "historical_cost"),
        Ok((PolicyKind::ExpectedCost, PredictorKind::Historical))
    ));
    assert!(matches!(
        setup(Study::Deadline, "risk_aware"),
        Ok((PolicyKind::RiskAware, PredictorKind::Historical))
    ));
    assert!(matches!(
        setup(Study::Replanning, "deadline_aware"),
        Ok((PolicyKind::DeadlineAware, PredictorKind::Historical))
    ));
    assert!(matches!(
        setup(Study::Regression, "regression_cost"),
        Ok((PolicyKind::ExpectedCost, PredictorKind::Regression))
    ));
    assert!(matches!(
        setup(Study::Remote, "deadline_aware"),
        Ok((PolicyKind::DeadlineAware, PredictorKind::CurrentState))
    ));
    match setup(Study::Remote, "always_move") {
        Err(Error::Invalid(m)) => assert_eq!(m, "unknown policy: always_move"),
        _ => panic!("not in this study"),
    }
    assert!(setup(Study::Baseline, "expected_cost").is_err());
    assert!(setup(Study::Demo, "risk_aware").is_err());
}

#[test]
fn any_policy_is_its_policy() {
    let est = |x: f64| CostEstimate::point(f(x));
    let pred = ActionPredictions {
        move_est: est(2.0),
        recompute_est: est(1.0),
        remote_est: est(3.0),
    };
    let ctx = DecisionContext {
        object: ObjectSpec::new(1, 1, DataLoc::HostMemory),
        resource: ResourceState::default(),
        deadline: None,
    };
    let p = AnyPolicy::of(PolicyKind::ExpectedCost, f(0.0), f(0.0));
    assert_eq!(p.choose_action(&ctx, &pred), Action::Recompute);
    assert_eq!(p.name(), "expected_cost");
    let p = AnyPolicy::of(PolicyKind::AlwaysMove, f(0.0), f(0.0));
    assert_eq!(p.choose_action(&ctx, &pred), Action::Move);
    let p = AnyPredictor::of(PredictorKind::Historical, CurrentStateCostModel::default());
    assert!(matches!(p, AnyPredictor::Historical(_)));
}

#[test]
fn tallies() {
    let mut t = Tally::new();
    t.count_in(DecisionOutcome {
        action: Action::Move,
        actual_ms: f(10.0),
        regret_ms: Some(f(4.0)),
        deadline_met: true,
        prediction_error_ms: None,
        fallback_used: false,
        wasted_ms: f(0.0),
    });
    t.count_in(DecisionOutcome {
        action: Action::RemoteRecompute,
        actual_ms: f(20.0),
        regret_ms: None,
        deadline_met: false,
        prediction_error_ms: Some(f(-2.0)),
        fallback_used: true,
        wasted_ms: f(3.0),
    });
    assert_eq!((t.moves, t.recomputes, t.remotes), (1, 0, 1));
    assert_eq!((t.met, t.fallbacks), (1, 1));
    assert_eq!(g(mean(&t.regrets)), 2.0);
    assert_eq!(g(mean_abs(&t.errors)), 1.0);
    assert_eq!(g(mean(&t.wasted)), 1.5);
    assert_eq!(t.actuals, vec![f(10.0), f(20.0)]);
}
