use gpuflux::binary64::F64;
use gpuflux::object::{DataLoc, ObjectSpec};
use gpuflux::observation::{AggregateRow, ObservationStore};
use gpuflux::prediction::deadline::{
    decay_exponent, deadline_exceed_probability, uncertainty_ms, Elementary, LogNormal, Logs,
};
use gpuflux::prediction::{
    action_bucket, features, regime_suffix, CostEstimate, CostModel, CurrentStateCostModel,
    CurrentStatePredictor, HistoricalPredictor, OnlineLinearRegression, OnlineRegressionPredictor,
    Predictor,
};
use gpuflux::{Error, ResourceState};

fn f(x: f64) -> F64 {
    F64 { bits: x.to_bits() }
}

fn g(x: F64) -> f64 {
    f64::from_bits(x.bits)
}

fn spec(size: u64) -> ObjectSpec {
    ObjectSpec::new(1, size, DataLoc::GpuMemory)
}

fn test_store(name: &str) -> ObservationStore {
    let nanos = std::time::SystemTime::now()
        .duration_since(std::time::UNIX_EPOCH)
        .unwrap()
        .as_nanos();
    ObservationStore::open(&format!("/tmp/gpuflux-test-{name}-{nanos}.db")).unwrap()
}

fn point(p50: f64, p90: f64) -> CostEstimate {
    CostEstimate {
        expected_ms: f(p50),
        p50_ms: f(p50),
        p90_ms: f(p90),
        p95_ms: f(p90 + (p90 - p50)),
        deadline_probability: None,
    }
}

/// The elementary-function values for an estimate and a deadline.
fn values(est: &CostEstimate, d: f64) -> Elementary {
    let logs = Logs {
        p50: f(g(est.p50_ms).ln()),
        p90: f(g(est.p90_ms).ln()),
        deadline: f(d.ln()),
    };
    Elementary {
        logs,
        decay: f(g(decay_exponent(est, logs)).exp()),
    }
}

fn miss(est: &CostEstimate, d: f64) -> f64 {
    g(deadline_exceed_probability(est, f(d), values(est, d)))
}

fn fit(p50: f64, p90: f64) -> LogNormal {
    LogNormal::from_p50_p90(f(p50), f(p90), f(p50.ln()), f(p90.ln())).unwrap()
}

fn exceed(dist: &LogNormal, d: f64) -> f64 {
    let ln_d = f(d.ln());
    let decay = f(g(dist.exponent(ln_d)).exp());
    g(dist.exceed_probability(f(d), ln_d, decay))
}

#[test]
fn move_cost_scales_with_size() {
    let m = CurrentStateCostModel::default();
    let small = m
        .move_cost(&ResourceState::default(), &spec(1_000_000))
        .expected_ms;
    let big = m
        .move_cost(&ResourceState::default(), &spec(10_000_000))
        .expected_ms;
    assert!(g(big) > g(small));
}

#[test]
fn nvme_latency_raises_move_cost() {
    let m = CurrentStateCostModel::default();
    let idle = ResourceState::default();
    let contended = ResourceState {
        nvme_latency_us: Some(f(2000.0)),
        ..Default::default()
    };
    let s = spec(1_000_000);
    let c_idle = m.move_cost(&idle, &s).expected_ms;
    let c_busy = m.move_cost(&contended, &s).expected_ms;
    assert!(g(c_busy) > g(c_idle));
}

#[test]
fn recompute_cost_scales_with_passes() {
    let m1 = CurrentStateCostModel {
        recompute_passes: f(1.0),
        ..Default::default()
    };
    let m2 = CurrentStateCostModel {
        recompute_passes: f(3.0),
        ..Default::default()
    };
    let s = spec(1_000_000);
    let c1 = m1.recompute_cost(&ResourceState::default(), &s).expected_ms;
    let c2 = m2.recompute_cost(&ResourceState::default(), &s).expected_ms;
    assert!(g(c2) > g(c1));
}

#[test]
fn lognormal_fit_is_monotonic() {
    let d = fit(100.0, 200.0);
    let p_small = exceed(&d, 50.0);
    let p_mid = exceed(&d, 150.0);
    let p_large = exceed(&d, 250.0);
    assert!(p_small > p_mid && p_mid > p_large);
    assert!(p_mid > 0.0 && p_mid < 1.0);
}

#[test]
fn lognormal_p90_matches_fit() {
    let d = fit(100.0, 200.0);
    assert!((exceed(&d, 200.0) - 0.1).abs() < 0.05);
}

#[test]
fn degenerate_point_estimate_threshold() {
    let est = point(100.0, 100.0);
    assert_eq!(miss(&est, 150.0), 0.0);
    assert_eq!(miss(&est, 50.0), 1.0);
}

#[test]
fn inverted_quantiles_fall_back() {
    let est = point(100.0, 50.0);
    assert_eq!(miss(&est, 150.0), 0.0);
}

#[test]
fn uncertainty_is_spread() {
    assert_eq!(g(uncertainty_ms(&point(100.0, 160.0))), 60.0);
    assert_eq!(g(uncertainty_ms(&point(100.0, 80.0))), 0.0);
}

#[test]
fn recovers_linear_mapping() {
    let mut reg = OnlineLinearRegression::new();
    let mut rng = 12_345u64;
    for _ in 0..4000 {
        rng = rng
            .wrapping_mul(6364136223846793005)
            .wrapping_add(1442695040888963407);
        let cpu = (rng >> 32) as f64 / u32::MAX as f64;
        let x = [f(1.0), f(cpu), f(0.0), f(0.0)];
        let y = 10.0 + 5.0 * cpu;
        reg.update(&x, f(y));
    }
    let w = reg.weights();
    assert!((g(w[0]) - 10.0).abs() < 1.0, "bias={}", g(w[0]));
    assert!((g(w[1]) - 5.0).abs() < 1.0, "cpu={}", g(w[1]));
    let yhat = g(reg.predict(&[f(1.0), f(0.5), f(0.0), f(0.0)]));
    assert!((yhat - 12.5).abs() < 1.0, "yhat={yhat}");
}

#[test]
fn residual_quantiles_reflect_noise() {
    let mut reg = OnlineLinearRegression::new();
    // Zero-noise, long enough to evict pre-convergence residuals from the
    // bounded reservoir: residuals collapse to ~0.
    for _ in 0..2000 {
        reg.update(&[f(1.0), f(0.0), f(0.0), f(0.0)], f(100.0));
    }
    assert!(g(reg.residual_quantile(f(0.9))).abs() < 0.5);
    // Inject uniform noise in [0, 100): model tracks the mean (~150), so
    // residuals are symmetric around 0 and p90 is positive but bounded.
    for i in 0..1000u64 {
        reg.update(
            &[f(1.0), f(0.0), f(0.0), f(0.0)],
            f(100.0 + (i % 100) as f64),
        );
    }
    let r90 = g(reg.residual_quantile(f(0.9)));
    let r50 = g(reg.residual_quantile(f(0.5)));
    assert!(r90 > 20.0 && r90 < 60.0, "r90={r90}");
    assert!(r50.abs() < 10.0, "r50={r50}");
}

#[test]
fn miss_probability_is_that_of_the_formula() {
    let est = point(100.0, 200.0);
    let d = 150.0f64;
    let sigma = (200f64.ln() - 100f64.ln()) / 1.281551565545;
    let z = (d.ln() - 100f64.ln()) / sigma;
    let x = z / std::f64::consts::SQRT_2;
    let t = 1.0 / (1.0 + 0.3275911 * x);
    let y = 1.0
        - (((((1.061405429 * t - 1.453152027) * t) + 1.421413741) * t - 0.284496736) * t
            + 0.254829592)
            * t
            * (-x * x).exp();
    assert_eq!(miss(&est, d), 1.0 - 0.5 * (1.0 + y));
    assert_eq!(miss(&est, 0.0), 1.0);
    assert_eq!(miss(&point(0.0, 0.0), 10.0), 0.0);
    assert!(LogNormal::from_p50_p90(f(0.0), f(1.0), f(0.0), f(0.0)).is_none());
    assert!(LogNormal::from_p50_p90(f(1.0), f(f64::INFINITY), f(0.0), f(0.0)).is_none());
}

#[test]
fn model_costs_are_those_of_the_formulas() {
    let m = CurrentStateCostModel {
        remote_enabled: true,
        ..Default::default()
    };
    let s = ResourceState {
        cpu_util: Some(f(0.5)),
        gpu_util: Some(f(0.25)),
        nvme_queue_depth: Some(3),
        nvme_latency_us: Some(f(300.0)),
        pcie_bandwidth: Some(f(25e9)),
        remote_cpu_util: Some(f(0.2)),
        ..Default::default()
    };
    let o = spec(268_435_456);
    let size = 268_435_456f64;
    let move_rate = (1.5e9 * (150.0 / 300.0f64).clamp(0.2, 1.0) / (1.0 + 0.5 * 3.0)).min(25e9);
    assert_eq!(
        g(m.move_cost(&s, &o).expected_ms),
        2.0 + size / move_rate * 1000.0
    );
    let rate = 4.2e9 * (1.0 - 0.7 * 0.5f64).max(0.05) * (1.0 - 0.7 * 0.25f64).max(0.05);
    assert_eq!(
        g(m.recompute_cost(&s, &o).p90_ms),
        1.0 + (2.0 * size) / rate * 1000.0
    );
    let remote_rate = 4.2e9 * (1.0 - 0.7 * 0.2f64).max(0.05);
    let compute = 2.0 * size / remote_rate * 1000.0;
    let transfer = 5.0 + size / 10e9 * 1000.0;
    assert_eq!(
        g(m.remote_recompute_cost(&s, &o).expected_ms),
        1.0 + compute + transfer
    );
    let off = CurrentStateCostModel::default();
    assert_eq!(g(off.remote_recompute_cost(&s, &o).expected_ms), f64::INFINITY);
}

#[test]
fn a_slow_pcie_link_bounds_the_move() {
    let m = CurrentStateCostModel::default();
    let s = ResourceState {
        pcie_bandwidth: Some(f(1e6)),
        ..Default::default()
    };
    assert_eq!(g(m.move_cost(&s, &spec(1_000_000)).expected_ms), 1002.0);
}

#[test]
fn regimes_and_buckets() {
    let mut s = ResourceState::default();
    assert_eq!(regime_suffix(&s), "cpu-na/io-lo/gpu-lo");
    s.cpu_util = Some(f(0.1));
    s.nvme_latency_us = Some(f(200.0));
    s.gpu_util = Some(f(0.5));
    assert_eq!(regime_suffix(&s), "cpu-lo/io-hi/gpu-hi");
    s.cpu_util = Some(f(0.33));
    s.nvme_latency_us = Some(f(199.0));
    assert_eq!(regime_suffix(&s), "cpu-med/io-lo/gpu-hi");
    s.cpu_util = Some(f(0.66));
    assert_eq!(
        action_bucket(&spec(268435456), "move", &s),
        "move/sim/268435456/cpu-hi/io-lo/gpu-hi"
    );
    assert_eq!(
        action_bucket(&spec(0), "remote", &ResourceState::default()),
        "remote/sim/0/cpu-na/io-lo/gpu-lo"
    );
}

#[test]
fn features_of_a_state() {
    let s = ResourceState {
        cpu_util: Some(f(0.5)),
        nvme_latency_us: Some(f(250.0)),
        nvme_queue_depth: Some(7),
        ..Default::default()
    };
    let x: Vec<f64> = features(&s).iter().map(|v| g(*v)).collect();
    assert_eq!(x, vec![1.0, 0.5, 0.5, 7.0]);
    let none: Vec<f64> = features(&ResourceState::default()).iter().map(|v| g(*v)).collect();
    assert_eq!(none, vec![1.0, 0.0, 0.0, 0.0]);
}

#[test]
fn one_regression_update() {
    let mut reg = OnlineLinearRegression::new();
    assert_eq!(reg.n(), 0);
    assert_eq!(g(reg.residual_quantile(f(0.5))), 0.0);
    reg.update(&[f(1.0), f(0.0), f(0.0), f(0.0)], f(10.0));
    assert_eq!(reg.n(), 1);
    let k = 100.0 / (0.99 + 100.0 + 1e-3);
    assert_eq!(g(reg.weights()[0]), 0.0 + k * 10.0);
    assert_eq!(g(reg.weights()[1]), 0.0);
    assert_eq!(g(reg.residual_quantile(f(0.5))), 10.0);
    assert_eq!(reg.clone().weights(), reg.weights());
}

#[test]
fn history_blends_with_the_model() {
    let p = HistoricalPredictor::new(CurrentStateCostModel::default());
    let current = CostEstimate::point(f(100.0));
    assert_eq!(p.estimate_from(None, current), current);
    assert_eq!(p.estimate_of(Ok(None), current), current);
    let failed = Err(Error::Invalid("stored row cannot be read".to_string()));
    assert_eq!(p.estimate_of(failed, current), current);
    assert_eq!(p.estimate_from(Some(AggregateRow::default()), current), current);
    let mut row = AggregateRow::default();
    for _ in 0..10 {
        row.push(f(40.0), f(0.1), 100);
    }
    let e = p.estimate_from(Some(row.clone()), current);
    assert_eq!(p.estimate_of(Ok(Some(row.clone())), current), e);
    let w = 10.0 / 20.0f64;
    assert_eq!(g(e.expected_ms), w * g(row.ewma_mean) + (1.0 - w) * 100.0);
    assert_eq!(g(e.p90_ms), w * 40.0 + (1.0 - w) * 100.0);
    assert_eq!(e.deadline_probability, None);
    row.sample_count = 1000;
    let full = p.estimate_from(Some(row.clone()), current);
    assert_eq!(g(full.p50_ms), 0.95 * 40.0 + (1.0 - 0.95) * 100.0);
}

#[test]
fn predictors_fall_back_on_the_model() {
    let store = test_store("cold");
    let model = CurrentStateCostModel::default();
    let s = ResourceState::default();
    let o = spec(1 << 20);
    let base = CurrentStatePredictor { model }.predict(&store, &o, &s);
    let hist = HistoricalPredictor::new(model).predict(&store, &o, &s);
    let reg = OnlineRegressionPredictor::new(model).predict(&store, &o, &s);
    assert_eq!(base, hist);
    assert_eq!(base, reg);
}

#[test]
fn history_is_read_from_the_store() {
    let mut store = test_store("history");
    let model = CurrentStateCostModel::default();
    let s = ResourceState::default();
    let o = spec(1 << 20);
    for _ in 0..40 {
        store
            .record(&action_bucket(&o, "recompute", &s), f(7.0))
            .unwrap();
    }
    let p = HistoricalPredictor::new(model);
    let r = p.predict(&store, &o, &s);
    let cur = g(model.recompute_cost(&s, &o).expected_ms);
    assert_eq!(g(r.recompute_est.p50_ms), 0.95 * 7.0 + (1.0 - 0.95) * cur);
    assert_eq!(r.move_est, model.move_cost(&s, &o));
}

#[test]
fn regressions_count_after_enough_outcomes() {
    let store = test_store("regression");
    let model = CurrentStateCostModel::default();
    let s = ResourceState::default();
    let o = spec(1 << 20);
    let mut p = OnlineRegressionPredictor::new(model);
    for _ in 0..4 {
        p.update("move", &o, &s, f(50.0));
    }
    assert_eq!(p.predict(&store, &o, &s).move_est, model.move_cost(&s, &o));
    p.update("move", &o, &s, f(50.0));
    p.update("something else", &o, &s, f(50.0));
    let r = p.predict(&store, &o, &s);
    assert!((g(r.move_est.expected_ms) - 50.0).abs() < 5.0);
    assert_eq!(r.recompute_est, model.recompute_cost(&s, &o));
    let (wm, wr, wx) = p.weights();
    assert!(g(wm[0]) > 45.0);
    assert_eq!(g(wr[0]), 0.0);
    assert_eq!(g(wx[0]), 0.0);
}

#[test]
fn known_latency_never_speeds_a_move_up() {
    let model = CurrentStateCostModel::default();
    let object = ObjectSpec::new(1, 1_000_000, DataLoc::Nvme);
    let cost = |latency: Option<f64>| {
        let state = ResourceState {
            nvme_latency_us: latency.map(f),
            nvme_queue_depth: Some(3),
            ..Default::default()
        };
        g(model.move_cost(&state, &object).expected_ms)
    };
    let mut last = cost(None);
    for l in [-5.0, 0.0, 100.0, 150.0, 400.0, 2000.0, f64::INFINITY] {
        let next = cost(Some(l));
        assert!(last <= next);
        last = next;
    }
    assert!(cost(None) < cost(Some(2000.0)));
}

#[test]
fn misses_have_probabilities() {
    let dist = LogNormal::from_p50_p90(f(100.0), f(200.0), f(100f64.ln()), f(200f64.ln())).unwrap();
    for d in [-1.0, 0.0, 1e-300, 1.0, 50.0, 99.9, 100.0, 100.1, 200.0, 1e6, 1e300] {
        for decay in [0.0, 0.25, 0.5, 1.0] {
            let p = g(dist.exceed_probability(f(d), f(f64::max(d, 1e-300).ln()), f(decay)));
            assert!((0.0..=1.0).contains(&p));
        }
    }
}
