use gpuflux::binary64::F64;
use gpuflux::object::{DataLoc, ObjectSpec};
use gpuflux::observation::{AggregateRow, DecisionEvent, ObservationStore};
use gpuflux::resource::ReadingTexts;
use gpuflux::util::{fill_xorshift, xorshift64};
use gpuflux::{now_unix_ms, unix_ms, Error, ResourceState};

fn f(x: f64) -> F64 {
    F64 { bits: x.to_bits() }
}

fn g(x: F64) -> f64 {
    f64::from_bits(x.bits)
}

fn test_store(name: &str) -> ObservationStore {
    let nanos = std::time::SystemTime::now()
        .duration_since(std::time::UNIX_EPOCH)
        .unwrap()
        .as_nanos();
    ObservationStore::open(&format!("/tmp/gpuflux-test-{name}-{nanos}.db")).unwrap()
}

#[test]
fn first_sample_seeds_ewma() {
    let mut row = AggregateRow::default();
    row.push(f(100.0), f(0.1), 8192);
    assert_eq!(row.sample_count, 1);
    assert_eq!(g(row.ewma_mean), 100.0);
    assert_eq!(g(row.ewma_variance), 0.0);
    assert_eq!(g(row.p(f(0.5))), 100.0);
}

#[test]
fn ewma_mean_and_variance_update() {
    let mut row = AggregateRow::default();
    row.push(f(100.0), f(0.5), 8192);
    row.push(f(200.0), f(0.5), 8192);
    assert!((g(row.ewma_mean) - 150.0).abs() < 1e-9);
    assert!((g(row.ewma_variance) - 1250.0).abs() < 1e-9);
    assert_eq!(row.sample_count, 2);
}

#[test]
fn quantile_over_reservoir() {
    let mut row = AggregateRow::default();
    for x in 1..=100u64 {
        row.push(f(x as f64), f(0.1), 8192);
    }
    assert!((g(row.p(f(0.5))) - 50.0).abs() < 1.5);
    assert!((g(row.p(f(0.9))) - 90.0).abs() < 1.5);
    assert!((g(row.p(f(0.95))) - 95.0).abs() < 1.5);
}

#[test]
fn reservoir_stays_bounded() {
    let mut row = AggregateRow::default();
    for x in 0..20_000u64 {
        row.push(f(x as f64), f(0.1), 100);
    }
    assert!(row.samples.len() <= 100);
}

#[test]
fn deadline_success_rate() {
    let mut row = AggregateRow::default();
    assert_eq!(row.deadline_success_rate(), None);
    row.record_deadline(true);
    row.record_deadline(false);
    assert!((g(row.deadline_success_rate().unwrap()) - 0.5).abs() < 1e-9);
}

#[test]
fn aggregate_redb_round_trip() {
    let mut row = AggregateRow::default();
    row.push(f(10.0), f(0.1), 100);
    row.push(f(20.0), f(0.1), 100);
    row.record_deadline(true);
    let bytes = row.as_bytes();
    let back = AggregateRow::from_bytes(&bytes).unwrap();
    assert_eq!(back.sample_count, row.sample_count);
    assert_eq!(back.ewma_mean, row.ewma_mean);
    assert_eq!(back.ewma_variance, row.ewma_variance);
    assert_eq!(back.samples, row.samples);
    assert_eq!(back.deadline_ok, row.deadline_ok);
    assert_eq!(back.deadline_total, row.deadline_total);
    assert_eq!(back.last_update_unix_ms, row.last_update_unix_ms);
    assert_eq!(back.model_version, row.model_version);
}

#[test]
fn event_redb_round_trip() {
    let mut ev = DecisionEvent::new(42, 7);
    ev.resource_snapshot = "cpu=0.5,nvme=100".into();
    ev.predicted_costs_ms = vec![f(10.0), f(20.0)];
    ev.chosen_action = "move".into();
    ev.actual_cost_ms = f(15.0);
    ev.deadline_remaining_ms = Some(f(100.0));
    ev.deadline_met = Some(true);
    ev.prediction_error_ms = Some(f(5.0));
    ev.fallback_used = true;
    ev.wasted_ms = f(3.0);
    ev.regret_ms = Some(f(2.0));

    let bytes = ev.as_bytes();
    let back = DecisionEvent::from_bytes(&bytes).unwrap();
    assert_eq!(back.decision_id, ev.decision_id);
    assert_eq!(back.object_id, ev.object_id);
    assert_eq!(back.timestamp_unix_ms, ev.timestamp_unix_ms);
    assert_eq!(back.resource_snapshot, ev.resource_snapshot);
    assert_eq!(back.predicted_costs_ms, ev.predicted_costs_ms);
    assert_eq!(back.chosen_action, ev.chosen_action);
    assert_eq!(back.actual_cost_ms, ev.actual_cost_ms);
    assert_eq!(back.deadline_remaining_ms, ev.deadline_remaining_ms);
    assert_eq!(back.deadline_met, ev.deadline_met);
    assert_eq!(back.prediction_error_ms, ev.prediction_error_ms);
    assert_eq!(back.fallback_used, ev.fallback_used);
    assert_eq!(back.wasted_ms, ev.wasted_ms);
    assert_eq!(back.regret_ms, ev.regret_ms);
}

#[test]
fn record_aggregate_roundtrip() {
    let mut store = test_store("aggregate");
    store.record("move/sim/1024", f(10.0)).unwrap();
    store.record("move/sim/1024", f(20.0)).unwrap();
    store.record_deadline("move/sim/1024", true).unwrap();

    let row = store.aggregate("move/sim/1024").unwrap().unwrap();
    assert_eq!(row.sample_count, 2);
    // EWMA: first sample seeds 10.0, second: 0.1*20 + 0.9*10 = 11.0
    assert!((g(row.ewma_mean) - 11.0).abs() < 1e-9);
    assert_eq!(row.deadline_success_rate(), Some(f(1.0)));

    assert!(store.aggregate("nope").unwrap().is_none());
}

#[test]
fn event_log_append() {
    let mut store = test_store("events");
    store.log_event(DecisionEvent::new(1, 1)).unwrap();
    store.log_event(DecisionEvent::new(2, 1)).unwrap();
    assert_eq!(store.event_count().unwrap(), 2);
}

#[test]
fn logging_an_id_again_replaces_its_event() {
    let mut store = test_store("again");
    assert_eq!(store.event_count().unwrap(), 0);
    store.log_event(DecisionEvent::new(5, 1)).unwrap();
    store.log_event(DecisionEvent::new(5, 2)).unwrap();
    assert_eq!(store.event_count().unwrap(), 1);
}

#[test]
fn a_store_keeps_its_rows_when_it_is_opened_again() {
    let nanos = std::time::SystemTime::now()
        .duration_since(std::time::UNIX_EPOCH)
        .unwrap()
        .as_nanos();
    let path = format!("/tmp/gpuflux-test-again-{nanos}.db");
    {
        let mut store = ObservationStore::open(&path).unwrap();
        store.record("a", f(3.0)).unwrap();
        store.record("b", f(4.0)).unwrap();
    }
    let store = ObservationStore::open(&path).unwrap();
    assert_eq!(g(store.aggregate("a").unwrap().unwrap().ewma_mean), 3.0);
    assert_eq!(g(store.aggregate("b").unwrap().unwrap().ewma_mean), 4.0);
}

#[test]
fn a_store_that_cannot_be_made_is_an_error() {
    let r = ObservationStore::open("/nonexistent-directory/gpuflux.db");
    assert!(matches!(r, Err(Error::Store(_))));
}

#[test]
fn ewma_std_is_the_root_of_the_variance() {
    let mut row = AggregateRow::default();
    row.ewma_variance = f(1250.0);
    assert_eq!(g(row.ewma_std()), 1250f64.sqrt());
    row.ewma_variance = f(-1.0);
    assert_eq!(g(row.ewma_std()), 0.0);
}

#[test]
fn quantiles_of_nothing_are_not_numbers() {
    let row = AggregateRow::default();
    assert!(row.p(f(0.5)).is_nan());
}

#[test]
fn halving_keeps_every_second_sample() {
    let mut row = AggregateRow::default();
    for x in 1..=5u64 {
        row.push_at(f(x as f64), f(0.1), 4, 99);
    }
    let kept: Vec<f64> = row.samples.iter().map(|x| g(*x)).collect();
    assert_eq!(kept, vec![1.0, 3.0, 5.0]);
    assert_eq!(row.last_update_unix_ms, 99);
    assert_eq!(row.sample_count, 5);
}

#[test]
fn quantiles_rise_with_their_order() {
    let mut row = AggregateRow::default();
    for x in [5.0, 1.0, 4.0, 2.0, 3.0] {
        row.push(f(x), f(0.1), 100);
    }
    assert_eq!(g(row.p(f(0.0))), 1.0);
    assert_eq!(g(row.p(f(0.5))), 3.0);
    assert_eq!(g(row.p(f(0.9))), 5.0);
    assert_eq!(g(row.p(f(1.0))), 5.0);
    assert_eq!(g(row.p(f(7.0))), 5.0);
}

#[test]
fn stored_bytes_of_a_row() {
    let row = AggregateRow::default();
    let bytes = row.as_bytes();
    assert_eq!(bytes, vec![0u8; 60]);
    assert!(AggregateRow::from_bytes(&bytes[..59]).is_none());
    let mut wrong = bytes.clone();
    wrong[24] = 1;
    assert!(AggregateRow::from_bytes(&wrong).is_none());
}

#[test]
fn events_that_are_cut_or_garbled_are_not_read() {
    let mut ev = DecisionEvent::new(1, 2);
    ev.resource_snapshot = "aé".into();
    let bytes = ev.as_bytes();
    assert_eq!(DecisionEvent::from_bytes(&bytes).unwrap().resource_snapshot, "aé");
    assert!(DecisionEvent::from_bytes(&bytes[..bytes.len() - 1]).is_none());
    let mut garbled = bytes.clone();
    // The second byte of the two-byte character.
    garbled[24 + 8 + 2] = b'x';
    assert!(DecisionEvent::from_bytes(&garbled).is_none());
}

#[test]
fn clones_hold_the_same() {
    let mut row = AggregateRow::default();
    row.push(f(2.0), f(0.1), 10);
    assert_eq!(row.clone().as_bytes(), row.as_bytes());
    let ev = DecisionEvent::new(9, 8);
    assert_eq!(ev.clone().as_bytes(), ev.as_bytes());
}

#[test]
fn clock_readings() {
    let before = std::time::SystemTime::now()
        .duration_since(std::time::UNIX_EPOCH)
        .unwrap()
        .as_millis() as u64;
    let now = now_unix_ms();
    assert!(before <= now && now < before + 60_000);
    assert_eq!(unix_ms(None), 0);
    assert_eq!(unix_ms(Some(1234)), 1234);
    assert_eq!(unix_ms(Some((1u128 << 64) + 5)), 5);
    assert!(ResourceState::now().captured_at_unix_ms >= before);
    assert_eq!(ResourceState::default().cpu_util, None);
}

#[test]
fn generated_bytes() {
    let mut s: u64 = 1;
    assert_eq!(xorshift64(&mut s), 1082269761);
    assert_eq!(s, 1082269761);
    let mut a = vec![0u8; 20];
    let mut b = vec![0u8; 8];
    fill_xorshift(&mut a, 7);
    fill_xorshift(&mut b, 7);
    let mut t: u64 = 7;
    let first = xorshift64(&mut t).to_le_bytes();
    let second = xorshift64(&mut t).to_le_bytes();
    let third = xorshift64(&mut t).to_le_bytes();
    assert_eq!(b, first.to_vec());
    assert_eq!(a[..8].to_vec(), first.to_vec());
    assert_eq!(a[8..16].to_vec(), second.to_vec());
    assert_eq!(a[16..].to_vec(), third[..4].to_vec());
    let mut z = vec![0u8; 8];
    let mut o = vec![0u8; 8];
    fill_xorshift(&mut z, 0);
    fill_xorshift(&mut o, 1);
    assert_eq!(z, o);
}

#[test]
fn objects_and_places() {
    let o = ObjectSpec::new(3, 1024, DataLoc::Nvme);
    assert_eq!((o.id, o.size_bytes, o.seed()), (3, 1024, 3));
    assert_eq!(o.loc, DataLoc::Nvme);
    let names: Vec<&str> = [
        DataLoc::GpuMemory,
        DataLoc::HostMemory,
        DataLoc::Nvme,
        DataLoc::Remote,
        DataLoc::Recompute,
    ]
    .iter()
    .map(|l| l.as_str())
    .collect();
    assert_eq!(names, vec!["gpu", "host", "nvme", "remote", "recompute"]);
}

#[test]
fn error_messages() {
    let e = Error::from(std::io::Error::new(std::io::ErrorKind::Other, "disk"));
    assert_eq!(e.message("disk"), "io error: disk");
    assert_eq!(Error::Invalid("x".into()).message(""), "invalid input: x");
    assert_eq!(Error::Backend("y".into()).message(""), "backend error: y");
    let s = Error::from(redb::Error::Corrupted("z".into()));
    assert_eq!(s.message("z"), "store error: z");
}

/// Puts raw bytes under a bucket of a new store, and opens it.
fn store_with(name: &str, bucket: &str, bytes: &[u8]) -> ObservationStore {
    let nanos = std::time::SystemTime::now()
        .duration_since(std::time::UNIX_EPOCH)
        .unwrap()
        .as_nanos();
    let path = format!("/tmp/gpuflux-test-{name}-{nanos}.db");
    {
        let db = redb::Database::create(&path).unwrap();
        let txn = db.begin_write().unwrap();
        {
            let mut rows = txn
                .open_table(redb::TableDefinition::<&str, &[u8]>::new("observations"))
                .unwrap();
            rows.insert(bucket, bytes).unwrap();
        }
        txn.commit().unwrap();
    }
    ObservationStore::open(&path).unwrap()
}

#[test]
fn rows_that_cannot_be_read_are_refused() {
    let mut store = store_with("garbled", "b", &[1, 2, 3]);
    assert!(matches!(store.aggregate("b"), Err(Error::Invalid(_))));
    assert!(matches!(store.record("b", f(1.0)), Err(Error::Invalid(_))));
    assert!(matches!(store.record_deadline("b", true), Err(Error::Invalid(_))));
    store.record("c", f(1.0)).unwrap();
}

#[test]
fn full_counts_are_refused() {
    let mut row = AggregateRow::default();
    row.sample_count = u64::MAX;
    row.deadline_total = u64::MAX;
    let mut store = store_with("full", "b", &row.as_bytes());
    assert!(matches!(store.record("b", f(1.0)), Err(Error::Invalid(_))));
    assert!(matches!(store.record_deadline("b", false), Err(Error::Invalid(_))));
    assert_eq!(store.aggregate("b").unwrap().unwrap().sample_count, u64::MAX);
}

#[test]
fn buckets_do_not_touch_one_another() {
    let mut store = test_store("apart");
    store.record("a", f(1.0)).unwrap();
    let before = store.aggregate("a").unwrap().unwrap().as_bytes();
    store.record("b", f(2.0)).unwrap();
    store.record_deadline("b", false).unwrap();
    store.log_event(DecisionEvent::new(1, 1)).unwrap();
    assert_eq!(store.aggregate("a").unwrap().unwrap().as_bytes(), before);
    assert_eq!(
        store.aggregate("b").unwrap().unwrap().deadline_success_rate(),
        Some(f(0.0))
    );
}

#[test]
fn a_new_store_has_its_tables() {
    let store = test_store("fresh");
    assert_eq!(store.event_count().unwrap(), 0);
    assert!(store.aggregate("move/sim/1024").unwrap().is_none());
}

#[test]
fn stores_at_two_paths_are_two_stores() {
    let mut one = test_store("one");
    let other = test_store("other");
    one.record("move/sim/1024", f(10.0)).unwrap();
    one.log_event(DecisionEvent::new(1, 1)).unwrap();
    assert!(one.aggregate("move/sim/1024").unwrap().is_some());
    assert!(other.aggregate("move/sim/1024").unwrap().is_none());
    assert_eq!(other.event_count().unwrap(), 0);
}

#[test]
fn snapshots_without_readings() {
    let s = ResourceState::captured(1_700_000_000_123);
    assert_eq!(s.captured_at_unix_ms, 1_700_000_000_123);
    assert!(s.cpu_util.is_none() && s.gpu_util.is_none() && s.remote_cpu_util.is_none());
    assert!(s.gpu_memory_used.is_none() && s.nvme_queue_depth.is_none());
    assert!(s.nvme_latency_us.is_none() && s.pcie_bandwidth.is_none());
}

#[test]
fn extreme_quantiles() {
    let mut row = AggregateRow::default();
    for x in [7.0, -0.0, 3.5, 0.0, 11.25, 2.0] {
        row.push(f(x), f(0.1), 100);
    }
    assert_eq!(row.p(f(0.0)), f(-0.0));
    assert_eq!(row.p(f(-0.0)), f(-0.0));
    assert_eq!(row.p(f(1.0)), f(11.25));
    assert_eq!(row.samples[0], f(7.0));
}

#[test]
fn snapshots_as_texts() {
    let texts = ReadingTexts {
        cpu_util: "0.5".into(),
        gpu_util: "0.25".into(),
        nvme_latency_us: "120.0".into(),
        pcie_bandwidth: "25000000000.0".into(),
        remote_cpu_util: "1.0".into(),
    };
    assert_eq!(
        ResourceState::captured(17).snapshot(&texts),
        "ResourceState { cpu_util: None, gpu_util: None, gpu_memory_used: None, \
         nvme_queue_depth: None, nvme_latency_us: None, pcie_bandwidth: None, \
         remote_cpu_util: None, captured_at_unix_ms: 17 }"
    );
    let state = ResourceState {
        cpu_util: Some(f(0.5)),
        gpu_util: Some(f(0.25)),
        gpu_memory_used: Some(1024),
        nvme_queue_depth: Some(3),
        nvme_latency_us: Some(f(120.0)),
        pcie_bandwidth: Some(f(25e9)),
        remote_cpu_util: Some(f(1.0)),
        captured_at_unix_ms: 1_700_000_000_123,
    };
    assert_eq!(
        state.snapshot(&texts),
        "ResourceState { cpu_util: Some(0.5), gpu_util: Some(0.25), gpu_memory_used: Some(1024), \
         nvme_queue_depth: Some(3), nvme_latency_us: Some(120.0), \
         pcie_bandwidth: Some(25000000000.0), remote_cpu_util: Some(1.0), \
         captured_at_unix_ms: 1700000000123 }"
    );
}
