use gpuflux::binary64::F64;
use gpuflux::contention::{ContentionFile, FILE_CHUNK, FILE_SEED};
use gpuflux::executor::cuda::{require_device, ExecutionResult};
use gpuflux::executor::remote::RemoteRun;
use gpuflux::executor::sim::{
    MovePhase, MoveRun, MoveStep, RecomputePlan, RecomputeRun, RecomputeStep, CHUNK,
};
use gpuflux::executor::{
    in_time, MoveReport, RecomputeReport, SimMoveExecutor, SimRecomputeExecutor,
    SimRemoteExecutor, Span,
};
use gpuflux::object::{DataLoc, ObjectSpec};
use gpuflux::telemetry::{system_state, CpuMeter, CpuTicks, CudaReadings, CudaSampler};
use gpuflux::util::fill_xorshift;
use gpuflux::Error;

fn f(x: f64) -> F64 {
    F64 { bits: x.to_bits() }
}

fn g(x: F64) -> f64 {
    f64::from_bits(x.bits)
}

fn object(size: u64) -> ObjectSpec {
    ObjectSpec::new(9, size, DataLoc::GpuMemory)
}

fn ms(n: u32) -> Span {
    Span {
        secs: 0,
        nanos: n * 1_000_000,
    }
}

#[test]
fn a_move_writes_and_reads_every_chunk() {
    let size = 2 * CHUNK as u64 + 5;
    let mut run = MoveRun::start(&object(size), size);
    let mut steps = Vec::new();
    loop {
        let step = run.poll(false);
        steps.push(step);
        match step {
            MoveStep::Write { n, .. } => {
                let p = run.completed(n, ms(1));
                assert_eq!(p.phase, "move:write");
                assert_eq!(p.bytes_done, run.done());
                assert_eq!(g(p.fraction_done), run.done() as f64 / (2 * size) as f64);
            }
            MoveStep::Read { n, .. } => {
                let p = run.completed(n, ms(2));
                assert_eq!(p.phase, "move:read");
                assert_eq!(p.elapsed, ms(2));
                assert_eq!(
                    g(p.fraction_done),
                    (size as f64 + run.done() as f64) / (2 * size) as f64
                );
            }
            MoveStep::Sync => {}
            MoveStep::Finish => break,
        }
    }
    let c = CHUNK as u64;
    assert_eq!(
        steps,
        vec![
            MoveStep::Write { from: 0, n: c },
            MoveStep::Write { from: c, n: c },
            MoveStep::Write { from: 2 * c, n: 5 },
            MoveStep::Sync,
            MoveStep::Read { from: 0, n: c },
            MoveStep::Read { from: c, n: c },
            MoveStep::Read { from: 2 * c, n: 5 },
            MoveStep::Finish,
        ]
    );
    let r = run.report(ms(9), ms(4), ms(5), Some(ms(9)), ms(9));
    assert!(!r.aborted && r.deadline_met);
    assert_eq!((r.bytes, r.write_elapsed, r.read_elapsed), (size, ms(4), ms(5)));
}

#[test]
fn a_move_is_given_up_between_chunks() {
    let mut run = MoveRun::start(&object(100), 100);
    assert_eq!(run.poll(false), MoveStep::Write { from: 0, n: 100 });
    run.completed(100, ms(1));
    assert_eq!(run.poll(true), MoveStep::Finish);
    assert!(run.aborted());
    assert_eq!(run.phase(), MovePhase::Writing);
    let r = run.report(ms(3), ms(2), ms(1), Some(ms(2)), ms(3));
    assert!(r.aborted && !r.deadline_met && r.read_elapsed == Span::zero());
    // What was given up is not held to its bytes.
    assert!(run.verify(9, &vec![1], &vec![2]).is_ok());
}

#[test]
fn an_empty_move_is_never_given_up() {
    let mut run = MoveRun::start(&object(0), 0);
    assert_eq!(run.poll(true), MoveStep::Sync);
    assert_eq!(run.poll(true), MoveStep::Finish);
    assert!(!run.aborted());
}

#[test]
fn bytes_that_come_back_different_are_an_error() {
    let run = MoveRun::start(&object(3), 3);
    assert!(run.verify(9, &vec![1, 2, 3], &vec![1, 2, 3]).is_ok());
    match run.verify(9, &vec![1, 2, 3], &vec![1, 2, 4]) {
        Err(Error::Invalid(m)) => assert_eq!(m, "move integrity mismatch for object 9"),
        _ => panic!("the bytes differ"),
    }
    assert!(run.verify(9, &vec![1, 2], &vec![1, 2, 3]).is_err());
}

#[test]
fn moved_bytes_are_generated_once() {
    let mut e = SimMoveExecutor::new("/tmp/somewhere".to_string());
    assert_eq!(e.name(), "sim/ssd");
    assert_eq!(e.dir(), "/tmp/somewhere");
    assert_eq!(e.file_name(&object(1)), "obj-9.bin");
    assert!(e.buffer(9).is_none());
    e.prepare(&object(10));
    let mut expected = vec![0u8; 10];
    fill_xorshift(&mut expected, 9);
    assert_eq!(e.buffer(9), Some(&expected));
    e.prepare(&object(20));
    assert_eq!(e.buffer(9), Some(&expected));
}

#[test]
fn a_recompute_makes_its_passes() {
    let e = SimRecomputeExecutor {
        passes: f(2.5),
        gpu_load: f(0.0),
    };
    assert_eq!(e.name(), "sim/recompute");
    let o = object(1000);
    let plan = e.plan(&o);
    assert_eq!((plan.full, plan.partial), (2, 500));
    assert_eq!(g(plan.total_work), 2500.0);
    assert!(plan.fits(1000));
    assert!(!plan.fits(499));
    assert!(!plan.fits(u64::MAX));
    let mut run = RecomputeRun::start(&o, plan);
    let mut seen = Vec::new();
    loop {
        match run.step(false) {
            RecomputeStep::Checkpoint {
                phase,
                bytes_done,
                fraction_done,
            } => seen.push((phase, bytes_done, g(fraction_done))),
            RecomputeStep::Finish => break,
        }
    }
    assert_eq!(
        seen,
        vec![
            ("recompute:pass", 1000, 0.4),
            ("recompute:pass", 2000, 0.8),
            ("recompute:partial", 2500, 1.0),
        ]
    );
    let mut expected = vec![0u8; 1000];
    fill_xorshift(&mut expected, 10);
    fill_xorshift(&mut expected[..500], 11);
    assert_eq!(run.bytes(), &expected);
    let r = run.report(ms(7), None, ms(7));
    assert_eq!((r.bytes, r.passes, r.aborted), (1000, 2, false));
    assert!(r.deadline_met);
    assert!(!run.report(ms(7), Some(ms(6)), ms(7)).deadline_met);
}

#[test]
fn a_recompute_fills_chunk_by_chunk() {
    let e = SimRecomputeExecutor {
        passes: f(1.0),
        gpu_load: f(0.0),
    };
    let size = CHUNK as u64 + 3;
    let o = object(size);
    let mut run = RecomputeRun::start(&o, e.plan(&o));
    let mut n = 0;
    while matches!(run.step(false), RecomputeStep::Checkpoint { .. }) {
        n += 1;
    }
    assert_eq!(n, 2);
    let mut tail = vec![0u8; 3];
    fill_xorshift(&mut tail, 9 + CHUNK as u64);
    assert_eq!(run.bytes()[CHUNK..].to_vec(), tail);
}

#[test]
fn a_recompute_is_given_up() {
    let e = SimRecomputeExecutor::default();
    let o = object(100);
    let mut run = RecomputeRun::start(&o, e.plan(&o));
    assert!(matches!(run.step(false), RecomputeStep::Checkpoint { .. }));
    assert!(matches!(run.step(true), RecomputeStep::Finish));
    assert!(run.aborted());
    assert!(matches!(run.step(false), RecomputeStep::Finish));
    assert!(run.report(ms(1), None, ms(1)).aborted);
    let mut empty = RecomputeRun::start(&object(0), e.plan(&object(0)));
    assert!(matches!(empty.step(true), RecomputeStep::Finish));
    assert!(!empty.aborted());
}

#[test]
fn gpu_load_means_more_work() {
    let e = SimRecomputeExecutor {
        passes: f(2.0),
        gpu_load: f(0.7),
    };
    let plan = e.plan(&object(1_000_000));
    let effective = 2.0 / (1.0 - 0.7f64).max(0.05);
    assert_eq!(plan.full, effective.floor() as u64);
    assert_eq!(
        plan.partial,
        (1_000_000f64 * (effective - effective.floor())) as u64
    );
}

#[test]
fn a_remote_recompute_waits_twice() {
    let e = SimRemoteExecutor::default();
    assert_eq!(e.name(), "sim/remote");
    let o = object(1_000_000_000);
    let (compute, transfer) = e.modeled(&o);
    let rate = 4.2e9 * (1.0 - 0.1f64).max(0.05);
    assert_eq!(g(compute), 1.0 * 1e9 / rate * 1000.0);
    assert_eq!(g(transfer), 5.0 + 1e9 / 10e9 * 1000.0);
    let mut run = RemoteRun::start(&e, &o);
    let p = run.checkpoint(ms(0)).unwrap();
    assert_eq!((p.phase, p.bytes_done, g(p.fraction_done)), ("remote:compute", 0, 0.0));
    assert_eq!(run.poll(false), Some(compute));
    let p = run.checkpoint(ms(3)).unwrap();
    assert_eq!((p.phase, p.bytes_done), ("remote:network", 1_000_000_000));
    assert_eq!(
        g(p.fraction_done),
        g(compute) / (g(compute) + g(transfer)).max(1.0)
    );
    assert_eq!(run.poll(false), Some(transfer));
    assert!(run.checkpoint(ms(4)).is_none());
    assert_eq!(run.poll(false), None);
    let r = run.report(
        Span {
            secs: 2,
            nanos: 100_000_000,
        },
        Span {
            secs: 1,
            nanos: 900_000_000,
        },
        None,
        ms(0),
    );
    assert_eq!(r.transfer_elapsed, ms(200));
    assert!(r.deadline_met && !r.aborted);
}

#[test]
fn a_remote_recompute_is_given_up() {
    let e = SimRemoteExecutor::default();
    let o = object(10);
    let mut run = RemoteRun::start(&e, &o);
    assert_eq!(run.poll(true), None);
    let r = run.report(ms(5), ms(0), None, ms(5));
    assert!(r.aborted && !r.deadline_met && r.bytes == 0);
    let mut run = RemoteRun::start(&e, &o);
    run.poll(false);
    assert_eq!(run.poll(true), None);
    let r = run.report(ms(5), ms(4), None, ms(5));
    assert!(r.aborted && !r.deadline_met && r.bytes == 10);
    assert_eq!(r.remote_compute_elapsed, ms(4));
    assert_eq!(r.transfer_elapsed, Span::zero());
}

#[test]
fn throughputs() {
    let mut m = MoveReport {
        total: Span {
            secs: 2,
            nanos: 500_000_000,
        },
        bytes: 5_000_000,
        write_elapsed: Span::zero(),
        read_elapsed: Span::zero(),
        deadline_met: true,
        aborted: false,
    };
    assert_eq!(g(m.throughput_mb_s()), 2.0);
    m.total = Span::zero();
    assert_eq!(g(m.throughput_mb_s()), 0.0);
    let r = RecomputeReport {
        total: Span { secs: 1, nanos: 0 },
        bytes: 3_000_000,
        passes: 2,
        deadline_met: true,
        aborted: false,
    };
    assert_eq!(g(r.throughput_mb_s()), 3.0);
}

#[test]
fn spans_are_like_durations() {
    for (secs, nanos) in [(0, 1), (3, 141_592_653), (100_000, 999_999_999)] {
        let d = std::time::Duration::new(secs, nanos);
        let s = Span { secs, nanos };
        assert_eq!(g(s.as_secs()), d.as_secs_f64());
        assert_eq!(g(s.as_ms()), d.as_secs_f64() * 1000.0);
    }
}

#[test]
fn contention_files() {
    let size = FILE_CHUNK as u64 + 10;
    let mut file = ContentionFile::new(size);
    let a = file.next_chunk().unwrap();
    assert_eq!(a.len(), FILE_CHUNK);
    let mut head = vec![0u8; 16];
    fill_xorshift(&mut head, FILE_SEED);
    assert_eq!(a[..16].to_vec(), head);
    let b = file.next_chunk().unwrap();
    let mut tail = vec![0u8; 10];
    fill_xorshift(&mut tail, FILE_SEED + 1);
    assert_eq!(b, tail);
    assert!(file.next_chunk().is_none());
}

#[test]
fn cpu_utilisation_is_between_samples() {
    let t = |user: f64, sys: f64, idle: f64, nice: f64| CpuTicks {
        user: f(user),
        sys: f(sys),
        idle: f(idle),
        nice: f(nice),
    };
    let mut m = CpuMeter::new();
    assert_eq!(m.sample(None), None);
    assert_eq!(m.sample(Some(t(10.0, 10.0, 80.0, 0.0))), None);
    assert_eq!(m.sample(None), None);
    assert_eq!(m.sample(Some(t(40.0, 20.0, 130.0, 10.0))), Some(f(0.4)));
    assert_eq!(m.sample(Some(t(40.0, 20.0, 130.0, 10.0))), None);
}

#[test]
fn readings_become_a_state() {
    let s = system_state(7, Some(f(0.5)), None);
    assert_eq!(s.cpu_util, Some(f(0.5)));
    assert_eq!(s.nvme_latency_us, None);
    assert_eq!(s.captured_at_unix_ms, 7);
    let c = CudaSampler.state(
        CudaReadings {
            gpu_util: f(0.75),
            gpu_mem_used: f(1024.5),
            nvme_queue_depth: f(1e12),
            nvme_latency_us: f(-1.0),
            pcie_bandwidth: f(f64::NAN),
        },
        8,
    );
    assert_eq!(c.gpu_util, Some(f(0.75)));
    assert_eq!(c.gpu_memory_used, Some(1024));
    assert_eq!(c.nvme_queue_depth, Some(u32::MAX));
    assert_eq!(c.nvme_latency_us, None);
    assert_eq!(c.pcie_bandwidth, None);
    assert_eq!(c.cpu_util, None);
    assert_eq!(c.captured_at_unix_ms, 8);
}

#[test]
fn answers_of_the_cuda_backend() {
    assert!(require_device(1).is_ok());
    match require_device(0) {
        Err(Error::Backend(m)) => assert_eq!(m, "no CUDA device available for CudaBackend"),
        _ => panic!("no device"),
    }
    let mut res = ExecutionResult {
        elapsed: ms(20),
        bytes_moved: 77,
        success: 1,
        aborted: 0,
    };
    let r = res.check("cuda_move failed").unwrap().move_report(Some(ms(20)), ms(20));
    assert_eq!((r.total, r.write_elapsed, r.read_elapsed), (ms(20), ms(20), Span::zero()));
    assert_eq!((r.bytes, r.deadline_met, r.aborted), (77, true, false));
    res.aborted = 1;
    let r = res.recompute_report(3, Some(ms(19)), ms(20));
    assert_eq!((r.bytes, r.passes, r.deadline_met, r.aborted), (77, 3, false, true));
    res.success = 0;
    match res.check("cuda_move failed") {
        Err(Error::Backend(m)) => assert_eq!(m, "cuda_move failed"),
        _ => panic!("a failure"),
    }
}

fn checkpoints(e: SimRecomputeExecutor, size: u64) -> (Vec<(&'static str, u64, f64)>, u32) {
    let o = ObjectSpec::new(1, size, DataLoc::Nvme);
    let mut run = RecomputeRun::start(&o, e.plan(&o));
    let mut seen = Vec::new();
    while let RecomputeStep::Checkpoint {
        phase,
        bytes_done,
        fraction_done,
    } = run.step(false)
    {
        seen.push((phase, bytes_done, g(fraction_done)));
    }
    (seen, run.report(ms(1), None, ms(1)).passes)
}

#[test]
fn every_chunk_of_a_recompute_is_reported() {
    let (seen, passes) = checkpoints(
        SimRecomputeExecutor {
            passes: f(2.5),
            gpu_load: f(0.0),
        },
        8,
    );
    assert_eq!(
        seen,
        vec![
            ("recompute:pass", 8, 0.4),
            ("recompute:pass", 16, 0.8),
            ("recompute:partial", 20, 1.0),
        ]
    );
    assert_eq!(passes, 2);
    let (seen, passes) = checkpoints(
        SimRecomputeExecutor {
            passes: f(2.0),
            gpu_load: f(0.5),
        },
        8,
    );
    assert_eq!(passes, 4);
    assert_eq!(seen.len(), 4);
    assert!(seen.iter().all(|c| c.0 == "recompute:pass"));
}

#[test]
fn deadlines_include_their_own_instant() {
    assert!(in_time(None, ms(5)));
    assert!(in_time(Some(ms(5)), ms(5)));
    assert!(!in_time(Some(ms(5)), ms(6)));
    let second = Span { secs: 1, nanos: 0 };
    assert!(in_time(Some(second), ms(999)));
    assert!(!in_time(Some(ms(999)), second));
}

#[test]
fn a_plan_fits_up_to_the_count_of_its_bytes() {
    let plan = RecomputePlan {
        full: 1,
        partial: 0,
        total_work: f(1.0),
    };
    assert!(plan.fits(u64::MAX));
    let more = RecomputePlan { partial: 1, ..plan };
    assert!(!more.fits(u64::MAX));
    assert!(more.fits(u64::MAX - 1));
}

#[test]
fn shares_of_fractional_passes() {
    for passes in [0.3, 0.5, 1.1, 2.5, 2.9999999, 7.7] {
        for size in [1, 3, 8, 1000, 65_537] {
            let (seen, _) = checkpoints(
                SimRecomputeExecutor {
                    passes: f(passes),
                    gpu_load: f(0.1),
                },
                size,
            );
            assert!(seen.iter().all(|c| 0.0 < c.2 && c.2 <= 1.0));
        }
    }
}
