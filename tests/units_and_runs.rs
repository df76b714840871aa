use ocr_throughput::batch_file::{parse_batch, render_batch};
use ocr_throughput::dispatch::{count_failures, run_batch, worker_exit_code};
use ocr_throughput::engine::{AcquireError, EngineCell};
use ocr_throughput::jobs::{select_jobs, IMAGE_EXTENSION};
use ocr_throughput::orchestrator::{Event, Orchestrator, RunVerdict, Step, WorkerState};
use ocr_throughput::partition::partition;
use ocr_throughput::report::RunReport;
use std::cell::Cell;

fn jobs(n: usize) -> Vec<String> {
    (0..n).map(|i| format!("images/{}.jpg", i)).collect()
}

#[test]
fn engine_constructed_once() {
    let mut cell: EngineCell<u32> = EngineCell::new();
    assert_eq!(cell.construction_count(), 0);
    let made = Cell::new(0u32);
    for _ in 0..3 {
        let r = cell.acquire(|| -> Result<u32, String> {
            made.set(made.get() + 1);
            Ok(7)
        });
        assert!(r.is_ok());
    }
    assert_eq!(made.get(), 1);
    assert_eq!(cell.construction_count(), 1);
    assert!(cell.is_ready());
    assert_eq!(cell.engine(), Some(&7));
}

#[test]
fn engine_failure_is_not_retried() {
    let mut cell: EngineCell<u32> = EngineCell::new();
    let first = cell.acquire(|| -> Result<u32, String> { Err("no model".to_string()) });
    assert!(matches!(first, Err(AcquireError::Init(ref m)) if m == "no model"));
    let second = cell.acquire(|| -> Result<u32, String> { Ok(1) });
    assert!(matches!(second, Err(AcquireError::Unavailable)));
    assert_eq!(cell.construction_count(), 1);
    assert!(!cell.is_ready());
    assert_eq!(cell.engine(), None);
}

#[test]
fn failing_job_does_not_stop_the_next() {
    let j = jobs(5);
    let mut cell: EngineCell<u32> = EngineCell::new();
    let seen = Cell::new(0usize);
    let r = run_batch(
        &mut cell,
        || -> Result<u32, String> { Ok(3) },
        &j,
        |e: &u32, job: &String| {
            assert_eq!(*e, 3);
            seen.set(seen.get() + 1);
            job != "images/2.jpg"
        },
    );
    let outcomes = r.ok().unwrap();
    assert_eq!(outcomes, vec![true, true, false, true, true]);
    assert_eq!(seen.get(), 5);
    assert_eq!(count_failures(&outcomes), 1);
    assert_eq!(worker_exit_code(&Ok::<Vec<bool>, AcquireError<String>>(outcomes)), 0);
}

#[test]
fn engine_failure_ends_the_batch() {
    let j = jobs(3);
    let mut cell: EngineCell<u32> = EngineCell::new();
    let seen = Cell::new(0usize);
    let r = run_batch(
        &mut cell,
        || -> Result<u32, String> { Err("load failed".to_string()) },
        &j,
        |_: &u32, _: &String| {
            seen.set(seen.get() + 1);
            true
        },
    );
    assert!(matches!(r, Err(AcquireError::Init(_))));
    assert_eq!(seen.get(), 0);
    assert_eq!(worker_exit_code(&r), 1);
}

#[test]
fn ten_jobs_four_units() {
    let j = jobs(10);
    let batches = partition(&j, 4);
    let calls = Cell::new(0usize);
    let mut constructions = 0u64;
    for b in &batches {
        let mut cell: EngineCell<u32> = EngineCell::new();
        let r = run_batch(
            &mut cell,
            || -> Result<u32, String> { Ok(0) },
            b,
            |_: &u32, _: &String| {
                calls.set(calls.get() + 1);
                true
            },
        );
        assert_eq!(r.ok().unwrap().len(), b.len());
        constructions += cell.construction_count();
    }
    assert_eq!(calls.get(), 10);
    assert!(constructions <= 4);
    assert_eq!(RunReport::new(j.len() as u64, 2_000_000).jobs, 10);
}

#[test]
fn count_failures_of_nothing() {
    assert_eq!(count_failures(&Vec::new()), 0);
    assert_eq!(count_failures(&vec![false, false, true]), 2);
}

fn drive(o: &mut Orchestrator, exits: &[Option<i32>]) -> (Vec<Step>, RunVerdict) {
    let mut steps = Vec::new();
    loop {
        let s = o.next_step();
        steps.push(s);
        match s {
            Step::Spawn(i) => assert!(o.record(Event::Spawned(i))),
            Step::Join(i) => assert!(o.record(Event::Exited(i, exits[i]))),
            Step::Finish(v) => return (steps, v),
        }
    }
}

#[test]
fn three_workers_succeed() {
    let mut o = Orchestrator::new(3);
    let (steps, verdict) = drive(&mut o, &[Some(0), Some(0), Some(0)]);
    assert_eq!(
        steps,
        vec![
            Step::Spawn(0),
            Step::Spawn(1),
            Step::Spawn(2),
            Step::Join(0),
            Step::Join(1),
            Step::Join(2),
            Step::Finish(RunVerdict::Success),
        ]
    );
    assert!(verdict == RunVerdict::Success);
    assert!(o.worker(2) == Some(WorkerState::Exited(Some(0))));
    assert!(o.worker(3).is_none());
}

#[test]
fn failed_worker_is_fatal_after_all_joined() {
    let mut o = Orchestrator::new(3);
    let (steps, verdict) = drive(&mut o, &[Some(0), Some(2), Some(0)]);
    assert!(steps.contains(&Step::Join(2)));
    assert!(verdict == RunVerdict::WorkerFailure(1));
    assert!(o.worker(2) == Some(WorkerState::Exited(Some(0))));
}

#[test]
fn killed_worker_is_fatal() {
    let mut o = Orchestrator::new(2);
    let (_, verdict) = drive(&mut o, &[Some(0), None]);
    assert!(verdict == RunVerdict::WorkerFailure(1));
}

#[test]
fn spawn_failure_joins_started_workers() {
    let mut o = Orchestrator::new(3);
    assert!(o.next_step() == Step::Spawn(0));
    assert!(o.record(Event::Spawned(0)));
    assert!(o.next_step() == Step::Spawn(1));
    assert!(o.record(Event::SpawnFailed(1)));
    assert!(o.next_step() == Step::Join(0));
    assert!(o.record(Event::Exited(0, Some(0))));
    assert!(o.next_step() == Step::Finish(RunVerdict::SpawnError(1)));
    assert!(o.worker(2) == Some(WorkerState::Pending));
}

#[test]
fn out_of_turn_event_is_refused() {
    let mut o = Orchestrator::new(2);
    assert!(!o.record(Event::Exited(0, Some(0))));
    assert!(!o.record(Event::Spawned(1)));
    assert!(o.worker(0) == Some(WorkerState::Pending));
    assert!(o.record(Event::Spawned(0)));
    assert!(!o.record(Event::Spawned(0)));
}

#[test]
fn no_batches_finish_at_once() {
    let o = Orchestrator::new(0);
    assert!(o.next_step() == Step::Finish(RunVerdict::Success));
}

#[test]
fn rate_of_a_run() {
    let r = RunReport::new(10, 2_000_000);
    assert_eq!(r.rate_hundredths(), Some(500));
    assert_eq!(r.elapsed_hundredths(), 200);
    assert_eq!(RunReport::new(100, 11_120_000).rate_hundredths(), Some(899));
}

#[test]
fn empty_run_does_not_divide_by_zero() {
    let r = RunReport::new(0, 1500);
    assert_eq!(r.rate_hundredths(), Some(0));
    assert_eq!(RunReport::new(0, 0).rate_hundredths(), None);
    assert_eq!(RunReport::new(5, 0).rate_hundredths(), None);
}

#[test]
fn twelve_jobs_three_worker_processes() {
    let j = jobs(12);
    let batches = partition(&j, 3);
    let files: Vec<Vec<u8>> = batches
        .iter()
        .map(|b| render_batch(&b.iter().map(|s| s.as_bytes().to_vec()).collect()))
        .collect();
    let counts: Vec<usize> = files.iter().map(|f| parse_batch(f).len()).collect();
    assert_eq!(counts, vec![4, 4, 4]);
    assert_eq!(parse_batch(&files[2])[0], b"images/8.jpg".to_vec());
    let mut o = Orchestrator::new(files.len());
    let (steps, verdict) = drive(&mut o, &[Some(0), Some(0), Some(0)]);
    let spawned = steps.iter().filter(|s| matches!(s, Step::Spawn(_))).count();
    assert_eq!(spawned, 3);
    assert!(verdict == RunVerdict::Success);
    assert_eq!(RunReport::new(j.len() as u64, 1_000_000).jobs, 12);
}

#[test]
fn empty_directory_run() {
    let j = select_jobs(&vec!["images/readme.txt".to_string()], IMAGE_EXTENSION);
    assert!(j.is_empty());
    let batches = partition(&j, 4);
    assert!(batches.is_empty());
    let o = Orchestrator::new(batches.len());
    assert!(o.next_step() == Step::Finish(RunVerdict::Success));
    let report = RunReport::new(0, 0);
    assert_eq!(report.rate_hundredths(), None);
    assert_eq!(RunReport::new(0, 10).rate_hundredths(), Some(0));
}
