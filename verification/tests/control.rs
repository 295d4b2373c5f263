use qscaler::control::{
    advance, start, Action, Change, Event, LoopConfig, LoopState, Stage, TickOutcome, Transition,
    TIME_INTERVAL_SECS,
};
use qscaler::metrics::{CpuLoad, Metrics, QueueReply};
use qscaler::policy::{ScalingBounds, SkipReason};
use qscaler::store::{ReloadPhase, StoreError};

/// A supervisor store that records what is asked of it and fails on demand.
struct SpyStore {
    persisted: usize,
    running: usize,
    read_error: Option<StoreError>,
    /// Results of the writes to come, first first; writes beyond it succeed.
    write_script: Vec<Result<(), StoreError>>,
    /// Results of the reloads to come, first first; reloads beyond it succeed.
    reload_script: Vec<Result<(), StoreError>>,
    reads: usize,
    writes: Vec<usize>,
    reloads: usize,
    log: Vec<&'static str>,
}

impl SpyStore {
    fn holding(count: usize) -> SpyStore {
        SpyStore {
            persisted: count,
            running: count,
            read_error: None,
            write_script: Vec::new(),
            reload_script: Vec::new(),
            reads: 0,
            writes: Vec::new(),
            reloads: 0,
            log: Vec::new(),
        }
    }

    fn read_count(&mut self) -> Result<usize, StoreError> {
        self.reads += 1;
        self.log.push("read");
        match &self.read_error {
            Some(error) => Err(error.clone()),
            None => Ok(self.persisted),
        }
    }

    fn write_count(&mut self, count: usize) -> Result<(), StoreError> {
        self.writes.push(count);
        self.log.push("write");
        let result = if self.write_script.is_empty() { Ok(()) } else { self.write_script.remove(0) };
        if result.is_ok() {
            self.persisted = count;
        }
        result
    }

    fn reload(&mut self) -> Result<(), StoreError> {
        self.reloads += 1;
        self.log.push("reload");
        let result =
            if self.reload_script.is_empty() { Ok(()) } else { self.reload_script.remove(0) };
        if result.is_ok() {
            self.running = self.persisted;
        }
        result
    }
}

struct Sources {
    cpu: u32,
    reply: QueueReply,
    cpu_samples: usize,
    queue_queries: usize,
}

fn sources(cpu: u32, reply: QueueReply) -> Sources {
    Sources { cpu, reply, cpu_samples: 0, queue_queries: 0 }
}

fn count_reply(count: usize) -> QueueReply {
    QueueReply::Count(count.to_string().into_bytes())
}

fn config(scale_factor: usize, min_procs: usize, max_procs: usize) -> LoopConfig {
    LoopConfig {
        bounds: ScalingBounds::new(scale_factor, min_procs, max_procs).unwrap(),
        cpu_ceiling: CpuLoad::default_ceiling(),
    }
}

fn metrics(cpu: u32, queue_depth: usize) -> Metrics {
    Metrics { cpu: CpuLoad::from_hundredths(cpu), queue_depth }
}

fn io_error(text: &str) -> StoreError {
    StoreError::Io(text.to_string())
}

fn reload_error(text: &str) -> StoreError {
    StoreError::Reload { phase: ReloadPhase::Update, output: text.as_bytes().to_vec() }
}

/// Drives one tick to its end the way a caller does: performs each action
/// and hands back its result.
fn run_tick(config: &LoopConfig, sources: &mut Sources, store: &mut SpyStore) -> TickOutcome {
    let mut state = start();
    let mut event = Event::Tick;
    for _ in 0..8 {
        let Transition { state: next, action } = advance(config, state, event);
        state = next;
        event = match action {
            Action::SampleCpu => {
                sources.cpu_samples += 1;
                Event::CpuSampled(CpuLoad::from_hundredths(sources.cpu))
            }
            Action::QueryQueueDepth => {
                sources.queue_queries += 1;
                Event::QueueQueried(sources.reply.clone())
            }
            Action::ReadCount => Event::CountRead(store.read_count()),
            Action::WriteCount(count) => Event::Written(store.write_count(count)),
            Action::Reload => Event::Reloaded(store.reload()),
            Action::Finish(outcome) => {
                assert_eq!(state, LoopState::Idle);
                return outcome;
            }
            Action::Ignore => panic!("the loop ignored the event it had asked for"),
        };
    }
    panic!("the tick did not end within eight events");
}

#[test]
fn ticks_are_a_minute_apart() {
    assert_eq!(TIME_INTERVAL_SECS, 60);
}

#[test]
fn a_fresh_loop_is_idle() {
    assert_eq!(start(), LoopState::Idle);
}

#[test]
fn tick_with_backlog_of_250_writes_two_and_reloads() {
    let config = config(100, 1, 10);
    let mut store = SpyStore::holding(1);
    let mut sources = sources(1_000, count_reply(250));
    let outcome = run_tick(&config, &mut sources, &mut store);
    let change = Change { metrics: metrics(1_000, 250), previous: 1, target: 2 };
    assert_eq!(outcome, TickOutcome::Applied { change });
    assert_eq!(store.writes, vec![2]);
    assert_eq!(store.reloads, 1);
    assert_eq!(store.log, vec!["read", "write", "reload"]);
    assert_eq!(store.persisted, 2);
    assert_eq!(store.running, 2);
    assert_eq!(sources.cpu_samples, 1);
    assert_eq!(sources.queue_queries, 1);
}

#[test]
fn tick_with_backlog_of_5000_writes_the_maximum() {
    let config = config(100, 1, 10);
    let mut store = SpyStore::holding(1);
    let outcome = run_tick(&config, &mut sources(1_000, count_reply(5000)), &mut store);
    let change = Change { metrics: metrics(1_000, 5000), previous: 1, target: 10 };
    assert_eq!(outcome, TickOutcome::Applied { change });
    assert_eq!(store.writes, vec![10]);
    assert_eq!(store.reloads, 1);
}

#[test]
fn tick_on_a_busy_host_leaves_the_store_untouched() {
    let config = config(100, 1, 10);
    for depth in [0usize, 250, 5000] {
        let mut store = SpyStore::holding(1);
        let outcome = run_tick(&config, &mut sources(8_000, count_reply(depth)), &mut store);
        assert_eq!(
            outcome,
            TickOutcome::Skipped { reason: SkipReason::CpuHigh, metrics: metrics(8_000, depth) }
        );
        assert_eq!(store.reads, 0);
        assert!(store.writes.is_empty());
        assert_eq!(store.reloads, 0);
        assert_eq!(store.persisted, 1);
    }
}

#[test]
fn tick_that_finds_the_target_persisted_writes_nothing() {
    let config = config(100, 1, 10);
    let mut store = SpyStore::holding(2);
    let outcome = run_tick(&config, &mut sources(1_000, count_reply(250)), &mut store);
    assert_eq!(outcome, TickOutcome::NoChange { metrics: metrics(1_000, 250), count: 2 });
    assert_eq!(store.reads, 1);
    assert!(store.writes.is_empty());
    assert_eq!(store.reloads, 0);
}

#[test]
fn second_tick_after_an_apply_writes_nothing() {
    let config = config(100, 1, 10);
    let mut store = SpyStore::holding(1);
    run_tick(&config, &mut sources(1_000, count_reply(250)), &mut store);
    let outcome = run_tick(&config, &mut sources(2_000, count_reply(299)), &mut store);
    assert_eq!(outcome, TickOutcome::NoChange { metrics: metrics(2_000, 299), count: 2 });
    assert_eq!(store.writes, vec![2]);
    assert_eq!(store.reloads, 1);
}

#[test]
fn tick_scales_down_as_well() {
    let config = config(100, 1, 10);
    let mut store = SpyStore::holding(7);
    let outcome = run_tick(&config, &mut sources(0, count_reply(0)), &mut store);
    let change = Change { metrics: metrics(0, 0), previous: 7, target: 1 };
    assert_eq!(outcome, TickOutcome::Applied { change });
    assert_eq!(store.writes, vec![1]);
}

#[test]
fn unreachable_queue_looks_like_no_backlog() {
    let config = config(100, 1, 10);
    for reply in [QueueReply::Failed, QueueReply::Missing, QueueReply::Count(b"n/a".to_vec())] {
        let mut store = SpyStore::holding(4);
        let outcome = run_tick(&config, &mut sources(1_000, reply), &mut store);
        let change = Change { metrics: metrics(1_000, 0), previous: 4, target: 1 };
        assert_eq!(outcome, TickOutcome::Applied { change });
        assert_eq!(store.writes, vec![1]);
    }
}

#[test]
fn failed_reload_writes_the_previous_count_back_and_reloads_again() {
    let config = config(100, 1, 10);
    let mut store = SpyStore::holding(1);
    store.reload_script = vec![Err(reload_error("spawn error"))];
    let outcome = run_tick(&config, &mut sources(1_000, count_reply(250)), &mut store);
    let change = Change { metrics: metrics(1_000, 250), previous: 1, target: 2 };
    assert_eq!(outcome, TickOutcome::RolledBack { change, cause: reload_error("spawn error") });
    assert_eq!(store.writes, vec![2, 1]);
    assert_eq!(store.reloads, 2);
    assert_eq!(store.log, vec!["read", "write", "reload", "write", "reload"]);
    assert_eq!(store.persisted, 1);
    assert_eq!(store.running, 1);
}

#[test]
fn failed_write_writes_the_previous_count_back_and_reloads() {
    let config = config(100, 1, 10);
    let mut store = SpyStore::holding(1);
    store.write_script = vec![Err(io_error("disk full"))];
    let outcome = run_tick(&config, &mut sources(1_000, count_reply(250)), &mut store);
    let change = Change { metrics: metrics(1_000, 250), previous: 1, target: 2 };
    assert_eq!(outcome, TickOutcome::RolledBack { change, cause: io_error("disk full") });
    assert_eq!(store.writes, vec![2, 1]);
    assert_eq!(store.reloads, 1);
    assert_eq!(store.log, vec!["read", "write", "write", "reload"]);
    assert_eq!(store.persisted, 1);
    assert_eq!(store.running, 1);
}

#[test]
fn rollback_whose_reload_fails_is_reported_and_the_loop_goes_on() {
    let config = config(100, 1, 10);
    let mut store = SpyStore::holding(1);
    store.reload_script = vec![Err(reload_error("first")), Err(reload_error("second"))];
    let outcome = run_tick(&config, &mut sources(1_000, count_reply(250)), &mut store);
    let change = Change { metrics: metrics(1_000, 250), previous: 1, target: 2 };
    assert_eq!(
        outcome,
        TickOutcome::RollbackFailed {
            change,
            cause: reload_error("first"),
            failure: reload_error("second"),
        }
    );
    assert_eq!(store.writes, vec![2, 1]);
    assert_eq!(store.reloads, 2);
    let next = run_tick(&config, &mut sources(1_000, count_reply(250)), &mut store);
    assert_eq!(next, TickOutcome::Applied { change });
    assert_eq!(store.running, 2);
}

#[test]
fn rollback_whose_write_fails_is_reported_without_a_reload() {
    let config = config(100, 1, 10);
    let mut store = SpyStore::holding(1);
    store.write_script = vec![Err(io_error("first")), Err(io_error("second"))];
    let outcome = run_tick(&config, &mut sources(1_000, count_reply(250)), &mut store);
    let change = Change { metrics: metrics(1_000, 250), previous: 1, target: 2 };
    assert_eq!(
        outcome,
        TickOutcome::RollbackFailed { change, cause: io_error("first"), failure: io_error("second") }
    );
    assert_eq!(store.writes, vec![2, 1]);
    assert_eq!(store.reloads, 0);
}

#[test]
fn count_that_cannot_be_read_ends_the_tick_without_a_write() {
    let config = config(100, 1, 10);
    for error in [StoreError::NotFound, io_error("permission denied")] {
        let mut store = SpyStore::holding(1);
        store.read_error = Some(error.clone());
        let outcome = run_tick(&config, &mut sources(1_000, count_reply(250)), &mut store);
        assert_eq!(
            outcome,
            TickOutcome::Unreadable { metrics: metrics(1_000, 250), target: 2, error }
        );
        assert!(store.writes.is_empty());
        assert_eq!(store.reloads, 0);
    }
}

#[test]
fn machine_walks_through_the_states_of_an_apply() {
    let config = config(100, 1, 10);
    let cpu = CpuLoad::from_hundredths(1_000);
    let observed = metrics(1_000, 250);
    let change = Change { metrics: observed, previous: 1, target: 2 };

    let step = advance(&config, start(), Event::Tick);
    assert_eq!(step, Transition { state: LoopState::SamplingCpu, action: Action::SampleCpu });
    let step = advance(&config, step.state, Event::CpuSampled(cpu));
    assert_eq!(
        step,
        Transition { state: LoopState::SamplingQueue { cpu }, action: Action::QueryQueueDepth }
    );
    let step = advance(&config, step.state, Event::QueueQueried(count_reply(250)));
    assert_eq!(
        step,
        Transition {
            state: LoopState::Deciding { metrics: observed, target: 2 },
            action: Action::ReadCount,
        }
    );
    let step = advance(&config, step.state, Event::CountRead(Ok(1)));
    assert_eq!(
        step,
        Transition {
            state: LoopState::Applying { change, stage: Stage::Write },
            action: Action::WriteCount(2),
        }
    );
    let step = advance(&config, step.state, Event::Written(Ok(())));
    assert_eq!(
        step,
        Transition {
            state: LoopState::Applying { change, stage: Stage::Reload },
            action: Action::Reload,
        }
    );
    let step = advance(&config, step.state, Event::Reloaded(Ok(())));
    assert_eq!(
        step,
        Transition {
            state: LoopState::Idle,
            action: Action::Finish(TickOutcome::Applied { change }),
        }
    );
}

#[test]
fn machine_walks_through_the_states_of_a_rollback() {
    let config = config(100, 1, 10);
    let change = Change { metrics: metrics(1_000, 250), previous: 1, target: 2 };
    let cause = reload_error("no");
    let state = LoopState::Applying { change, stage: Stage::Reload };

    let step = advance(&config, state, Event::Reloaded(Err(cause.clone())));
    assert_eq!(
        step,
        Transition {
            state: LoopState::RollingBack { change, cause: cause.clone(), stage: Stage::Write },
            action: Action::WriteCount(1),
        }
    );
    let step = advance(&config, step.state, Event::Written(Ok(())));
    assert_eq!(
        step,
        Transition {
            state: LoopState::RollingBack { change, cause: cause.clone(), stage: Stage::Reload },
            action: Action::Reload,
        }
    );
    let step = advance(&config, step.state, Event::Reloaded(Ok(())));
    assert_eq!(
        step,
        Transition {
            state: LoopState::Idle,
            action: Action::Finish(TickOutcome::RolledBack { change, cause }),
        }
    );
}

#[test]
fn tick_in_flight_drops_a_second_tick() {
    let config = config(100, 1, 10);
    let change = Change { metrics: metrics(1_000, 250), previous: 1, target: 2 };
    let in_flight = [
        LoopState::SamplingCpu,
        LoopState::SamplingQueue { cpu: CpuLoad::from_hundredths(5) },
        LoopState::Deciding { metrics: metrics(5, 5), target: 1 },
        LoopState::Applying { change, stage: Stage::Write },
        LoopState::Applying { change, stage: Stage::Reload },
        LoopState::RollingBack { change, cause: StoreError::NotFound, stage: Stage::Write },
        LoopState::RollingBack { change, cause: StoreError::NotFound, stage: Stage::Reload },
    ];
    for state in in_flight {
        let step = advance(&config, state.clone(), Event::Tick);
        assert_eq!(step, Transition { state, action: Action::Ignore });
    }
}

#[test]
fn events_that_are_not_awaited_change_nothing() {
    let config = config(100, 1, 10);
    let change = Change { metrics: metrics(1_000, 250), previous: 1, target: 2 };
    let step = advance(&config, LoopState::Idle, Event::Written(Ok(())));
    assert_eq!(step, Transition { state: LoopState::Idle, action: Action::Ignore });
    let step = advance(&config, LoopState::Idle, Event::CountRead(Ok(3)));
    assert_eq!(step, Transition { state: LoopState::Idle, action: Action::Ignore });
    let step = advance(&config, LoopState::SamplingCpu, Event::QueueQueried(QueueReply::Missing));
    assert_eq!(step, Transition { state: LoopState::SamplingCpu, action: Action::Ignore });
    let writing = LoopState::Applying { change, stage: Stage::Write };
    let step = advance(&config, writing.clone(), Event::Reloaded(Ok(())));
    assert_eq!(step, Transition { state: writing, action: Action::Ignore });
    let reloading = LoopState::Applying { change, stage: Stage::Reload };
    let step = advance(&config, reloading.clone(), Event::Written(Err(StoreError::NotFound)));
    assert_eq!(step, Transition { state: reloading, action: Action::Ignore });
    let restoring =
        LoopState::RollingBack { change, cause: StoreError::NotFound, stage: Stage::Write };
    let step = advance(&config, restoring.clone(), Event::Reloaded(Err(StoreError::NotFound)));
    assert_eq!(step, Transition { state: restoring, action: Action::Ignore });
}

#[test]
fn every_tick_leaves_a_well_behaved_store_consistent_or_says_so() {
    let config = config(10, 1, 6);
    let failures = [None, Some(io_error("w")), Some(reload_error("r"))];
    for depth in [0usize, 15, 35, 1000] {
        for first_write in &failures {
            for first_reload in &failures {
                for second_write in &failures {
                    for second_reload in &failures {
                        let mut store = SpyStore::holding(3);
                        let script = |failure: &Option<StoreError>| match failure {
                            None => Ok(()),
                            Some(error) => Err(error.clone()),
                        };
                        store.write_script = vec![script(first_write), script(second_write)];
                        store.reload_script = vec![script(first_reload), script(second_reload)];
                        let mut read = sources(100, count_reply(depth));
                        match run_tick(&config, &mut read, &mut store) {
                            TickOutcome::Applied { change } => {
                                assert_eq!(store.persisted, change.target);
                                assert_eq!(store.running, change.target);
                                assert_eq!(store.writes, vec![change.target]);
                            }
                            TickOutcome::RolledBack { change, .. } => {
                                assert_eq!(change.previous, 3);
                                assert_eq!(store.persisted, 3);
                                assert_eq!(store.running, 3);
                                assert_eq!(store.writes, vec![change.target, 3]);
                            }
                            TickOutcome::NoChange { count, .. } => {
                                assert_eq!(count, 3);
                                assert!(store.writes.is_empty());
                                assert_eq!(store.reloads, 0);
                            }
                            TickOutcome::RollbackFailed { change, .. } => {
                                assert_eq!(store.writes, vec![change.target, 3]);
                            }
                            TickOutcome::Skipped { .. } | TickOutcome::Unreadable { .. } => {
                                panic!("a calm host with a readable count must decide");
                            }
                        }
                    }
                }
            }
        }
    }
}
