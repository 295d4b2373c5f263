//! The control loop as a state machine. The caller owns the clock, the metric
//! sources and the supervisor store: it performs each `Action` the machine
//! asks for and hands the result back as an `Event`.

use crate::metrics::{queue_depth, spec_queue_depth, CpuLoad, Metrics, QueueReply};
use crate::policy::{decide, spec_decide, Decision, ScalingBounds, SkipReason};
use crate::store::StoreError;
use vstd::prelude::*;

verus! {

/// Seconds between two ticks.
pub const TIME_INTERVAL_SECS: u64 = 60;

/// What the loop is started with and keeps for its lifetime.
#[derive(Clone, Copy, Debug, PartialEq, Eq)]
pub struct LoopConfig {
    pub bounds: ScalingBounds,
    pub cpu_ceiling: CpuLoad,
}

/// A change of the process count that a tick set out to make.
#[derive(Clone, Copy, Debug, PartialEq, Eq)]
pub struct Change {
    /// What the tick observed.
    pub metrics: Metrics,
    /// The count that was persisted when the tick began.
    pub previous: usize,
    /// The count that the policy asked for.
    pub target: usize,
}

/// The step of an apply or of a rollback that is under way.
#[derive(Clone, Copy, Debug, PartialEq, Eq)]
pub enum Stage {
    /// The count is being written.
    Write,
    /// The supervisor is reloading.
    Reload,
}

/// Where the loop stands.
#[derive(Clone, Debug, PartialEq, Eq)]
pub enum LoopState {
    /// Between two ticks.
    Idle,
    /// Waiting for the CPU reading.
    SamplingCpu,
    /// Waiting for the queue's answer.
    SamplingQueue { cpu: CpuLoad },
    /// The policy named a target; waiting for the persisted count.
    Deciding { metrics: Metrics, target: usize },
    /// Writing the target and reloading.
    Applying { change: Change, stage: Stage },
    /// The apply failed with `cause`; writing the previous count back and
    /// reloading.
    RollingBack { change: Change, cause: StoreError, stage: Stage },
}

/// How a tick ended.
#[derive(Clone, Debug, PartialEq, Eq)]
pub enum TickOutcome {
    /// The policy deferred scaling; the store was not touched.
    Skipped { reason: SkipReason, metrics: Metrics },
    /// The persisted count already was the target; the store was not touched.
    NoChange { metrics: Metrics, count: usize },
    /// The persisted count could not be read; the store was not touched.
    Unreadable { metrics: Metrics, target: usize, error: StoreError },
    /// The target was written and the supervisor reloaded.
    Applied { change: Change },
    /// The apply failed with `cause`; the previous count was written back
    /// and the supervisor reloaded.
    RolledBack { change: Change, cause: StoreError },
    /// The apply failed with `cause` and the rollback with `failure`: the
    /// persisted count may differ from what the supervisor runs.
    RollbackFailed { change: Change, cause: StoreError, failure: StoreError },
}

/// What the caller is to do next.
#[derive(Clone, Debug, PartialEq, Eq)]
pub enum Action {
    /// Take a fresh reading of the CPU load.
    SampleCpu,
    /// Ask the metric service for the queue's depth.
    QueryQueueDepth,
    /// Read the persisted process count.
    ReadCount,
    /// Persist this process count.
    WriteCount(usize),
    /// Have the supervisor reload its configuration.
    Reload,
    /// The tick is over: report the outcome and wait for the next tick.
    Finish(TickOutcome),
    /// The event was not the one awaited: nothing is to be done for it.
    Ignore,
}

/// What the caller reports back.
#[derive(Debug, PartialEq, Eq)]
pub enum Event {
    /// The interval has passed.
    Tick,
    /// The CPU reading.
    CpuSampled(CpuLoad),
    /// The metric service's answer.
    QueueQueried(QueueReply),
    /// The persisted count, or why it could not be read.
    CountRead(Result<usize, StoreError>),
    /// How writing the count went.
    Written(Result<(), StoreError>),
    /// How the reload went.
    Reloaded(Result<(), StoreError>),
}

/// One move of the machine.
#[derive(Clone, Debug, PartialEq, Eq)]
pub struct Transition {
    pub state: LoopState,
    pub action: Action,
}

/// The machine's move on the queue's answer: the policy runs on the tick's
/// metrics and either ends the tick or asks for the persisted count.
pub open spec fn spec_on_metrics(config: LoopConfig, metrics: Metrics) -> Transition {
    match spec_decide(metrics, config.bounds@, config.cpu_ceiling@) {
        Decision::Skip(reason) => Transition {
            state: LoopState::Idle,
            action: Action::Finish(TickOutcome::Skipped { reason, metrics }),
        },
        Decision::Target(target) => Transition {
            state: LoopState::Deciding { metrics, target },
            action: Action::ReadCount,
        },
    }
}

/// The machine's move on the persisted count: nothing is written where the
/// count is the target already or could not be read.
pub open spec fn spec_on_count(metrics: Metrics, target: usize, read: Result<usize, StoreError>)
    -> Transition {
    match read {
        Ok(count) => if count == target {
            Transition {
                state: LoopState::Idle,
                action: Action::Finish(TickOutcome::NoChange { metrics, count }),
            }
        } else {
            Transition {
                state: LoopState::Applying {
                    change: Change { metrics, previous: count, target },
                    stage: Stage::Write,
                },
                action: Action::WriteCount(target),
            }
        },
        Err(error) => Transition {
            state: LoopState::Idle,
            action: Action::Finish(TickOutcome::Unreadable { metrics, target, error }),
        },
    }
}

/// The machine's move while applying: write, then reload; the first failure
/// starts the rollback.
pub open spec fn spec_on_apply(change: Change, stage: Stage, done: Result<(), StoreError>)
    -> Transition {
    match done {
        Ok(_) => match stage {
            Stage::Write => Transition {
                state: LoopState::Applying { change, stage: Stage::Reload },
                action: Action::Reload,
            },
            Stage::Reload => Transition {
                state: LoopState::Idle,
                action: Action::Finish(TickOutcome::Applied { change }),
            },
        },
        Err(cause) => Transition {
            state: LoopState::RollingBack { change, cause, stage: Stage::Write },
            action: Action::WriteCount(change.previous),
        },
    }
}

/// The machine's move while rolling back: write the previous count, then
/// reload; the first failure ends the tick.
pub open spec fn spec_on_rollback(
    change: Change,
    cause: StoreError,
    stage: Stage,
    done: Result<(), StoreError>,
) -> Transition {
    match done {
        Ok(_) => match stage {
            Stage::Write => Transition {
                state: LoopState::RollingBack { change, cause, stage: Stage::Reload },
                action: Action::Reload,
            },
            Stage::Reload => Transition {
                state: LoopState::Idle,
                action: Action::Finish(TickOutcome::RolledBack { change, cause }),
            },
        },
        Err(failure) => Transition {
            state: LoopState::Idle,
            action: Action::Finish(TickOutcome::RollbackFailed { change, cause, failure }),
        },
    }
}

/// Whether `event` is the one that `state` waits for.
pub open spec fn awaited(state: LoopState, event: Event) -> bool {
    match state {
        LoopState::Idle => event is Tick,
        LoopState::SamplingCpu => event is CpuSampled,
        LoopState::SamplingQueue { .. } => event is QueueQueried,
        LoopState::Deciding { .. } => event is CountRead,
        LoopState::Applying { stage, .. } | LoopState::RollingBack { stage, .. } => match stage {
            Stage::Write => event is Written,
            Stage::Reload => event is Reloaded,
        },
    }
}

/// The machine's move from `state` on `event`. An event that `state` does
/// not wait for changes nothing; in particular a tick that arrives while one
/// is in flight is dropped.
pub open spec fn spec_advance(config: LoopConfig, state: LoopState, event: Event) -> Transition {
    if !awaited(state, event) {
        Transition { state, action: Action::Ignore }
    } else {
        match state {
            LoopState::Idle => Transition {
                state: LoopState::SamplingCpu,
                action: Action::SampleCpu,
            },
            LoopState::SamplingCpu => Transition {
                state: LoopState::SamplingQueue { cpu: event->CpuSampled_0 },
                action: Action::QueryQueueDepth,
            },
            LoopState::SamplingQueue { cpu } => spec_on_metrics(
                config,
                Metrics { cpu, queue_depth: spec_queue_depth(event->QueueQueried_0) },
            ),
            LoopState::Deciding { metrics, target } => spec_on_count(
                metrics,
                target,
                event->CountRead_0,
            ),
            LoopState::Applying { change, stage } => spec_on_apply(
                change,
                stage,
                match stage {
                    Stage::Write => event->Written_0,
                    Stage::Reload => event->Reloaded_0,
                },
            ),
            LoopState::RollingBack { change, cause, stage } => spec_on_rollback(
                change,
                cause,
                stage,
                match stage {
                    Stage::Write => event->Written_0,
                    Stage::Reload => event->Reloaded_0,
                },
            ),
        }
    }
}

/// Where a fresh loop stands.
pub fn start() -> (state: LoopState)
    ensures
        state == LoopState::Idle,
{
    LoopState::Idle
}

fn on_apply(change: Change, stage: Stage, done: Result<(), StoreError>) -> (next: Transition)
    ensures
        next == spec_on_apply(change, stage, done),
{
    match done {
        Ok(_) => match stage {
            Stage::Write => Transition {
                state: LoopState::Applying { change, stage: Stage::Reload },
                action: Action::Reload,
            },
            Stage::Reload => Transition {
                state: LoopState::Idle,
                action: Action::Finish(TickOutcome::Applied { change }),
            },
        },
        Err(cause) => Transition {
            state: LoopState::RollingBack { change, cause, stage: Stage::Write },
            action: Action::WriteCount(change.previous),
        },
    }
}

fn on_rollback(change: Change, cause: StoreError, stage: Stage, done: Result<(), StoreError>) -> (next:
    Transition)
    ensures
        next == spec_on_rollback(change, cause, stage, done),
{
    match done {
        Ok(_) => match stage {
            Stage::Write => Transition {
                state: LoopState::RollingBack { change, cause, stage: Stage::Reload },
                action: Action::Reload,
            },
            Stage::Reload => Transition {
                state: LoopState::Idle,
                action: Action::Finish(TickOutcome::RolledBack { change, cause }),
            },
        },
        Err(failure) => Transition {
            state: LoopState::Idle,
            action: Action::Finish(TickOutcome::RollbackFailed { change, cause, failure }),
        },
    }
}

/// Moves the loop from `state` on `event` and says what the caller is to do
/// next.
pub fn advance(config: &LoopConfig, state: LoopState, event: Event) -> (next: Transition)
    ensures
        next == spec_advance(*config, state, event),
{
    match (state, event) {
        (LoopState::Idle, Event::Tick) => Transition {
            state: LoopState::SamplingCpu,
            action: Action::SampleCpu,
        },
        (LoopState::SamplingCpu, Event::CpuSampled(cpu)) => Transition {
            state: LoopState::SamplingQueue { cpu },
            action: Action::QueryQueueDepth,
        },
        (LoopState::SamplingQueue { cpu }, Event::QueueQueried(reply)) => {
            let metrics = Metrics { cpu, queue_depth: queue_depth(&reply) };
            match decide(&metrics, &config.bounds, config.cpu_ceiling) {
                Decision::Skip(reason) => Transition {
                    state: LoopState::Idle,
                    action: Action::Finish(TickOutcome::Skipped { reason, metrics }),
                },
                Decision::Target(target) => Transition {
                    state: LoopState::Deciding { metrics, target },
                    action: Action::ReadCount,
                },
            }
        },
        (LoopState::Deciding { metrics, target }, Event::CountRead(read)) => match read {
            Ok(count) => if count == target {
                Transition {
                    state: LoopState::Idle,
                    action: Action::Finish(TickOutcome::NoChange { metrics, count }),
                }
            } else {
                Transition {
                    state: LoopState::Applying {
                        change: Change { metrics, previous: count, target },
                        stage: Stage::Write,
                    },
                    action: Action::WriteCount(target),
                }
            },
            Err(error) => Transition {
                state: LoopState::Idle,
                action: Action::Finish(TickOutcome::Unreadable { metrics, target, error }),
            },
        },
        (LoopState::Applying { change, stage: Stage::Write }, Event::Written(done)) => on_apply(
            change,
            Stage::Write,
            done,
        ),
        (LoopState::Applying { change, stage: Stage::Reload }, Event::Reloaded(done)) => on_apply(
            change,
            Stage::Reload,
            done,
        ),
        (
            LoopState::RollingBack { change, cause, stage: Stage::Write },
            Event::Written(done),
        ) => on_rollback(change, cause, Stage::Write, done),
        (
            LoopState::RollingBack { change, cause, stage: Stage::Reload },
            Event::Reloaded(done),
        ) => on_rollback(change, cause, Stage::Reload, done),
        (state, _) => Transition { state, action: Action::Ignore },
    }
}

/// The most events that `state` can still take before the tick is over.
pub open spec fn events_left(state: LoopState) -> nat {
    match state {
        LoopState::Idle => 0,
        LoopState::SamplingCpu => 7,
        LoopState::SamplingQueue { .. } => 6,
        LoopState::Deciding { .. } => 5,
        LoopState::Applying { stage: Stage::Write, .. } => 4,
        LoopState::Applying { stage: Stage::Reload, .. } => 3,
        LoopState::RollingBack { stage: Stage::Write, .. } => 2,
        LoopState::RollingBack { stage: Stage::Reload, .. } => 1,
    }
}

/// Whether `action` changes what the supervisor store holds or runs.
pub open spec fn touches_store(action: Action) -> bool {
    action is WriteCount || action is Reload
}

/// An event that is not awaited changes nothing. In particular a tick cannot
/// begin while another is in flight.
pub proof fn lemma_unawaited_event_is_dropped(config: LoopConfig, state: LoopState, event: Event)
    requires
        !awaited(state, event),
    ensures
        spec_advance(config, state, event) == (Transition { state, action: Action::Ignore }),
        !(state is Idle) ==> !awaited(state, Event::Tick),
{
}

/// Every tick ends: each awaited event of a tick in flight brings the loop
/// closer to `Idle`, which it reaches after at most eight events, counting
/// the tick. The loop reports an outcome exactly when it gets there.
pub proof fn lemma_tick_ends(config: LoopConfig, state: LoopState, event: Event)
    requires
        awaited(state, event),
    ensures
        state is Idle ==> events_left(spec_advance(config, state, event).state) == 7,
        !(state is Idle) ==> events_left(spec_advance(config, state, event).state) < events_left(
            state,
        ),
        spec_advance(config, state, event).action is Finish <==> spec_advance(
            config,
            state,
            event,
        ).state is Idle,
{
}

/// The store is written only for a reason: the target, once a count other
/// than the target was read; the previous count, once a step of the apply
/// failed.
pub proof fn lemma_write_has_reason(config: LoopConfig, state: LoopState, event: Event)
    ensures
        spec_advance(config, state, event).action matches Action::WriteCount(count) ==> {
            ||| {
                &&& state matches LoopState::Deciding { target, .. }
                &&& event matches Event::CountRead(Ok(previous))
                &&& previous != target
                &&& count == target
            }
            ||| {
                &&& state matches LoopState::Applying { change, stage }
                &&& count == change.previous
                &&& match stage {
                    Stage::Write => event matches Event::Written(Err(_)),
                    Stage::Reload => event matches Event::Reloaded(Err(_)),
                }
            }
        },
{
}

/// The supervisor reloads only right after a write that succeeded.
pub proof fn lemma_reload_follows_write(config: LoopConfig, state: LoopState, event: Event)
    ensures
        spec_advance(config, state, event).action is Reload ==> {
            &&& event matches Event::Written(Ok(_))
            &&& match state {
                LoopState::Applying { stage, .. } => stage == Stage::Write,
                LoopState::RollingBack { stage, .. } => stage == Stage::Write,
                _ => false,
            }
        },
{
}

/// A tick reports `Applied` only on a reload that succeeded after the target
/// was written, and `RolledBack` only on a reload that succeeded after the
/// previous count was written back: either way the supervisor runs what is
/// persisted.
pub proof fn lemma_outcome_follows_reload(config: LoopConfig, state: LoopState, event: Event)
    ensures
        spec_advance(config, state, event).action matches Action::Finish(
            TickOutcome::Applied { change },
        ) ==> {
            &&& event matches Event::Reloaded(Ok(_))
            &&& state == (LoopState::Applying { change, stage: Stage::Reload })
        },
        spec_advance(config, state, event).action matches Action::Finish(
            TickOutcome::RolledBack { change, cause },
        ) ==> {
            &&& event matches Event::Reloaded(Ok(_))
            &&& state == (LoopState::RollingBack { change, cause, stage: Stage::Reload })
        },
{
}

/// On a host at or above the ceiling a tick samples, skips and ends: the
/// store is neither read nor touched, whatever the queue reports.
pub proof fn lemma_busy_host_skips(config: LoopConfig, cpu: CpuLoad, reply: QueueReply)
    requires
        cpu@ >= config.cpu_ceiling@,
    ensures
        ({
            let first = spec_advance(config, LoopState::Idle, Event::Tick);
            let second = spec_advance(config, first.state, Event::CpuSampled(cpu));
            let third = spec_advance(config, second.state, Event::QueueQueried(reply));
            &&& first.action == Action::SampleCpu
            &&& second.action == Action::QueryQueueDepth
            &&& third.action == Action::Finish(
                TickOutcome::Skipped {
                    reason: SkipReason::CpuHigh,
                    metrics: Metrics { cpu, queue_depth: spec_queue_depth(reply) },
                },
            )
            &&& third.state == LoopState::Idle
            &&& !touches_store(first.action) && !touches_store(second.action) && !touches_store(
                third.action,
            )
        }),
{
}

/// Below the ceiling a tick samples, names the policy's target and asks for
/// the persisted count.
pub proof fn lemma_calm_host_decides(config: LoopConfig, cpu: CpuLoad, reply: QueueReply)
    requires
        config.bounds@.valid(),
        cpu@ < config.cpu_ceiling@,
    ensures
        ({
            let metrics = Metrics { cpu, queue_depth: spec_queue_depth(reply) };
            let target = config.bounds@.target(metrics.queue_depth as nat) as usize;
            let first = spec_advance(config, LoopState::Idle, Event::Tick);
            let second = spec_advance(config, first.state, Event::CpuSampled(cpu));
            let third = spec_advance(config, second.state, Event::QueueQueried(reply));
            &&& first.action == Action::SampleCpu
            &&& second.action == Action::QueryQueueDepth
            &&& third.action == Action::ReadCount
            &&& third.state == LoopState::Deciding { metrics, target }
            &&& config.bounds@.min_procs <= target <= config.bounds@.max_procs
        }),
{
    crate::policy::lemma_decide_below_ceiling(
        Metrics { cpu, queue_depth: spec_queue_depth(reply) },
        config.bounds,
        config.cpu_ceiling,
    );
}

/// A tick that finds the target persisted changes nothing. From the tick to
/// its outcome the loop asks for the two readings and for the persisted
/// count, and for nothing else: nothing is written and the supervisor does
/// not reload.
pub proof fn lemma_settled_count_is_left_alone(config: LoopConfig, cpu: CpuLoad, reply: QueueReply)
    requires
        cpu@ < config.cpu_ceiling@,
    ensures
        ({
            let metrics = Metrics { cpu, queue_depth: spec_queue_depth(reply) };
            let target = spec_decide(metrics, config.bounds@, config.cpu_ceiling@)->Target_0;
            let first = spec_advance(config, LoopState::Idle, Event::Tick);
            let second = spec_advance(config, first.state, Event::CpuSampled(cpu));
            let third = spec_advance(config, second.state, Event::QueueQueried(reply));
            let fourth = spec_advance(config, third.state, Event::CountRead(Ok(target)));
            &&& first.action == Action::SampleCpu
            &&& second.action == Action::QueryQueueDepth
            &&& third.action == Action::ReadCount
            &&& fourth.action == Action::Finish(TickOutcome::NoChange { metrics, count: target })
            &&& fourth.state == LoopState::Idle
            &&& !touches_store(first.action) && !touches_store(second.action) && !touches_store(
                third.action,
            ) && !touches_store(fourth.action)
        }),
{
}

/// Where the persisted count differs from the target, the target is written
/// and the supervisor reloads; with both done the tick reports `Applied`.
pub proof fn lemma_change_is_applied(
    config: LoopConfig,
    metrics: Metrics,
    target: usize,
    previous: usize,
)
    requires
        previous != target,
    ensures
        ({
            let change = Change { metrics, previous, target };
            let read = spec_advance(
                config,
                LoopState::Deciding { metrics, target },
                Event::CountRead(Ok(previous)),
            );
            let written = spec_advance(config, read.state, Event::Written(Ok(())));
            let reloaded = spec_advance(config, written.state, Event::Reloaded(Ok(())));
            &&& read.action == Action::WriteCount(target)
            &&& written.action == Action::Reload
            &&& reloaded.action == Action::Finish(TickOutcome::Applied { change })
            &&& reloaded.state == LoopState::Idle
        }),
{
}

/// Where the target was written and the reload then fails, the previous
/// count is written back and the supervisor reloads once more; the tick
/// ends as `RolledBack` if that reload succeeds and as `RollbackFailed` if
/// it does not, and the loop is idle again either way.
pub proof fn lemma_failed_reload_rolls_back(
    config: LoopConfig,
    metrics: Metrics,
    target: usize,
    previous: usize,
    cause: StoreError,
    second: Result<(), StoreError>,
)
    requires
        previous != target,
    ensures
        ({
            let change = Change { metrics, previous, target };
            let read = spec_advance(
                config,
                LoopState::Deciding { metrics, target },
                Event::CountRead(Ok(previous)),
            );
            let written = spec_advance(config, read.state, Event::Written(Ok(())));
            let failed = spec_advance(config, written.state, Event::Reloaded(Err(cause)));
            let restored = spec_advance(config, failed.state, Event::Written(Ok(())));
            let last = spec_advance(config, restored.state, Event::Reloaded(second));
            &&& read.action == Action::WriteCount(target)
            &&& written.action == Action::Reload
            &&& failed.action == Action::WriteCount(previous)
            &&& restored.action == Action::Reload
            &&& last.state == LoopState::Idle
            &&& last.action == Action::Finish(
                match second {
                    Ok(_) => TickOutcome::RolledBack { change, cause },
                    Err(failure) => TickOutcome::RollbackFailed { change, cause, failure },
                },
            )
        }),
{
}

/// Where writing the target fails, the supervisor does not reload for it:
/// the previous count is written back at once, and only then the supervisor
/// reloads. A rollback whose own write fails ends the tick without a reload.
pub proof fn lemma_failed_write_rolls_back(
    config: LoopConfig,
    metrics: Metrics,
    target: usize,
    previous: usize,
    cause: StoreError,
    second: Result<(), StoreError>,
)
    requires
        previous != target,
    ensures
        ({
            let change = Change { metrics, previous, target };
            let read = spec_advance(
                config,
                LoopState::Deciding { metrics, target },
                Event::CountRead(Ok(previous)),
            );
            let failed = spec_advance(config, read.state, Event::Written(Err(cause)));
            let restored = spec_advance(config, failed.state, Event::Written(second));
            &&& read.action == Action::WriteCount(target)
            &&& failed.action == Action::WriteCount(previous)
            &&& match second {
                Ok(_) => restored.action == Action::Reload,
                Err(failure) => restored == (Transition {
                    state: LoopState::Idle,
                    action: Action::Finish(
                        TickOutcome::RollbackFailed { change, cause, failure },
                    ),
                }),
            }
        }),
{
}

/// The action that the caller is performing while the loop stands in
/// `state`; none while it is idle.
pub open spec fn pending(state: LoopState) -> Option<Action> {
    match state {
        LoopState::Idle => None,
        LoopState::SamplingCpu => Some(Action::SampleCpu),
        LoopState::SamplingQueue { .. } => Some(Action::QueryQueueDepth),
        LoopState::Deciding { .. } => Some(Action::ReadCount),
        LoopState::Applying { change, stage: Stage::Write } => Some(
            Action::WriteCount(change.target),
        ),
        LoopState::Applying { stage: Stage::Reload, .. } => Some(Action::Reload),
        LoopState::RollingBack { change, stage: Stage::Write, .. } => Some(
            Action::WriteCount(change.previous),
        ),
        LoopState::RollingBack { stage: Stage::Reload, .. } => Some(Action::Reload),
    }
}

/// The state records what the caller was asked to do: after every awaited
/// event the loop is idle or waits for the result of the action it just
/// asked for.
pub proof fn lemma_state_records_action(config: LoopConfig, state: LoopState, event: Event)
    requires
        awaited(state, event),
    ensures
        ({
            let next = spec_advance(config, state, event);
            if next.state is Idle {
                next.action is Finish
            } else {
                pending(next.state) == Some(next.action)
            }
        }),
{
}

/// The supervisor store as the loop sees it: the count that its
/// configuration holds, and the count that the supervisor runs with.
pub struct Supervisor {
    pub persisted: usize,
    pub running: usize,
}

/// Whether a store that was `before` may be `after` once the caller has
/// performed `action` and reports `event`. A read that succeeds gives the
/// persisted count. A write leaves the running count alone and, where it
/// succeeds, persists its count. A reload leaves the persisted count alone
/// and, where it succeeds, makes the supervisor run it. Nothing else changes
/// the store.
pub open spec fn store_step(before: Supervisor, action: Action, event: Event, after: Supervisor)
    -> bool {
    match action {
        Action::ReadCount => after == before && (event matches Event::CountRead(Ok(count))
            ==> count == before.persisted),
        Action::WriteCount(count) => after.running == before.running && (event matches Event::Written(
            Ok(_),
        ) ==> after.persisted == count),
        Action::Reload => after.persisted == before.persisted && (event matches Event::Reloaded(
            Ok(_),
        ) ==> after.running == after.persisted),
        _ => after == before,
    }
}

/// What holds of the store while the loop stands in `state`: a reload is
/// only ever under way for a count that has been persisted.
pub open spec fn store_in_step(state: LoopState, store: Supervisor) -> bool {
    match state {
        LoopState::Applying { change, stage: Stage::Reload } => store.persisted == change.target,
        LoopState::RollingBack { change, stage: Stage::Reload, .. } => store.persisted
            == change.previous,
        _ => true,
    }
}

/// The loop and the store stay in step, and a tick that completes leaves the
/// store consistent. With a store that behaves as `store_step` says: a tick
/// that ends as `Applied` leaves the target persisted and running; one that
/// ends as `RolledBack` leaves the previous count persisted and running; one
/// that ends as `Skipped`, `NoChange` or `Unreadable` ends on an event that
/// changed nothing, and the count that `NoChange` reports is the persisted
/// one. Only `RollbackFailed` promises nothing.
pub proof fn lemma_store_stays_in_step(
    config: LoopConfig,
    state: LoopState,
    event: Event,
    before: Supervisor,
    after: Supervisor,
)
    requires
        awaited(state, event),
        store_in_step(state, before),
        match pending(state) {
            Some(action) => store_step(before, action, event, after),
            None => after == before,
        },
    ensures
        store_in_step(spec_advance(config, state, event).state, after),
        match spec_advance(config, state, event).action {
            Action::Finish(TickOutcome::Applied { change }) => after.persisted == change.target
                && after.running == change.target,
            Action::Finish(TickOutcome::RolledBack { change, .. }) => after.persisted
                == change.previous && after.running == change.previous,
            Action::Finish(TickOutcome::NoChange { count, .. }) => after == before
                && after.persisted == count,
            Action::Finish(TickOutcome::Skipped { .. }) => after == before,
            Action::Finish(TickOutcome::Unreadable { .. }) => after == before,
            _ => true,
        },
{
}

/// What holds of every state that the loop reaches from `Idle`: a target
/// that the loop holds is the policy's verdict on the metrics it holds, and a
/// change under way is a change.
pub open spec fn well_formed(config: LoopConfig, state: LoopState) -> bool {
    match state {
        LoopState::Idle | LoopState::SamplingCpu | LoopState::SamplingQueue { .. } => true,
        LoopState::Deciding { metrics, target } => spec_decide(
            metrics,
            config.bounds@,
            config.cpu_ceiling@,
        ) == Decision::Target(target),
        LoopState::Applying { change, .. } | LoopState::RollingBack { change, .. } => {
            &&& spec_decide(change.metrics, config.bounds@, config.cpu_ceiling@)
                == Decision::Target(change.target)
            &&& change.previous != change.target
        },
    }
}

/// The loop starts well formed and stays so, whatever events arrive.
pub proof fn lemma_advance_keeps_well_formed(config: LoopConfig, state: LoopState, event: Event)
    requires
        well_formed(config, state),
    ensures
        well_formed(config, LoopState::Idle),
        well_formed(config, spec_advance(config, state, event).state),
{
}

/// The loop writes no count of its own making outside the bounds: a count
/// that it asks to write is the policy's target, which is within the bounds,
/// or the count that it read at the start of the tick and now puts back.
pub proof fn lemma_written_count_is_bounded(config: LoopConfig, state: LoopState, event: Event)
    requires
        config.bounds@.valid(),
        well_formed(config, state),
    ensures
        spec_advance(config, state, event).action matches Action::WriteCount(count) ==> {
            ||| state is Deciding && config.bounds@.min_procs <= count <= config.bounds@.max_procs
            ||| state matches LoopState::Applying { change, .. } && count == change.previous
        },
{
    if let LoopState::Deciding { metrics, target } = state {
        crate::policy::lemma_decide_below_ceiling(metrics, config.bounds, config.cpu_ceiling);
    }
}

} // verus!
