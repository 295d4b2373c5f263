//! The scaling policy: from one tick's metrics and the configured bounds to
//! the number of worker processes to run.

use crate::metrics::{CpuLoad, Metrics};
use vstd::prelude::*;

verus! {

/// The mathematical content of a `ScalingBounds`.
pub struct BoundsModel {
    pub scale_factor: nat,
    pub min_procs: nat,
    pub max_procs: nat,
}

/// `value` brought into the range from `low` to `high`.
pub open spec fn clamp(value: nat, low: nat, high: nat) -> nat {
    if value < low {
        low
    } else if value > high {
        high
    } else {
        value
    }
}

impl BoundsModel {
    pub open spec fn valid(self) -> bool {
        self.scale_factor > 0 && self.min_procs <= self.max_procs
    }

    /// The process count for a backlog of `queue_depth` messages: one process
    /// per `scale_factor` messages, rounded down, within the bounds.
    pub open spec fn target(self, queue_depth: nat) -> nat {
        clamp(queue_depth / self.scale_factor, self.min_procs, self.max_procs)
    }
}

/// Why a bounds triple was rejected.
#[derive(Clone, Copy, Debug, PartialEq, Eq)]
pub enum BoundsError {
    /// The scale factor is zero.
    ZeroScaleFactor,
    /// The maximum is below the minimum.
    MaxBelowMin,
}

/// Messages per process and the range the process count must stay in.
/// Every value has a positive scale factor and a minimum no larger than its
/// maximum.
#[derive(Clone, Copy, Debug, PartialEq, Eq)]
pub struct ScalingBounds {
    scale_factor: usize,
    min_procs: usize,
    max_procs: usize,
}

impl View for ScalingBounds {
    type V = BoundsModel;

    closed spec fn view(&self) -> BoundsModel {
        BoundsModel {
            scale_factor: self.scale_factor as nat,
            min_procs: self.min_procs as nat,
            max_procs: self.max_procs as nat,
        }
    }
}

impl ScalingBounds {
    #[verifier::type_invariant]
    spec fn well_formed(self) -> bool {
        self.scale_factor > 0 && self.min_procs <= self.max_procs
    }

    /// Checks a bounds triple. A zero scale factor is reported first.
    pub fn new(scale_factor: usize, min_procs: usize, max_procs: usize) -> (made: Result<
        ScalingBounds,
        BoundsError,
    >)
        ensures
            scale_factor == 0 ==> made == Err::<ScalingBounds, BoundsError>(
                BoundsError::ZeroScaleFactor,
            ),
            scale_factor > 0 && max_procs < min_procs ==> made == Err::<ScalingBounds, BoundsError>(
                BoundsError::MaxBelowMin,
            ),
            scale_factor > 0 && min_procs <= max_procs ==> made is Ok && made->Ok_0@ == (BoundsModel {
                scale_factor: scale_factor as nat,
                min_procs: min_procs as nat,
                max_procs: max_procs as nat,
            }),
    {
        if scale_factor == 0 {
            Err(BoundsError::ZeroScaleFactor)
        } else if max_procs < min_procs {
            Err(BoundsError::MaxBelowMin)
        } else {
            Ok(ScalingBounds { scale_factor, min_procs, max_procs })
        }
    }

    pub fn scale_factor(&self) -> (n: usize)
        ensures
            n == self@.scale_factor,
            n > 0,
    {
        proof {
            use_type_invariant(self);
        }
        self.scale_factor
    }

    pub fn min_procs(&self) -> (n: usize)
        ensures
            n == self@.min_procs,
            n <= self@.max_procs,
    {
        proof {
            use_type_invariant(self);
        }
        self.min_procs
    }

    pub fn max_procs(&self) -> (n: usize)
        ensures
            n == self@.max_procs,
            n >= self@.min_procs,
    {
        proof {
            use_type_invariant(self);
        }
        self.max_procs
    }

    /// The process count for a backlog of `queue_depth` messages.
    pub fn target(&self, queue_depth: usize) -> (n: usize)
        ensures
            n == self@.target(queue_depth as nat),
            self@.min_procs <= n <= self@.max_procs,
    {
        proof {
            use_type_invariant(self);
        }
        let raw: usize = queue_depth / self.scale_factor;
        if raw < self.min_procs {
            self.min_procs
        } else if raw > self.max_procs {
            self.max_procs
        } else {
            raw
        }
    }
}

/// Why a tick leaves the process count alone.
#[derive(Clone, Copy, Debug, PartialEq, Eq)]
pub enum SkipReason {
    /// The host is at or above the CPU ceiling.
    CpuHigh,
}

impl SkipReason {
    /// The reason as the log names it.
    pub fn label(&self) -> (text: &'static str)
        ensures
            text@ == "cpu-high"@,
    {
        match self {
            SkipReason::CpuHigh => "cpu-high",
        }
    }
}

/// The policy's verdict for one tick.
#[derive(Clone, Copy, Debug, PartialEq, Eq)]
pub enum Decision {
    /// Scaling is deferred this tick.
    Skip(SkipReason),
    /// This many worker processes should run.
    Target(usize),
}

/// The verdict for `metrics` under `bounds` with the CPU ceiling at `ceiling`
/// hundredths of a percent.
pub open spec fn spec_decide(metrics: Metrics, bounds: BoundsModel, ceiling: nat) -> Decision {
    if metrics.cpu@ >= ceiling {
        Decision::Skip(SkipReason::CpuHigh)
    } else {
        Decision::Target(bounds.target(metrics.queue_depth as nat) as usize)
    }
}

/// Decides what this tick should do. A host at or above the ceiling defers
/// scaling whatever the backlog; otherwise the target is the backlog divided
/// by the scale factor, rounded down and kept within the bounds.
pub fn decide(metrics: &Metrics, bounds: &ScalingBounds, cpu_ceiling: CpuLoad) -> (decision:
    Decision)
    ensures
        decision == spec_decide(*metrics, bounds@, cpu_ceiling@),
        metrics.cpu@ >= cpu_ceiling@ ==> decision == Decision::Skip(SkipReason::CpuHigh),
        metrics.cpu@ < cpu_ceiling@ ==> decision is Target && bounds@.min_procs
            <= decision->Target_0 <= bounds@.max_procs,
{
    if metrics.cpu.hundredths() >= cpu_ceiling.hundredths() {
        Decision::Skip(SkipReason::CpuHigh)
    } else {
        Decision::Target(bounds.target(metrics.queue_depth))
    }
}

/// A target never leaves the bounds: it is at least the minimum and at most
/// the maximum, whatever the backlog.
pub proof fn lemma_target_within_bounds(bounds: BoundsModel, queue_depth: nat)
    requires
        bounds.valid(),
    ensures
        bounds.min_procs <= bounds.target(queue_depth) <= bounds.max_procs,
{
}

/// The target before clamping is the backlog divided by the scale factor,
/// rounded down: the largest count whose share of messages the backlog covers.
pub proof fn lemma_quotient_rounds_down(bounds: BoundsModel, queue_depth: nat)
    requires
        bounds.valid(),
    ensures
        (queue_depth / bounds.scale_factor) * bounds.scale_factor <= queue_depth,
        queue_depth < (queue_depth / bounds.scale_factor + 1) * bounds.scale_factor,
{
    let d = bounds.scale_factor as int;
    let q = queue_depth as int;
    vstd::arithmetic::div_mod::lemma_fundamental_div_mod(q, d);
    vstd::arithmetic::div_mod::lemma_mod_bound(q, d);
    assert((q / d) * d == d * (q / d)) by (nonlinear_arith);
    assert((q / d + 1) * d == d * (q / d) + d) by (nonlinear_arith);
}

/// More backlog never asks for fewer processes.
pub proof fn lemma_target_monotonic(bounds: BoundsModel, fewer: nat, more: nat)
    requires
        bounds.valid(),
        fewer <= more,
    ensures
        bounds.target(fewer) <= bounds.target(more),
{
    vstd::arithmetic::div_mod::lemma_div_is_ordered(
        fewer as int,
        more as int,
        bounds.scale_factor as int,
    );
}

/// Below the ceiling the policy names a target, and the target is within the
/// bounds.
pub proof fn lemma_decide_below_ceiling(metrics: Metrics, bounds: ScalingBounds, ceiling: CpuLoad)
    requires
        bounds@.valid(),
        metrics.cpu@ < ceiling@,
    ensures
        spec_decide(metrics, bounds@, ceiling@) == Decision::Target(
            bounds@.target(metrics.queue_depth as nat) as usize,
        ),
        bounds@.min_procs <= spec_decide(metrics, bounds@, ceiling@)->Target_0
            <= bounds@.max_procs,
{
}

/// At or above the ceiling the policy defers scaling, whatever the backlog
/// and the bounds.
pub proof fn lemma_decide_at_ceiling(metrics: Metrics, bounds: BoundsModel, ceiling: nat)
    requires
        metrics.cpu@ >= ceiling,
    ensures
        spec_decide(metrics, bounds, ceiling) == Decision::Skip(SkipReason::CpuHigh),
{
}

} // verus!
