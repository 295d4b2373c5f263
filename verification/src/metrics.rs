//! What a tick observes: the host's CPU load and the depth of the work queue.

use crate::number::{parse, spec_parse};
use vstd::prelude::*;

verus! {

/// The load of a fully busy host, in hundredths of a percent.
pub const FULL_LOAD: u32 = 10_000;

/// The load at and above which scaling is deferred: 75%.
pub const MAX_CPU_USAGE: u32 = 7_500;

/// CPU utilisation across all cores as a fixed-point number: hundredths of a
/// percent, from 0 (idle) to `FULL_LOAD`.
#[derive(Clone, Copy, Debug, PartialEq, Eq)]
pub struct CpuLoad {
    hundredths: u32,
}

impl View for CpuLoad {
    type V = nat;

    closed spec fn view(&self) -> nat {
        self.hundredths as nat
    }
}

impl CpuLoad {
    #[verifier::type_invariant]
    spec fn in_range(self) -> bool {
        self.hundredths <= FULL_LOAD
    }

    /// The load that `hundredths` stands for; a reading above 100% counts as 100%.
    pub fn from_hundredths(hundredths: u32) -> (load: CpuLoad)
        ensures
            load@ == if hundredths <= FULL_LOAD { hundredths } else { FULL_LOAD },
    {
        if hundredths <= FULL_LOAD {
            CpuLoad { hundredths }
        } else {
            CpuLoad { hundredths: FULL_LOAD }
        }
    }

    /// The default ceiling, `MAX_CPU_USAGE`.
    pub fn default_ceiling() -> (load: CpuLoad)
        ensures
            load@ == MAX_CPU_USAGE,
    {
        CpuLoad { hundredths: MAX_CPU_USAGE }
    }

    pub fn hundredths(&self) -> (h: u32)
        ensures
            h == self@,
            h <= FULL_LOAD,
    {
        proof {
            use_type_invariant(self);
        }
        self.hundredths
    }
}

/// What one tick observed.
#[derive(Clone, Copy, Debug, PartialEq, Eq)]
pub struct Metrics {
    pub cpu: CpuLoad,
    pub queue_depth: usize,
}

/// The metric service's answer to a request for the queue's approximate
/// number of messages.
#[derive(Clone, Debug, PartialEq, Eq)]
pub enum QueueReply {
    /// The request failed: the service could not be reached, refused the
    /// caller, or sent what could not be understood.
    Failed,
    /// The service answered, without the attribute asked for.
    Missing,
    /// The attribute's text.
    Count(Vec<u8>),
}

/// The backlog that `reply` reports. Only a reply whose text is a count
/// reports one; any other reply stands for an empty queue, so that a queue
/// that cannot be reached looks like a queue without backlog.
pub open spec fn spec_queue_depth(reply: QueueReply) -> usize {
    match reply {
        QueueReply::Count(text) => match spec_parse(text@) {
            Some(count) => count,
            None => 0,
        },
        _ => 0,
    }
}

/// The backlog that `reply` reports, 0 where it reports none.
pub fn queue_depth(reply: &QueueReply) -> (depth: usize)
    ensures
        depth == spec_queue_depth(*reply),
{
    match reply {
        QueueReply::Count(text) => match parse(text.as_slice()) {
            Some(count) => count,
            None => 0,
        },
        _ => 0,
    }
}

} // verus!
