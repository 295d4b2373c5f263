//! Decision logic of a queue-driven process autoscaler.
//!
//! Once per tick the scaler reads the host's CPU load and the depth of a work
//! queue, derives the number of worker processes that should run, and applies
//! that number to a process supervisor's configuration. This crate holds the
//! parts of that loop that decide and compute; sampling, file access and the
//! supervisor's commands are left to the caller, who exchanges plain values
//! with the functions here.
//!
//! - [`policy`]: from metrics and bounds to a target process count.
//! - [`metrics`]: the CPU load as a fixed-point number, and the queue's answer.
//! - [`config`]: the supervisor's configuration as text; reading and setting
//!   the worker count.
//! - [`reload`]: the two commands of a supervisor reload.
//! - [`control`]: the loop itself, as a state machine that the caller drives.
//! - [`number`]: counts as decimal text.
//! - [`store`]: how the supervisor store can fail.

pub mod config;
pub mod control;
pub mod metrics;
pub mod number;
pub mod policy;
pub mod reload;
pub mod store;
