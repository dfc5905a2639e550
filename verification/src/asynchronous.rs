//! Deferred work: the run queue of the executor and the timers that wake
//! its tasks.

pub mod executor;
pub mod queue;
pub mod timer;
