//! Tasks that are bound to processors.

use vstd::prelude::*;

verus! {

/// The mask that allows every processor.
pub const ALL_CPUS: u64 = 0xffff_ffff_ffff_ffff;

/// A piece of work that can be run on some processors.
pub trait Task {
    /// The processors that the task may run on, one bit for each.
    fn get_cpu_affinity_mask(&self) -> (r: u64)
    ;

    fn exec(&self)
    ;
}

/// A task that does nothing and may run on every processor.
#[derive(Debug, Copy, Clone)]
pub struct DummyTask;

impl Task for DummyTask {
    fn get_cpu_affinity_mask(&self) -> (r: u64)
        ensures
            r == ALL_CPUS,
    {
        ALL_CPUS
    }

    fn exec(&self) {
    }
}

} // verus!
