//! Commands and signals of the scheduler.
use vstd::prelude::*;

verus! {

/// A change of the worker pool that the load and heartbeat monitors ask for.
pub enum SchedulerCommand {
    Upgrade(usize),
    Downgrade(Vec<usize>),
    DropDeadWorker(usize),
}

/// What the cache controller tells every worker's module cache.
#[derive(Clone)]
pub enum GCCSignal {
    CacheModule { path: String },
    EvictModule { path: String },
}

/// A cached module that may be evicted to make room, with the memory its
/// cached instances take together.
#[derive(Ord, PartialOrd, Eq, PartialEq, Hash)]
pub struct ModuleEvictionStats {
    pub path: String,
    pub total_memory_usage: usize,
}

} // verus!
