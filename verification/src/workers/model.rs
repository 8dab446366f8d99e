//! Messages exchanged between the scheduler, its workers and their module caches.
use vstd::prelude::*;

verus! {

/// What the scheduler tells a worker.
pub enum Message {
    Stop(String),
    Job { path: String, input: Vec<u8>, j_id: usize },
}

/// What a worker reports back to the scheduler.
pub enum WorkerSignal {
    HeartBeat { w_id: usize },
    Working { w_id: usize, j_id: usize },
    Finished { w_id: usize, j_id: usize, result: Vec<u8> },
    Failed { w_id: usize, j_id: usize, reason: String },
}

/// What a worker's module cache reports about the modules it holds.
pub enum CacherTelemetry {
    ModuleCached { path: String },
    ModuleEvicted { path: String },
    ModuleUsed { path: String },
    FailedToCache { path: String, error: CacheErr },
}

/// Why a module could not be cached.
#[derive(Debug)]
pub enum CacheErr {
    SerializationError { reason: String },
    ModuleCreationError { reason: String },
    IoError { reason: String },
    NotFound,
}

} // verus!
