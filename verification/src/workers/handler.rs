//! Running one job on a worker: from the worker's module cache when the
//! module is there, else from the code fetched for it.
use vstd::prelude::*;

use super::cache::ModuleCache;
use super::model::WorkerSignal;
use super::wasm_utils::{job_store, run_code, run_logged, run_module, runnable, JOB_FUEL};
use crate::wasm_host::CallLog;
use crate::http::utils::get_function_name;
use crate::text::split_on;
use wasmtime::Engine;

verus! {

/// How far a job got.
pub enum JobRun {
    /// It ran: the function's output, or why it failed; with the record of
    /// the instance it ran in, if one was made.
    Finished(Result<Vec<u8>, String>, Option<CallLog>),
    /// The module is not cached: fetch the code of the function `name` and
    /// run it with `run_fetched`.
    NeedsCode { name: String },
}

/// Runs the function at `path` on `input` with a fresh store holding the job
/// fuel, from the cached module when there is one.
pub fn handle_job(path: &String, engine: &Engine, cache: &ModuleCache, input: &[u8]) -> (r: JobRun)
    requires
        cache.wf(),
    ensures
        r matches JobRun::Finished(Ok(out), _) ==> out@.len() <= u32::MAX,
        r matches JobRun::NeedsCode { name } ==> !cache@.contains_key(path@) && name@ == split_on(
            path@,
            '/',
        ).last(),
        cache@.contains_key(path@) ==> r is Finished,
        !cache@.contains_key(path@) ==> (r is NeedsCode || (r matches JobRun::Finished(Err(_), None))),
        r matches JobRun::Finished(res, log) ==> if cache@.contains_key(path@) {
            run_logged(cache@[path@].source(), Some(JOB_FUEL), input@, res, log)
        } else {
            log is None && res is Err
        },
        r matches JobRun::Finished(Ok(_), _) ==> cache@.contains_key(path@) && runnable(
            cache@[path@].source(),
        ),
{
    let store = match job_store(engine) {
        Ok(s) => s,
        Err(e) => {
            return JobRun::Finished(Err(e), None);
        },
    };
    match cache.get(path) {
        Some(module) => {
            let (res, log) = run_module(module, store, input);
            JobRun::Finished(res, log)
        },
        None => JobRun::NeedsCode { name: get_function_name(path.as_str()) },
    }
}

/// Runs fetched code `wasm` on `input` with a fresh store holding the job
/// fuel. Gives the result and the record of the instance, if one was made.
pub fn run_fetched(engine: &Engine, wasm: &[u8], input: &[u8]) -> (r: (Result<Vec<u8>, String>, Option<CallLog>))
    ensures
        run_logged(wasm@, Some(JOB_FUEL), input@, r.0, r.1),
        r.0 matches Ok(out) ==> out@.len() <= u32::MAX,
        r.0 is Ok ==> runnable(wasm@),
{
    let store = match job_store(engine) {
        Ok(s) => s,
        Err(e) => {
            return (Err(e), None);
        },
    };
    run_code(engine, wasm, store, input)
}

/// The signal with which worker `w_id` reports the outcome of job `j_id`:
/// the output when it ran, the reason when it failed.
pub fn job_report(w_id: usize, j_id: usize, outcome: Result<Vec<u8>, String>) -> (r: WorkerSignal)
    ensures
        match outcome {
            Ok(v) => r == (WorkerSignal::Finished { w_id, j_id, result: v }),
            Err(m) => r == (WorkerSignal::Failed { w_id, j_id, reason: m }),
        },
{
    match outcome {
        Ok(result) => WorkerSignal::Finished { w_id, j_id, result },
        Err(reason) => WorkerSignal::Failed { w_id, j_id, reason },
    }
}

} // verus!
