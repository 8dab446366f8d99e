//! A worker's module cache: compiled modules by request path, filled and
//! emptied on the cache controller's signals.
use vstd::prelude::*;

use super::model::{CacheErr, CacherTelemetry};
use crate::http::utils::get_function_name;
use crate::path_map::PathMap;
use crate::scheduler::types::GCCSignal;
use crate::text::split_on;
use crate::wasm_host::WasmModule;
use wasmtime::Engine;

verus! {

/// Compiled modules by request path.
pub type ModuleCache = PathMap<WasmModule>;

/// What a module cache does on a signal of the cache controller.
pub enum CacheStep {
    /// The module is cached already: nothing to do.
    Skip,
    /// Fetch the code of the function `name` and hand it, with `path`, to
    /// `cache_module`.
    Fetch { path: String, name: String },
    /// Send this report to the scheduler.
    Report(CacherTelemetry),
}

/// Handles one signal of the cache controller: a module to cache is fetched
/// unless it is cached already; a module to evict is dropped and reported.
pub fn handle_cache_signal(cache: &mut ModuleCache, signal: GCCSignal) -> (r: CacheStep)
    requires
        old(cache).wf(),
    ensures
        final(cache).wf(),
        match signal {
            GCCSignal::CacheModule { path } => {
                &&& final(cache)@ == old(cache)@
                &&& if old(cache)@.contains_key(path@) {
                    r is Skip
                } else {
                    r matches CacheStep::Fetch { path: p, name } && p@ == path@ && name@ == split_on(
                        path@,
                        '/',
                    ).last()
                }
            },
            GCCSignal::EvictModule { path } => {
                &&& final(cache)@ == old(cache)@.remove(path@)
                &&& r matches CacheStep::Report(CacherTelemetry::ModuleEvicted { path: p }) && p@ == path@
            },
        },
{
    match signal {
        GCCSignal::CacheModule { path } => {
            if cache.contains_key(&path) {
                CacheStep::Skip
            } else {
                let name = get_function_name(path.as_str());
                CacheStep::Fetch { path, name }
            }
        },
        GCCSignal::EvictModule { path } => {
            cache.remove(&path);
            CacheStep::Report(CacherTelemetry::ModuleEvicted { path })
        },
    }
}

/// Compiles the fetched code `wasm` of the module at `path` and caches it.
/// Gives the report for the scheduler: the module is cached, or could not be
/// compiled (with the compiler's message), in which case the cache is
/// unchanged.
pub fn cache_module(cache: &mut ModuleCache, engine: &Engine, path: String, wasm: &[u8]) -> (r:
    CacherTelemetry)
    requires
        old(cache).wf(),
    ensures
        final(cache).wf(),
        match r {
            CacherTelemetry::ModuleCached { path: p } => {
                &&& p@ == path@
                &&& final(cache)@.contains_key(path@)
                &&& final(cache)@[path@].source() == wasm@
                &&& final(cache)@.remove(path@) == old(cache)@.remove(path@)
            },
            CacherTelemetry::FailedToCache { path: p, error } => {
                &&& p@ == path@
                &&& error is ModuleCreationError
                &&& final(cache)@ == old(cache)@
            },
            _ => false,
        },
{
    match WasmModule::compile(engine, wasm) {
        Ok(module) => {
            let key = path.clone();
            cache.set(key, module);
            proof {
                assert(final(cache)@.remove(path@) =~= old(cache)@.remove(path@));
            }
            CacherTelemetry::ModuleCached { path }
        },
        Err(reason) => CacherTelemetry::FailedToCache { path, error: CacheErr::ModuleCreationError { reason } },
    }
}

} // verus!
