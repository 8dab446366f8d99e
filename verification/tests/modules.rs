use serverless::path_map::PathMap;
use serverless::routes::api::deployment::handler::{deploy, deploy_answer, deploy_compiled, DeployStep};
use serverless::routes::api::deployment::validation::internal::{check_internal_exports, InternalCheckError};
use serverless::scheduler::types::GCCSignal;
use serverless::wasm_host::WasmModule;
use serverless::workers::cache::{cache_module, handle_cache_signal, CacheStep, ModuleCache};
use serverless::workers::handler::{handle_job, job_report, run_fetched, JobRun};
use serverless::workers::model::{CacheErr, CacherTelemetry, WorkerSignal};
use serverless::workers::wasm_utils::job_store;

/// An engine that runs jobs: fuel is metered.
fn engine() -> wasmtime::Engine {
    configured(true)
}

/// An engine that checks uploads: fuel is not metered.
fn deploy_engine() -> wasmtime::Engine {
    configured(false)
}

fn configured(fuel: bool) -> wasmtime::Engine {
    let mut config = wasmtime::Config::new();
    config.consume_fuel(fuel);
    config.memory_reservation(1 << 24);
    config.memory_guard_size(1 << 16);
    config.memory_reservation_for_growth(0);
    wasmtime::Engine::new(&config).unwrap()
}

const HEADER: [u8; 8] = [0x00, 0x61, 0x73, 0x6d, 0x01, 0x00, 0x00, 0x00];

fn types_and_funcs() -> Vec<u8> {
    let mut m = HEADER.to_vec();
    m.extend_from_slice(&[
        0x01, 0x0d, 0x02, 0x60, 0x01, 0x7f, 0x01, 0x7f, 0x60, 0x02, 0x7f, 0x7f, 0x02, 0x7f, 0x7f,
    ]);
    m.extend_from_slice(&[0x03, 0x03, 0x02, 0x00, 0x01]);
    m
}

fn code() -> Vec<u8> {
    vec![
        0x0a, 0x0e, 0x02, 0x05, 0x00, 0x41, 0x80, 0x08, 0x0b, 0x06, 0x00, 0x20, 0x00, 0x20, 0x01, 0x0b,
    ]
}

fn exports() -> Vec<u8> {
    vec![
        0x07, 0x19, 0x03, 0x06, b'm', b'e', b'm', b'o', b'r', b'y', 0x02, 0x00, 0x05, b'a', b'l', b'l', b'o',
        b'c', 0x00, 0x00, 0x04, b'm', b'a', b'i', b'n', 0x00, 0x01,
    ]
}

/// A module whose `main` gives back its input.
fn echo_module() -> Vec<u8> {
    let mut m = types_and_funcs();
    m.extend_from_slice(&[0x05, 0x04, 0x01, 0x01, 0x01, 0x02]);
    m.extend_from_slice(&exports());
    m.extend_from_slice(&code());
    m
}

/// The echo module with a memory that has no maximum.
fn unbounded_module() -> Vec<u8> {
    let mut m = types_and_funcs();
    m.extend_from_slice(&[0x05, 0x03, 0x01, 0x00, 0x01]);
    m.extend_from_slice(&exports());
    m.extend_from_slice(&code());
    m
}

#[test]
fn echo_module_runs() {
    let e = engine();
    let out = run_fetched(&e, &echo_module(), b"{\"x\":1}").0.unwrap();
    assert_eq!(out, b"{\"x\":1}".to_vec());
}

#[test]
fn garbage_does_not_run() {
    let e = engine();
    let err = run_fetched(&e, b"not wasm", b"").0.unwrap_err();
    assert!(err.starts_with("Failed to create wasm module: "));
}

#[test]
fn job_store_needs_fuel_enabled() {
    let plain = wasmtime::Engine::default();
    assert!(job_store(&plain).is_err());
    assert!(job_store(&engine()).is_ok());
}

#[test]
fn deploy_accepts_echo_module() {
    let e = deploy_engine();
    match deploy(&e, &echo_module(), "/functions/echo").0 {
        DeployStep::Store { name } => assert_eq!(name, "echo"),
        DeployStep::Reject { response } => panic!("refused: {}", response.resp),
        DeployStep::Abandon => panic!("abandoned"),
    }
}

#[test]
fn deploy_refuses_unbounded_memory() {
    let e = deploy_engine();
    match deploy(&e, &unbounded_module(), "/functions/echo").0 {
        DeployStep::Reject { response } => assert!(response.resp.ends_with(
            "{\"reason\":\"Failed to deploy function at path /functions/echo: Wasm module contains forbidden exports\"}"
        )),
        _ => panic!("expected a refusal"),
    }
}

#[test]
fn deploy_gives_up_on_garbage() {
    let e = deploy_engine();
    assert!(matches!(deploy(&e, b"\x00asm", "/functions/x").0, DeployStep::Abandon));
}

#[test]
fn deploy_answers() {
    let ok = deploy_answer("/functions/echo", Ok(()));
    assert!(ok.resp.starts_with("HTTP/1.1 200 Ok\r\n"));
    assert!(ok.resp.ends_with("{\"result\":\"function was succesfully deployed at /functions/echo\"}"));
    let failed = deploy_answer("/functions/echo", Err("db down".to_string()));
    assert!(failed.resp.starts_with("HTTP/1.1 500 Internal Server Error\r\n"));
    assert!(failed.resp.ends_with("{\"reason\":\"Failed to deploy function at path /functions/echo: db down\"}"));
}

#[test]
fn internal_checks() {
    assert!(check_internal_exports(&echo_module()).is_ok());
    assert!(matches!(check_internal_exports(&unbounded_module()), Err(InternalCheckError::NoMaximum)));
    assert!(matches!(check_internal_exports(b"junk"), Err(InternalCheckError::Malformed(_))));
}

#[test]
fn cache_fetches_then_runs_from_cache() {
    let e = engine();
    let mut cache: ModuleCache = PathMap::new();
    let path = "/invoke/echo".to_string();
    match handle_cache_signal(&mut cache, GCCSignal::CacheModule { path: path.clone() }) {
        CacheStep::Fetch { path: p, name } => {
            assert_eq!(p, path);
            assert_eq!(name, "echo");
        }
        _ => panic!("expected a fetch"),
    }
    match handle_job(&path, &e, &cache, b"hi") {
        JobRun::NeedsCode { name } => assert_eq!(name, "echo"),
        _ => panic!("expected to need the code"),
    }
    match cache_module(&mut cache, &e, path.clone(), &echo_module()) {
        CacherTelemetry::ModuleCached { path: p } => assert_eq!(p, path),
        _ => panic!("expected the module to be cached"),
    }
    assert!(matches!(
        handle_cache_signal(&mut cache, GCCSignal::CacheModule { path: path.clone() }),
        CacheStep::Skip
    ));
    match handle_job(&path, &e, &cache, b"hi") {
        JobRun::Finished(Ok(out), _) => assert_eq!(out, b"hi".to_vec()),
        _ => panic!("expected the job to run"),
    }
    match handle_cache_signal(&mut cache, GCCSignal::EvictModule { path: path.clone() }) {
        CacheStep::Report(CacherTelemetry::ModuleEvicted { path: p }) => assert_eq!(p, path),
        _ => panic!("expected an eviction report"),
    }
    assert!(!cache.contains_key(&path));
}

#[test]
fn cache_reports_code_that_does_not_compile() {
    let e = engine();
    let mut cache: ModuleCache = PathMap::new();
    match cache_module(&mut cache, &e, "/invoke/bad".to_string(), b"bad") {
        CacherTelemetry::FailedToCache { path, error } => {
            assert_eq!(path, "/invoke/bad");
            assert!(matches!(error, CacheErr::ModuleCreationError { .. }));
        }
        _ => panic!("expected a failure"),
    }
    assert!(!cache.contains_key(&"/invoke/bad".to_string()));
}

#[test]
fn compiled_module_keeps_working() {
    let e = engine();
    let m = WasmModule::compile(&e, &echo_module());
    assert!(m.is_ok());
    assert!(WasmModule::compile(&e, b"").is_err());
}

/// A module that imports a function and exports nothing.
fn importing_module() -> Vec<u8> {
    let mut m = HEADER.to_vec();
    m.extend_from_slice(&[0x01, 0x04, 0x01, 0x60, 0x00, 0x00]);
    m.extend_from_slice(&[0x02, 0x09, 0x01, 0x03, b'e', b'n', b'v', 0x01, b'f', 0x00, 0x00]);
    m
}

/// The echo module with `alloc` exported at the entry point's signature.
fn wrong_alloc_module() -> Vec<u8> {
    let mut m = types_and_funcs();
    m.extend_from_slice(&[0x05, 0x04, 0x01, 0x01, 0x01, 0x02]);
    let mut e = exports();
    e[19] = 0x01;
    m.extend_from_slice(&e);
    m.extend_from_slice(&code());
    m
}

#[test]
fn deploy_refuses_imports() {
    let e = deploy_engine();
    match deploy(&e, &importing_module(), "/functions/imp").0 {
        DeployStep::Reject { response } => {
            assert!(response.resp.contains("Failed to deploy function at path /functions/imp: Unsupported import: "));
            assert!(response.resp.contains("env"));
        }
        _ => panic!("expected a refusal"),
    }
    assert!(check_internal_exports(&importing_module()).is_ok());
}

#[test]
fn deploy_refuses_wrong_alloc_signature() {
    let e = deploy_engine();
    assert!(WasmModule::compile(&e, &wrong_alloc_module()).is_ok());
    match deploy(&e, &wrong_alloc_module(), "/functions/echo").0 {
        DeployStep::Reject { response } => assert!(response.resp.contains("Wasm module contains forbidden exports")),
        _ => panic!("expected a refusal"),
    }
}

#[test]
fn deploy_compiled_gives_up_on_refused_code() {
    let e = deploy_engine();
    assert!(matches!(
        deploy_compiled(&e, Err("bad magic".to_string()), "/functions/x").0,
        DeployStep::Abandon
    ));
    match deploy_compiled(&e, WasmModule::compile(&e, &echo_module()), "/functions/echo").0 {
        DeployStep::Store { name } => assert_eq!(name, "echo"),
        _ => panic!("expected the module to be stored"),
    }
}

#[test]
fn module_without_allocator_does_not_run() {
    let e = engine();
    let err = run_fetched(&e, &wrong_alloc_module(), b"{}").0.unwrap_err();
    assert!(err.starts_with("Failed to get alloc function: "));
}

#[test]
fn job_report_carries_the_outcome() {
    match job_report(3, 7, Ok(b"out".to_vec())) {
        WorkerSignal::Finished { w_id, j_id, result } => assert_eq!((w_id, j_id, result), (3, 7, b"out".to_vec())),
        _ => panic!("expected a finished report"),
    }
    match job_report(3, 8, Err("trap".to_string())) {
        WorkerSignal::Failed { w_id, j_id, reason } => assert_eq!((w_id, j_id, reason.as_str()), (3, 8, "trap")),
        _ => panic!("expected a failed report"),
    }
}
