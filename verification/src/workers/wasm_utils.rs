//! Running a deployed function: passing its input into the module's memory,
//! calling its entry point and reading its output back.
use vstd::prelude::*;

use crate::wasm_host::{
    call_func_pair, call_func_u32, calls_since, compile_module, extends, find_func_pair,
    find_func_u32, find_memory, has_func_export, has_memory_export, instantiate, memory_read,
    memory_write, new_store, one_i32, set_fuel, two_i32, close_instance, CallLog, HostCall,
    WasmInstance, WasmModule, WasmStore,
};
use wasmtime::Engine;

verus! {

/// Why running a function failed; each carries the engine's message.
pub enum RunError {
    /// The module exports no allocator from `i32` to `i32`.
    AllocLookup(String),
    /// The allocator failed.
    AllocCall(String),
    /// The module exports no memory named `memory`.
    NoMemory,
    /// The input could not be written at the allocated pointer.
    Write(String),
    /// The module exports no entry point from two `i32` to two `i32`.
    MainLookup(String),
    /// The entry point failed.
    MainCall(String),
    /// The output could not be read where the entry point put it.
    Read(String),
}

/// The message for a failed run.
pub open spec fn run_error_message(e: RunError) -> Seq<char> {
    match e {
        RunError::AllocLookup(m) => "Failed to get alloc function: "@ + m@,
        RunError::AllocCall(m) => "Failed to get pointer: "@ + m@,
        RunError::NoMemory => "No memory found in wasm module"@,
        RunError::Write(m) => m@,
        RunError::MainLookup(m) => m@,
        RunError::MainCall(m) => m@,
        RunError::Read(m) => m@,
    }
}

impl RunError {
    /// The message that reports this failure to the client.
    pub fn message(&self) -> (r: String)
        ensures
            r@ == run_error_message(*self),
    {
        match self {
            RunError::AllocLookup(m) => String::from_str("Failed to get alloc function: ").concat(
                m.as_str(),
            ),
            RunError::AllocCall(m) => String::from_str("Failed to get pointer: ").concat(m.as_str()),
            RunError::NoMemory => String::from_str("No memory found in wasm module"),
            RunError::Write(m) => m.clone(),
            RunError::MainLookup(m) => m.clone(),
            RunError::MainCall(m) => m.clone(),
            RunError::Read(m) => m.clone(),
        }
    }
}

/// The module that `wasm` encodes exports an allocator `alloc` from `i32`
/// to `i32`.
pub open spec fn exports_alloc(wasm: Seq<u8>) -> bool {
    has_func_export(wasm, "alloc"@, one_i32(), one_i32())
}

/// The module that `wasm` encodes exports a memory named `memory`.
pub open spec fn exports_memory(wasm: Seq<u8>) -> bool {
    has_memory_export(wasm, "memory"@)
}

/// The module that `wasm` encodes exports an entry point `main` from two
/// `i32` to two `i32`.
pub open spec fn exports_main(wasm: Seq<u8>) -> bool {
    has_func_export(wasm, "main"@, two_i32(), two_i32())
}

/// The module that `wasm` encodes exports all that running it takes: the
/// allocator, the memory and the entry point.
pub open spec fn runnable(wasm: Seq<u8>) -> bool {
    exports_alloc(wasm) && exports_memory(wasm) && exports_main(wasm)
}

/// How asking the allocator for room for `input` goes, as the calls `c` it
/// makes and its outcome `e` where it fails: `alloc` is not found, or it is
/// and its call with the input's length (modulo 2^32) fails.
pub open spec fn alloc_failed(input: Seq<u8>, c: Seq<HostCall>, e: RunError) -> bool {
    ||| c.len() == 1 && c[0] == HostCall::FindU32("alloc"@, false) && e is AllocLookup
    ||| c.len() == 2 && c[0] == HostCall::FindU32("alloc"@, true) && c[1] == HostCall::CallU32(
        input.len() as u32,
        None,
    ) && e is AllocCall
}

/// How asking the allocator for room for `input` goes, as the calls `c` it
/// makes and its result `r`: `alloc` is looked up, then called once with
/// the input's length (modulo 2^32), and its answer is the pointer.
pub open spec fn alloc_protocol(input: Seq<u8>, c: Seq<HostCall>, r: Result<u32, RunError>) -> bool {
    match r {
        Ok(p) => c.len() == 2 && c[0] == HostCall::FindU32("alloc"@, true) && c[1] == HostCall::CallU32(
            input.len() as u32,
            Some(p),
        ),
        Err(e) => alloc_failed(input, c, e),
    }
}

/// How a run on `input` goes once the allocator gave pointer `p`, as the
/// further calls `c` it makes and its result `r`: the memory `memory` is
/// looked up; the input is written at `p`; `main` is looked up and called
/// once with `p` and the input's length (modulo 2^32); the `l` bytes at the
/// `q` it returns are read back, and they are the result. The first step
/// that fails ends the run with its error.
pub open spec fn after_alloc(input: Seq<u8>, p: u32, c: Seq<HostCall>, r: Result<Seq<u8>, RunError>) -> bool {
    let n = input.len() as u32;
    &&& c.len() >= 1
    &&& if c[0] == HostCall::FindMemory("memory"@, false) {
        c.len() == 1 && (r matches Err(RunError::NoMemory))
    } else {
        &&& c[0] == HostCall::FindMemory("memory"@, true)
        &&& c.len() >= 2
        &&& if c[1] == HostCall::Write(p as usize, input, false) {
            c.len() == 2 && (r matches Err(RunError::Write(_)))
        } else {
            &&& c[1] == HostCall::Write(p as usize, input, true)
            &&& c.len() >= 3
            &&& if c[2] == HostCall::FindPair("main"@, false) {
                c.len() == 3 && (r matches Err(RunError::MainLookup(_)))
            } else {
                &&& c[2] == HostCall::FindPair("main"@, true)
                &&& c.len() >= 4
                &&& match c[3] {
                    HostCall::CallPair(a, b, None) => a == p && b == n && c.len() == 4 && (r matches Err(
                        RunError::MainCall(_),
                    )),
                    HostCall::CallPair(a, b, Some(ret)) => a == p && b == n && c.len() == 5 && match c[4] {
                        HostCall::Read(o, len, Some(out)) => o == ret.0 as usize && len == ret.1 as usize
                            && r == Ok::<Seq<u8>, RunError>(out),
                        HostCall::Read(o, len, None) => o == ret.0 as usize && len == ret.1 as usize && (
                        r matches Err(RunError::Read(_))),
                        _ => false,
                    },
                    _ => false,
                }
            }
        }
    }
}

/// How a run on `input` goes, as the calls `c` it makes into the instance
/// and its result `r`: the allocator is asked for room, and the rest of the
/// run follows `after_alloc`.
pub open spec fn run_protocol(input: Seq<u8>, c: Seq<HostCall>, r: Result<Seq<u8>, RunError>) -> bool {
    if c.len() <= 2 {
        r matches Err(e) && alloc_failed(input, c, e)
    } else {
        &&& c[0] == HostCall::FindU32("alloc"@, true)
        &&& match c[1] {
            HostCall::CallU32(a, Some(p)) => a == input.len() as u32 && after_alloc(input, p, c.skip(2), r),
            _ => false,
        }
    }
}

/// A run's result with the output taken as a sequence.
pub open spec fn run_view(r: Result<Vec<u8>, RunError>) -> Result<Seq<u8>, RunError> {
    match r {
        Ok(v) => Ok(v@),
        Err(e) => Err(e),
    }
}

/// Asks the module's allocator for room for `input`; the length is passed
/// modulo 2^32.
pub fn get_alloc_ptr(inst: &mut WasmInstance, input: &[u8]) -> (r: Result<u32, RunError>)
    ensures
        extends(*old(inst), *final(inst)),
        alloc_protocol(input@, calls_since(*old(inst), *final(inst)), r),
        final(inst).has_func_pair() == old(inst).has_func_pair(),
        final(inst).has_memory() == old(inst).has_memory(),
        !exports_alloc(old(inst).source()) ==> (r matches Err(RunError::AllocLookup(_))),
        (r is Ok || (r matches Err(RunError::AllocCall(_)))) ==> exports_alloc(old(inst).source()),
{
    let ghost c0 = inst.calls();
    match find_func_u32(inst, "alloc") {
        Ok(()) => {},
        Err(e) => {
            assert(inst.calls().skip(c0.len() as int) =~= seq![HostCall::FindU32("alloc"@, false)]);
            assert(inst.calls().take(c0.len() as int) =~= c0);
            return Err(RunError::AllocLookup(e));
        },
    }
    let len = input.len() as u32;
    let r = match call_func_u32(inst, len) {
        Ok(ptr) => Ok(ptr),
        Err(e) => Err(RunError::AllocCall(e)),
    };
    assert(inst.calls().skip(c0.len() as int) =~= seq![
        HostCall::FindU32("alloc"@, true),
        HostCall::CallU32(len, match r { Ok(p) => Some(p), Err(_) => None }),
    ]);
    assert(inst.calls().take(c0.len() as int) =~= c0);
    r
}

/// Runs the function an instance holds on `input`: allocates room, writes
/// the input there, calls `main` with its pointer and length (modulo 2^32),
/// and reads back as many bytes as `main` says its output has, from where it
/// says. Each step that needs an export fails where the module lacks it.
pub fn run_wasm(inst: &mut WasmInstance, input: &[u8]) -> (r: Result<Vec<u8>, RunError>)
    ensures
        extends(*old(inst), *final(inst)),
        run_protocol(input@, calls_since(*old(inst), *final(inst)), run_view(r)),
        r matches Ok(out) ==> out@.len() <= u32::MAX,
        r is Ok ==> runnable(old(inst).source()),
        !exports_alloc(old(inst).source()) ==> (r matches Err(RunError::AllocLookup(_))),
        r matches Err(RunError::NoMemory) ==> exports_alloc(old(inst).source()) && !exports_memory(
            old(inst).source(),
        ),
        ((r matches Err(RunError::Write(_))) || (r matches Err(RunError::MainLookup(_)))) ==> exports_alloc(
            old(inst).source(),
        ) && exports_memory(old(inst).source()),
        ((r matches Err(RunError::MainCall(_))) || (r matches Err(RunError::Read(_)))) ==> runnable(
            old(inst).source(),
        ),
{
    let ghost c0 = inst.calls();
    let ptr = match get_alloc_ptr(inst, input) {
        Ok(p) => p,
        Err(e) => {
            assert(run_protocol(input@, calls_since(*old(inst), *inst), run_view(Err(e))));
            return Err(e);
        },
    };
    let ghost c2 = inst.calls();
    let ghost n = input.len() as u32;
    assert(c2.skip(c0.len() as int) =~= seq![
        HostCall::FindU32("alloc"@, true),
        HostCall::CallU32(n, Some(ptr)),
    ]);
    let found = find_memory(inst, "memory");
    if !found {
        let r: Result<Vec<u8>, RunError> = Err(RunError::NoMemory);
        proof {
            assert(inst.calls().skip(c2.len() as int) =~= seq![HostCall::FindMemory("memory"@, false)]);
            assert(inst.calls().take(c2.len() as int) =~= c2);
            lemma_run_steps(input@, ptr, c0, c2, inst.calls(), run_view(r));
        }
        return r;
    }
    let written = memory_write(inst, ptr as usize, input);
    if let Err(e) = written {
        let r: Result<Vec<u8>, RunError> = Err(RunError::Write(e));
        proof {
            assert(inst.calls().skip(c2.len() as int) =~= seq![
                HostCall::FindMemory("memory"@, true),
                HostCall::Write(ptr as usize, input@, false),
            ]);
            assert(inst.calls().take(c2.len() as int) =~= c2);
            lemma_run_steps(input@, ptr, c0, c2, inst.calls(), run_view(r));
        }
        return r;
    }
    match find_func_pair(inst, "main") {
        Ok(()) => {},
        Err(e) => {
            let r: Result<Vec<u8>, RunError> = Err(RunError::MainLookup(e));
            proof {
                assert(inst.calls().skip(c2.len() as int) =~= seq![
                    HostCall::FindMemory("memory"@, true),
                    HostCall::Write(ptr as usize, input@, true),
                    HostCall::FindPair("main"@, false),
                ]);
                assert(inst.calls().take(c2.len() as int) =~= c2);
            lemma_run_steps(input@, ptr, c0, c2, inst.calls(), run_view(r));
            }
            return r;
        },
    }
    let ghost c5 = inst.calls();
    let called = call_func_pair(inst, ptr, input.len() as u32);
    let (out_ptr, out_len) = match called {
        Ok(pair) => pair,
        Err(e) => {
            let r: Result<Vec<u8>, RunError> = Err(RunError::MainCall(e));
            proof {
                assert(inst.calls().skip(c2.len() as int) =~= seq![
                    HostCall::FindMemory("memory"@, true),
                    HostCall::Write(ptr as usize, input@, true),
                    HostCall::FindPair("main"@, true),
                    HostCall::CallPair(ptr, n, None),
                ]);
                assert(inst.calls().take(c2.len() as int) =~= c2);
            lemma_run_steps(input@, ptr, c0, c2, inst.calls(), run_view(r));
            }
            return r;
        },
    };
    let read = memory_read(inst, out_ptr as usize, out_len as usize);
    let r: Result<Vec<u8>, RunError> = match read {
        Ok(out) => Ok(out),
        Err(e) => Err(RunError::Read(e)),
    };
    proof {
        assert(inst.calls().skip(c2.len() as int) =~= seq![
            HostCall::FindMemory("memory"@, true),
            HostCall::Write(ptr as usize, input@, true),
            HostCall::FindPair("main"@, true),
            HostCall::CallPair(ptr, n, Some((out_ptr, out_len))),
            HostCall::Read(out_ptr as usize, out_len as usize, match read { Ok(v) => Some(v@), Err(_) => None }),
        ]);
        assert(inst.calls().take(c2.len() as int) =~= c2);
        lemma_run_steps(input@, ptr, c0, c2, inst.calls(), run_view(r));
    }
    r
}

/// Where the allocator gave `p` after calls `c0` grew to `c2`, and the run
/// went on to make calls `c` that `after_alloc` describes, the whole run
/// follows `run_protocol`.
proof fn lemma_run_steps(
    input: Seq<u8>,
    p: u32,
    c0: Seq<HostCall>,
    c2: Seq<HostCall>,
    c: Seq<HostCall>,
    r: Result<Seq<u8>, RunError>,
)
    requires
        c2.len() == c0.len() + 2,
        c2.take(c0.len() as int) == c0,
        c2.skip(c0.len() as int) == seq![HostCall::FindU32("alloc"@, true), HostCall::CallU32(input.len() as u32, Some(p))],
        c.len() >= c2.len(),
        c.take(c2.len() as int) == c2,
        after_alloc(input, p, c.skip(c2.len() as int), r),
    ensures
        c.take(c0.len() as int) == c0,
        run_protocol(input, c.skip(c0.len() as int), r),
{
    assert(c.take(c0.len() as int) =~= c2.take(c0.len() as int));
    let s = c.skip(c0.len() as int);
    assert(s[0] == c2.skip(c0.len() as int)[0]);
    assert(s[1] == c2.skip(c0.len() as int)[1]);
    assert(s.skip(2) =~= c.skip(c2.len() as int));
}

/// Why an instance could not be made.
pub enum InstanceError {
    /// The bytes did not compile; the engine's message.
    Compile(String),
    /// The module could not be instantiated; the engine's message.
    Instantiate(String),
}

/// The message for a failure to make an instance.
pub open spec fn instance_error_message(e: InstanceError) -> Seq<char> {
    match e {
        InstanceError::Compile(m) => "Failed to create wasm module: "@ + m@,
        InstanceError::Instantiate(m) => "Failed to create instance wasm module: "@ + m@,
    }
}

impl InstanceError {
    /// The message that reports this failure.
    pub fn message(&self) -> (r: String)
        ensures
            r@ == instance_error_message(*self),
    {
        match self {
            InstanceError::Compile(m) => String::from_str("Failed to create wasm module: ").concat(
                m.as_str(),
            ),
            InstanceError::Instantiate(m) => String::from_str(
                "Failed to create instance wasm module: ",
            ).concat(m.as_str()),
        }
    }
}

/// Compiles `wasm` and instantiates it in `store`, which the instance keeps.
pub fn create_wasm_instance(engine: &Engine, wasm: &[u8], store: WasmStore) -> (r: Result<WasmInstance, InstanceError>)
    ensures
        r matches Ok(i) ==> i.source() == wasm@ && i.fuel() == store.fuel() && i.calls().len() == 0,
{
    let module = match compile_module(engine, wasm) {
        Ok(m) => m,
        Err(e) => {
            return Err(InstanceError::Compile(e));
        },
    };
    match instantiate(store, &module) {
        Ok(i) => Ok(i),
        Err(e) => Err(InstanceError::Instantiate(e)),
    }
}

/// Fuel a job's store starts with: how much work one invocation may do.
pub const JOB_FUEL: u64 = 10_000;

/// A fresh store for one job, holding `JOB_FUEL` fuel; or the engine's
/// refusal to set fuel.
pub fn job_store(engine: &Engine) -> (r: Result<WasmStore, String>)
    ensures
        r matches Ok(s) ==> s.fuel() == Some(JOB_FUEL),
{
    let mut store = new_store(engine);
    match set_fuel(&mut store, JOB_FUEL) {
        Ok(()) => Ok(store),
        Err(e) => Err(e),
    }
}

/// The text a run's result gives: its output, or the message of its error.
pub open spec fn run_text(r: Result<Seq<u8>, RunError>) -> Result<Seq<u8>, Seq<char>> {
    match r {
        Ok(out) => Ok(out),
        Err(e) => Err(run_error_message(e)),
    }
}

/// A result with its output and message taken as sequences.
pub open spec fn text_view(r: Result<Vec<u8>, String>) -> Result<Seq<u8>, Seq<char>> {
    match r {
        Ok(v) => Ok(v@),
        Err(m) => Err(m@),
    }
}

/// `r` is what a run on `input` whose calls into the instance were `c`
/// gives, its error as a message: the calls follow `run_protocol`, which
/// fixes the output and which step failed; only the engine's text in an
/// error is not recorded in the calls.
pub open spec fn ran(input: Seq<u8>, c: Seq<HostCall>, r: Result<Seq<u8>, Seq<char>>) -> bool {
    exists|rr: Result<Seq<u8>, RunError>| #[trigger] run_protocol(input, c, rr) && run_text(rr) == r
}

/// What a run that gave `r`, with the record `log` of its instance where an
/// instance was made, comes to for the module `wasm` encodes and a store
/// that started with `fuel`: without an instance the run failed; with one,
/// the instance is of that module and store, and `r` is what its calls gave.
pub open spec fn run_logged(wasm: Seq<u8>, fuel: Option<u64>, input: Seq<u8>, r: Result<Vec<u8>, String>, log: Option<CallLog>) -> bool {
    match log {
        None => r is Err,
        Some(l) => l.source() == wasm && l.fuel() == fuel && ran(input, l.calls(), text_view(r)),
    }
}

/// Runs a fresh instance on `input` and reports an error by its message,
/// with the record of the instance.
fn run_fresh(inst: WasmInstance, input: &[u8]) -> (r: (Result<Vec<u8>, String>, CallLog))
    requires
        inst.calls().len() == 0,
    ensures
        r.1.source() == inst.source(),
        r.1.fuel() == inst.fuel(),
        ran(input@, r.1.calls(), text_view(r.0)),
        r.0 matches Ok(out) ==> out@.len() <= u32::MAX && runnable(inst.source()),
{
    let mut inst = inst;
    let ghost fresh = inst;
    let res = run_wasm(&mut inst, input);
    assert(calls_since(fresh, inst) =~= inst.calls());
    let r = match res {
        Ok(out) => Ok(out),
        Err(e) => Err(e.message()),
    };
    assert(run_protocol(input@, inst.calls(), run_view(res)));
    assert(run_text(run_view(res)) == text_view(r));
    let log = close_instance(inst);
    (r, log)
}

/// Runs a compiled module's function on `input` with `store`: instantiates
/// it there, then runs it. Gives the result and the record of the instance,
/// if one was made.
pub fn run_module(module: &WasmModule, store: WasmStore, input: &[u8]) -> (r: (Result<Vec<u8>, String>, Option<CallLog>))
    ensures
        run_logged(module.source(), store.fuel(), input@, r.0, r.1),
        r.0 matches Ok(out) ==> out@.len() <= u32::MAX,
        r.0 is Ok ==> runnable(module.source()),
{
    let instance = match instantiate(store, module) {
        Ok(i) => i,
        Err(e) => {
            return (Err(e), None);
        },
    };
    let (res, log) = run_fresh(instance, input);
    (res, Some(log))
}

/// Compiles `wasm` and runs its function on `input` with `store`. Gives the
/// result and the record of the instance, if one was made.
pub fn run_code(engine: &Engine, wasm: &[u8], store: WasmStore, input: &[u8]) -> (r: (Result<Vec<u8>, String>, Option<CallLog>))
    ensures
        run_logged(wasm@, store.fuel(), input@, r.0, r.1),
        r.1 is None ==> exists|e: InstanceError|
            text_view(r.0) == Err::<Seq<u8>, Seq<char>>(#[trigger] instance_error_message(e)),
        r.0 matches Ok(out) ==> out@.len() <= u32::MAX,
        r.0 is Ok ==> runnable(wasm@),
{
    let instance = match create_wasm_instance(engine, wasm, store) {
        Ok(i) => i,
        Err(e) => {
            let m = e.message();
            assert(text_view(Err::<Vec<u8>, String>(m)) == Err::<Seq<u8>, Seq<char>>(instance_error_message(e)));
            return (Err(m), None);
        },
    };
    let (res, log) = run_fresh(instance, input);
    (res, Some(log))
}

impl WasmModule {
    /// Compiles `wasm` for `engine`; the module remembers the bytes.
    pub fn compile(engine: &Engine, wasm: &[u8]) -> (r: Result<WasmModule, String>)
        ensures
            r matches Ok(m) ==> m.source() == wasm@,
    {
        compile_module(engine, wasm)
    }
}

} // verus!
