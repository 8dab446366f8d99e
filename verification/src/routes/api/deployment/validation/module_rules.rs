//! Validating a module before it is deployed.
use vstd::prelude::*;

use super::exports::{exports_allowed, validate_wasm_exports, ExportsError};
use super::functions::{pointer_protocol, validate_alloc_pointer, AllocPointerError};
use super::imports::{validate_wasm_imports, ImportError};
use crate::wasm_host::{
    call_func_u32, calls_since, close_instance, extends, find_func_u32, instantiate,
    module_exports_of, module_import_names_of, new_store, CallLog, HostCall, WasmInstance,
    WasmModule,
};
use wasmtime::Engine;

verus! {

/// Why a module is refused for deployment.
pub enum ModuleValidationError {
    /// It exports something it may not.
    Exports(ExportsError),
    /// It imports something.
    Imports(ImportError),
    /// It could not be instantiated; the engine's message.
    Instantiate(String),
    /// Its allocator could not be found as a function from `i32` to `i32`.
    AllocLookup(String),
    /// Its allocator failed when asked for 32 bytes.
    AllocCall(String),
    /// The region its allocator returned is unusable.
    AllocPointer(AllocPointerError),
}

/// How the trial of a module's allocator goes, as the calls `c` it makes
/// into a fresh instance and its result `r`: `alloc` is looked up as a
/// function from `i32` to `i32`, called once with 32, and the pointer it
/// returns is checked by `pointer_protocol`.
pub open spec fn trial_protocol(c: Seq<HostCall>, r: Result<(), ModuleValidationError>) -> bool {
    if c.len() == 1 {
        c[0] == HostCall::FindU32("alloc"@, false) && (r matches Err(ModuleValidationError::AllocLookup(_)))
    } else if c.len() >= 2 {
        &&& c[0] == HostCall::FindU32("alloc"@, true)
        &&& match c[1] {
            HostCall::CallU32(arg, None) => arg == 32 && c.len() == 2 && (r matches Err(
                ModuleValidationError::AllocCall(_),
            )),
            HostCall::CallU32(arg, Some(ptr)) => {
                &&& arg == 32
                &&& (r is Ok || (r matches Err(ModuleValidationError::AllocPointer(_))))
                &&& pointer_protocol(ptr, c.skip(2), pointer_part(r))
            },
            _ => false,
        }
    } else {
        false
    }
}

/// The pointer check's part of a validation result.
pub open spec fn pointer_part(r: Result<(), ModuleValidationError>) -> Result<(), AllocPointerError> {
    match r {
        Err(ModuleValidationError::AllocPointer(e)) => Err(e),
        _ => Ok(()),
    }
}

/// The module that `wasm` encodes passes the rules on exports and imports.
pub open spec fn rules_pass(wasm: Seq<u8>) -> bool {
    exports_allowed(module_exports_of(wasm)) && module_import_names_of(wasm).len() == 0
}

/// What checking the module that `wasm` encodes gives, `trial` being the
/// record of the instance the check made, if it made one: forbidden exports
/// are refused first, then any import; a module that passes both rules is
/// instantiated (in a store without fuel), and then either that failed, with
/// no instance, or the result is what the trial of its allocator in that
/// instance gave, call by call.
pub open spec fn validation_outcome(wasm: Seq<u8>, r: Result<(), ModuleValidationError>, trial: Option<CallLog>) -> bool {
    &&& (r matches Err(ModuleValidationError::Exports(_))) <==> !exports_allowed(module_exports_of(wasm))
    &&& (r matches Err(ModuleValidationError::Imports(_))) <==> exports_allowed(module_exports_of(wasm))
        && module_import_names_of(wasm).len() > 0
    &&& !rules_pass(wasm) ==> trial is None
    &&& rules_pass(wasm) ==> match trial {
        None => r matches Err(ModuleValidationError::Instantiate(_)),
        Some(log) => log.source() == wasm && log.fuel() is None && trial_protocol(log.calls(), r),
    }
}

/// Tries the allocator of a fresh instance: looks up `alloc`, asks it for
/// 32 bytes and checks the region it returns.
pub fn trial_allocation(inst: &mut WasmInstance) -> (r: Result<(), ModuleValidationError>)
    ensures
        extends(*old(inst), *final(inst)),
        trial_protocol(calls_since(*old(inst), *final(inst)), r),
{
    let ghost c0 = inst.calls();
    match find_func_u32(inst, "alloc") {
        Ok(()) => {},
        Err(e) => {
            assert(inst.calls().skip(c0.len() as int) =~= seq![HostCall::FindU32("alloc"@, false)]);
            assert(inst.calls().take(c0.len() as int) =~= c0);
            return Err(ModuleValidationError::AllocLookup(e));
        },
    }
    let ptr = match call_func_u32(inst, 32) {
        Ok(p) => p,
        Err(e) => {
            assert(inst.calls().skip(c0.len() as int) =~= seq![
                HostCall::FindU32("alloc"@, true),
                HostCall::CallU32(32, None),
            ]);
            assert(inst.calls().take(c0.len() as int) =~= c0);
            return Err(ModuleValidationError::AllocCall(e));
        },
    };
    let ghost c2 = inst.calls();
    assert(c2.skip(c0.len() as int) =~= seq![
        HostCall::FindU32("alloc"@, true),
        HostCall::CallU32(32, Some(ptr)),
    ]);
    let checked = validate_alloc_pointer(ptr, inst);
    let r: Result<(), ModuleValidationError> = match checked {
        Ok(()) => Ok(()),
        Err(e) => Err(ModuleValidationError::AllocPointer(e)),
    };
    assert(inst.calls().take(c2.len() as int) =~= c2);
    assert(inst.calls().take(c0.len() as int) =~= c0);
    assert(inst.calls().skip(c0.len() as int).skip(2) =~= inst.calls().skip(c2.len() as int));
    assert(inst.calls().skip(c0.len() as int)[0] == c2.skip(c0.len() as int)[0]);
    assert(inst.calls().skip(c0.len() as int)[1] == c2.skip(c0.len() as int)[1]);
    assert(pointer_protocol(ptr, inst.calls().skip(c2.len() as int), pointer_part(r)));
    r
}

/// Checks a module before deployment: its exports and imports by their
/// rules, then a trial run of its allocator, asking for 32 bytes, in a fresh
/// instance.
/// Checks a module before deployment: its exports and imports by their
/// rules, then a trial run of its allocator, asking for 32 bytes, in a fresh
/// instance. Gives the verdict and the record of that instance.
pub fn validate_wasm_module(engine: &Engine, module: &WasmModule) -> (r: (Result<(), ModuleValidationError>, Option<CallLog>))
    ensures
        validation_outcome(module.source(), r.0, r.1),
{
    match validate_wasm_exports(module) {
        Ok(()) => {},
        Err(e) => {
            return (Err(ModuleValidationError::Exports(e)), None);
        },
    }
    match validate_wasm_imports(module) {
        Ok(()) => {},
        Err(e) => {
            return (Err(ModuleValidationError::Imports(e)), None);
        },
    }
    let mut inst = match instantiate(new_store(engine), module) {
        Ok(i) => i,
        Err(e) => {
            return (Err(ModuleValidationError::Instantiate(e)), None);
        },
    };
    let ghost fresh = inst;
    let r = trial_allocation(&mut inst);
    assert(calls_since(fresh, inst) =~= inst.calls());
    let log = close_instance(inst);
    (r, Some(log))
}

/// The message that reports an unusable allocator region.
pub open spec fn alloc_pointer_message(e: AllocPointerError) -> Seq<char> {
    match e {
        AllocPointerError::Null => "Alloc call returned pointer which = 0"@,
        AllocPointerError::OutsideMemory => "alloc returned pointer outside memory"@,
        AllocPointerError::RegionExceedsMemory => "alloc returned region that exceeds memory"@,
        AllocPointerError::NoMemory => "module exports no memory named memory"@,
        AllocPointerError::WriteFailed => "failed to write into memory"@,
    }
}

/// The message that reports why a module was refused.
pub open spec fn validation_error_message(e: ModuleValidationError) -> Seq<char> {
    match e {
        ModuleValidationError::Exports(_) => "Wasm module contains forbidden exports"@,
        ModuleValidationError::Imports(ImportError::Unsupported(first)) => "Unsupported import: "@
            + first@,
        ModuleValidationError::Instantiate(m) => "failed to instantiate module: "@ + m@,
        ModuleValidationError::AllocLookup(m) => m@,
        ModuleValidationError::AllocCall(m) => m@,
        ModuleValidationError::AllocPointer(p) => alloc_pointer_message(p),
    }
}

impl ModuleValidationError {
    /// The message that reports why the module was refused.
    pub fn message(&self) -> (r: String)
        ensures
            r@ == validation_error_message(*self),
    {
        match self {
            ModuleValidationError::Exports(_) => String::from_str("Wasm module contains forbidden exports"),
            ModuleValidationError::Imports(ImportError::Unsupported(first)) => String::from_str(
                "Unsupported import: ",
            ).concat(first.as_str()),
            ModuleValidationError::Instantiate(m) => String::from_str(
                "failed to instantiate module: ",
            ).concat(m.as_str()),
            ModuleValidationError::AllocLookup(m) => m.clone(),
            ModuleValidationError::AllocCall(m) => m.clone(),
            ModuleValidationError::AllocPointer(p) => match p {
                AllocPointerError::Null => String::from_str("Alloc call returned pointer which = 0"),
                AllocPointerError::OutsideMemory => String::from_str(
                    "alloc returned pointer outside memory",
                ),
                AllocPointerError::RegionExceedsMemory => String::from_str(
                    "alloc returned region that exceeds memory",
                ),
                AllocPointerError::NoMemory => String::from_str("module exports no memory named memory"),
                AllocPointerError::WriteFailed => String::from_str("failed to write into memory"),
            },
        }
    }
}

} // verus!
