//! The rules for the functions a module exports, and for the region its
//! allocator hands out.
use vstd::prelude::*;

use crate::wasm_host::{
    calls_since, extends, find_memory, has_memory_export, memory_size, memory_write, FuncSig,
    HostCall, ValueKind, ValueView, WasmInstance, value_views,
};

verus! {

/// Why an exported function's signature is refused.
pub enum SignatureError {
    /// It takes the wrong number of parameters.
    ParamCount,
    /// It returns the wrong number of results.
    ResultCount,
    /// A parameter is not an `i32`; the type found.
    ParamType(ValueKind),
    /// A result is not an `i32`; the type reported.
    ResultType(ValueKind),
}

/// The verdict on an allocator with these parameter and result types: it
/// must take one `i32` and return one. A wrong result type is reported with
/// the parameter's type.
pub open spec fn alloc_check(params: Seq<ValueView>, results: Seq<ValueView>) -> Result<(), Option<ValueView>> {
    if params.len() != 1 {
        Err(None)
    } else if results.len() != 1 {
        Err(None)
    } else if !(params[0] is I32) {
        Err(Some(params[0]))
    } else if !(results[0] is I32) {
        Err(Some(params[0]))
    } else {
        Ok(())
    }
}

/// Checks the signature of the exported allocator: one `i32` in, one out.
pub fn validate_alloc(kind: FuncSig) -> (r: Result<(), SignatureError>)
    ensures
        ({
            let p = value_views(kind.params@);
            let q = value_views(kind.results@);
            &&& r is Ok <==> alloc_check(p, q) is Ok
            &&& p.len() != 1 ==> (r matches Err(SignatureError::ParamCount))
            &&& p.len() == 1 && q.len() != 1 ==> (r matches Err(SignatureError::ResultCount))
            &&& p.len() == 1 && q.len() == 1 && !(p[0] is I32) ==> (r matches Err(
                SignatureError::ParamType(t),
            ) && t@ == p[0])
            &&& p.len() == 1 && q.len() == 1 && p[0] is I32 && !(q[0] is I32) ==> (r matches Err(
                SignatureError::ResultType(t),
            ) && t@ == p[0])
        }),
{
    let params = kind.params;
    let results = kind.results;
    if params.len() != 1 {
        return Err(SignatureError::ParamCount);
    }
    if results.len() != 1 {
        return Err(SignatureError::ResultCount);
    }
    let mut params = params;
    let mut results = results;
    let p = params.pop().unwrap();
    let q = results.pop().unwrap();
    match p {
        ValueKind::I32 => {},
        _ => {
            return Err(SignatureError::ParamType(p));
        },
    }
    match q {
        ValueKind::I32 => Ok(()),
        _ => Err(SignatureError::ResultType(p)),
    }
}

/// The verdict on an entry point with these types: it must take two `i32`
/// (where its input lies) and return two (where its output lies).
pub open spec fn main_check(params: Seq<ValueView>, results: Seq<ValueView>) -> Result<(), Option<ValueView>> {
    if params.len() != 2 {
        Err(None)
    } else if results.len() != 2 {
        Err(None)
    } else if !(params[0] is I32) {
        Err(Some(params[0]))
    } else if !(params[1] is I32) {
        Err(Some(params[1]))
    } else if !(results[0] is I32) {
        Err(Some(results[0]))
    } else if !(results[1] is I32) {
        Err(Some(results[1]))
    } else {
        Ok(())
    }
}

/// Checks the signature of the exported entry point: two `i32` in, two out.
pub fn validate_main(kind: FuncSig) -> (r: Result<(), SignatureError>)
    ensures
        ({
            let p = value_views(kind.params@);
            let q = value_views(kind.results@);
            &&& r is Ok <==> main_check(p, q) is Ok
            &&& p.len() != 2 ==> (r matches Err(SignatureError::ParamCount))
            &&& p.len() == 2 && q.len() != 2 ==> (r matches Err(SignatureError::ResultCount))
            &&& p.len() == 2 && q.len() == 2 && !(p[0] is I32 && p[1] is I32) ==> (r matches Err(
                SignatureError::ParamType(t),
            ) && main_check(p, q) == Err::<(), Option<ValueView>>(Some(t@)))
            &&& p.len() == 2 && q.len() == 2 && p[0] is I32 && p[1] is I32 && !(q[0] is I32
                && q[1] is I32) ==> (r matches Err(SignatureError::ResultType(t)) && main_check(p, q)
                == Err::<(), Option<ValueView>>(Some(t@)))
        }),
{
    let params = kind.params;
    let results = kind.results;
    if params.len() != 2 {
        return Err(SignatureError::ParamCount);
    }
    if results.len() != 2 {
        return Err(SignatureError::ResultCount);
    }
    let mut params = params;
    let mut results = results;
    let p1 = params.pop().unwrap();
    let p0 = params.pop().unwrap();
    let q1 = results.pop().unwrap();
    let q0 = results.pop().unwrap();
    match p0 {
        ValueKind::I32 => {},
        _ => {
            return Err(SignatureError::ParamType(p0));
        },
    }
    match p1 {
        ValueKind::I32 => {},
        _ => {
            return Err(SignatureError::ParamType(p1));
        },
    }
    match q0 {
        ValueKind::I32 => {},
        _ => {
            return Err(SignatureError::ResultType(q0));
        },
    }
    match q1 {
        ValueKind::I32 => Ok(()),
        _ => Err(SignatureError::ResultType(q1)),
    }
}

/// Why the region the allocator returned is refused.
pub enum AllocPointerError {
    /// The pointer is null.
    Null,
    /// The pointer lies outside the memory.
    OutsideMemory,
    /// The 32 bytes from the pointer do not fit in the memory.
    RegionExceedsMemory,
    /// The instance exports no memory named `memory`.
    NoMemory,
    /// Writing into the region failed.
    WriteFailed,
}

/// The verdict on a pointer the allocator returned, for a memory of `size` bytes.
pub open spec fn alloc_pointer_check(ptr: u32, size: u32) -> Result<(), AllocPointerError> {
    if ptr == 0 {
        Err(AllocPointerError::Null)
    } else if ptr >= size {
        Err(AllocPointerError::OutsideMemory)
    } else if ptr + 32 > size {
        Err(AllocPointerError::RegionExceedsMemory)
    } else {
        Ok(())
    }
}

/// Checks a pointer the allocator returned against a memory of `size` bytes:
/// not null, and 32 bytes from it fit.
pub fn check_alloc_pointer(ptr: u32, size: u32) -> (r: Result<(), AllocPointerError>)
    ensures
        r == alloc_pointer_check(ptr, size),
{
    if ptr == 0 {
        return Err(AllocPointerError::Null);
    }
    if ptr >= size {
        return Err(AllocPointerError::OutsideMemory);
    }
    if ptr as u64 + 32 > size as u64 {
        return Err(AllocPointerError::RegionExceedsMemory);
    }
    Ok(())
}

/// The bytes written into the allocator's region to probe it.
pub open spec fn probe_bytes() -> Seq<u8> {
    seq![1u8, 3u8, 4u8]
}

/// How checking pointer `ptr` goes, as the calls `c` it makes into the
/// instance and its result `r`: a null pointer is refused at once; else the
/// memory `memory` is looked up and refused if absent; else its size is
/// taken and the pointer checked against it (modulo 2^32); a pointer that
/// passes has the probe bytes written at it, and the check succeeds exactly
/// when that write does.
pub open spec fn pointer_protocol(ptr: u32, c: Seq<HostCall>, r: Result<(), AllocPointerError>) -> bool {
    if ptr == 0 {
        c.len() == 0 && r == Err::<(), AllocPointerError>(AllocPointerError::Null)
    } else if c.len() == 1 {
        c[0] == HostCall::FindMemory("memory"@, false) && r == Err::<(), AllocPointerError>(
            AllocPointerError::NoMemory,
        )
    } else if c.len() >= 2 {
        &&& c[0] == HostCall::FindMemory("memory"@, true)
        &&& match c[1] {
            HostCall::MemorySize(size) => match alloc_pointer_check(ptr, size as u32) {
                Err(e) => c.len() == 2 && r == Err::<(), AllocPointerError>(e),
                Ok(()) => c.len() == 3 && ((c[2] == HostCall::Write(ptr as usize, probe_bytes(), true)
                    && r is Ok) || (c[2] == HostCall::Write(ptr as usize, probe_bytes(), false) && r
                    == Err::<(), AllocPointerError>(AllocPointerError::WriteFailed))),
            },
            _ => false,
        }
    } else {
        false
    }
}

/// Checks the region the allocator returned inside the instance's memory
/// `memory` (its size taken modulo 2^32), and that a few bytes can be
/// written there.
pub fn validate_alloc_pointer(ptr: u32, inst: &mut WasmInstance) -> (r: Result<(), AllocPointerError>)
    ensures
        extends(*old(inst), *final(inst)),
        pointer_protocol(ptr, calls_since(*old(inst), *final(inst)), r),
        r matches Err(AllocPointerError::Null) <==> ptr == 0,
        r matches Err(AllocPointerError::NoMemory) <==> ptr != 0 && !has_memory_export(
            old(inst).source(),
            "memory"@,
        ),
{
    let ghost c0 = inst.calls();
    if ptr == 0 {
        assert(inst.calls().skip(c0.len() as int) =~= Seq::<HostCall>::empty());
        assert(inst.calls().take(c0.len() as int) =~= c0);
        return Err(AllocPointerError::Null);
    }
    if !find_memory(inst, "memory") {
        assert(inst.calls().skip(c0.len() as int) =~= seq![HostCall::FindMemory("memory"@, false)]);
        assert(inst.calls().take(c0.len() as int) =~= c0);
        return Err(AllocPointerError::NoMemory);
    }
    let ghost c1 = inst.calls();
    let size_bytes = memory_size(inst);
    let size = size_bytes as u32;
    assert(inst.calls().skip(c0.len() as int) =~= seq![
        HostCall::FindMemory("memory"@, true),
        HostCall::MemorySize(size_bytes),
    ]);
    match check_alloc_pointer(ptr, size) {
        Ok(()) => {},
        Err(e) => {
            assert(inst.calls().take(c0.len() as int) =~= c0);
            return Err(e);
        },
    }
    let probe: Vec<u8> = vec![1u8, 3u8, 4u8];
    assert(probe@ =~= probe_bytes());
    let written = memory_write(inst, ptr as usize, probe.as_slice());
    assert(inst.calls().skip(c0.len() as int) =~= seq![
        HostCall::FindMemory("memory"@, true),
        HostCall::MemorySize(size_bytes),
        HostCall::Write(ptr as usize, probe_bytes(), written is Ok),
    ]);
    assert(inst.calls().take(c0.len() as int) =~= c0);
    match written {
        Ok(()) => Ok(()),
        Err(_) => Err(AllocPointerError::WriteFailed),
    }
}

} // verus!
