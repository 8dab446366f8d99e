//! The rules for what a module exports.
use vstd::prelude::*;

use super::functions::{alloc_check, main_check, validate_alloc, validate_main};
use super::memory::{memory_export_check, validate_memory_exported};
use crate::text::same_text;
use crate::wasm_host::{
    export_views, module_exports, module_exports_of, ExportDesc, ExportView, ExternKind,
    ExternView, FuncSig, WasmModule,
};

verus! {

/// A module exports something it may not.
pub enum ExportsError {
    Forbidden,
}

/// Export `i` exports a memory.
pub open spec fn exports_memory(es: Seq<ExportView>, i: int) -> bool {
    es[i].kind is Memory
}

/// Export `i` exports a function under `name`.
pub open spec fn exports_func(es: Seq<ExportView>, i: int, name: Seq<char>) -> bool {
    es[i].kind is Func && es[i].name == name
}

/// Some export before `i` exports a memory.
pub open spec fn memory_before(es: Seq<ExportView>, i: int) -> bool {
    exists|j: int| 0 <= j < i && exports_memory(es, j)
}

/// Some export before `i` exports a function under `name`.
pub open spec fn func_before(es: Seq<ExportView>, i: int, name: Seq<char>) -> bool {
    exists|j: int| 0 <= j < i && exports_func(es, j, name)
}

proof fn lemma_memory_before_step(es: Seq<ExportView>, i: int)
    requires
        0 <= i,
    ensures
        memory_before(es, i + 1) == (memory_before(es, i) || exports_memory(es, i)),
{
    if memory_before(es, i + 1) {
        let j = choose|j: int| 0 <= j < i + 1 && exports_memory(es, j);
        if j < i {
            assert(memory_before(es, i));
        }
    }
    if exports_memory(es, i) {
        assert(memory_before(es, i + 1));
    }
    if memory_before(es, i) {
        let j = choose|j: int| 0 <= j < i && exports_memory(es, j);
        assert(memory_before(es, i + 1));
    }
}

proof fn lemma_func_before_step(es: Seq<ExportView>, i: int, name: Seq<char>)
    requires
        0 <= i,
    ensures
        func_before(es, i + 1, name) == (func_before(es, i, name) || exports_func(es, i, name)),
{
    if func_before(es, i + 1, name) {
        let j = choose|j: int| 0 <= j < i + 1 && exports_func(es, j, name);
        if j < i {
            assert(func_before(es, i, name));
        }
    }
    if exports_func(es, i, name) {
        assert(func_before(es, i + 1, name));
    }
    if func_before(es, i, name) {
        let j = choose|j: int| 0 <= j < i && exports_func(es, j, name);
        assert(func_before(es, i + 1, name));
    }
}

/// Export `i` is forbidden: it is neither a function nor a memory; or a
/// memory that fails its rules or follows another memory; or a function
/// named `alloc` or `main` that has the wrong signature or follows another
/// function of that name. Other functions are allowed.
pub open spec fn export_forbidden(es: Seq<ExportView>, i: int) -> bool {
    let e = es[i];
    match e.kind {
        ExternView::Memory(shared, minimum, maximum) => memory_export_check(
            shared,
            minimum,
            maximum,
            e.name,
        ) is Err || memory_before(es, i),
        ExternView::Func(params, results) => {
            ||| e.name == "alloc"@ && (alloc_check(params, results) is Err || func_before(es, i, e.name))
            ||| e.name == "main"@ && (main_check(params, results) is Err || func_before(es, i, e.name))
        },
        _ => true,
    }
}

/// No export is forbidden.
pub open spec fn exports_allowed(es: Seq<ExportView>) -> bool {
    forall|i: int| 0 <= i < es.len() ==> !export_forbidden(es, i)
}

/// Only functions and memories may be exported: where the exports are
/// allowed, every one of them is a function or a memory, so a global, a
/// table or a tag among them makes the module refused.
pub proof fn lemma_allowed_exports_are_funcs_or_memories(es: Seq<ExportView>)
    requires
        exports_allowed(es),
    ensures
        forall|i: int| 0 <= i < es.len() ==> (#[trigger] es[i]).kind is Func || es[i].kind is Memory,
{
    assert forall|i: int| 0 <= i < es.len() implies (#[trigger] es[i]).kind is Func || es[i].kind is Memory by {
        assert(!export_forbidden(es, i));
    }
}

fn func_sig_views_equal(sig: &FuncSig) -> (r: FuncSig)
    ensures
        r.params@ == sig.params@,
        r.results@ == sig.results@,
{
    let mut params: Vec<_> = Vec::new();
    let mut results: Vec<_> = Vec::new();
    let mut k: usize = 0;
    while k < sig.params.len()
        invariant
            k <= sig.params@.len(),
            params@ == sig.params@.take(k as int),
        decreases sig.params@.len() - k,
    {
        params.push(copy_kind(&sig.params[k]));
        k = k + 1;
        assert(params@ =~= sig.params@.take(k as int));
    }
    k = 0;
    while k < sig.results.len()
        invariant
            k <= sig.results@.len(),
            results@ == sig.results@.take(k as int),
            params@ == sig.params@,
        decreases sig.results@.len() - k,
    {
        results.push(copy_kind(&sig.results[k]));
        k = k + 1;
        assert(results@ =~= sig.results@.take(k as int));
    }
    assert(params@ =~= sig.params@);
    assert(results@ =~= sig.results@);
    FuncSig { params, results }
}

fn copy_kind(k: &crate::wasm_host::ValueKind) -> (r: crate::wasm_host::ValueKind)
    ensures
        r == *k,
{
    match k {
        crate::wasm_host::ValueKind::I32 => crate::wasm_host::ValueKind::I32,
        crate::wasm_host::ValueKind::I64 => crate::wasm_host::ValueKind::I64,
        crate::wasm_host::ValueKind::F32 => crate::wasm_host::ValueKind::F32,
        crate::wasm_host::ValueKind::F64 => crate::wasm_host::ValueKind::F64,
        crate::wasm_host::ValueKind::V128 => crate::wasm_host::ValueKind::V128,
        crate::wasm_host::ValueKind::Ref => crate::wasm_host::ValueKind::Ref,
    }
}

/// Checks a module's exports: at most one memory, which passes its rules;
/// at most one `alloc` and one `main`, each with its signature; other
/// functions are allowed, anything else is not.
pub fn check_exports(exports: &Vec<ExportDesc>) -> (r: Result<(), ExportsError>)
    ensures
        r is Ok <==> exports_allowed(export_views(exports@)),
        (exists|i: int| 0 <= i < exports@.len() && !((#[trigger] exports@[i]).kind is Func
            || exports@[i].kind is Memory)) ==> r is Err,
{
    let ghost es = export_views(exports@);
    proof {
        reveal_strlit("alloc");
        reveal_strlit("main");
    }
    let mut has_memory = false;
    let mut has_alloc = false;
    let mut has_main = false;
    let mut i: usize = 0;
    while i < exports.len()
        invariant
            es == export_views(exports@),
            i <= es.len(),
            forall|j: int| 0 <= j < i ==> !export_forbidden(es, j),
            has_memory == memory_before(es, i as int),
            has_alloc == func_before(es, i as int, "alloc"@),
            has_main == func_before(es, i as int, "main"@),
        decreases es.len() - i,
    {
        let e = &exports[i];
        assert(es[i as int] == e@);
        proof {
            reveal_strlit("alloc");
            reveal_strlit("main");
            assert("alloc"@.len() == 5);
            assert("main"@.len() == 4);
            assert("alloc"@ != "main"@);
        }
        match &e.kind {
            ExternKind::Memory(m) => {
                if has_memory {
                    {
                    assert(export_forbidden(es, i as int));
                    return Err(ExportsError::Forbidden);
                }
                }
                let desc = crate::wasm_host::MemoryDesc { shared: m.shared, minimum: m.minimum, maximum: m.maximum };
                if validate_memory_exported(desc, e.name.as_str()).is_err() {
                    {
                    assert(export_forbidden(es, i as int));
                    return Err(ExportsError::Forbidden);
                }
                }
                assert(es[i as int].kind == ExternView::Memory(m.shared, m.minimum, m.maximum));
                assert(!memory_before(es, i as int));
                assert(!export_forbidden(es, i as int));
                has_memory = true;
            },
            ExternKind::Func(sig) => {
                if same_text(e.name.as_str(), "alloc") {
                    if has_alloc {
                        {
                    assert(export_forbidden(es, i as int));
                    return Err(ExportsError::Forbidden);
                }
                    }
                    if validate_alloc(func_sig_views_equal(sig)).is_err() {
                        {
                    assert(export_forbidden(es, i as int));
                    return Err(ExportsError::Forbidden);
                }
                    }
                    assert(!export_forbidden(es, i as int));
                    has_alloc = true;
                } else if same_text(e.name.as_str(), "main") {
                    if has_main {
                        {
                    assert(export_forbidden(es, i as int));
                    return Err(ExportsError::Forbidden);
                }
                    }
                    if validate_main(func_sig_views_equal(sig)).is_err() {
                        {
                    assert(export_forbidden(es, i as int));
                    return Err(ExportsError::Forbidden);
                }
                    }
                    assert(!export_forbidden(es, i as int));
                    has_main = true;
                } else {
                    assert(!export_forbidden(es, i as int));
                }
            },
            _ => {
                {
                    assert(export_forbidden(es, i as int));
                    return Err(ExportsError::Forbidden);
                }
            },
        }
        proof {
            lemma_memory_before_step(es, i as int);
            lemma_func_before_step(es, i as int, "alloc"@);
            lemma_func_before_step(es, i as int, "main"@);
            reveal_strlit("alloc");
            reveal_strlit("main");
            assert(!export_forbidden(es, i as int));
        }
        i = i + 1;
    }
    proof {
        assert(exports_allowed(es));
        lemma_allowed_exports_are_funcs_or_memories(es);
        assert forall|j: int| 0 <= j < exports@.len() implies (#[trigger] exports@[j]).kind is Func
            || exports@[j].kind is Memory by {
            assert(es[j] == exports@[j]@);
        }
    }
    Ok(())
}

/// Checks the exports of a compiled module.
pub fn validate_wasm_exports(module: &WasmModule) -> (r: Result<(), ExportsError>)
    ensures
        r is Ok <==> exports_allowed(module_exports_of(module.source())),
        (exists|i: int| 0 <= i < module_exports_of(module.source()).len() && !((#[trigger] module_exports_of(
            module.source(),
        )[i]).kind is Func || module_exports_of(module.source())[i].kind is Memory)) ==> r is Err,
{
    let exports = module_exports(module);
    let r = check_exports(&exports);
    proof {
        if r is Ok {
            lemma_allowed_exports_are_funcs_or_memories(module_exports_of(module.source()));
        }
    }
    r
}

} // verus!
