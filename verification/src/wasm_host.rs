//! The WebAssembly engine, as the library sees it: a module compiled from
//! known bytes, described by plain values, and the few engine calls that
//! validation and invocation make.
use vstd::prelude::*;

use wasmtime::{Engine, ExternType, Instance, Memory, Module, Store, TypedFunc, ValType};

verus! {

/// Declares `wasmtime::Engine`.
#[verifier::external_type_specification]
#[verifier::external_body]
pub struct ExEngine(Engine);

/// Declares `wasmtime::Module`.
#[verifier::external_type_specification]
#[verifier::external_body]
pub struct ExModule(Module);

/// Declares `wasmtime::Store`.
#[verifier::external_type_specification]
#[verifier::external_body]
#[verifier::reject_recursive_types(T)]
pub struct ExStore<T: 'static>(Store<T>);

/// Declares `wasmtime::Instance`.
#[verifier::external_type_specification]
#[verifier::external_body]
pub struct ExInstance(Instance);

/// Declares `wasmtime::Memory`.
#[verifier::external_type_specification]
#[verifier::external_body]
pub struct ExMemory(Memory);

/// Declares `wasmtime::TypedFunc`.
#[verifier::external_type_specification]
#[verifier::external_body]
#[verifier::reject_recursive_types(Params)]
#[verifier::reject_recursive_types(Results)]
pub struct ExTypedFunc<Params, Results>(TypedFunc<Params, Results>);

/// The type of a WebAssembly value.
pub enum ValueKind {
    I32,
    I64,
    F32,
    F64,
    V128,
    /// A reference type.
    Ref,
}

/// The type of a WebAssembly value, as a plain value.
pub enum ValueView {
    I32,
    I64,
    F32,
    F64,
    V128,
    Ref,
}

impl View for ValueKind {
    type V = ValueView;

    open spec fn view(&self) -> ValueView {
        match self {
            ValueKind::I32 => ValueView::I32,
            ValueKind::I64 => ValueView::I64,
            ValueKind::F32 => ValueView::F32,
            ValueKind::F64 => ValueView::F64,
            ValueKind::V128 => ValueView::V128,
            ValueKind::Ref => ValueView::Ref,
        }
    }
}

/// Views of a sequence of value types.
pub open spec fn value_views(v: Seq<ValueKind>) -> Seq<ValueView> {
    v.map_values(|k: ValueKind| k@)
}

/// A function's parameter and result types.
pub struct FuncSig {
    pub params: Vec<ValueKind>,
    pub results: Vec<ValueKind>,
}

/// The limits of a linear memory, in pages.
pub struct MemoryDesc {
    pub shared: bool,
    pub minimum: u64,
    pub maximum: Option<u64>,
}

/// What a module exports under one name.
pub enum ExternKind {
    Func(FuncSig),
    Memory(MemoryDesc),
    Global,
    Table,
    Tag,
}

/// One export of a module.
pub struct ExportDesc {
    pub name: String,
    pub kind: ExternKind,
}

/// What a module exports under one name, as plain values.
pub enum ExternView {
    Func(Seq<ValueView>, Seq<ValueView>),
    Memory(bool, u64, Option<u64>),
    Global,
    Table,
    Tag,
}

/// One export, as plain values.
pub struct ExportView {
    pub name: Seq<char>,
    pub kind: ExternView,
}

impl View for ExportDesc {
    type V = ExportView;

    open spec fn view(&self) -> ExportView {
        ExportView {
            name: self.name@,
            kind: match &self.kind {
                ExternKind::Func(sig) => ExternView::Func(
                    value_views(sig.params@),
                    value_views(sig.results@),
                ),
                ExternKind::Memory(m) => ExternView::Memory(m.shared, m.minimum, m.maximum),
                ExternKind::Global => ExternView::Global,
                ExternKind::Table => ExternView::Table,
                ExternKind::Tag => ExternView::Tag,
            },
        }
    }
}

/// Views of a sequence of exports.
pub open spec fn export_views(v: Seq<ExportDesc>) -> Seq<ExportView> {
    v.map_values(|e: ExportDesc| e@)
}

/// A module compiled by the engine, with the bytes it was compiled from.
pub struct WasmModule {
    module: Module,
    source: Ghost<Seq<u8>>,
}

impl WasmModule {
    /// The bytes the module was compiled from.
    pub closed spec fn source(&self) -> Seq<u8> {
        self.source@
    }
}

/// The exports, in order, of the module that `wasm` encodes; a function's
/// signature is left out (empty) here.
pub uninterp spec fn module_export_items_of(wasm: Seq<u8>) -> Seq<ExportView>;

/// The parameter and result types of export `index` of the module that
/// `wasm` encodes, where that export is a function.
pub uninterp spec fn module_export_signature_of(wasm: Seq<u8>, index: int) -> (Seq<ValueView>, Seq<ValueView>);

/// The exports, in order, of the module that `wasm` encodes, functions with
/// their signatures.
pub open spec fn module_exports_of(wasm: Seq<u8>) -> Seq<ExportView> {
    module_export_items_of(wasm).map(
        |i: int, e: ExportView|
            match e.kind {
                ExternView::Func(_, _) => ExportView {
                    name: e.name,
                    kind: ExternView::Func(
                        module_export_signature_of(wasm, i).0,
                        module_export_signature_of(wasm, i).1,
                    ),
                },
                _ => e,
            },
    )
}

/// The module and field name of each import of the module that `wasm`
/// encodes, in order.
pub uninterp spec fn module_import_names_of(wasm: Seq<u8>) -> Seq<(Seq<char>, Seq<char>)>;

/// One import of a module: its module and field name, and the engine's
/// printing of it for debugging.
pub struct ImportDesc {
    pub module: String,
    pub name: String,
    pub text: String,
}

/// The module and field names of a sequence of imports.
pub open spec fn import_names(v: Seq<ImportDesc>) -> Seq<(Seq<char>, Seq<char>)> {
    v.map_values(|i: ImportDesc| (i.module@, i.name@))
}

/// Calls `wasmtime::Module::new`.
/// Claimed: a compiled module remembers the bytes it came from. Whether
/// compilation succeeds, and its error message, are left unsaid: they depend
/// on the engine's configuration.
#[verifier::external_body]
pub(crate) fn compile_module(engine: &Engine, wasm: &[u8]) -> (r: Result<WasmModule, String>)
    ensures
        r matches Ok(m) ==> m.source() == wasm@,
{
    match Module::new(engine, wasm) {
        Ok(module) => Ok(WasmModule { module, source: Ghost(wasm@) }),
        Err(e) => Err(e.to_string()),
    }
}

/// Calls `wasmtime::Module::exports` and describes each export, a
/// function without its signature.
/// Claimed: the description is `module_export_items_of` the module's bytes.
#[verifier::external_body]
fn module_export_items(m: &WasmModule) -> (r: Vec<ExportDesc>)
    ensures
        export_views(r@) == module_export_items_of(m.source()),
{
    let empty = || FuncSig { params: Vec::new(), results: Vec::new() };
    m.module.exports().map(|e| ExportDesc { name: e.name().to_string(), kind: match e.ty() {
        ExternType::Func(_) => ExternKind::Func(empty()),
        ExternType::Memory(t) => ExternKind::Memory(MemoryDesc { shared: t.is_shared(), minimum: t.minimum(), maximum: t.maximum() }),
        ExternType::Global(_) => ExternKind::Global, ExternType::Table(_) => ExternKind::Table, ExternType::Tag(_) => ExternKind::Tag,
    } }).collect()
}

/// Calls `wasmtime::Module::exports` and takes the parameter and result
/// types of export `index`, where it is a function.
/// Claimed: they are `module_export_signature_of` the module's bytes and index.
#[verifier::external_body]
fn module_export_signature(m: &WasmModule, index: usize) -> (r: FuncSig)
    ensures
        (value_views(r.params@), value_views(r.results@)) == module_export_signature_of(m.source(), index as int),
{
    let kind = |v: ValType| match v {
        ValType::I32 => ValueKind::I32, ValType::I64 => ValueKind::I64, ValType::F32 => ValueKind::F32,
        ValType::F64 => ValueKind::F64, ValType::V128 => ValueKind::V128, ValType::Ref(_) => ValueKind::Ref,
    };
    match m.module.exports().nth(index).map(|e| e.ty()) {
        Some(ExternType::Func(f)) => FuncSig { params: f.params().map(kind).collect(), results: f.results().map(kind).collect() },
        _ => FuncSig { params: Vec::new(), results: Vec::new() },
    }
}

/// The exports of a compiled module, in order, functions with their signatures.
pub fn module_exports(m: &WasmModule) -> (r: Vec<ExportDesc>)
    ensures
        export_views(r@) == module_exports_of(m.source()),
{
    let items = module_export_items(m);
    let ghost iv = export_views(items@);
    let mut out: Vec<ExportDesc> = Vec::new();
    let mut items = items;
    let mut k: usize = 0;
    let ghost all = items@;
    while k < items.len()
        invariant
            items@ == all,
            iv == export_views(all),
            iv == module_export_items_of(m.source()),
            k <= all.len(),
            export_views(out@) == module_exports_of(m.source()).take(k as int),
        decreases all.len() - k,
    {
        let e = &items[k];
        assert(iv[k as int] == e@);
        let kind = match &e.kind {
            ExternKind::Func(_) => ExternKind::Func(module_export_signature(m, k)),
            ExternKind::Memory(d) => ExternKind::Memory(MemoryDesc { shared: d.shared, minimum: d.minimum, maximum: d.maximum }),
            ExternKind::Global => ExternKind::Global,
            ExternKind::Table => ExternKind::Table,
            ExternKind::Tag => ExternKind::Tag,
        };
        let d = ExportDesc { name: e.name.clone(), kind };
        let ghost old_out = export_views(out@);
        out.push(d);
        assert(export_views(out@) =~= old_out.push(d@));
        k = k + 1;
        assert(export_views(out@) =~= module_exports_of(m.source()).take(k as int));
    }
    assert(module_exports_of(m.source()).take(k as int) =~= module_exports_of(m.source()));
    out
}

/// Calls `wasmtime::Module::imports` and describes each import.
/// Claimed: the module and field names are `module_import_names_of` the
/// module's bytes. The debugging text also shows the engine's own index of
/// the import's type, which depends on the engine, and is left unsaid.
#[verifier::external_body]
pub(crate) fn module_imports(m: &WasmModule) -> (r: Vec<ImportDesc>)
    ensures
        import_names(r@) == module_import_names_of(m.source()),
{
    m.module.imports().map(|i| ImportDesc { module: i.module().to_string(), name: i.name().to_string(),
        text: format!("{:?}", i) }).collect()
}

/// A store with no host state, and the fuel last set on it (`None` while
/// none was set).
pub struct WasmStore {
    store: Store<()>,
    fuel: Ghost<Option<u64>>,
}

impl WasmStore {
    /// The fuel last set on the store; `None` while none was set.
    pub closed spec fn fuel(&self) -> Option<u64> {
        self.fuel@
    }
}

/// Calls `wasmtime::Store::new` with no host state. Claimed: no fuel has
/// been set on the new store.
#[verifier::external_body]
pub(crate) fn new_store(engine: &Engine) -> (r: WasmStore)
    ensures
        r.fuel() is None,
{
    WasmStore { store: Store::new(engine, ()), fuel: Ghost(None) }
}

/// Calls `wasmtime::Store::set_fuel`. Claimed, as its source shows: where it
/// succeeds the store holds `fuel`; where it fails (fuel consumption is not
/// enabled in the engine's configuration, or memory ran out) nothing was set.
/// Which of the two happens depends on the engine's configuration and is
/// left unsaid.
#[verifier::external_body]
pub(crate) fn set_fuel(store: &mut WasmStore, fuel: u64) -> (r: Result<(), String>)
    ensures
        r is Ok ==> final(store).fuel() == Some(fuel),
        r is Err ==> final(store).fuel() == old(store).fuel(),
{
    match store.store.set_fuel(fuel) {
        Ok(()) => { store.fuel = Ghost(Some(fuel)); Ok(()) },
        Err(e) => Err(e.to_string()),
    }
}

/// One call the library made into an instance, with what came back.
pub enum HostCall {
    /// A lookup of a function from `i32` to `i32` by name; whether it was found.
    FindU32(Seq<char>, bool),
    /// A call of the function last found from `i32` to `i32`: its argument
    /// and its result, `None` where it failed.
    CallU32(u32, Option<u32>),
    /// A lookup of a function from two `i32` to two `i32` by name.
    FindPair(Seq<char>, bool),
    /// A call of the function last found from two `i32` to two `i32`.
    CallPair(u32, u32, Option<(u32, u32)>),
    /// A lookup of a memory by name.
    FindMemory(Seq<char>, bool),
    /// The size in bytes of the memory last found, as the store reported it.
    MemorySize(usize),
    /// A write into the memory last found: offset, bytes, and whether it
    /// succeeded.
    Write(usize, Seq<u8>, bool),
    /// A read from the memory last found: offset, length, and the bytes read
    /// where it succeeded.
    Read(usize, usize, Option<Seq<u8>>),
}

/// An instance of a compiled module together with the store that owns it,
/// and the functions and memory looked up in it. Everything here belongs to
/// that one store, so no call can mix stores. The instance remembers the
/// bytes its module was compiled from and the calls made into it.
pub struct WasmInstance {
    store: Store<()>,
    instance: Instance,
    func_u32: Option<TypedFunc<u32, u32>>,
    func_pair: Option<TypedFunc<(u32, u32), (u32, u32)>>,
    memory: Option<Memory>,
    source: Ghost<Seq<u8>>,
    fuel: Ghost<Option<u64>>,
    calls: Ghost<Seq<HostCall>>,
}

impl WasmInstance {
    /// The bytes the instance's module was compiled from.
    pub closed spec fn source(&self) -> Seq<u8> {
        self.source@
    }

    /// The calls made into the instance so far, in order.
    pub closed spec fn calls(&self) -> Seq<HostCall> {
        self.calls@
    }

    /// The fuel set on the store when the instance was made in it.
    pub closed spec fn fuel(&self) -> Option<u64> {
        self.fuel@
    }

    /// Whether a function from `i32` to `i32` has been found.
    pub closed spec fn has_func_u32(&self) -> bool {
        self.func_u32 is Some
    }

    /// Whether a function from two `i32` to two `i32` has been found.
    pub closed spec fn has_func_pair(&self) -> bool {
        self.func_pair is Some
    }

    /// Whether a memory has been found.
    pub closed spec fn has_memory(&self) -> bool {
        self.memory is Some
    }
}

/// `after` is `before` with one more call `c` recorded, the same bytes and
/// the same functions and memory found.
pub open spec fn one_more_call(before: WasmInstance, after: WasmInstance, c: HostCall) -> bool {
    &&& after.source() == before.source()
    &&& after.fuel() == before.fuel()
    &&& after.calls() == before.calls().push(c)
    &&& after.has_func_u32() == before.has_func_u32()
    &&& after.has_func_pair() == before.has_func_pair()
    &&& after.has_memory() == before.has_memory()
}

/// `after` is `before` after some more calls: the same bytes, and the calls
/// made before kept in order.
pub open spec fn extends(before: WasmInstance, after: WasmInstance) -> bool {
    &&& after.source() == before.source()
    &&& after.fuel() == before.fuel()
    &&& after.calls().len() >= before.calls().len()
    &&& after.calls().take(before.calls().len() as int) == before.calls()
}

/// The calls made into `after` since it was `before`.
pub open spec fn calls_since(before: WasmInstance, after: WasmInstance) -> Seq<HostCall> {
    after.calls().skip(before.calls().len() as int)
}

/// The module that `wasm` encodes exports a function named `name` from
/// `params` to `results`.
pub open spec fn has_func_export(wasm: Seq<u8>, name: Seq<char>, params: Seq<ValueView>, results: Seq<ValueView>) -> bool {
    exists|i: int|
        0 <= i < module_exports_of(wasm).len() && #[trigger] module_exports_of(wasm)[i] == (ExportView {
            name,
            kind: ExternView::Func(params, results),
        })
}

/// The module that `wasm` encodes exports a memory named `name` that is not
/// shared between threads.
pub open spec fn has_memory_export(wasm: Seq<u8>, name: Seq<char>) -> bool {
    exists|i: int|
        0 <= i < module_exports_of(wasm).len() && #[trigger] module_exports_of(wasm)[i].name == name
            && module_exports_of(wasm)[i].kind == ExternView::Memory(
            false,
            module_exports_of(wasm)[i].kind->Memory_1,
            module_exports_of(wasm)[i].kind->Memory_2,
        )
}

/// One `i32`.
pub open spec fn one_i32() -> Seq<ValueView> {
    seq![ValueView::I32]
}

/// Two `i32`.
pub open spec fn two_i32() -> Seq<ValueView> {
    seq![ValueView::I32, ValueView::I32]
}

/// Calls `wasmtime::Instance::new` with no imports in `store`, which the
/// instance then keeps. Claimed: the instance is of the module given, so it
/// keeps the module's bytes and the fuel set on the store; nothing has been
/// looked up or called in it yet. Whether instantiation succeeds runs the
/// module's start code and is left unsaid.
#[verifier::external_body]
pub(crate) fn instantiate(store: WasmStore, m: &WasmModule) -> (r: Result<WasmInstance, String>)
    ensures
        r matches Ok(i) ==> i.source() == m.source() && i.fuel() == store.fuel() && i.calls()
            == Seq::<HostCall>::empty() && !i.has_func_u32() && !i.has_func_pair() && !i.has_memory(),
{
    let WasmStore { store: mut store, fuel } = store;
    match Instance::new(&mut store, &m.module, &[]) {
        Ok(instance) => Ok(WasmInstance { store, instance, func_u32: None, func_pair: None, memory: None,
            source: Ghost(m.source()), fuel, calls: Ghost(Seq::empty()) }),
        Err(e) => Err(e.to_string()),
    }
}

/// What is left of an instance once the library is done with it: the bytes
/// of its module, the fuel its store started with, and the calls made into
/// it. Only an instance gives one.
pub struct CallLog {
    source: Ghost<Seq<u8>>,
    fuel: Ghost<Option<u64>>,
    calls: Ghost<Seq<HostCall>>,
}

impl CallLog {
    /// The bytes the instance's module was compiled from.
    pub closed spec fn source(&self) -> Seq<u8> {
        self.source@
    }

    /// The fuel set on the instance's store when it was made.
    pub closed spec fn fuel(&self) -> Option<u64> {
        self.fuel@
    }

    /// The calls made into the instance, in order.
    pub closed spec fn calls(&self) -> Seq<HostCall> {
        self.calls@
    }
}

/// Drops an instance, keeping the record of what was done with it.
pub fn close_instance(inst: WasmInstance) -> (log: CallLog)
    ensures
        log.source() == inst.source(),
        log.fuel() == inst.fuel(),
        log.calls() == inst.calls(),
{
    CallLog { source: Ghost(inst.source@), fuel: Ghost(inst.fuel@), calls: Ghost(inst.calls@) }
}

/// Calls `wasmtime::Instance::get_typed_func` for a function from `u32` to
/// `u32`, in the instance's own store, and keeps the function found.
/// Claimed, as its documentation says: it finds a function only where the
/// module exports a function `name` of that type (`u32` is `i32` in
/// WebAssembly). It may fail for want of memory even then.
#[verifier::external_body]
pub(crate) fn find_func_u32(inst: &mut WasmInstance, name: &str) -> (r: Result<(), String>)
    ensures
        r is Ok ==> has_func_export(old(inst).source(), name@, one_i32(), one_i32()),
        final(inst).source() == old(inst).source(),
        final(inst).fuel() == old(inst).fuel(),
        final(inst).calls() == old(inst).calls().push(HostCall::FindU32(name@, r is Ok)),
        final(inst).has_func_u32() == (r is Ok || old(inst).has_func_u32()),
        final(inst).has_func_pair() == old(inst).has_func_pair(),
        final(inst).has_memory() == old(inst).has_memory(),
{
    match inst.instance.get_typed_func::<u32, u32>(&mut inst.store, name) {
        Ok(f) => { inst.func_u32 = Some(f); Ok(()) },
        Err(e) => Err(e.to_string()),
    }
}

/// Calls `wasmtime::TypedFunc::call` on the function from `u32` to `u32`
/// last found, in the instance's store. Claimed: the call is recorded with
/// its argument and outcome. What it returns is computed by the module's
/// code and is left unsaid.
#[verifier::external_body]
pub(crate) fn call_func_u32(inst: &mut WasmInstance, arg: u32) -> (r: Result<u32, String>)
    requires
        old(inst).has_func_u32(),
    ensures
        one_more_call(*old(inst), *final(inst), HostCall::CallU32(arg, r.ok())),
{
    let f = inst.func_u32.as_ref().unwrap();
    f.call(&mut inst.store, arg).map_err(|e| e.to_string())
}

/// Calls `wasmtime::Instance::get_typed_func` for a function from two `u32`
/// to two `u32`, in the instance's own store, and keeps the function found.
/// Claimed, as its documentation says: it finds a function only where the
/// module exports a function `name` of that type. It may fail for want of
/// memory even then.
#[verifier::external_body]
pub(crate) fn find_func_pair(inst: &mut WasmInstance, name: &str) -> (r: Result<(), String>)
    ensures
        r is Ok ==> has_func_export(old(inst).source(), name@, two_i32(), two_i32()),
        final(inst).source() == old(inst).source(),
        final(inst).fuel() == old(inst).fuel(),
        final(inst).calls() == old(inst).calls().push(HostCall::FindPair(name@, r is Ok)),
        final(inst).has_func_u32() == old(inst).has_func_u32(),
        final(inst).has_func_pair() == (r is Ok || old(inst).has_func_pair()),
        final(inst).has_memory() == old(inst).has_memory(),
{
    match inst.instance.get_typed_func::<(u32, u32), (u32, u32)>(&mut inst.store, name) {
        Ok(f) => { inst.func_pair = Some(f); Ok(()) },
        Err(e) => Err(e.to_string()),
    }
}

/// Calls `wasmtime::TypedFunc::call` on the function from two `u32` to two
/// `u32` last found, in the instance's store. Claimed: the call is recorded
/// with its arguments and outcome. What it returns is computed by the
/// module's code and is left unsaid.
#[verifier::external_body]
pub(crate) fn call_func_pair(inst: &mut WasmInstance, a: u32, b: u32) -> (r: Result<(u32, u32), String>)
    requires
        old(inst).has_func_pair(),
    ensures
        one_more_call(*old(inst), *final(inst), HostCall::CallPair(a, b, r.ok())),
{
    let f = inst.func_pair.as_ref().unwrap();
    f.call(&mut inst.store, (a, b)).map_err(|e| e.to_string())
}

/// Calls `wasmtime::Instance::get_memory` in the instance's own store and
/// keeps the memory found. Claimed, as its documentation says: there is a
/// memory exactly when the module exports a (not shared) memory `name`.
#[verifier::external_body]
pub(crate) fn find_memory(inst: &mut WasmInstance, name: &str) -> (r: bool)
    ensures
        r <==> has_memory_export(old(inst).source(), name@),
        final(inst).source() == old(inst).source(),
        final(inst).fuel() == old(inst).fuel(),
        final(inst).calls() == old(inst).calls().push(HostCall::FindMemory(name@, r)),
        final(inst).has_func_u32() == old(inst).has_func_u32(),
        final(inst).has_func_pair() == old(inst).has_func_pair(),
        final(inst).has_memory() == (r || old(inst).has_memory()),
{
    match inst.instance.get_memory(&mut inst.store, name) {
        Some(m) => { inst.memory = Some(m); true },
        None => false,
    }
}

/// Calls `wasmtime::Memory::data_size` on the memory last found: its
/// current size in bytes, which the store decides and which is left unsaid.
#[verifier::external_body]
pub(crate) fn memory_size(inst: &mut WasmInstance) -> (r: usize)
    requires
        old(inst).has_memory(),
    ensures
        one_more_call(*old(inst), *final(inst), HostCall::MemorySize(r)),
{
    inst.memory.as_ref().unwrap().data_size(&inst.store)
}

/// Calls `wasmtime::Memory::write` on the memory last found. It fails where
/// the range would end beyond the memory's current size, which the store
/// decides; the outcome is recorded and otherwise left unsaid.
#[verifier::external_body]
pub(crate) fn memory_write(inst: &mut WasmInstance, offset: usize, data: &[u8]) -> (r: Result<(), String>)
    requires
        old(inst).has_memory(),
    ensures
        one_more_call(*old(inst), *final(inst), HostCall::Write(offset, data@, r is Ok)),
{
    let memory = *inst.memory.as_ref().unwrap();
    memory.write(&mut inst.store, offset, data).map_err(|e| e.to_string())
}

/// Calls `wasmtime::Memory::read` on the memory last found, into a fresh
/// buffer of `len` bytes. Claimed: what it reads has that length, and the
/// read is recorded. Whether the range lies within the memory, and what it
/// holds, is the store's and is left unsaid.
#[verifier::external_body]
pub(crate) fn memory_read(inst: &mut WasmInstance, offset: usize, len: usize) -> (r: Result<Vec<u8>, String>)
    requires
        old(inst).has_memory(),
    ensures
        r matches Ok(v) ==> v@.len() == len,
        one_more_call(
            *old(inst),
            *final(inst),
            HostCall::Read(offset, len, match r { Ok(v) => Some(v@), Err(_) => None }),
        ),
{
    let mut buffer = vec![0u8; len];
    let memory = *inst.memory.as_ref().unwrap();
    memory.read(&inst.store, offset, &mut buffer).map(|_| buffer).map_err(|e| e.to_string())
}

} // verus!
