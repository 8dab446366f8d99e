//! The parts of a module's binary encoding that the deployment rules read,
//! taken apart by the parser and described by plain values.
use vstd::prelude::*;

use wasmparser::{
    BinaryReader, DataKind, DataSectionReader, ImportSectionReader, MemorySectionReader, Operator,
    OperatorsReader, Parser, Payload, TableSectionReader, TypeRef,
};

verus! {

/// The limits of a memory a module defines, in pages.
pub struct MemoryLimits {
    pub shared: bool,
    pub initial: u64,
    pub maximum: Option<u64>,
}

/// What an import brings in.
pub enum ImportKind {
    Func,
    Table,
    Memory,
    Global,
    Tag,
}

/// One import: what it brings in, and its type as the parser prints it.
pub struct ImportEntry {
    pub kind: ImportKind,
    pub detail: String,
}

/// One operator of a constant expression.
pub enum ConstOp {
    I32Const(i32),
    End,
    /// Any other operator, as the parser prints it.
    Other(String),
}

/// Where a data segment goes: `Some` memory index for an active segment,
/// with the byte range of its offset expression; `None` for a passive one.
pub struct DataHeader {
    pub active: Option<(u32, usize, usize)>,
    pub len: usize,
}

/// The sections that matter, by the byte range of their contents.
pub enum SectionKind {
    Memory,
    Table,
    Import,
    Element,
    Data,
    Other,
}

/// One payload the parser yields: a section and its range, or the parser's
/// error, after which it yields nothing more.
pub enum PayloadItem {
    Section(SectionKind, usize, usize),
    Malformed(String),
}

/// A payload, as plain values.
pub enum PayloadView {
    Section(SectionKind, usize, usize),
    Malformed(Seq<char>),
}

impl View for PayloadItem {
    type V = PayloadView;

    open spec fn view(&self) -> PayloadView {
        match self {
            PayloadItem::Section(k, s, e) => PayloadView::Section(*k, *s, *e),
            PayloadItem::Malformed(m) => PayloadView::Malformed(m@),
        }
    }
}

/// An entry the parser read, or its error message.
pub open spec fn entry_view<T>(r: Result<T, String>) -> Result<T, Seq<char>> {
    match r {
        Ok(t) => Ok(t),
        Err(m) => Err(m@),
    }
}

/// An import as plain values.
pub open spec fn import_view(r: Result<ImportEntry, String>) -> Result<(ImportKind, Seq<char>), Seq<char>> {
    match r {
        Ok(e) => Ok((e.kind, e.detail@)),
        Err(m) => Err(m@),
    }
}

/// An operator as plain values.
pub enum ConstOpView {
    I32Const(i32),
    End,
    Other(Seq<char>),
}

/// An operator, or its error message, as plain values.
pub open spec fn op_view(r: Result<ConstOp, String>) -> Result<ConstOpView, Seq<char>> {
    match r {
        Ok(ConstOp::I32Const(v)) => Ok(ConstOpView::I32Const(v)),
        Ok(ConstOp::End) => Ok(ConstOpView::End),
        Ok(ConstOp::Other(t)) => Ok(ConstOpView::Other(t@)),
        Err(m) => Err(m@),
    }
}

/// The payloads the parser yields for a module's bytes, in order.
pub uninterp spec fn wasm_payloads(wasm: Seq<u8>) -> Seq<PayloadView>;

/// The count a memory section declares and the entries read from its
/// contents at `start..end` of the module.
pub uninterp spec fn wasm_memory_entries(wasm: Seq<u8>, start: int, end: int) -> (u32, Seq<Result<MemoryLimits, Seq<char>>>);

/// The count a table section at `start..end` declares.
pub uninterp spec fn wasm_table_count(wasm: Seq<u8>, start: int, end: int) -> u32;

/// The imports read from an import section at `start..end`, groups flattened.
pub uninterp spec fn wasm_imports(wasm: Seq<u8>, start: int, end: int) -> Seq<Result<(ImportKind, Seq<char>), Seq<char>>>;

/// The data segments read from a data section at `start..end`.
pub uninterp spec fn wasm_data_segments(wasm: Seq<u8>, start: int, end: int) -> Seq<Result<DataHeader, Seq<char>>>;

/// The operators read from a constant expression at `start..end`.
pub uninterp spec fn wasm_const_ops(wasm: Seq<u8>, start: int, end: int) -> Seq<Result<ConstOpView, Seq<char>>>;

/// Calls `wasmparser::Parser::parse_all` from offset 0 and notes each
/// payload's kind and content range.
/// Claimed: the notes are `wasm_payloads` of the bytes, and each range lies
/// within them (the parser reads sections out of the slice it is given).
#[verifier::external_body]
pub(crate) fn module_payloads(wasm: &[u8]) -> (r: Vec<PayloadItem>)
    ensures
        r@.map_values(|p: PayloadItem| p@) == wasm_payloads(wasm@),
        forall|j: int|
            0 <= j < r@.len() ==> (#[trigger] r@[j]@ matches PayloadView::Section(_, s, e) ==> s <= e
                <= wasm@.len()),
{
    Parser::new(0).parse_all(wasm).map(|p| {
        let (k, r) = match p {
            Ok(Payload::MemorySection(s)) => (SectionKind::Memory, s.range()),
            Ok(Payload::TableSection(s)) => (SectionKind::Table, s.range()),
            Ok(Payload::ImportSection(s)) => (SectionKind::Import, s.range()),
            Ok(Payload::ElementSection(s)) => (SectionKind::Element, s.range()),
            Ok(Payload::DataSection(s)) => (SectionKind::Data, s.range()),
            Ok(_) => (SectionKind::Other, 0..0),
            Err(e) => return PayloadItem::Malformed(e.to_string()),
        };
        PayloadItem::Section(k, r.start as usize, r.end as usize)
    }).collect()
}

/// Calls `wasmparser::MemorySectionReader::new` on the section contents at
/// `start..end` and reads its entries.
/// Claimed: the count and entries are `wasm_memory_entries` of the bytes and range.
#[verifier::external_body]
pub(crate) fn memory_entries(wasm: &[u8], start: usize, end: usize) -> (r: (u32, Vec<Result<MemoryLimits, String>>))
    requires
        start <= end <= wasm@.len(),
    ensures
        (r.0, r.1@.map_values(|e: Result<MemoryLimits, String>| entry_view(e))) == wasm_memory_entries(wasm@, start as int, end as int),
{
    match MemorySectionReader::new(BinaryReader::new(&wasm[start..end], start as u64)) {
        Ok(s) => (s.count(), s.into_iter().map(|m| match m {
            Ok(m) => Ok(MemoryLimits { shared: m.shared, initial: m.initial, maximum: m.maximum }),
            Err(e) => Err(e.to_string()),
        }).collect()),
        Err(e) => (0, vec![Err(e.to_string())]),
    }
}

/// Calls `wasmparser::TableSectionReader::new` on the section contents at
/// `start..end` and takes its count.
/// Claimed: the count is `wasm_table_count` of the bytes and range.
#[verifier::external_body]
pub(crate) fn table_count(wasm: &[u8], start: usize, end: usize) -> (r: u32)
    requires
        start <= end <= wasm@.len(),
    ensures
        r == wasm_table_count(wasm@, start as int, end as int),
{
    TableSectionReader::new(BinaryReader::new(&wasm[start..end], start as u64)).map_or(0, |s| s.count())
}

/// Calls `wasmparser::ImportSectionReader::new` on the section contents at
/// `start..end` and reads its imports with `into_imports`.
/// Claimed: the imports are `wasm_imports` of the bytes and range.
#[verifier::external_body]
pub(crate) fn import_entries(wasm: &[u8], start: usize, end: usize) -> (r: Vec<Result<ImportEntry, String>>)
    requires
        start <= end <= wasm@.len(),
    ensures
        r@.map_values(|e: Result<ImportEntry, String>| import_view(e)) == wasm_imports(wasm@, start as int, end as int),
{
    let kind = |t: &TypeRef| match t { TypeRef::Table(_) => ImportKind::Table, TypeRef::Memory(_) => ImportKind::Memory,
        TypeRef::Global(_) => ImportKind::Global, TypeRef::Tag(_) => ImportKind::Tag, _ => ImportKind::Func };
    match ImportSectionReader::new(BinaryReader::new(&wasm[start..end], start as u64)) {
        Ok(s) => s.into_imports().map(|i| i.map(|i| ImportEntry { kind: kind(&i.ty), detail: format!("{:?}", i.ty) })
            .map_err(|e| e.to_string())).collect(),
        Err(e) => vec![Err(e.to_string())],
    }
}

/// Calls `wasmparser::DataSectionReader::new` on the section contents at
/// `start..end` and reads its segments.
/// Claimed: the segments are `wasm_data_segments` of the bytes and range,
/// and each offset expression lies within the section.
#[verifier::external_body]
pub(crate) fn data_segments(wasm: &[u8], start: usize, end: usize) -> (r: Vec<Result<DataHeader, String>>)
    requires
        start <= end <= wasm@.len(),
    ensures
        r@.map_values(|e: Result<DataHeader, String>| entry_view(e)) == wasm_data_segments(wasm@, start as int, end as int),
        forall|j: int|
            0 <= j < r@.len() ==> (#[trigger] r@[j] matches Ok(d) ==> (d.active matches Some((_, s, e)) ==> start
                <= s <= e <= end)),
{
    match DataSectionReader::new(BinaryReader::new(&wasm[start..end], start as u64)) {
        Ok(s) => s.into_iter().map(|d| d.map(|d| DataHeader { len: d.data.len(), active: match d.kind {
            DataKind::Active { memory_index, offset_expr } => { let r = offset_expr.get_binary_reader().range();
                Some((memory_index, r.start as usize, r.end as usize)) },
            DataKind::Passive => None,
        } }).map_err(|e| e.to_string())).collect(),
        Err(e) => vec![Err(e.to_string())],
    }
}

/// Calls `wasmparser::OperatorsReader::new` on the expression at
/// `start..end` and reads its operators.
/// Claimed: the operators are `wasm_const_ops` of the bytes and range.
#[verifier::external_body]
pub(crate) fn const_ops(wasm: &[u8], start: usize, end: usize) -> (r: Vec<Result<ConstOp, String>>)
    requires
        start <= end <= wasm@.len(),
    ensures
        r@.map_values(|e: Result<ConstOp, String>| op_view(e)) == wasm_const_ops(wasm@, start as int, end as int),
{
    OperatorsReader::new(BinaryReader::new(&wasm[start..end], start as u64)).into_iter().map(|o| match o {
        Ok(Operator::I32Const { value }) => Ok(ConstOp::I32Const(value)),
        Ok(Operator::End) => Ok(ConstOp::End),
        Ok(other) => Ok(ConstOp::Other(format!("{:?}", other))),
        Err(e) => Err(e.to_string()),
    }).collect()
}

} // verus!
