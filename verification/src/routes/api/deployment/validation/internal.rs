//! The rules for what a module defines inside: its memories, tables,
//! imports, element and data segments, read from its binary encoding.
use vstd::prelude::*;

use crate::wasm_sections::{
    const_ops, data_segments, entry_view, import_entries, import_view, memory_entries,
    module_payloads, op_view, table_count, wasm_const_ops, wasm_data_segments, wasm_imports,
    wasm_memory_entries, wasm_payloads, wasm_table_count, ConstOp, ConstOpView, DataHeader,
    ImportEntry, ImportKind, MemoryLimits, PayloadItem, PayloadView, SectionKind,
};

verus! {

/// A data segment: the memory it initializes (none for a passive one), the
/// operators of its offset expression, and its length.
pub struct DataSegment {
    pub memory_index: Option<u32>,
    pub ops: Vec<Result<ConstOp, String>>,
    pub len: usize,
}

/// A section of a module, with what the rules read of it.
pub enum Section {
    /// The count it declares and the entries read.
    Memory(u32, Vec<Result<MemoryLimits, String>>),
    /// The count it declares.
    Table(u32),
    Import(Vec<Result<ImportEntry, String>>),
    Element,
    Data(Vec<Result<DataSegment, String>>),
    Other,
    /// The parser's error; nothing follows it.
    Malformed(String),
}

/// A data segment as plain values.
pub struct SegmentView {
    pub memory_index: Option<u32>,
    pub ops: Seq<Result<ConstOpView, Seq<char>>>,
    pub len: usize,
}

/// A section as plain values.
pub enum SectionView {
    Memory(u32, Seq<Result<MemoryLimits, Seq<char>>>),
    Table(u32),
    Import(Seq<Result<(ImportKind, Seq<char>), Seq<char>>>),
    Element,
    Data(Seq<Result<SegmentView, Seq<char>>>),
    Other,
    Malformed(Seq<char>),
}

/// A data segment, or its error, as plain values.
pub open spec fn segment_view(r: Result<DataSegment, String>) -> Result<SegmentView, Seq<char>> {
    match r {
        Ok(d) => Ok(
            SegmentView {
                memory_index: d.memory_index,
                ops: d.ops@.map_values(|o: Result<ConstOp, String>| op_view(o)),
                len: d.len,
            },
        ),
        Err(m) => Err(m@),
    }
}

impl View for Section {
    type V = SectionView;

    open spec fn view(&self) -> SectionView {
        match self {
            Section::Memory(c, es) => SectionView::Memory(
                *c,
                es@.map_values(|e: Result<MemoryLimits, String>| entry_view(e)),
            ),
            Section::Table(c) => SectionView::Table(*c),
            Section::Import(is) => SectionView::Import(
                is@.map_values(|e: Result<ImportEntry, String>| import_view(e)),
            ),
            Section::Element => SectionView::Element,
            Section::Data(ds) => SectionView::Data(
                ds@.map_values(|d: Result<DataSegment, String>| segment_view(d)),
            ),
            Section::Other => SectionView::Other,
            Section::Malformed(m) => SectionView::Malformed(m@),
        }
    }
}

/// Views of a sequence of sections.
pub open spec fn section_views(s: Seq<Section>) -> Seq<SectionView> {
    s.map_values(|x: Section| x@)
}

/// A data segment of the module `wasm`, with the operators of its offset.
pub open spec fn segment_of(wasm: Seq<u8>, h: Result<DataHeader, Seq<char>>) -> Result<SegmentView, Seq<char>> {
    match h {
        Ok(d) => Ok(
            SegmentView {
                memory_index: match d.active {
                    Some((i, _, _)) => Some(i),
                    None => None,
                },
                ops: match d.active {
                    Some((_, s, e)) => wasm_const_ops(wasm, s as int, e as int),
                    None => Seq::empty(),
                },
                len: d.len,
            },
        ),
        Err(m) => Err(m),
    }
}

/// A payload of the module `wasm`, with what the rules read of its section.
pub open spec fn section_of(wasm: Seq<u8>, p: PayloadView) -> SectionView {
    match p {
        PayloadView::Section(SectionKind::Memory, s, e) => {
            let (c, es) = wasm_memory_entries(wasm, s as int, e as int);
            SectionView::Memory(c, es)
        },
        PayloadView::Section(SectionKind::Table, s, e) => SectionView::Table(
            wasm_table_count(wasm, s as int, e as int),
        ),
        PayloadView::Section(SectionKind::Import, s, e) => SectionView::Import(
            wasm_imports(wasm, s as int, e as int),
        ),
        PayloadView::Section(SectionKind::Element, _, _) => SectionView::Element,
        PayloadView::Section(SectionKind::Data, s, e) => SectionView::Data(
            wasm_data_segments(wasm, s as int, e as int).map_values(
                |h: Result<DataHeader, Seq<char>>| segment_of(wasm, h),
            ),
        ),
        PayloadView::Section(SectionKind::Other, _, _) => SectionView::Other,
        PayloadView::Malformed(m) => SectionView::Malformed(m),
    }
}

/// The sections of the module `wasm`, in order, as the rules read them.
pub open spec fn layout_of(wasm: Seq<u8>) -> Seq<SectionView> {
    wasm_payloads(wasm).map_values(|p: PayloadView| section_of(wasm, p))
}

fn read_segment(wasm: &[u8], h: Result<DataHeader, String>) -> (r: Result<DataSegment, String>)
    requires
        h matches Ok(d) ==> (d.active matches Some((_, s, e)) ==> s <= e <= wasm@.len()),
    ensures
        segment_view(r) == segment_of(wasm@, entry_view(h)),
{
    match h {
        Ok(d) => match d.active {
            Some((i, s, e)) => {
                let ops = const_ops(wasm, s, e);
                Ok(DataSegment { memory_index: Some(i), ops, len: d.len })
            },
            None => {
                let r = Ok(DataSegment { memory_index: None, ops: Vec::new(), len: d.len });
                assert(segment_view(r) matches Ok(v) && v.ops =~= Seq::<
                    Result<ConstOpView, Seq<char>>,
                >::empty());
                r
            },
        },
        Err(m) => Err(m),
    }
}

fn read_section(wasm: &[u8], p: PayloadItem) -> (r: Section)
    requires
        p matches PayloadItem::Section(_, s, e) ==> s <= e <= wasm@.len(),
    ensures
        r@ == section_of(wasm@, p@),
{
    match p {
        PayloadItem::Section(SectionKind::Memory, s, e) => {
            let (c, es) = memory_entries(wasm, s, e);
            Section::Memory(c, es)
        },
        PayloadItem::Section(SectionKind::Table, s, e) => Section::Table(table_count(wasm, s, e)),
        PayloadItem::Section(SectionKind::Import, s, e) => Section::Import(import_entries(wasm, s, e)),
        PayloadItem::Section(SectionKind::Element, _, _) => Section::Element,
        PayloadItem::Section(SectionKind::Data, s, e) => {
            let headers = data_segments(wasm, s, e);
            let ghost hv = headers@.map_values(|x: Result<DataHeader, String>| entry_view(x));
            let mut segs: Vec<Result<DataSegment, String>> = Vec::new();
            let mut k: usize = 0;
            let mut headers = headers;
            let ghost all = headers@;
            while k < headers.len()
                invariant
                    headers@ == all,
                    hv == all.map_values(|x: Result<DataHeader, String>| entry_view(x)),
                    hv == wasm_data_segments(wasm@, s as int, e as int),
                    k <= all.len(),
                    segs@.map_values(|d: Result<DataSegment, String>| segment_view(d)) == hv.take(
                        k as int,
                    ).map_values(|h: Result<DataHeader, Seq<char>>| segment_of(wasm@, h)),
                    forall|j: int|
                        0 <= j < hv.len() ==> (#[trigger] hv[j] matches Ok(d) ==> (d.active matches Some(
                            (_, a, b),
                        ) ==> a <= b <= wasm@.len())),
                decreases all.len() - k,
            {
                let h = match &headers[k] {
                    Ok(d) => Ok(DataHeader { active: d.active, len: d.len }),
                    Err(m) => Err(m.clone()),
                };
                assert(entry_view(h) == hv[k as int]);
                let seg = read_segment(wasm, h);
                let ghost old_segs = segs@.map_values(|d: Result<DataSegment, String>| segment_view(d));
                segs.push(seg);
                assert(segs@.map_values(|d: Result<DataSegment, String>| segment_view(d)) =~= old_segs.push(
                    segment_view(seg),
                ));
                assert(hv.take(k + 1) =~= hv.take(k as int).push(hv[k as int]));
                k = k + 1;
                assert(segs@.map_values(|d: Result<DataSegment, String>| segment_view(d)) =~= hv.take(
                    k as int,
                ).map_values(|h: Result<DataHeader, Seq<char>>| segment_of(wasm@, h)));
            }
            assert(hv.take(k as int) =~= hv);
            Section::Data(segs)
        },
        PayloadItem::Section(SectionKind::Other, _, _) => Section::Other,
        PayloadItem::Malformed(m) => Section::Malformed(m),
    }
}

/// Reads the sections of the module `wasm` that the rules look at.
pub fn module_layout(wasm: &[u8]) -> (r: Vec<Section>)
    ensures
        section_views(r@) == layout_of(wasm@),
{
    let items = module_payloads(wasm);
    let ghost pv = items@.map_values(|p: PayloadItem| p@);
    let mut out: Vec<Section> = Vec::new();
    let mut k: usize = 0;
    let mut items = items;
    let ghost all = items@;
    while k < items.len()
        invariant
            items@ == all,
            pv == all.map_values(|p: PayloadItem| p@),
            pv == wasm_payloads(wasm@),
            k <= all.len(),
            section_views(out@) == pv.take(k as int).map_values(|p: PayloadView| section_of(wasm@, p)),
            forall|j: int|
                0 <= j < pv.len() ==> (#[trigger] pv[j] matches PayloadView::Section(_, s, e) ==> s <= e
                    <= wasm@.len()),
        decreases all.len() - k,
    {
        let p = match &items[k] {
            PayloadItem::Section(kind, s, e) => PayloadItem::Section(copy_kind(kind), *s, *e),
            PayloadItem::Malformed(m) => PayloadItem::Malformed(m.clone()),
        };
        assert(p@ == pv[k as int]);
        let sec = read_section(wasm, p);
        let ghost old_out = section_views(out@);
        out.push(sec);
        assert(section_views(out@) =~= old_out.push(sec@));
        assert(pv.take(k + 1) =~= pv.take(k as int).push(pv[k as int]));
        k = k + 1;
        assert(section_views(out@) =~= pv.take(k as int).map_values(
            |p: PayloadView| section_of(wasm@, p),
        ));
    }
    assert(pv.take(k as int) =~= pv);
    out
}

fn copy_kind(k: &SectionKind) -> (r: SectionKind)
    ensures
        r == *k,
{
    match k {
        SectionKind::Memory => SectionKind::Memory,
        SectionKind::Table => SectionKind::Table,
        SectionKind::Import => SectionKind::Import,
        SectionKind::Element => SectionKind::Element,
        SectionKind::Data => SectionKind::Data,
        SectionKind::Other => SectionKind::Other,
    }
}

/// Why a module's contents are refused.
pub enum InternalCheckError {
    /// The parser's error.
    Malformed(String),
    /// It defines more than one memory; how many.
    TooManyMemories(u32),
    /// A memory it defines is shared.
    SharedMemory,
    /// A memory it defines has no maximum.
    NoMaximum,
    /// A memory's initial size exceeds its maximum.
    InitialAboveMaximum,
    /// A memory's maximum, in bytes, does not fit in 64 bits.
    MaximumTooLarge,
    /// It defines tables; how many.
    TooManyTables(u32),
    /// It imports a table, memory or global; what, as the parser prints it.
    ForbiddenImport(ImportKind, String),
    /// It has an element section.
    ElementSection,
    /// Its data section comes before any memory.
    DataBeforeMemory,
    /// An active data segment is for a memory other than the first.
    NonZeroMemoryIndex(u32),
    /// A data segment's offset is negative.
    NegativeOffset(i32),
    /// A data segment's offset uses an operator other than `i32.const`.
    UnsupportedOperator(String),
    /// A data segment's offset expression gives no offset.
    NoOffset,
    /// A data segment ends beyond the memory's maximum size.
    DataExceedsMemory,
}

/// Why a module's contents are refused, as plain values.
pub enum InternalFault {
    Malformed(Seq<char>),
    TooManyMemories(u32),
    SharedMemory,
    NoMaximum,
    InitialAboveMaximum,
    MaximumTooLarge,
    TooManyTables(u32),
    ForbiddenImport(ImportKind, Seq<char>),
    ElementSection,
    DataBeforeMemory,
    NonZeroMemoryIndex(u32),
    NegativeOffset(i32),
    UnsupportedOperator(Seq<char>),
    NoOffset,
    DataExceedsMemory,
}

impl View for InternalCheckError {
    type V = InternalFault;

    open spec fn view(&self) -> InternalFault {
        match self {
            InternalCheckError::Malformed(m) => InternalFault::Malformed(m@),
            InternalCheckError::TooManyMemories(c) => InternalFault::TooManyMemories(*c),
            InternalCheckError::SharedMemory => InternalFault::SharedMemory,
            InternalCheckError::NoMaximum => InternalFault::NoMaximum,
            InternalCheckError::InitialAboveMaximum => InternalFault::InitialAboveMaximum,
            InternalCheckError::MaximumTooLarge => InternalFault::MaximumTooLarge,
            InternalCheckError::TooManyTables(c) => InternalFault::TooManyTables(*c),
            InternalCheckError::ForbiddenImport(k, d) => InternalFault::ForbiddenImport(*k, d@),
            InternalCheckError::ElementSection => InternalFault::ElementSection,
            InternalCheckError::DataBeforeMemory => InternalFault::DataBeforeMemory,
            InternalCheckError::NonZeroMemoryIndex(i) => InternalFault::NonZeroMemoryIndex(*i),
            InternalCheckError::NegativeOffset(v) => InternalFault::NegativeOffset(*v),
            InternalCheckError::UnsupportedOperator(t) => InternalFault::UnsupportedOperator(t@),
            InternalCheckError::NoOffset => InternalFault::NoOffset,
            InternalCheckError::DataExceedsMemory => InternalFault::DataExceedsMemory,
        }
    }
}

/// Bytes in a memory page.
pub const PAGE_SIZE: u64 = 65536;

/// The memory limit in bytes after the memory entries `es`, starting from
/// `limit`: each entry must be unshared and bounded, with its initial size
/// within its maximum, and sets the limit to its maximum.
pub open spec fn memories_check(es: Seq<Result<MemoryLimits, Seq<char>>>, limit: Option<int>) -> Result<Option<int>, InternalFault>
    decreases es.len(),
{
    if es.len() == 0 {
        Ok(limit)
    } else {
        match es[0] {
            Err(m) => Err(InternalFault::Malformed(m)),
            Ok(l) => if l.shared {
                Err(InternalFault::SharedMemory)
            } else if l.maximum is None {
                Err(InternalFault::NoMaximum)
            } else if l.initial > l.maximum->0 {
                Err(InternalFault::InitialAboveMaximum)
            } else if l.maximum->0 * PAGE_SIZE > u64::MAX {
                Err(InternalFault::MaximumTooLarge)
            } else {
                memories_check(es.drop_first(), Some(l.maximum->0 * PAGE_SIZE))
            },
        }
    }
}

/// The offset an expression gives, reading its operators up to `end`:
/// only non-negative `i32.const` operators are accepted, the last one counts.
pub open spec fn offset_of(ops: Seq<Result<ConstOpView, Seq<char>>>, cur: Option<u32>) -> Result<Option<u32>, InternalFault>
    decreases ops.len(),
{
    if ops.len() == 0 {
        Ok(cur)
    } else {
        match ops[0] {
            Err(m) => Err(InternalFault::Malformed(m)),
            Ok(ConstOpView::I32Const(v)) => if v < 0 {
                Err(InternalFault::NegativeOffset(v))
            } else {
                offset_of(ops.drop_first(), Some(v as u32))
            },
            Ok(ConstOpView::End) => Ok(cur),
            Ok(ConstOpView::Other(t)) => Err(InternalFault::UnsupportedOperator(t)),
        }
    }
}

/// The verdict on data segments, for a memory of at most `limit` bytes:
/// each active one is for the first memory, at an offset its expression
/// gives, and ends (its length taken modulo 2^32) within the limit.
pub open spec fn segments_check(ss: Seq<Result<SegmentView, Seq<char>>>, limit: int) -> Result<(), InternalFault>
    decreases ss.len(),
{
    if ss.len() == 0 {
        Ok(())
    } else {
        match ss[0] {
            Err(m) => Err(InternalFault::Malformed(m)),
            Ok(seg) => match seg.memory_index {
                None => segments_check(ss.drop_first(), limit),
                Some(idx) => if idx != 0 {
                    Err(InternalFault::NonZeroMemoryIndex(idx))
                } else {
                    match offset_of(seg.ops, None) {
                        Err(f) => Err(f),
                        Ok(None) => Err(InternalFault::NoOffset),
                        Ok(Some(off)) => if off + (seg.len as u32) > limit {
                            Err(InternalFault::DataExceedsMemory)
                        } else {
                            segments_check(ss.drop_first(), limit)
                        },
                    }
                },
            },
        }
    }
}

/// The verdict on imports: no table, memory or global may be imported.
pub open spec fn imports_check(is: Seq<Result<(ImportKind, Seq<char>), Seq<char>>>) -> Result<(), InternalFault>
    decreases is.len(),
{
    if is.len() == 0 {
        Ok(())
    } else {
        match is[0] {
            Err(m) => Err(InternalFault::Malformed(m)),
            Ok((kind, d)) => match kind {
                ImportKind::Table | ImportKind::Memory | ImportKind::Global => Err(
                    InternalFault::ForbiddenImport(kind, d),
                ),
                _ => imports_check(is.drop_first()),
            },
        }
    }
}

/// The verdict on a module's sections, in order, with the memory limit so
/// far: at most one memory, no tables, no forbidden imports, no element
/// section, and data only after a memory and within it.
pub open spec fn sections_check(ss: Seq<SectionView>, limit: Option<int>) -> Result<(), InternalFault>
    decreases ss.len(),
{
    if ss.len() == 0 {
        Ok(())
    } else {
        match ss[0] {
            SectionView::Memory(count, es) => if count > 1 {
                Err(InternalFault::TooManyMemories(count))
            } else {
                match memories_check(es, limit) {
                    Err(f) => Err(f),
                    Ok(l) => sections_check(ss.drop_first(), l),
                }
            },
            SectionView::Table(count) => if count > 0 {
                Err(InternalFault::TooManyTables(count))
            } else {
                sections_check(ss.drop_first(), limit)
            },
            SectionView::Import(is) => match imports_check(is) {
                Err(f) => Err(f),
                Ok(()) => sections_check(ss.drop_first(), limit),
            },
            SectionView::Element => Err(InternalFault::ElementSection),
            SectionView::Data(segs) => match limit {
                None => Err(InternalFault::DataBeforeMemory),
                Some(l) => match segments_check(segs, l) {
                    Err(f) => Err(f),
                    Ok(()) => sections_check(ss.drop_first(), limit),
                },
            },
            SectionView::Other => sections_check(ss.drop_first(), limit),
            SectionView::Malformed(m) => Err(InternalFault::Malformed(m)),
        }
    }
}

/// A verdict as plain values.
pub open spec fn verdict_view(r: Result<(), InternalCheckError>) -> Result<(), InternalFault> {
    match r {
        Ok(()) => Ok(()),
        Err(e) => Err(e@),
    }
}

/// A byte limit as an integer.
pub open spec fn opt_int(x: Option<u64>) -> Option<int> {
    match x {
        Some(v) => Some(v as int),
        None => None,
    }
}

fn check_memories(es: &Vec<Result<MemoryLimits, String>>, limit: Option<u64>) -> (r: Result<Option<u64>, InternalCheckError>)
    ensures
        match memories_check(es@.map_values(|e: Result<MemoryLimits, String>| entry_view(e)), opt_int(limit)) {
            Ok(l) => r matches Ok(x) && l == opt_int(x),
            Err(f) => r matches Err(e) && e@ == f,
        },
{
    let ghost ev = es@.map_values(|e: Result<MemoryLimits, String>| entry_view(e));
    let mut cur = limit;
    let mut k: usize = 0;
    assert(ev.skip(0) =~= ev);
    while k < es.len()
        invariant
            ev == es@.map_values(|e: Result<MemoryLimits, String>| entry_view(e)),
            k <= ev.len(),
            memories_check(ev, opt_int(limit)) == memories_check(ev.skip(k as int), opt_int(cur)),
        decreases ev.len() - k,
    {
        assert(ev.skip(k as int)[0] == ev[k as int]);
        assert(ev.skip(k as int).drop_first() =~= ev.skip(k + 1));
        match &es[k] {
            Err(m) => {
                return Err(InternalCheckError::Malformed(m.clone()));
            },
            Ok(l) => {
                if l.shared {
                    return Err(InternalCheckError::SharedMemory);
                }
                let max = match l.maximum {
                    Some(m) => m,
                    None => {
                        return Err(InternalCheckError::NoMaximum);
                    },
                };
                if l.initial > max {
                    return Err(InternalCheckError::InitialAboveMaximum);
                }
                if max > u64::MAX / PAGE_SIZE {
                    assert(max * PAGE_SIZE > u64::MAX) by (nonlinear_arith)
                        requires
                            max > u64::MAX / PAGE_SIZE,
                            PAGE_SIZE == 65536,
                    ;
                    return Err(InternalCheckError::MaximumTooLarge);
                }
                assert(max * PAGE_SIZE <= u64::MAX) by (nonlinear_arith)
                    requires
                        max <= u64::MAX / PAGE_SIZE,
                        PAGE_SIZE == 65536,
                ;
                cur = Some(max * PAGE_SIZE);
            },
        }
        k = k + 1;
    }
    assert(ev.skip(k as int) =~= Seq::<Result<MemoryLimits, Seq<char>>>::empty());
    Ok(cur)
}

fn offset_from(ops: &Vec<Result<ConstOp, String>>) -> (r: Result<Option<u32>, InternalCheckError>)
    ensures
        match offset_of(ops@.map_values(|o: Result<ConstOp, String>| op_view(o)), None) {
            Ok(o) => r == Ok::<Option<u32>, InternalCheckError>(o),
            Err(f) => r matches Err(e) && e@ == f,
        },
{
    let ghost ov = ops@.map_values(|o: Result<ConstOp, String>| op_view(o));
    let mut cur: Option<u32> = None;
    let mut k: usize = 0;
    assert(ov.skip(0) =~= ov);
    while k < ops.len()
        invariant
            ov == ops@.map_values(|o: Result<ConstOp, String>| op_view(o)),
            k <= ov.len(),
            offset_of(ov, None) == offset_of(ov.skip(k as int), cur),
        decreases ov.len() - k,
    {
        assert(ov.skip(k as int)[0] == ov[k as int]);
        assert(ov.skip(k as int).drop_first() =~= ov.skip(k + 1));
        match &ops[k] {
            Err(m) => {
                return Err(InternalCheckError::Malformed(m.clone()));
            },
            Ok(ConstOp::I32Const(v)) => {
                if *v < 0 {
                    return Err(InternalCheckError::NegativeOffset(*v));
                }
                cur = Some(*v as u32);
            },
            Ok(ConstOp::End) => {
                return Ok(cur);
            },
            Ok(ConstOp::Other(t)) => {
                return Err(InternalCheckError::UnsupportedOperator(t.clone()));
            },
        }
        k = k + 1;
    }
    assert(ov.skip(k as int) =~= Seq::<Result<ConstOpView, Seq<char>>>::empty());
    Ok(cur)
}

fn check_segments(segs: &Vec<Result<DataSegment, String>>, limit: u64) -> (r: Result<(), InternalCheckError>)
    ensures
        verdict_view(r) == segments_check(
            segs@.map_values(|d: Result<DataSegment, String>| segment_view(d)),
            limit as int,
        ),
{
    let ghost sv = segs@.map_values(|d: Result<DataSegment, String>| segment_view(d));
    let mut k: usize = 0;
    assert(sv.skip(0) =~= sv);
    while k < segs.len()
        invariant
            sv == segs@.map_values(|d: Result<DataSegment, String>| segment_view(d)),
            k <= sv.len(),
            segments_check(sv, limit as int) == segments_check(sv.skip(k as int), limit as int),
        decreases sv.len() - k,
    {
        assert(sv.skip(k as int)[0] == sv[k as int]);
        assert(sv.skip(k as int).drop_first() =~= sv.skip(k + 1));
        match &segs[k] {
            Err(m) => {
                return Err(InternalCheckError::Malformed(m.clone()));
            },
            Ok(seg) => {
                match seg.memory_index {
                    None => {},
                    Some(idx) => {
                        if idx != 0 {
                            return Err(InternalCheckError::NonZeroMemoryIndex(idx));
                        }
                        let off = match offset_from(&seg.ops) {
                            Err(e) => {
                                return Err(e);
                            },
                            Ok(None) => {
                                return Err(InternalCheckError::NoOffset);
                            },
                            Ok(Some(o)) => o,
                        };
                        let data_len = seg.len as u32;
                        if off as u64 + data_len as u64 > limit {
                            return Err(InternalCheckError::DataExceedsMemory);
                        }
                    },
                }
            },
        }
        k = k + 1;
    }
    assert(sv.skip(k as int) =~= Seq::<Result<SegmentView, Seq<char>>>::empty());
    Ok(())
}

fn check_imports(is: &Vec<Result<ImportEntry, String>>) -> (r: Result<(), InternalCheckError>)
    ensures
        verdict_view(r) == imports_check(is@.map_values(|e: Result<ImportEntry, String>| import_view(e))),
{
    let ghost iv = is@.map_values(|e: Result<ImportEntry, String>| import_view(e));
    let mut k: usize = 0;
    assert(iv.skip(0) =~= iv);
    while k < is.len()
        invariant
            iv == is@.map_values(|e: Result<ImportEntry, String>| import_view(e)),
            k <= iv.len(),
            imports_check(iv) == imports_check(iv.skip(k as int)),
        decreases iv.len() - k,
    {
        assert(iv.skip(k as int)[0] == iv[k as int]);
        assert(iv.skip(k as int).drop_first() =~= iv.skip(k + 1));
        match &is[k] {
            Err(m) => {
                return Err(InternalCheckError::Malformed(m.clone()));
            },
            Ok(entry) => match entry.kind {
                ImportKind::Table => {
                    return Err(InternalCheckError::ForbiddenImport(ImportKind::Table, entry.detail.clone()));
                },
                ImportKind::Memory => {
                    return Err(InternalCheckError::ForbiddenImport(ImportKind::Memory, entry.detail.clone()));
                },
                ImportKind::Global => {
                    return Err(InternalCheckError::ForbiddenImport(ImportKind::Global, entry.detail.clone()));
                },
                _ => {},
            },
        }
        k = k + 1;
    }
    assert(iv.skip(k as int) =~= Seq::<Result<(ImportKind, Seq<char>), Seq<char>>>::empty());
    Ok(())
}

/// Applies the rules to a module's sections, in order.
pub fn check_layout(sections: &Vec<Section>) -> (r: Result<(), InternalCheckError>)
    ensures
        verdict_view(r) == sections_check(section_views(sections@), None),
{
    let ghost sv = section_views(sections@);
    let mut limit: Option<u64> = None;
    let mut k: usize = 0;
    assert(sv.skip(0) =~= sv);
    while k < sections.len()
        invariant
            sv == section_views(sections@),
            k <= sv.len(),
            sections_check(sv, None) == sections_check(sv.skip(k as int), opt_int(limit)),
        decreases sv.len() - k,
    {
        assert(sv.skip(k as int)[0] == sv[k as int]);
        assert(sv.skip(k as int).drop_first() =~= sv.skip(k + 1));
        match &sections[k] {
            Section::Memory(count, es) => {
                if *count > 1 {
                    return Err(InternalCheckError::TooManyMemories(*count));
                }
                match check_memories(es, limit) {
                    Ok(l) => {
                        limit = l;
                    },
                    Err(e) => {
                        return Err(e);
                    },
                }
            },
            Section::Table(count) => {
                if *count > 0 {
                    return Err(InternalCheckError::TooManyTables(*count));
                }
            },
            Section::Import(is) => {
                match check_imports(is) {
                    Ok(()) => {},
                    Err(e) => {
                        return Err(e);
                    },
                }
            },
            Section::Element => {
                return Err(InternalCheckError::ElementSection);
            },
            Section::Data(segs) => {
                match limit {
                    None => {
                        return Err(InternalCheckError::DataBeforeMemory);
                    },
                    Some(l) => {
                        match check_segments(segs, l) {
                            Ok(()) => {},
                            Err(e) => {
                                return Err(e);
                            },
                        }
                    },
                }
            },
            Section::Other => {},
            Section::Malformed(m) => {
                return Err(InternalCheckError::Malformed(m.clone()));
            },
        }
        k = k + 1;
    }
    assert(sv.skip(k as int) =~= Seq::<SectionView>::empty());
    Ok(())
}

/// Reads a module's encoding and applies the rules for what it defines
/// inside: one bounded, unshared memory at most; no tables; no imported
/// tables, memories or globals; no element section; and data segments for
/// the first memory only, at constant non-negative offsets, within its
/// maximum size.
pub fn check_internal_exports(bytes: &[u8]) -> (r: Result<(), InternalCheckError>)
    ensures
        verdict_view(r) == sections_check(layout_of(bytes@), None),
{
    let layout = module_layout(bytes);
    check_layout(&layout)
}

} // verus!
