//! The rules for the memory a module exports.
use vstd::prelude::*;

use crate::text::same_text;
use crate::wasm_host::MemoryDesc;

verus! {

/// Why an exported memory is refused.
pub enum MemoryExportError {
    /// It is shared between threads.
    Shared,
    /// Its minimum size is zero pages.
    ZeroMinimum,
    /// It has no maximum size.
    NoMaximum,
    /// Its maximum is below its minimum.
    MaximumBelowMinimum,
    /// It is not exported as `memory`.
    WrongName,
}

/// The verdict on a memory export with these limits and this name.
pub open spec fn memory_export_check(shared: bool, minimum: u64, maximum: Option<u64>, name: Seq<char>) -> Result<(), MemoryExportError> {
    if shared {
        Err(MemoryExportError::Shared)
    } else if minimum == 0 {
        Err(MemoryExportError::ZeroMinimum)
    } else if maximum is None {
        Err(MemoryExportError::NoMaximum)
    } else if maximum->0 < minimum {
        Err(MemoryExportError::MaximumBelowMinimum)
    } else if name == "memory"@ {
        Ok(())
    } else {
        Err(MemoryExportError::WrongName)
    }
}

/// Checks an exported memory: unshared, at least one page, bounded, and
/// exported as `memory`.
pub fn validate_memory_exported(memory_type: MemoryDesc, name: &str) -> (r: Result<(), MemoryExportError>)
    ensures
        r == memory_export_check(memory_type.shared, memory_type.minimum, memory_type.maximum, name@),
{
    if memory_type.shared {
        return Err(MemoryExportError::Shared);
    }
    if memory_type.minimum <= 0 {
        return Err(MemoryExportError::ZeroMinimum);
    }
    let maximum = match memory_type.maximum {
        Some(m) => m,
        None => {
            return Err(MemoryExportError::NoMaximum);
        },
    };
    if maximum < memory_type.minimum {
        return Err(MemoryExportError::MaximumBelowMinimum);
    }
    if same_text(name, "memory") {
        return Ok(());
    }
    Err(MemoryExportError::WrongName)
}

} // verus!
