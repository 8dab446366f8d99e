//! The rule for what a module imports.
use vstd::prelude::*;

use crate::wasm_host::{module_import_names_of, module_imports, WasmModule};

verus! {

/// A module may import nothing; the first import found, as the engine prints it.
pub enum ImportError {
    Unsupported(String),
}

/// Checks that a module, given the printed list of its imports, imports nothing.
pub fn check_imports(imports: &Vec<String>) -> (r: Result<(), ImportError>)
    ensures
        imports@.len() == 0 ==> r is Ok,
        imports@.len() > 0 ==> (r matches Err(ImportError::Unsupported(first)) && first@ == imports@[0]@),
{
    if imports.len() == 0 {
        Ok(())
    } else {
        Err(ImportError::Unsupported(imports[0].clone()))
    }
}

/// Checks that a compiled module imports nothing; where it does, the first
/// import is reported as the engine prints it.
pub fn validate_wasm_imports(module: &WasmModule) -> (r: Result<(), ImportError>)
    ensures
        r is Ok <==> module_import_names_of(module.source()).len() == 0,
{
    let imports = module_imports(module);
    assert(imports@.len() == module_import_names_of(module.source()).len());
    let mut texts: Vec<String> = Vec::new();
    let mut k: usize = 0;
    while k < imports.len()
        invariant
            k <= imports@.len(),
            texts@.len() == k,
        decreases imports@.len() - k,
    {
        texts.push(imports[k].text.clone());
        k = k + 1;
    }
    check_imports(&texts)
}

} // verus!
