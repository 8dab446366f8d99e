pub mod exports;
pub mod functions;
pub mod imports;
pub mod internal;
pub mod memory;
pub mod module_rules;
