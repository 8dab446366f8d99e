pub mod cache;
pub mod handler;
pub mod model;
pub mod wasm_utils;
