//! Verified core of a small serverless runtime for WebAssembly functions:
//! HTTP request parsing, chunked transfer decoding, module validation,
//! and the bookkeeping decisions of the scheduler and its workers.

pub mod http;
pub mod path_map;
pub mod routes;
pub mod scheduler;
pub mod text;
pub mod wasm_host;
pub mod wasm_sections;
pub mod workers;
