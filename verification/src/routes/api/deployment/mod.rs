pub mod chunk_parser;
pub mod handler;
pub mod validation;
