pub mod encoding;
pub mod models;
pub mod parser;
