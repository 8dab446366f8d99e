pub mod response;
pub mod tcp;
pub mod utils;
