pub mod api;
pub mod model;
pub mod net;
