pub mod cache_control;
pub mod cache_tick;
pub mod dispatch;
pub mod eviction;
pub mod feedback;
pub mod monitors;
pub mod pool;
pub mod stats;
pub mod types;
pub mod utils;
