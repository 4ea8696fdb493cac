//! The tokens with which the upstream service is called.
pub mod laws;
pub mod manager;
pub mod models;
pub mod pool;
pub mod pool_laws;
pub mod scheduler;
