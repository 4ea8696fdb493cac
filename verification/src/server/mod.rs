//! The gateway's own concerns: configuration, access, answers and background work.
pub mod auth;
pub mod batch_tasks;
pub mod config;
pub mod exceptions;
pub mod laws;
pub mod static_assets;
pub mod storage;
pub mod toml;
