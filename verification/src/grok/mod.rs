//! What is said to the upstream service, and how its answers are read.
pub mod batch;
pub mod grpc_web;
pub mod headers;
pub mod imagine;
pub mod laws;
pub mod media;
pub mod nsfw;
pub mod processor;
pub mod retry;
pub mod statsig;
pub mod usage;
