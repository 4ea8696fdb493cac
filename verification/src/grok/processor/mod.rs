//! Reading the event streams of the upstream service.
pub mod base;
pub mod chat;
pub mod image;
pub mod laws;
pub mod video;
