//! The endpoints: what requests ask for and how they are answered.
pub mod admin;
pub mod files;
pub mod image;
pub mod laws;
pub mod models;
