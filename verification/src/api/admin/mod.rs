//! What an administrator asks for.
pub mod accounts;
pub mod answers;
pub mod cache;
pub mod selection;
