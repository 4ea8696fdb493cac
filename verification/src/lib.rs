//! An OpenAI-compatible gateway on top of Grok's web endpoints: the logic.
pub mod api;
pub mod grok;
pub mod json;
pub mod outside;
pub mod seqs;
pub mod server;
pub mod text;
pub mod text_laws;
pub mod text_map;
pub mod token;
