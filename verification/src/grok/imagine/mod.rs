//! Images made over the upstream's web socket.
pub mod generation;
pub mod laws;
pub mod retries;
pub mod rotation;
pub mod run;
pub mod saving;
pub mod session;
