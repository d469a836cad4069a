//! Out-of-band signaling for a peer-to-peer data connection: the copy-paste
//! text block codec, the candidate conversion pipeline, the gathering
//! quiescence heuristic, and the connection and readiness supervision rules.
pub mod candidate;
pub mod chat;
pub mod cli;
pub mod codec;
pub mod gathering;
pub mod supervise;
pub mod text;
pub mod utils;
