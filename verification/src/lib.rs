//! Key-by-key comparison of two JSON documents, rendered as two aligned
//! columns of styled lines.
//!
//! The JSON values themselves are `serde_json::Value`s; the few operations the
//! comparison needs from them are declared in `json`. Everything built on top
//! of those operations is verified.

pub mod order;
pub mod json;
pub mod lines;
pub mod diff;
pub mod loader;
pub mod session;
pub mod laws;
