//! Analysis core of a language server for a small expression language.
//!
//! The library holds the verified heart of the server: the pre-order syntax
//! node model, the classifier that turns nodes into highlight tokens, the
//! leaf-only syntax-error extractor, the delta encoder for the highlighting
//! wire format, and the per-document analysis cache with its session
//! orchestrator. The parsing engine itself is an external collaborator: it
//! hands the library a pre-order sequence of plain nodes, or nothing when the
//! grammar cannot be loaded.

pub mod analysis;
pub mod cache;
pub mod classify;
pub mod encode;
pub mod extract;
pub mod session;
pub mod syntax;
pub mod token;
