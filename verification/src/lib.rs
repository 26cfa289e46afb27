//! Embedded Language Server Protocol (LSP) client core and supporting
//! utilities: wire-format framing, JSON-RPC envelopes, request/response
//! correlation, a per-URI diagnostics cache, result normalization, input
//! validation, and output limiting/pagination.

pub mod background;
pub mod capability;
pub mod client;
pub mod config;
pub mod frame;
pub mod json;
pub mod jparse;
pub mod kvsort;
pub mod lsp;
pub mod nixcmd;
pub mod output;
pub mod resources;
pub mod server;
pub mod strutil;
pub mod tools;
pub mod validators;
pub mod wire;

pub use validators::ValidationError;
