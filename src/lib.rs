//! The transport and session core of a bridge between line-based editor
//! commands and a language server spoken to over framed JSON-RPC.
pub mod codec;
pub mod command;
pub mod json;
pub mod session;
