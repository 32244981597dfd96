//! The core of a wire-compatible key-value server with cluster-mode
//! semantics and server-side scripting: the 16384-slot ownership table
//! and its commands, hash-tag-aware slot hashing, the MOVED/ASK
//! redirection decision, a content-addressed script cache, and a
//! sandboxed script engine bridged to a small storage facade.
//!
//! Everything here is verified; the embedded interpreter and the digest
//! are reached only through the trusted declarations in `luaglue` and
//! `script`.

pub mod cluster;
pub mod cluster_commands;
pub mod error;
pub mod luaglue;
pub mod resp;
pub mod script;
pub mod slots;
pub mod storage;
pub mod strmap;
pub mod text;
