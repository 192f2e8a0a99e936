//! Verified core of an HTTP(S) intercepting proxy: header rewriting,
//! URI remapping, WebSocket upgrade detection, log rendering with
//! redaction and body previews, connection-id minting, and request
//! statistics aggregation.

pub mod ascii;
pub mod config;
pub mod conn;
pub mod forward;
pub mod headers;
pub mod laws;
pub mod logfmt;
pub mod response;
pub mod stats;
pub mod uri;
pub mod ws;
