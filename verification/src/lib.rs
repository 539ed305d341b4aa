//! An authenticating, permission-enforcing HTTP and WebSocket reverse proxy.
//!
//! The library holds the gateway's logic: API definitions and their
//! validation, the per-API route trie, bearer-token validation, the
//! permission cache with its refresh step, the per-request dispatch
//! pipeline, and the metrics bookkeeping that pairs every response with one
//! commit. The binary around it performs the network I/O and hands plain
//! values in.

use vstd::prelude::*;

pub mod strutil;
pub mod pattern;
pub mod endpoint;
pub mod api;
pub mod route;
pub mod permission;
pub mod runtime_config;
pub mod auth;
pub mod metrics;
pub mod websocket;
pub mod dispatch;

verus! {

} // verus!
