//! Core logic of a dynamically reconfigurable HTTP reverse proxy / API
//! gateway: route matching and path rewriting, round-robin backend selection
//! with label affinity, per-tenant rate limiting, service discovery from a
//! container snapshot, and the command-driven supervisor and route manager
//! that reconfigure the data plane at runtime.

pub mod admin;
pub mod app;
pub mod config;
pub mod consts;
pub mod discovery;
pub mod dispatch;
pub mod endpoint;
pub mod lb;
pub mod rate_limit;
pub mod rules;
pub mod service;
pub mod store;
pub mod text;
