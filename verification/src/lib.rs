//! Verified core of a multi-user terminal chat service.
//!
//! The crate models the service as plain data: a tree of channels, each with
//! its own permission list and bounded broadcast bus; user accounts with role
//! grants; and per-session state (edit buffer, cursor, overlay, subscription).
//! Every state transition — line editing, command dispatch, event delivery —
//! is an ordinary function with a contract, so a host only has to wire these
//! functions to a transport and a scheduler.

pub mod bus;
pub mod channel;
pub mod commands;
pub mod config;
pub mod event;
pub mod path;
pub mod perm;
pub mod server;
pub mod term;
pub mod user;
pub mod util;
