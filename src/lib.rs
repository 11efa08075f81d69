//! A shared pixel canvas: a nibble-packed bitmap of palette indices, the
//! region operations on it, a per-client write throttle, and the decisions
//! that gate writes and privileged changes.

pub mod auth;
pub mod canvas;
pub mod codec;
pub mod config;
pub mod error;
pub mod handlers;
pub mod limiter;
pub mod palette;
pub mod state;
