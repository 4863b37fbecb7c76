//! Everything about one shared canvas: its events, the access rules, the
//! directory of canvases, the collaboration coordinator and the per-connection
//! session loop.

pub mod error;
pub mod events;
pub mod server;
pub mod socket_handler;
pub mod store;
