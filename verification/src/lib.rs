//! A live-reload static file server's verified core.
//!
//! The library holds the logic of the server: the WebSocket handshake,
//! frame parsing and writing, the request router and response builders,
//! the content-hash change detector, the fan-out signal hub, and the
//! session state machine that coordinates a reader and a writer task.
//! The surrounding process (sockets, the filesystem watcher, the async
//! runtime) drives these functions and performs the I/O they decide on.

pub mod bytesutil;
pub mod detect;
pub mod fs;
pub mod response;
pub mod routing;
pub mod session;
pub mod signal;
pub mod websocket;
