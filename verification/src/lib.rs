//! The core of a mode-aware front-door proxy, without its network.
//!
//! The proxy sits in front of a server-side-rendering application. Every
//! inbound request is forwarded to one of two upstream backends chosen by a
//! mode flag, except for a single live-reload path whose WebSocket upgrade
//! requests are bridged to the development backend.
//!
//! Nothing here opens a socket. The dispatcher is a function from plain
//! values to a route. A forwarded exchange and a bridged session are state
//! machines: from a state and an event to the next state and the actions a
//! driver has to perform. The administration forms are validated the same
//! way, part by part, and end in commands for the storage behind them.

pub mod bridge;
pub mod config;
pub mod dispatch;
pub mod form;
pub mod forward;
pub mod laws;
pub mod request;
pub mod response;
pub mod text;
