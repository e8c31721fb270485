//! Request parsing, response framing and WebSocket room logic of a small
//! HTTP/WebSocket chat server, with their contracts.

pub mod connection;
pub mod enums;
pub mod frame;
pub mod headers;
pub mod http;
pub mod response;
pub mod rooms;
pub mod server;
pub mod text;
pub mod upgrade;
pub mod ws;

