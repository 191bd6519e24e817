//! The protocol core of a small connection-oriented message server.
//!
//! Clients connect, send requests and get one response for each: a text
//! is echoed, two numbers are added. This crate holds what the server
//! decides and computes, and nothing that touches a socket or a thread:
//!
//! - `wire`: the Protocol Buffers wire format, on top of `prost`'s varints;
//! - `message`: the requests and responses and their encoding;
//! - `connection`: the handler of one connection, step by step;
//! - `server`: the accept loop and the life of the server, action by
//!   action.
//!
//! The handler and the server are driven from outside: the caller does the
//! reading, writing, accepting and waiting that they ask for, and tells
//! them what came of it.
pub mod connection;
pub mod message;
pub mod server;
pub mod wire;
