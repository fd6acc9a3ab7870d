//! A lightweight publish/subscribe transport.
//!
//! Producers frame a topic and a payload, pick a healthy receiver and keep
//! track of what is in flight; consumers parse incoming frames, route them to
//! a handler by topic and answer with a delivery status. This crate holds the
//! decisions of both sides as verified functions on plain values; sockets,
//! threads and signals live with the caller.
//!
//! - [`frame`]: the length-prefixed wire frame.
//! - [`producer`]: topics, receiver directory, pending frames, message ids.
//! - [`consumer`]: what a worker answers, and which worker gets a connection.
//! - [`message`]: statuses and envelopes.
//! - [`broker`]: in-process queues by topic.

pub mod broker;
pub mod consumer;
pub mod frame;
pub mod message;
pub mod producer;
pub mod receiver;
pub mod text;
pub mod utils;
