//! The legacy device backend: batched commands over one persistent link.

pub mod handler;
pub mod websocket;
