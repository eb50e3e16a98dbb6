//! Protocol engine of an SMPP gateway simulator: PDU framing with a 3.4
//! compatibility repair pass, the dispatcher for bind, submit, keepalive and
//! unbind requests, the session registry, the message queue, the delivery
//! receipt lifecycle and the mobile-originated message feed.

pub mod config;
pub mod smpp;
pub mod text;
