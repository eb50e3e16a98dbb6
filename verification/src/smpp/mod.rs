pub mod codec;
pub mod session;
pub mod queue;
pub mod pdu;
pub mod server;
pub mod lifecycle;
pub mod mo_service;
