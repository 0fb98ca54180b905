//! Core of a real-time direct-messaging backend: identifier tables for the
//! connection hub, token-based stream admission, profile masking, the message
//! store with its business rules, wire-format encoding, and the two-stage
//! shutdown protocol.

pub mod actor;
pub mod codec;
pub mod config;
pub mod errors;
pub mod hub;
pub mod ids;
pub mod msg;
pub mod records;
pub mod shutdown;
pub mod storage;
pub mod token;
pub mod web;
pub mod worker;
