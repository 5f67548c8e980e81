//! Dynamic shared configuration: a keyed store of JSON values that several
//! programs read, write and subscribe to through one server.

pub mod accept;
pub mod client;
pub mod file_storage;
pub mod json;
pub mod proto;
pub mod registry;
pub mod server;
pub mod storage;
