//! An in-memory phone book served through a device-like interface: callers
//! write zero-terminated text commands and read back textual responses.

pub mod text;
pub mod record;
pub mod store;
pub mod command;
pub mod session;
pub mod device;
