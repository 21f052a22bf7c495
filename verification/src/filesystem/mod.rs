//! The filesystem protocol: locking, watching and reading objects.

pub mod messages;
pub mod objects;
pub mod message_ids;
pub mod client;
