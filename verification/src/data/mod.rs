//! The data protocol: text-oriented console access for applications.

pub mod types;
pub mod data_command;
pub mod command;
pub mod messages;
pub mod input;
pub mod text;
pub mod message_ids;
pub mod server;
pub mod client;
