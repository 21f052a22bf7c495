//! The console protocol: its channel queue, its data types and messages,
//! and the events that its clients and servers receive.

pub mod channel;
pub mod types;
pub mod key_code;
pub mod messages;
pub mod text;
pub mod image;
pub mod objects;
pub mod pointer_button;
pub mod pointer;
pub mod message_ids;
pub mod server;
pub mod client;
