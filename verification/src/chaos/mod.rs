//! The Chaos system library: handles, errors, events, services, channels,
//! the per-service client registry and the kernel-call encoding.

pub mod handle;
pub mod error;
pub mod client_store;
pub mod syscalls;
pub mod service;
pub mod service_collection;
pub mod channel_collection;
pub mod event;

pub use handle::{ChannelHandle, ProcessHandle, ServiceHandle, ServiceSubscribeHandle, TimerHandle};
pub use error::StormError;
pub use event::{StormAction, StormEvent};
