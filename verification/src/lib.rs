//! Verified core of the Chaos operating-system lab: kernel handles and error
//! codes, the client registry used by servers, the encoding of kernel calls,
//! the shared-memory message queue that protocol channels use, the wire
//! format of protocol messages, and the decision logic of the host servers
//! and applications built on top of them.

pub mod chaos;
pub mod wire;
pub mod layout;
pub mod console;
pub mod data;
pub mod filesystem;
pub mod host_console;
pub mod bogus;
pub mod cluido;
pub mod graphics;
