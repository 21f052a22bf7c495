//! Decision logic of the console host server: which client's console is
//! shown, how clients are numbered, and where written text goes.

pub mod session;
pub mod text;
