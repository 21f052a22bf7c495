//! The message ids of the filesystem protocol.

use vstd::prelude::*;

verus! {

pub const LOCK_OBJECT_PARAMETERS: u64 = 1u64;
pub const LOCK_OBJECT_RETURNS: u64 = 2u64;
pub const UNLOCK_OBJECT_PARAMETERS: u64 = 3u64;
pub const WATCH_OBJECT_PARAMETERS: u64 = 4u64;
pub const WATCH_OBJECT_RETURNS: u64 = 5u64;
pub const UNWATCH_OBJECT_PARAMETERS: u64 = 6u64;
pub const WATCHED_OBJECT_CHANGED_PARAMETERS: u64 = 7u64;

} // verus!
