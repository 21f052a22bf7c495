//! The message ids of the console protocol: each kind of request, reply
//! and event has its own id.

use vstd::prelude::*;

verus! {

pub const GET_CAPABILITIES_PARAMETERS: u64 = 1u64;
pub const GET_CAPABILITIES_RETURNS: u64 = 2u64;
pub const SET_TEXT_COLOR_PARAMETERS: u64 = 3u64;
pub const SAVE_TEXT_CURSOR_POSITION_PARAMETERS: u64 = 4u64;
pub const LOAD_TEXT_CURSOR_POSITION_PARAMETERS: u64 = 5u64;
pub const SET_TEXT_CURSOR_POSITION_PARAMETERS: u64 = 6u64;
pub const DRAW_IMAGE_PATCH_PARAMETERS: u64 = 7u64;
pub const WRITE_TEXT_PARAMETERS: u64 = 8u64;
pub const WRITE_OBJECTS_PARAMETERS: u64 = 9u64;
pub const DRAW_PIXEL_DEBUG_PARAMETERS: u64 = 10u64;
pub const KEY_PRESSED_PARAMETERS: u64 = 11u64;
pub const KEY_RELEASED_PARAMETERS: u64 = 12u64;
pub const CHARACTER_INPUT_PARAMETERS: u64 = 13u64;
pub const POINTER_MOVED_PARAMETERS: u64 = 14u64;
pub const POINTER_PRESSED_PARAMETERS: u64 = 15u64;
pub const POINTER_RELEASED_PARAMETERS: u64 = 16u64;
pub const SIZE_CHANGED_PARAMETERS: u64 = 17u64;

} // verus!
