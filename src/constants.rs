use vstd::prelude::*;

verus! {

pub const MAP_WIDTH: i32 = 80;
pub const MAP_HEIGHT: i32 = 43;

pub const ROOM_MAX_SIZE: i32 = 10;
pub const ROOM_MIN_SIZE: i32 = 6;
pub const MAX_ROOMS: i32 = 30;

pub const MAX_ROOM_MONSTERS: i32 = 3;
pub const MAX_ROOM_ITEMS: i32 = 2;

pub const TORCH_RADIUS: i32 = 8;

/// Index of the player among the elements.
pub const PLAYER: usize = 0;

/// Number of items the inventory holds.
pub const MAX_INVENTORY_ITEMS: usize = 26;

/// Number of messages the log keeps.
pub const MSG_HEIGHT: usize = 6;

} // verus!
