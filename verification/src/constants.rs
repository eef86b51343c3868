//! Numbers that the server and its clients agree on.

use vstd::prelude::*;

verus! {

/// Columns of the part of the map that a player sees.
pub const PLAYER_VIEWPORT_WIDTH: usize = 19;

/// Rows of the part of the map that a player sees.
pub const PLAYER_VIEWPORT_HEIGHT: usize = 15;

/// Tiles of the part of the map that a player sees.
pub const VIEWPORT_SIZE: usize = 285;

/// Items of one tile that a client is told of.
pub const MAX_VISIBLE_ITEMS: usize = 8;

/// An `x` that says that the coordinate names a slot of an open container.
pub const CONTAINER_COORD_FLAG: u16 = 0xFFFF;

/// An `x` that says that the coordinate names an inventory slot.
pub const INVENTORY_COORD_FLAG: u16 = 0xFFFE;

/// A `y` that, behind `INVENTORY_COORD_FLAG`, asks for the item wherever it is carried.
pub const CARRIED_SEARCH_FLAG: u16 = 0xFFFF;

/// The most that one stack of a cumulative item holds.
pub const MAX_STACK_AMOUNT: u8 = 100;

} // verus!
