//! The rules of a small room-to-room ASCII adventure: movement on the board,
//! typed commands, picking up and dropping items, room exits, and what is drawn
//! on the terminal. Rendering, input devices and the entity store live outside;
//! this crate decides.
use vstd::prelude::*;

pub mod common_components;
pub mod text;
pub mod inventory;
pub mod item;
pub mod player;
pub mod resources;
pub mod room_file;
pub mod rooms;
pub mod status_area;

verus! {

/// Width of the whole terminal, in cells.
pub const GAME_WIDTH: i32 = 40;

/// Height of the whole terminal, in cells.
pub const GAME_HEIGHT: i32 = 25;

/// Width of the board on which the rooms are drawn.
pub const GAMEBOARD_WIDTH: i32 = 24;

/// Height of the board on which the rooms are drawn.
pub const GAMEBOARD_HEIGHT: i32 = 18;

} // verus!
