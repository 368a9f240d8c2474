//! Game-wide state shared between the systems of the game.
use vstd::prelude::*;

verus! {

/// The text the player is typing at the prompt.
#[derive(Clone, Debug, PartialEq, Eq)]
pub struct TypedInput {
    pub input: String,
}

/// A message for the player.
#[derive(Clone, Debug, PartialEq, Eq)]
pub struct Message {
    pub msg: String,
}

/// A message in the log. How long it stays visible is kept beside the log by
/// whoever keeps time.
#[derive(Clone, Debug, PartialEq, Eq)]
pub struct MessageEntry {
    pub msg: String,
}

/// The messages shown in the status area.
#[derive(Clone, Debug, PartialEq, Eq)]
pub struct MessageLog {
    pub messages: Vec<MessageEntry>,
}

/// Whether the player has just entered another room, so that the screen must
/// be redrawn.
#[derive(Clone, Copy, Debug, PartialEq, Eq, Structural)]
pub struct RoomChanged {
    pub changed: bool,
}

/// The game-wide state at start-up: nothing typed, no messages, and a
/// first room still to be drawn.
pub fn setup() -> (r: (TypedInput, MessageLog, RoomChanged))
    ensures
        r.0.input@.len() == 0,
        r.1.messages@.len() == 0,
        r.2.changed,
{
    (TypedInput { input: String::new() }, MessageLog { messages: Vec::new() }, RoomChanged { changed: true })
}

} // verus!
