use vstd::prelude::*;

verus! {

/// One of the four directions the player can face.
#[allow(non_camel_case_types)]
#[derive(Clone, Copy, Debug, PartialEq, Eq, Structural)]
pub enum CardDir {
    NORTH,
    SOUTH,
    EAST,
    WEST,
}

/// A cell of the terminal.
#[derive(Clone, Copy, Debug, PartialEq, Eq, Structural)]
pub struct Position {
    pub x: i32,
    pub y: i32,
}

/// The two colours the game draws with: the grey foreground and black.
#[derive(Clone, Copy, Debug, PartialEq, Eq, Structural)]
pub enum TileColor {
    Fore,
    Black,
}

/// How an entity is drawn: its glyph and colours.
#[derive(Clone, Copy, Debug, PartialEq, Eq, Structural)]
pub struct Renderable {
    pub glyph: char,
    pub fg: TileColor,
    pub bg: TileColor,
}

/// The direction an entity faces.
#[derive(Clone, Copy, Debug, PartialEq, Eq, Structural)]
pub struct CardinalDirection {
    pub dir: CardDir,
}

/// The identity of an entity of the game world: an index and a generation.
#[derive(Clone, Copy, Debug, PartialEq, Eq, Structural)]
pub struct EntityId {
    pub index: u32,
    pub generation: u32,
}

impl EntityId {
    /// The entity with the given index and the first generation.
    pub fn from_raw(index: u32) -> (e: EntityId)
        ensures
            e.index == index,
            e.generation == 1,
    {
        EntityId { index, generation: 1 }
    }
}

/// One drawing instruction for the terminal. A colour that is `None` leaves
/// the colour that the cell already has.
#[derive(Clone, Debug, PartialEq, Eq)]
pub enum DrawOp {
    PutChar { x: i32, y: i32, glyph: char, fg: Option<TileColor>, bg: Option<TileColor> },
    PutString { x: i32, y: i32, text: String, fg: Option<TileColor>, bg: Option<TileColor> },
    ClearBox { x: i32, y: i32, width: i32, height: i32 },
    Clear,
    Print { text: String },
}

/// What a drawing instruction does, with its text as characters.
pub enum DrawView {
    PutChar { x: i32, y: i32, glyph: char, fg: Option<TileColor>, bg: Option<TileColor> },
    PutString { x: i32, y: i32, text: Seq<char>, fg: Option<TileColor>, bg: Option<TileColor> },
    ClearBox { x: i32, y: i32, width: i32, height: i32 },
    Clear,
    Print { text: Seq<char> },
}

impl View for DrawOp {
    type V = DrawView;

    open spec fn view(&self) -> DrawView {
        match self {
            DrawOp::PutChar { x, y, glyph, fg, bg } => DrawView::PutChar {
                x: *x,
                y: *y,
                glyph: *glyph,
                fg: *fg,
                bg: *bg,
            },
            DrawOp::PutString { x, y, text, fg, bg } => DrawView::PutString {
                x: *x,
                y: *y,
                text: text@,
                fg: *fg,
                bg: *bg,
            },
            DrawOp::ClearBox { x, y, width, height } => DrawView::ClearBox {
                x: *x,
                y: *y,
                width: *width,
                height: *height,
            },
            DrawOp::Clear => DrawView::Clear,
            DrawOp::Print { text } => DrawView::Print { text: text@ },
        }
    }
}

/// What a list of drawing instructions does.
pub open spec fn draw_views(ops: Seq<DrawOp>) -> Seq<DrawView> {
    ops.map_values(|o: DrawOp| o@)
}

/// Adding an instruction adds what it does.
pub proof fn lemma_draw_views_push(ops: Seq<DrawOp>, o: DrawOp)
    ensures
        draw_views(ops.push(o)) =~= draw_views(ops).push(o@),
{
}

/// Why an operation of the game could not be carried out.
#[derive(Clone, Debug, PartialEq, Eq)]
pub enum GameError {
    /// An inventory names an entity that is not a known item.
    MissingItem,
    /// The current room has no inventory to drop an item into.
    MissingRoomInventory,
    /// A coordinate would leave the range of `i32`.
    CoordinateOverflow,
    /// The player stands on a board cell for which the room has no tile.
    TileOutOfRange,
    /// The room description has more lines than fit above the board.
    DescriptionTooTall,
    /// The room file is not JSON, or lacks a field the rooms are built from,
    /// or holds one of the wrong kind.
    MalformedRoomFile,
    /// A room is referred to by a name that no room has.
    UnknownRoom { name: String },
}

} // verus!
