//! Rooms: their tiles, their exits, and how the player moves between them.
use vstd::prelude::*;
use crate::common_components::{
    draw_views, lemma_draw_views_push, DrawOp, DrawView, EntityId, GameError, Position, Renderable, TileColor,
};
use crate::text::{count_char, count_newlines};
use crate::inventory::{inv_view, Inventory, InventoryItem};
use crate::item::{Item, ItemBundle};
use crate::resources::RoomChanged;
use crate::{GAMEBOARD_HEIGHT, GAMEBOARD_WIDTH, GAME_HEIGHT};

verus! {

/// The edge of the board through which an exit leaves the room.
#[allow(non_camel_case_types)]
#[derive(Clone, Copy, Debug, PartialEq, Eq, Structural)]
pub enum ExitEdge {
    NORTH,
    SOUTH,
    EAST,
    WEST,
    NONE,
}

/// Marks the room the player is in.
#[derive(Clone, Copy, Debug, PartialEq, Eq, Structural)]
pub struct CurrentRoom {}

/// One exit of a room: the edge it lies on, a cell that also leads through
/// it, and the room it leads to.
#[derive(Clone, Copy, Debug, PartialEq, Eq, Structural)]
pub struct ExitArea {
    pub edge: ExitEdge,
    pub location: Position,
    pub exit_location: Position,
    pub next_room: EntityId,
}

/// The exits of a room.
#[derive(Clone, Debug, PartialEq, Eq)]
pub struct Exits {
    pub exits: Vec<ExitArea>,
}

/// A room: its name, its tiles row by row, and its description.
#[derive(Clone, Debug, PartialEq, Eq)]
pub struct Room {
    pub room_name: String,
    pub room_data: Vec<char>,
    pub room_desc: String,
}

/// A change of the room that the player is in.
#[derive(Clone, Copy, Debug, PartialEq, Eq, Structural)]
pub enum RoomCommand {
    /// The room becomes a current room.
    Enter { room: EntityId },
    /// The room stops being a current room.
    Leave { room: EntityId },
}

/// The wall glyph, which the player cannot walk into.
pub open spec fn wall() -> char {
    '▓'
}

/// `p`, in board coordinates, lies on the board.
pub open spec fn on_board(p: Position) -> bool {
    0 <= p.x < GAMEBOARD_WIDTH && 0 <= p.y < GAMEBOARD_HEIGHT
}

/// The index in a room's tiles of the board cell `p`.
pub open spec fn tile_index(p: Position) -> int {
    p.y * GAMEBOARD_WIDTH + p.x
}

/// The player may stand on `p` (board coordinates) of a room with tiles
/// `data`: anywhere off the board, and on every board cell but a wall.
pub open spec fn enterable(p: Position, data: Seq<char>) -> bool {
    !(on_board(p) && data[tile_index(p)] == wall())
}

/// Whether the player may stand on `player_location` (board coordinates).
pub fn can_enter_space(player_location: Position, roomdata: &Room) -> (r: bool)
    requires
        on_board(player_location) ==> tile_index(player_location) < roomdata.room_data@.len(),
    ensures
        r == enterable(player_location, roomdata.room_data@),
{
    if player_location.x < 0 || player_location.x > GAMEBOARD_WIDTH - 1 || player_location.y < 0
        || player_location.y > GAMEBOARD_HEIGHT - 1 {
        return true;
    }
    let glyph_index: usize = (player_location.y * GAMEBOARD_WIDTH + player_location.x) as usize;
    if roomdata.room_data[glyph_index] == '▓' {
        return false;
    }
    true
}

/// The player, at screen cell `loc`, has crossed the board edge of `edge`.
pub open spec fn edge_crossed(edge: ExitEdge, loc: Position) -> bool {
    match edge {
        ExitEdge::SOUTH => loc.y < GAME_HEIGHT - GAMEBOARD_HEIGHT,
        ExitEdge::NORTH => loc.y > GAME_HEIGHT - 1,
        ExitEdge::EAST => loc.x > GAMEBOARD_WIDTH - 1,
        ExitEdge::WEST => loc.x < 0,
        ExitEdge::NONE => false,
    }
}

/// Where the player lands, from `pos`, after leaving through `edge`: on the
/// opposite edge of the board of the next room.
pub open spec fn edge_arrival(edge: ExitEdge, pos: Position) -> Position {
    match edge {
        ExitEdge::SOUTH => Position { x: pos.x, y: (GAME_HEIGHT - 1) as i32 },
        ExitEdge::NORTH => Position { x: pos.x, y: (GAME_HEIGHT - GAMEBOARD_HEIGHT) as i32 },
        ExitEdge::EAST => Position { x: 0, y: pos.y },
        ExitEdge::WEST => Position { x: (GAMEBOARD_WIDTH - 1) as i32, y: pos.y },
        ExitEdge::NONE => pos,
    }
}

/// The player's position after the exits `exits` are checked in turn
/// against the player's cell `loc`.
pub open spec fn exits_position(loc: Position, exits: Seq<ExitArea>) -> Position
    decreases exits.len(),
{
    if exits.len() == 0 {
        loc
    } else {
        let p = exits_position(loc, exits.drop_last());
        if edge_crossed(exits.last().edge, loc) {
            edge_arrival(exits.last().edge, p)
        } else {
            p
        }
    }
}

/// The room changes that taking exit `e` from room `cur` makes.
pub open spec fn move_through(e: ExitArea, cur: EntityId) -> Seq<RoomCommand> {
    seq![RoomCommand::Enter { room: e.next_room }, RoomCommand::Leave { room: cur }]
}

/// The room changes that exit `e` makes for the player at `loc` in room
/// `cur`: once if the player crossed its edge, once more if the player stands
/// on its cell.
pub open spec fn exit_commands(e: ExitArea, loc: Position, cur: EntityId) -> Seq<RoomCommand> {
    (if edge_crossed(e.edge, loc) { move_through(e, cur) } else { Seq::empty() }) + (if loc
        == e.location {
        move_through(e, cur)
    } else {
        Seq::empty()
    })
}

/// The room changes that the exits `exits` make, in order.
pub open spec fn exits_commands(loc: Position, exits: Seq<ExitArea>, cur: EntityId) -> Seq<
    RoomCommand,
>
    decreases exits.len(),
{
    if exits.len() == 0 {
        Seq::empty()
    } else {
        exits_commands(loc, exits.drop_last(), cur) + exit_commands(exits.last(), loc, cur)
    }
}

/// Some exit of `exits` is taken by the player at `loc`.
pub open spec fn exit_taken(loc: Position, exits: Seq<ExitArea>) -> bool {
    exists|i: int| 0 <= i < exits.len() && (edge_crossed(#[trigger] exits[i].edge, loc) || loc == exits[i].location)
}

/// Whether some exit of the first `i + 1` is taken, in terms of the first `i`.
proof fn lemma_exit_taken_step(loc: Position, exits: Seq<ExitArea>, i: int)
    requires
        0 <= i < exits.len(),
    ensures
        exit_taken(loc, exits.take(i + 1)) == (exit_taken(loc, exits.take(i)) || edge_crossed(
            exits[i].edge,
            loc,
        ) || loc == exits[i].location),
{
    let prev = exits.take(i);
    let next = exits.take(i + 1);
    if exit_taken(loc, next) {
        let k = choose|k: int|
            0 <= k < next.len() && (edge_crossed(#[trigger] next[k].edge, loc) || loc
                == next[k].location);
        if k < i {
            assert(prev[k] == next[k]);
        }
    }
    if exit_taken(loc, prev) {
        let k = choose|k: int|
            0 <= k < prev.len() && (edge_crossed(#[trigger] prev[k].edge, loc) || loc
                == prev[k].location);
        assert(next[k] == prev[k]);
    }
    if edge_crossed(exits[i].edge, loc) || loc == exits[i].location {
        assert(next[i] == exits[i]);
    }
}

/// Moves the player through the exits of the current room: every exit whose
/// edge the player crossed, or on whose cell the player stands, makes its room
/// current and the current room no longer current, in the order of the exits.
pub fn is_player_on_exit(
    position: &mut Position,
    exits: &Exits,
    current_room: EntityId,
    room_changed: &mut RoomChanged,
) -> (cmds: Vec<RoomCommand>)
    ensures
        *final(position) == exits_position(*old(position), exits.exits@),
        cmds@ == exits_commands(*old(position), exits.exits@, current_room),
        final(room_changed).changed == (old(room_changed).changed || exit_taken(
            *old(position),
            exits.exits@,
        )),
{
    let loc = *position;
    let mut cmds: Vec<RoomCommand> = Vec::new();
    let n = exits.exits.len();
    let ghost changed0 = room_changed.changed;
    for i in 0..n
        invariant
            n == exits.exits@.len(),
            *position == exits_position(loc, exits.exits@.take(i as int)),
            cmds@ == exits_commands(loc, exits.exits@.take(i as int), current_room),
            room_changed.changed == (changed0 || exit_taken(loc, exits.exits@.take(i as int))),
    {
        let exit = exits.exits[i];
        let ghost prev = exits.exits@.take(i as int);
        let ghost next = exits.exits@.take(i + 1);
        assert(next.drop_last() =~= prev);
        assert(next.last() == exit);
        let crossed = match exit.edge {
            ExitEdge::SOUTH => {
                if loc.y < GAME_HEIGHT - GAMEBOARD_HEIGHT {
                    position.y = GAME_HEIGHT - 1;
                    true
                } else {
                    false
                }
            },
            ExitEdge::NORTH => {
                if loc.y > GAME_HEIGHT - 1 {
                    position.y = GAME_HEIGHT - GAMEBOARD_HEIGHT;
                    true
                } else {
                    false
                }
            },
            ExitEdge::EAST => {
                if loc.x > GAMEBOARD_WIDTH - 1 {
                    position.x = 0;
                    true
                } else {
                    false
                }
            },
            ExitEdge::WEST => {
                if loc.x < 0 {
                    position.x = GAMEBOARD_WIDTH - 1;
                    true
                } else {
                    false
                }
            },
            ExitEdge::NONE => false,
        };
        if crossed {
            cmds.push(RoomCommand::Enter { room: exit.next_room });
            cmds.push(RoomCommand::Leave { room: current_room });
            room_changed.changed = true;
        }
        if loc == exit.location {
            cmds.push(RoomCommand::Enter { room: exit.next_room });
            cmds.push(RoomCommand::Leave { room: current_room });
            room_changed.changed = true;
        }
        proof {
            lemma_exit_taken_step(loc, exits.exits@, i as int);
        }
        assert(cmds@ =~= exits_commands(loc, next, current_room));
    }
    assert(exits.exits@.take(n as int) =~= exits.exits@);
    cmds
}

/// One exit as the room file describes it: the edge it lies on, if any, and
/// the name of the room it leads to.
#[derive(Clone, Debug, PartialEq, Eq)]
pub struct ExitSpec {
    pub edge: Option<String>,
    pub next_room: String,
}

/// One room as the room file describes it.
#[derive(Clone, Debug, PartialEq, Eq)]
pub struct RoomSpec {
    pub room_name: String,
    pub room_data: String,
    pub room_desc: String,
    pub exits: Vec<ExitSpec>,
}

/// The room file separates tiles with quotes and commas, which are not tiles.
pub open spec fn is_separator(c: char) -> bool {
    c == '\'' || c == ','
}

/// `s` without its quotes and commas.
pub open spec fn strip_separators(s: Seq<char>) -> Seq<char>
    decreases s.len(),
{
    if s.len() == 0 {
        Seq::empty()
    } else {
        let r = strip_separators(s.drop_last());
        if is_separator(s.last()) {
            r
        } else {
            r.push(s.last())
        }
    }
}

/// The room that a room description makes: its name and description as
/// given, and its tiles as the characters of its data without quotes and
/// commas.
pub fn build_room(spec: &RoomSpec) -> (r: Room)
    ensures
        r.room_name@ == spec.room_name@,
        r.room_desc@ == spec.room_desc@,
        r.room_data@ == strip_separators(spec.room_data@),
{
    let data = spec.room_data.as_str();
    let len = data.unicode_len();
    let mut tiles: Vec<char> = Vec::new();
    let mut i: usize = 0;
    while i < len
        invariant
            len == data@.len(),
            i <= len,
            tiles@ == strip_separators(data@.take(i as int)),
        decreases len - i,
    {
        let c = data.get_char(i);
        assert(data@.take(i + 1).drop_last() =~= data@.take(i as int));
        if c != '\'' && c != ',' {
            tiles.push(c);
        }
        i = i + 1;
    }
    assert(data@.take(len as int) =~= data@);
    Room { room_name: spec.room_name.clone(), room_data: tiles, room_desc: spec.room_desc.clone() }
}

/// Some room of `specs` is called `name`.
pub open spec fn named(specs: Seq<RoomSpec>, name: Seq<char>) -> bool {
    exists|i: int| 0 <= i < specs.len() && specs[i].room_name@ == name
}

/// Room `i` is the last room of `specs` called `name`: the one the name stands
/// for.
pub open spec fn is_owner(specs: Seq<RoomSpec>, name: Seq<char>, i: int) -> bool {
    &&& 0 <= i < specs.len()
    &&& specs[i].room_name@ == name
    &&& forall|j: int| i < j < specs.len() ==> specs[j].room_name@ != name
}

/// The index of the room that `name` stands for (meaningful when some room
/// is called `name`).
pub open spec fn owner(specs: Seq<RoomSpec>, name: Seq<char>) -> int {
    choose|i: int| is_owner(specs, name, i)
}

/// The room that `name` stands for: the last of those called `name`. Names
/// are looked up by a search from the last room down rather than in a hash
/// map keyed by name: Verus proves little of such a map with `String` keys,
/// while the search states plainly that the last room of a name wins, as
/// inserting every room into a map in order would.
pub fn find_owner(specs: &Vec<RoomSpec>, name: &String) -> (r: Option<usize>)
    ensures
        r is None <==> !named(specs@, name@),
        r matches Some(i) ==> is_owner(specs@, name@, i as int) && owner(specs@, name@) == i,
{
    let mut i = specs.len();
    while i > 0
        invariant
            i <= specs@.len(),
            forall|j: int| i <= j < specs@.len() ==> specs@[j].room_name@ != name@,
        decreases i,
    {
        i = i - 1;
        if specs[i].room_name == *name {
            proof {
                let c = choose|c: int| is_owner(specs@, name@, c);
                assert(is_owner(specs@, name@, i as int));
                if c < i {
                    assert(specs@[i as int].room_name@ != name@);
                }
                assert(c == i);
            }
            return Some(i);
        }
    }
    None
}

/// The edge that the room file's edge name stands for.
pub open spec fn edge_named(edge: Option<Seq<char>>) -> ExitEdge {
    match edge {
        None => ExitEdge::NONE,
        Some(e) => if e == "NORTH"@ {
            ExitEdge::NORTH
        } else if e == "SOUTH"@ {
            ExitEdge::SOUTH
        } else if e == "EAST"@ {
            ExitEdge::EAST
        } else if e == "WEST"@ {
            ExitEdge::WEST
        } else {
            ExitEdge::NONE
        },
    }
}

/// The edge name of an exit description.
pub open spec fn edge_view(e: ExitSpec) -> Option<Seq<char>> {
    match e.edge {
        Some(s) => Some(s@),
        None => None,
    }
}

/// The exit that an exit description makes, when the rooms of `specs` are
/// the entities `ids`.
pub open spec fn exit_area(e: ExitSpec, specs: Seq<RoomSpec>, ids: Seq<EntityId>) -> ExitArea {
    ExitArea {
        edge: edge_named(edge_view(e)),
        location: Position { x: 0, y: 0 },
        exit_location: Position { x: 0, y: 0 },
        next_room: ids[owner(specs, e.next_room@)],
    }
}

/// The exit of a room without exits: on no edge, to the entity with raw index
/// 99999.
pub open spec fn no_exit() -> ExitArea {
    ExitArea {
        edge: ExitEdge::NONE,
        location: Position { x: 0, y: 0 },
        exit_location: Position { x: 0, y: 0 },
        next_room: EntityId { index: 99999, generation: 1 },
    }
}

/// The exits that the room description `r` makes.
pub open spec fn room_exits(r: RoomSpec, specs: Seq<RoomSpec>, ids: Seq<EntityId>) -> Seq<ExitArea> {
    if r.exits@.len() == 0 {
        seq![no_exit()]
    } else {
        Seq::new(r.exits@.len(), |j: int| exit_area(r.exits@[j], specs, ids))
    }
}

/// The edge that an exit description names.
pub fn edge_of(edge: &Option<String>) -> (r: ExitEdge)
    ensures
        r == edge_named(
            match edge {
                Some(s) => Some(s@),
                None => None,
            },
        ),
{
    match edge {
        None => ExitEdge::NONE,
        Some(e) => {
            if *e == "NORTH".to_owned() {
                ExitEdge::NORTH
            } else if *e == "SOUTH".to_owned() {
                ExitEdge::SOUTH
            } else if *e == "EAST".to_owned() {
                ExitEdge::EAST
            } else if *e == "WEST".to_owned() {
                ExitEdge::WEST
            } else {
                ExitEdge::NONE
            }
        },
    }
}

/// Every exit of the room description `r` leads to a room of `specs`.
pub open spec fn room_known(specs: Seq<RoomSpec>, r: RoomSpec) -> bool {
    forall|j: int| 0 <= j < r.exits@.len() ==> named(specs, #[trigger] r.exits@[j].next_room@)
}

/// Exit `j` of `r` is the first that leads to no room of `specs`.
pub open spec fn first_unknown_exit(specs: Seq<RoomSpec>, r: RoomSpec, j: int) -> bool {
    &&& 0 <= j < r.exits@.len()
    &&& !named(specs, r.exits@[j].next_room@)
    &&& forall|k: int| 0 <= k < j ==> named(specs, #[trigger] r.exits@[k].next_room@)
}

/// The exits of the room description `r`, when the rooms of `specs` are the
/// entities `ids`; or the first room name they use that no room has.
pub fn build_exits(r: &RoomSpec, specs: &Vec<RoomSpec>, ids: &Vec<EntityId>) -> (res: Result<Exits, GameError>)
    requires
        ids@.len() == specs@.len(),
    ensures
        res is Ok <==> room_known(specs@, *r),
        res matches Ok(ex) ==> ex.exits@ == room_exits(*r, specs@, ids@),
        res matches Err(e) ==> exists|j: int|
            first_unknown_exit(specs@, *r, j) && (e matches GameError::UnknownRoom { name } && name@
                == r.exits@[j].next_room@),
{
    let mut out: Vec<ExitArea> = Vec::new();
    let m = r.exits.len();
    if m == 0 {
        out.push(
            ExitArea {
                edge: ExitEdge::NONE,
                location: Position { x: 0, y: 0 },
                exit_location: Position { x: 0, y: 0 },
                next_room: EntityId::from_raw(99999),
            },
        );
        assert(out@ =~= room_exits(*r, specs@, ids@));
        return Ok(Exits { exits: out });
    }
    for j in 0..m
        invariant
            m == r.exits@.len(),
            m > 0,
            ids@.len() == specs@.len(),
            out@ =~= Seq::new(j as nat, |k: int| exit_area(r.exits@[k], specs@, ids@)),
            forall|k: int| 0 <= k < j ==> named(specs@, #[trigger] r.exits@[k].next_room@),
    {
        let e = &r.exits[j];
        match find_owner(specs, &e.next_room) {
            None => {
                assert(first_unknown_exit(specs@, *r, j as int));
                return Err(GameError::UnknownRoom { name: e.next_room.clone() });
            },
            Some(o) => {
                let edge = edge_of(&e.edge);
                out.push(
                    ExitArea {
                        edge,
                        location: Position { x: 0, y: 0 },
                        exit_location: Position { x: 0, y: 0 },
                        next_room: ids[o],
                    },
                );
                assert(edge == edge_named(edge_view(r.exits@[j as int])));
            },
        }
    }
    Ok(Exits { exits: out })
}

/// The items the game starts with, a sword and a gem, with their line in the
/// inventory of the room they start in.
pub fn starting_items() -> (r: (ItemBundle, ItemBundle))
    ensures
        r.0.item.name@ == "SWORD"@,
        r.0.item.visible,
        r.0.visual == (Renderable { glyph: '┼', fg: TileColor::Fore, bg: TileColor::Black }),
        r.0.pos == (Position { x: 15, y: 10 }),
        r.1.item.name@ == "GEM"@,
        r.1.item.visible,
        r.1.visual == (Renderable { glyph: '♦', fg: TileColor::Fore, bg: TileColor::Black }),
        r.1.pos == (Position { x: 10, y: 15 }),
{
    let sword = ItemBundle {
        item: Item { name: "SWORD".to_owned(), visible: true },
        visual: Renderable { glyph: '┼', fg: TileColor::Fore, bg: TileColor::Black },
        pos: Position { x: 15, y: 10 },
    };
    let gem = ItemBundle {
        item: Item { name: "GEM".to_owned(), visible: true },
        visual: Renderable { glyph: '♦', fg: TileColor::Fore, bg: TileColor::Black },
        pos: Position { x: 10, y: 15 },
    };
    (sword, gem)
}

/// What loading the rooms gives to the room entities: the exits and the
/// inventory of each room (in the order of the room descriptions), and the
/// room the player starts in.
#[derive(Clone, Debug, PartialEq, Eq)]
pub struct RoomSetup {
    pub exits: Vec<Option<Exits>>,
    pub inventories: Vec<Option<Inventory>>,
    pub current_room: EntityId,
}

/// Every exit of every room of `specs` leads to a room of `specs`.
pub open spec fn rooms_known(specs: Seq<RoomSpec>) -> bool {
    forall|i: int| 0 <= i < specs.len() ==> room_known(specs, #[trigger] specs[i])
}

/// The room the game starts in.
pub open spec fn start_room() -> Seq<char> {
    "Courtyard"@
}

/// The room the sword starts in.
pub open spec fn sword_room() -> Seq<char> {
    "East Ballroom"@
}

/// The inventory that loading gives to room `i`: rooms that a later room of
/// the same name hides get none; the sword's room holds the sword, the start
/// room the gem, and every other room nothing.
pub open spec fn setup_inventory(specs: Seq<RoomSpec>, i: int, sword: EntityId, gem: EntityId) -> Option<
    Seq<InventoryItem>,
> {
    if !is_owner(specs, specs[i].room_name@, i) {
        None
    } else if i == owner(specs, sword_room()) {
        Some(seq![InventoryItem { item: sword, qty: 1 }])
    } else if i == owner(specs, start_room()) {
        Some(seq![InventoryItem { item: gem, qty: 1 }])
    } else {
        Some(Seq::empty())
    }
}

/// Room `i` is the first of `specs` with an exit that leads to no room.
pub open spec fn first_unknown_room(specs: Seq<RoomSpec>, i: int) -> bool {
    &&& 0 <= i < specs.len()
    &&& !room_known(specs, specs[i])
    &&& forall|k: int| 0 <= k < i ==> room_known(specs, #[trigger] specs[k])
}

/// The room names of `specs` all resolve: every exit leads to a room of
/// `specs`, and there is a Courtyard and an East Ballroom.
pub open spec fn names_resolve(specs: Seq<RoomSpec>) -> bool {
    rooms_known(specs) && named(specs, start_room()) && named(specs, sword_room())
}

/// Whether every exit of the room description `r` leads to a room of
/// `specs`; if not, the first room name they use that no room has.
pub fn check_exits(r: &RoomSpec, specs: &Vec<RoomSpec>) -> (res: Result<(), GameError>)
    ensures
        res is Ok <==> room_known(specs@, *r),
        res matches Err(e) ==> exists|j: int|
            first_unknown_exit(specs@, *r, j) && (e matches GameError::UnknownRoom { name } && name@
                == r.exits@[j].next_room@),
{
    let m = r.exits.len();
    for j in 0..m
        invariant
            m == r.exits@.len(),
            forall|k: int| 0 <= k < j ==> named(specs@, #[trigger] r.exits@[k].next_room@),
    {
        let e = &r.exits[j];
        if find_owner(specs, &e.next_room).is_none() {
            assert(first_unknown_exit(specs@, *r, j as int));
            return Err(GameError::UnknownRoom { name: e.next_room.clone() });
        }
    }
    Ok(())
}

/// Whether the room names of the room descriptions `specs` all resolve; if
/// not, the first name that no room has: the first that an exit uses, else
/// "Courtyard", else "East Ballroom".
pub fn check_room_names(specs: &Vec<RoomSpec>) -> (r: Result<(), GameError>)
    ensures
        r is Ok <==> names_resolve(specs@),
        r matches Err(e) ==> {
            ||| exists|i: int, j: int|
                first_unknown_room(specs@, i) && first_unknown_exit(specs@, specs@[i], j) && (e matches GameError::UnknownRoom {
                    name,
                } && name@ == specs@[i].exits@[j].next_room@)
            ||| rooms_known(specs@) && !named(specs@, start_room()) && (e matches GameError::UnknownRoom {
                name,
            } && name@ == start_room())
            ||| rooms_known(specs@) && named(specs@, start_room()) && !named(specs@, sword_room()) && (e matches GameError::UnknownRoom {
                name,
            } && name@ == sword_room())
        },
{
    let n = specs.len();
    for i in 0..n
        invariant
            n == specs@.len(),
            forall|k: int| 0 <= k < i ==> room_known(specs@, #[trigger] specs@[k]),
    {
        match check_exits(&specs[i], specs) {
            Err(e) => {
                assert(first_unknown_room(specs@, i as int));
                return Err(e);
            },
            Ok(()) => {},
        }
    }
    let start_name = "Courtyard".to_owned();
    if find_owner(specs, &start_name).is_none() {
        return Err(GameError::UnknownRoom { name: start_name });
    }
    let sword_name = "East Ballroom".to_owned();
    if find_owner(specs, &sword_name).is_none() {
        return Err(GameError::UnknownRoom { name: sword_name });
    }
    Ok(())
}

/// Links the rooms described by `specs`, whose entities are `ids`, and places
/// the starting items `sword` and `gem`. A name stands for the last room that
/// has it; only that room gets exits and an inventory. Each exit leads to the
/// room its description names; a room without exits gets a single exit on no
/// edge to the entity with raw index 99999. The sword lies in the East
/// Ballroom, the gem in the Courtyard, where the player starts. Every room
/// name used must resolve (see `check_room_names`).
pub fn load_rooms(specs: &Vec<RoomSpec>, ids: &Vec<EntityId>, sword: EntityId, gem: EntityId) -> (setup: RoomSetup)
    requires
        ids@.len() == specs@.len(),
        names_resolve(specs@),
    ensures
        setup.exits@.len() == specs@.len(),
        setup.inventories@.len() == specs@.len(),
        forall|i: int| 0 <= i < specs@.len() ==> {
            &&& (#[trigger] setup.exits@[i] is Some <==> is_owner(specs@, specs@[i].room_name@, i))
            &&& (setup.exits@[i] matches Some(ex) ==> ex.exits@ == room_exits(specs@[i], specs@, ids@))
        },
        forall|i: int| 0 <= i < specs@.len() ==> inv_view(#[trigger] setup.inventories@[i]) == setup_inventory(
            specs@,
            i,
            sword,
            gem,
        ),
        setup.current_room == ids@[owner(specs@, start_room())],
{
    let n = specs.len();
    let mut exits: Vec<Option<Exits>> = Vec::new();
    let mut invs: Vec<Option<Inventory>> = Vec::new();
    for i in 0..n
        invariant
            n == specs@.len(),
            ids@.len() == specs@.len(),
            names_resolve(specs@),
            exits@.len() == i,
            invs@.len() == i,
            forall|k: int| 0 <= k < i ==> {
                &&& (#[trigger] exits@[k] is Some <==> is_owner(specs@, specs@[k].room_name@, k))
                &&& (exits@[k] matches Some(ex) ==> ex.exits@ == room_exits(specs@[k], specs@, ids@))
            },
            forall|k: int| 0 <= k < i ==> inv_view(#[trigger] invs@[k]) == if is_owner(specs@, specs@[k].room_name@, k) {
                Some(Seq::<InventoryItem>::empty())
            } else {
                None
            },
    {
        assert(room_known(specs@, specs@[i as int]));
        let ex = build_exits(&specs[i], specs, ids).unwrap();
        assert(named(specs@, specs@[i as int].room_name@));
        let own = find_owner(specs, &specs[i].room_name);
        let is_own = match own {
            Some(o) => o == i,
            None => false,
        };
        if is_own {
            exits.push(Some(ex));
            invs.push(Some(Inventory { inventory: Vec::new() }));
        } else {
            exits.push(None);
            invs.push(None);
        }
        proof {
            if is_owner(specs@, specs@[i as int].room_name@, i as int) {
                assert(own == Some(i));
            }
        }
    }
    let start = find_owner(specs, &"Courtyard".to_owned()).unwrap();
    let sword_owner = find_owner(specs, &"East Ballroom".to_owned()).unwrap();
    let mut sword_line: Vec<InventoryItem> = Vec::new();
    sword_line.push(InventoryItem { item: sword, qty: 1 });
    invs.set(sword_owner, Some(Inventory { inventory: sword_line }));
    let mut gem_line: Vec<InventoryItem> = Vec::new();
    gem_line.push(InventoryItem { item: gem, qty: 1 });
    invs.set(start, Some(Inventory { inventory: gem_line }));
    proof {
        assert(start != sword_owner) by {
            reveal_strlit("Courtyard");
            reveal_strlit("East Ballroom");
            assert(specs@[start as int].room_name@.len() != specs@[sword_owner as int].room_name@.len());
        }
    }
    RoomSetup { exits, inventories: invs, current_room: ids[start] }
}

/// The frame of the board: a line along its top edge, one along its right
/// edge, and the corner where they meet.
pub open spec fn border_ops() -> Seq<DrawView> {
    Seq::new(
        (GAMEBOARD_WIDTH + 1) as nat,
        |x: int|
            DrawView::PutChar {
                x: x as i32,
                y: (GAME_HEIGHT - 1 - GAMEBOARD_HEIGHT) as i32,
                glyph: '─',
                fg: Some(TileColor::Fore),
                bg: None,
            },
    ) + Seq::new(
        GAMEBOARD_HEIGHT as nat,
        |k: int|
            DrawView::PutChar {
                x: GAMEBOARD_WIDTH,
                y: (GAME_HEIGHT - GAMEBOARD_HEIGHT + k) as i32,
                glyph: '│',
                fg: Some(TileColor::Fore),
                bg: None,
            },
    ) + seq![
        DrawView::PutChar {
            x: GAMEBOARD_WIDTH,
            y: (GAME_HEIGHT - GAMEBOARD_HEIGHT - 1) as i32,
            glyph: '┘',
            fg: None,
            bg: None,
        },
    ]
}

/// Tile `i` of a room with tiles `data`, drawn in its cell: 24 tiles to a
/// row, from the bottom row of the board up.
pub open spec fn tile_op(data: Seq<char>, i: int) -> DrawView {
    DrawView::PutChar {
        x: (i % (GAMEBOARD_WIDTH as int)) as i32,
        y: (i / (GAMEBOARD_WIDTH as int) + (GAME_HEIGHT - GAMEBOARD_HEIGHT)) as i32,
        glyph: data[i],
        fg: Some(TileColor::Fore),
        bg: None,
    }
}

/// The tiles `data` of a room, each drawn in its cell.
pub open spec fn tile_ops(data: Seq<char>) -> Seq<DrawView> {
    Seq::new(data.len(), |i: int| tile_op(data, i))
}

/// The description of a room that was just entered: the screen cleared, then
/// the text with its last line on row 5.
pub open spec fn description_ops(desc: Seq<char>) -> Seq<DrawView> {
    seq![
        DrawView::Clear,
        DrawView::PutString {
            x: 0,
            y: (5 - count_char(desc, '\n')) as i32,
            text: desc,
            fg: Some(TileColor::Fore),
            bg: None,
        },
    ]
}

/// The frame of the board.
fn frame() -> (ops: Vec<DrawOp>)
    ensures
        draw_views(ops@) == border_ops(),
{
    let mut ops: Vec<DrawOp> = Vec::new();
    let ghost top = Seq::new(
        (GAMEBOARD_WIDTH + 1) as nat,
        |x: int|
            DrawView::PutChar {
                x: x as i32,
                y: (GAME_HEIGHT - 1 - GAMEBOARD_HEIGHT) as i32,
                glyph: '─',
                fg: Some(TileColor::Fore),
                bg: None,
            },
    );
    let ghost side = Seq::new(
        GAMEBOARD_HEIGHT as nat,
        |k: int|
            DrawView::PutChar {
                x: GAMEBOARD_WIDTH,
                y: (GAME_HEIGHT - GAMEBOARD_HEIGHT + k) as i32,
                glyph: '│',
                fg: Some(TileColor::Fore),
                bg: None,
            },
    );
    let mut x: i32 = 0;
    while x < GAMEBOARD_WIDTH + 1
        invariant
            0 <= x <= GAMEBOARD_WIDTH + 1,
            top.len() == GAMEBOARD_WIDTH + 1,
            forall|k: int| 0 <= k < top.len() ==> #[trigger] top[k] == (DrawView::PutChar {
                x: k as i32,
                y: (GAME_HEIGHT - 1 - GAMEBOARD_HEIGHT) as i32,
                glyph: '─',
                fg: Some(TileColor::Fore),
                bg: None,
            }),
            draw_views(ops@) =~= top.take(x as int),
        decreases GAMEBOARD_WIDTH + 1 - x,
    {
        let op = DrawOp::PutChar {
            x,
            y: (GAME_HEIGHT - 1) - GAMEBOARD_HEIGHT,
            glyph: '─',
            fg: Some(TileColor::Fore),
            bg: None,
        };
        proof {
            lemma_draw_views_push(ops@, op);
            assert(top.take(x + 1) =~= top.take(x as int).push(top[x as int]));
        }
        ops.push(op);
        x = x + 1;
    }
    assert(top.take(GAMEBOARD_WIDTH + 1) =~= top);
    let mut y: i32 = GAME_HEIGHT - GAMEBOARD_HEIGHT;
    while y < GAME_HEIGHT
        invariant
            GAME_HEIGHT - GAMEBOARD_HEIGHT <= y <= GAME_HEIGHT,
            side.len() == GAMEBOARD_HEIGHT,
            forall|k: int| 0 <= k < side.len() ==> #[trigger] side[k] == (DrawView::PutChar {
                x: GAMEBOARD_WIDTH,
                y: (GAME_HEIGHT - GAMEBOARD_HEIGHT + k) as i32,
                glyph: '│',
                fg: Some(TileColor::Fore),
                bg: None,
            }),
            draw_views(ops@) =~= top + side.take(y - (GAME_HEIGHT - GAMEBOARD_HEIGHT)),
        decreases GAME_HEIGHT - y,
    {
        let op = DrawOp::PutChar { x: GAMEBOARD_WIDTH, y, glyph: '│', fg: Some(TileColor::Fore), bg: None };
        proof {
            let k = y - (GAME_HEIGHT - GAMEBOARD_HEIGHT);
            lemma_draw_views_push(ops@, op);
            assert(side.take(k + 1) =~= side.take(k).push(side[k]));
        }
        ops.push(op);
        y = y + 1;
    }
    assert(side.take(GAMEBOARD_HEIGHT as int) =~= side);
    let corner = DrawOp::PutChar {
        x: GAMEBOARD_WIDTH,
        y: (GAME_HEIGHT - GAMEBOARD_HEIGHT) - 1,
        glyph: '┘',
        fg: None,
        bg: None,
    };
    proof {
        lemma_draw_views_push(ops@, corner);
    }
    ops.push(corner);
    assert(draw_views(ops@) =~= border_ops());
    ops
}

/// Adds the tiles `data` of a room to `ops`.
fn push_tiles(ops: &mut Vec<DrawOp>, data: &Vec<char>)
    requires
        data@.len() <= i32::MAX,
    ensures
        draw_views(final(ops)@) == draw_views(old(ops)@) + tile_ops(data@),
{
    let ghost start = draw_views(ops@);
    let ghost tiles = tile_ops(data@);

    let n = data.len();
    for i in 0..n
        invariant
            n == data@.len(),
            n <= i32::MAX,
            tiles.len() == n,
            forall|k: int| 0 <= k < n ==> #[trigger] tiles[k] == tile_op(data@, k),
            draw_views(ops@) =~= start + tiles.take(i as int),
    {
        let idx = i as i32;
        let op = DrawOp::PutChar {
            x: idx % GAMEBOARD_WIDTH,
            y: idx / GAMEBOARD_WIDTH + (GAME_HEIGHT - GAMEBOARD_HEIGHT),
            glyph: data[i],
            fg: Some(TileColor::Fore),
            bg: None,
        };
        proof {
            lemma_draw_views_push(ops@, op);
            assert(op@ == tile_op(data@, i as int));
            assert(tiles.take(i + 1) =~= tiles.take(i as int).push(tiles[i as int]));
        }
        ops.push(op);
    }
    assert(tiles.take(n as int) =~= tiles);
}

/// Draws the current room: the board's frame and the room's tiles, and, when
/// the room was just entered, a cleared screen with the room's description,
/// after which the room no longer counts as just entered. A description of
/// more than six lines does not fit.
pub fn render_room(current_room: &Room, room_changed: &mut RoomChanged) -> (r: Result<Vec<DrawOp>, GameError>)
    requires
        current_room.room_data@.len() <= i32::MAX,
    ensures
        r is Err <==> old(room_changed).changed && count_char(current_room.room_desc@, '\n') > 5,
        r is Err ==> r == Err::<Vec<DrawOp>, GameError>(GameError::DescriptionTooTall),
        r matches Ok(ops) ==> draw_views(ops@) == border_ops() + tile_ops(current_room.room_data@) + if old(
            room_changed,
        ).changed {
            description_ops(current_room.room_desc@)
        } else {
            Seq::empty()
        },
        r is Ok ==> final(room_changed).changed == false,
        r is Err ==> *final(room_changed) == *old(room_changed),
{
    let line_count = count_newlines(current_room.room_desc.as_str());
    if room_changed.changed && line_count > 5 {
        return Err(GameError::DescriptionTooTall);
    }
    let mut ops = frame();
    push_tiles(&mut ops, &current_room.room_data);
    let ghost drawn = draw_views(ops@);
    if room_changed.changed {
        let clear = DrawOp::Clear;
        proof {
            lemma_draw_views_push(ops@, clear);
        }
        ops.push(clear);
        room_changed.changed = false;
        let desc = DrawOp::PutString {
            x: 0,
            y: 5 - line_count as i32,
            text: current_room.room_desc.clone(),
            fg: Some(TileColor::Fore),
            bg: None,
        };
        proof {
            lemma_draw_views_push(ops@, desc);
        }
        ops.push(desc);
        assert(draw_views(ops@) =~= drawn + description_ops(current_room.room_desc@));
    } else {
        assert(draw_views(ops@) =~= drawn + Seq::empty());
    }
    Ok(ops)
}

/// The tile drawn in a board cell is the tile that decides whether the player
/// may stand there: the room shows a wall exactly where it blocks the player.
pub proof fn lemma_drawn_tile_decides_entry(p: Position, data: Seq<char>)
    requires
        on_board(p),
        tile_index(p) < data.len(),
    ensures
        tile_op(data, tile_index(p)) == (DrawView::PutChar {
            x: p.x,
            y: (p.y + (GAME_HEIGHT - GAMEBOARD_HEIGHT)) as i32,
            glyph: data[tile_index(p)],
            fg: Some(TileColor::Fore),
            bg: None,
        }),
        enterable(p, data) <==> data[tile_index(p)] != wall(),
{
    let i = tile_index(p);
    let x = p.x as int;
    let y = p.y as int;
    assert(i % 24 == x && i / 24 == y) by (nonlinear_arith)
        requires
            i == y * 24 + x,
            0 <= x < 24,
            0 <= y,
    {
        vstd::arithmetic::div_mod::lemma_fundamental_div_mod_converse(i, 24, y, x);
    }
}

/// Every exit that loading gives a room leads to a room whose name is the
/// one the exit's description gives.
pub proof fn lemma_exits_lead_to_named_rooms(
    specs: Seq<RoomSpec>,
    ids: Seq<EntityId>,
    i: int,
    j: int,
)
    requires
        ids.len() == specs.len(),
        rooms_known(specs),
        0 <= i < specs.len(),
        0 <= j < specs[i].exits@.len(),
    ensures
        exists|k: int|
            0 <= k < specs.len() && room_exits(specs[i], specs, ids)[j].next_room == ids[k]
                && specs[k].room_name@ == specs[i].exits@[j].next_room@,
{
    let name = specs[i].exits@[j].next_room@;
    assert(room_known(specs, specs[i]));
    assert(named(specs, name));
    let w = choose|w: int| 0 <= w < specs.len() && specs[w].room_name@ == name;
    lemma_owner_exists(specs, name, w);
    let k = owner(specs, name);
    assert(room_exits(specs[i], specs, ids)[j].next_room == ids[k]);
}

/// A name that some room has stands for one of the rooms that have it.
proof fn lemma_owner_exists(specs: Seq<RoomSpec>, name: Seq<char>, w: int)
    requires
        0 <= w < specs.len(),
        specs[w].room_name@ == name,
    ensures
        is_owner(specs, name, owner(specs, name)),
    decreases specs.len() - w,
{
    if exists|j: int| w < j < specs.len() && specs[j].room_name@ == name {
        let j = choose|j: int| w < j < specs.len() && specs[j].room_name@ == name;
        lemma_owner_exists(specs, name, j);
    } else {
        assert(is_owner(specs, name, w));
    }
}

/// The rooms that are current after the room changes `cmds` are made, in
/// order, to the current rooms `current`.
pub open spec fn apply_room_commands(current: Set<EntityId>, cmds: Seq<RoomCommand>) -> Set<EntityId>
    decreases cmds.len(),
{
    if cmds.len() == 0 {
        current
    } else {
        let before = apply_room_commands(current, cmds.drop_last());
        match cmds.last() {
            RoomCommand::Enter { room } => before.insert(room),
            RoomCommand::Leave { room } => before.remove(room),
        }
    }
}

/// The player at `loc` takes the exit `e`.
pub open spec fn takes_exit(e: ExitArea, loc: Position) -> bool {
    edge_crossed(e.edge, loc) || loc == e.location
}

/// Exits that are not taken make no room changes.
proof fn lemma_untaken_exits_change_nothing(loc: Position, exits: Seq<ExitArea>, cur: EntityId)
    requires
        forall|i: int| 0 <= i < exits.len() ==> !takes_exit(#[trigger] exits[i], loc),
    ensures
        exits_commands(loc, exits, cur) == Seq::<RoomCommand>::empty(),
    decreases exits.len(),
{
    if exits.len() > 0 {
        let q = exits.drop_last();
        assert forall|i: int| 0 <= i < q.len() implies !takes_exit(#[trigger] q[i], loc) by {
            assert(q[i] == exits[i]);
        }
        lemma_untaken_exits_change_nothing(loc, q, cur);
        assert(!takes_exit(exits[exits.len() - 1], loc));
        assert(exit_commands(exits.last(), loc, cur) =~= Seq::<RoomCommand>::empty());
        assert(exits_commands(loc, exits, cur) =~= Seq::<RoomCommand>::empty());
    }
}

/// When only exit `t` is taken, the room changes are those of exit `t`.
proof fn lemma_one_exit_changes(loc: Position, exits: Seq<ExitArea>, cur: EntityId, t: int)
    requires
        0 <= t < exits.len(),
        forall|i: int| 0 <= i < exits.len() && i != t ==> !takes_exit(#[trigger] exits[i], loc),
    ensures
        exits_commands(loc, exits, cur) == exit_commands(exits[t], loc, cur),
    decreases exits.len(),
{
    let q = exits.drop_last();
    if t == exits.len() - 1 {
        assert forall|i: int| 0 <= i < q.len() implies !takes_exit(#[trigger] q[i], loc) by {
            assert(q[i] == exits[i]);
        }
        lemma_untaken_exits_change_nothing(loc, q, cur);
        assert(exits_commands(loc, exits, cur) =~= exit_commands(exits[t], loc, cur));
    } else {
        assert forall|i: int| 0 <= i < q.len() && i != t implies !takes_exit(#[trigger] q[i], loc) by {
            assert(q[i] == exits[i]);
        }
        lemma_one_exit_changes(loc, q, cur, t);
        assert(!takes_exit(exits[exits.len() - 1], loc));
        assert(exit_commands(exits.last(), loc, cur) =~= Seq::<RoomCommand>::empty());
        assert(q[t] == exits[t]);
        assert(exits_commands(loc, exits, cur) =~= exit_commands(exits[t], loc, cur));
    }
}

/// After the room changes that the exits make are carried out, exactly one
/// room is current: when at most one exit is taken and it leads to another
/// room, the room it leads to if it is taken, else the room the player was
/// in.
pub proof fn lemma_one_current_room(loc: Position, exits: Seq<ExitArea>, cur: EntityId)
    requires
        forall|i: int, j: int|
            0 <= i < exits.len() && 0 <= j < exits.len() && takes_exit(#[trigger] exits[i], loc)
                && takes_exit(#[trigger] exits[j], loc) ==> i == j,
        forall|i: int| 0 <= i < exits.len() && takes_exit(#[trigger] exits[i], loc) ==> exits[i].next_room != cur,
    ensures
        !exit_taken(loc, exits) ==> apply_room_commands(set![cur], exits_commands(loc, exits, cur))
            == set![cur],
        forall|i: int|
            0 <= i < exits.len() && takes_exit(#[trigger] exits[i], loc) ==> apply_room_commands(
                set![cur],
                exits_commands(loc, exits, cur),
            ) == set![exits[i].next_room],
{
    if !exit_taken(loc, exits) {
        assert forall|i: int| 0 <= i < exits.len() implies !takes_exit(#[trigger] exits[i], loc) by {
            if takes_exit(exits[i], loc) {
                assert(edge_crossed(exits[i].edge, loc) || loc == exits[i].location);
            }
        }
        lemma_untaken_exits_change_nothing(loc, exits, cur);
    }
    assert forall|t: int| 0 <= t < exits.len() && takes_exit(#[trigger] exits[t], loc) implies apply_room_commands(
        set![cur],
        exits_commands(loc, exits, cur),
    ) == set![exits[t].next_room] by {
        assert forall|i: int| 0 <= i < exits.len() && i != t implies !takes_exit(#[trigger] exits[i], loc) by {
            if takes_exit(exits[i], loc) {
                assert(takes_exit(exits[t], loc));
            }
        }
        lemma_one_exit_changes(loc, exits, cur, t);
        let e = exits[t];
        let n = e.next_room;
        let one = move_through(e, cur);
        assert(apply_room_commands(set![cur], one) =~= set![n]) by {
            reveal_with_fuel(apply_room_commands, 3);
            assert(one.drop_last().drop_last() =~= Seq::<RoomCommand>::empty());
        }
        if edge_crossed(e.edge, loc) && loc == e.location {
            let two = one + one;
            assert(exit_commands(e, loc, cur) =~= two);
            assert(apply_room_commands(set![cur], two) =~= set![n]) by {
                reveal_with_fuel(apply_room_commands, 5);
                assert(two.drop_last().drop_last() =~= one);
                assert(two.drop_last().drop_last().drop_last().drop_last() =~= Seq::<RoomCommand>::empty());
                assert(one.drop_last().drop_last() =~= Seq::<RoomCommand>::empty());
            }
        } else {
            assert(exit_commands(e, loc, cur) =~= one);
        }
    }
}

/// An exit lies on the edge that its description names: "NORTH", "SOUTH",
/// "EAST" and "WEST" are the north, south, east and west edges, and an exit
/// described with no edge or another name lies on no edge. It leads to the
/// room its description names.
pub proof fn lemma_exit_edges_follow_names(r: RoomSpec, specs: Seq<RoomSpec>, ids: Seq<EntityId>, j: int)
    requires
        0 <= j < r.exits@.len(),
    ensures
        ({
            let e = room_exits(r, specs, ids)[j];
            let d = r.exits@[j];
            &&& (d.edge matches Some(s) && s@ == "NORTH"@ ==> e.edge == ExitEdge::NORTH)
            &&& (d.edge matches Some(s) && s@ == "SOUTH"@ ==> e.edge == ExitEdge::SOUTH)
            &&& (d.edge matches Some(s) && s@ == "EAST"@ ==> e.edge == ExitEdge::EAST)
            &&& (d.edge matches Some(s) && s@ == "WEST"@ ==> e.edge == ExitEdge::WEST)
            &&& (d.edge is None ==> e.edge == ExitEdge::NONE)
            &&& (d.edge matches Some(s) && s@ != "NORTH"@ && s@ != "SOUTH"@ && s@ != "EAST"@ && s@
                != "WEST"@ ==> e.edge == ExitEdge::NONE)
            &&& e.next_room == ids[owner(specs, d.next_room@)]
            &&& e.location == (Position { x: 0, y: 0 })
        }),
{
    reveal_strlit("NORTH");
    reveal_strlit("SOUTH");
    reveal_strlit("EAST");
    reveal_strlit("WEST");
    assert("NORTH"@ != "SOUTH"@) by {
        assert("NORTH"@[0] != "SOUTH"@[0]);
    }
    assert("EAST"@ != "NORTH"@) by {
        assert("EAST"@.len() != "NORTH"@.len());
    }
    assert("EAST"@ != "SOUTH"@) by {
        assert("EAST"@.len() != "SOUTH"@.len());
    }
    assert("WEST"@ != "NORTH"@) by {
        assert("WEST"@.len() != "NORTH"@.len());
    }
    assert("WEST"@ != "SOUTH"@) by {
        assert("WEST"@.len() != "SOUTH"@.len());
    }
    assert("WEST"@ != "EAST"@) by {
        assert("WEST"@[0] != "EAST"@[0]);
    }
}

/// The tiles of a room are the characters of its data with every quote and
/// comma taken out and nothing else: no tile is a quote or a comma, data
/// without them is kept whole, and the data of two pieces gives the tiles of
/// the first followed by those of the second.
pub proof fn lemma_tiles_are_data_without_separators(a: Seq<char>, b: Seq<char>)
    ensures
        forall|i: int| 0 <= i < strip_separators(a).len() ==> #[trigger] strip_separators(a)[i] != '\''
            && strip_separators(a)[i] != ',',
        (forall|i: int| 0 <= i < a.len() ==> #[trigger] a[i] != '\'' && a[i] != ',') ==> strip_separators(a)
            == a,
        strip_separators(a + b) == strip_separators(a) + strip_separators(b),
    decreases b.len(),
{
    lemma_no_separator_tiles(a);
    lemma_data_without_separators_kept(a);
    if b.len() == 0 {
        assert(a + b =~= a);
        assert(strip_separators(a) + strip_separators(b) =~= strip_separators(a));
    } else {
        lemma_tiles_are_data_without_separators(a, b.drop_last());
        assert((a + b).drop_last() =~= a + b.drop_last());
        assert((a + b).last() == b.last());
        assert(strip_separators(a + b) =~= strip_separators(a) + strip_separators(b));
    }
}

/// No tile is a quote or a comma.
proof fn lemma_no_separator_tiles(a: Seq<char>)
    ensures
        forall|i: int| 0 <= i < strip_separators(a).len() ==> #[trigger] strip_separators(a)[i] != '\''
            && strip_separators(a)[i] != ',',
    decreases a.len(),
{
    if a.len() > 0 {
        let q = a.drop_last();
        lemma_no_separator_tiles(q);
        let r = strip_separators(q);
        assert forall|i: int| 0 <= i < strip_separators(a).len() implies #[trigger] strip_separators(a)[i] != '\''
            && strip_separators(a)[i] != ',' by {
            if i < r.len() {
                assert(strip_separators(a)[i] == r[i]);
            }
        }
    }
}

/// Data without quotes and commas is kept whole.
proof fn lemma_data_without_separators_kept(a: Seq<char>)
    ensures
        (forall|i: int| 0 <= i < a.len() ==> #[trigger] a[i] != '\'' && a[i] != ',') ==> strip_separators(a)
            == a,
    decreases a.len(),
{
    if a.len() > 0 {
        let q = a.drop_last();
        lemma_data_without_separators_kept(q);
        if forall|i: int| 0 <= i < a.len() ==> #[trigger] a[i] != '\'' && a[i] != ',' {
            assert(forall|i: int| 0 <= i < q.len() ==> #[trigger] q[i] == a[i]);
            assert(a[a.len() - 1] != '\'');
            assert(strip_separators(a) =~= a);
        }
    }
}

/// Exits that the player does not take leave it where it is and change no
/// room.
pub proof fn lemma_untaken_exits_keep_player(loc: Position, exits: Seq<ExitArea>, cur: EntityId)
    requires
        forall|i: int| 0 <= i < exits.len() ==> !takes_exit(#[trigger] exits[i], loc),
    ensures
        exits_position(loc, exits) == loc,
        exits_commands(loc, exits, cur) == Seq::<RoomCommand>::empty(),
    decreases exits.len(),
{
    lemma_untaken_exits_change_nothing(loc, exits, cur);
    if exits.len() > 0 {
        let q = exits.drop_last();
        assert forall|i: int| 0 <= i < q.len() implies !takes_exit(#[trigger] q[i], loc) by {
            assert(q[i] == exits[i]);
        }
        lemma_untaken_exits_keep_player(loc, q, cur);
        assert(!takes_exit(exits[exits.len() - 1], loc));
    }
}

/// Walking off the board through an exit's edge puts the player on the
/// opposite edge, in the same column or row: off the bottom onto the top row,
/// off the top onto the bottom row, off the right onto the left column, off
/// the left onto the right column. Taking the exit once makes its room
/// current and the room the player was in no longer current.
pub proof fn lemma_crossing_lands_opposite(e: ExitArea, loc: Position, cur: EntityId)
    ensures
        e.edge == ExitEdge::SOUTH && loc.y < 7 ==> exits_position(loc, seq![e]) == (Position {
            x: loc.x,
            y: 24,
        }),
        e.edge == ExitEdge::NORTH && loc.y > 24 ==> exits_position(loc, seq![e]) == (Position {
            x: loc.x,
            y: 7,
        }),
        e.edge == ExitEdge::EAST && loc.x > 23 ==> exits_position(loc, seq![e]) == (Position {
            x: 0,
            y: loc.y,
        }),
        e.edge == ExitEdge::WEST && loc.x < 0 ==> exits_position(loc, seq![e]) == (Position {
            x: 23,
            y: loc.y,
        }),
        0 <= loc.x < 24 && 7 <= loc.y < 25 ==> exits_position(loc, seq![e]) == loc,
        takes_exit(e, loc) && loc != e.location ==> exits_commands(loc, seq![e], cur) == seq![
            RoomCommand::Enter { room: e.next_room },
            RoomCommand::Leave { room: cur },
        ],
{
    let s = seq![e];
    assert(s.drop_last() =~= Seq::<ExitArea>::empty());
    assert(s.last() == e);
    assert(exits_commands(loc, s.drop_last(), cur) == Seq::<RoomCommand>::empty());
    assert(exits_position(loc, s.drop_last()) == loc);
    assert(exits_position(loc, s) == if edge_crossed(e.edge, loc) {
        edge_arrival(e.edge, loc)
    } else {
        loc
    });
    assert(exits_commands(loc, s, cur) =~= exit_commands(e, loc, cur));
    if takes_exit(e, loc) && loc != e.location {
        assert(exit_commands(e, loc, cur) =~= seq![
            RoomCommand::Enter { room: e.next_room },
            RoomCommand::Leave { room: cur },
        ]);
    }
}

/// A room without exits in its description gets one exit, on no edge, to the
/// entity with raw index 99999.
pub proof fn lemma_room_without_exits(r: RoomSpec, specs: Seq<RoomSpec>, ids: Seq<EntityId>)
    requires
        r.exits@.len() == 0,
    ensures
        room_exits(r, specs, ids).len() == 1,
        room_exits(r, specs, ids)[0].edge == ExitEdge::NONE,
        room_exits(r, specs, ids)[0].next_room == (EntityId { index: 99999, generation: 1 }),
{
}

/// The frame of the board is a line of '─' along row 6 from column 0 to
/// column 24, a line of '│' down column 24 from row 7 to row 24, and the
/// corner '┘' where they meet.
pub proof fn lemma_frame_cells()
    ensures
        border_ops().len() == 44,
        forall|x: int| 0 <= x <= 24 ==> #[trigger] border_ops()[x] == (DrawView::PutChar {
            x: x as i32,
            y: 6,
            glyph: '─',
            fg: Some(TileColor::Fore),
            bg: None,
        }),
        forall|y: int| 7 <= y <= 24 ==> #[trigger] border_ops()[y + 18] == (DrawView::PutChar {
            x: 24,
            y: y as i32,
            glyph: '│',
            fg: Some(TileColor::Fore),
            bg: None,
        }),
        border_ops()[43] == (DrawView::PutChar { x: 24, y: 6, glyph: '┘', fg: None, bg: None }),
{
}

/// The description of a room that was just entered is drawn after the screen
/// is cleared, from column 0, so that its last line falls on row 5.
pub proof fn lemma_description_ends_on_row_five(desc: Seq<char>)
    requires
        count_char(desc, '\n') <= 5,
    ensures
        description_ops(desc).len() == 2,
        description_ops(desc)[0] == DrawView::Clear,
        (description_ops(desc)[1] matches DrawView::PutString { x, y, text, .. } && x == 0 && text
            == desc && y + count_char(desc, '\n') == 5),
{
}

/// The sword starts in the East Ballroom and the gem in the Courtyard, each
/// alone; every other room that a name stands for starts empty, and a room
/// that a later room of the same name hides gets no inventory.
pub proof fn lemma_starting_inventories(specs: Seq<RoomSpec>, sword: EntityId, gem: EntityId, i: int)
    requires
        0 <= i < specs.len(),
        named(specs, "East Ballroom"@),
        named(specs, "Courtyard"@),
    ensures
        is_owner(specs, specs[i].room_name@, i) && specs[i].room_name@ == "East Ballroom"@
            ==> setup_inventory(specs, i, sword, gem) == Some(seq![InventoryItem { item: sword, qty: 1 }]),
        is_owner(specs, specs[i].room_name@, i) && specs[i].room_name@ == "Courtyard"@
            ==> setup_inventory(specs, i, sword, gem) == Some(seq![InventoryItem { item: gem, qty: 1 }]),
        is_owner(specs, specs[i].room_name@, i) && specs[i].room_name@ != "Courtyard"@
            && specs[i].room_name@ != "East Ballroom"@ ==> setup_inventory(specs, i, sword, gem) == Some(
            Seq::<InventoryItem>::empty(),
        ),
        !is_owner(specs, specs[i].room_name@, i) ==> setup_inventory(specs, i, sword, gem) is None,
{
    let we = choose|w: int| 0 <= w < specs.len() && specs[w].room_name@ == "East Ballroom"@;
    let wc = choose|w: int| 0 <= w < specs.len() && specs[w].room_name@ == "Courtyard"@;
    lemma_owner_exists(specs, "East Ballroom"@, we);
    lemma_owner_exists(specs, "Courtyard"@, wc);
    let oe = owner(specs, "East Ballroom"@);
    let oc = owner(specs, "Courtyard"@);
    if is_owner(specs, specs[i].room_name@, i) {
        if specs[i].room_name@ == "East Ballroom"@ {
            if oe < i {
                assert(specs[i].room_name@ != "East Ballroom"@);
            }
            if i < oe {
                assert(specs[oe].room_name@ != specs[i].room_name@);
            }
        }
        if specs[i].room_name@ == "Courtyard"@ {
            reveal_strlit("Courtyard");
            reveal_strlit("East Ballroom");
            assert("Courtyard"@.len() != "East Ballroom"@.len());
            if oc < i {
                assert(specs[i].room_name@ != "Courtyard"@);
            }
            if i < oc {
                assert(specs[oc].room_name@ != specs[i].room_name@);
            }
        }
        if i == oe {
            assert(specs[i].room_name@ == "East Ballroom"@);
        }
        if i == oc {
            assert(specs[i].room_name@ == "Courtyard"@);
        }
    }
}

} // verus!
