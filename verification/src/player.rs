//! The player: spawning, drawing, and what the keyboard does to it.
use vstd::prelude::*;
use crate::common_components::{
    draw_views, CardDir, CardinalDirection, DrawOp, DrawView, GameError, Position, Renderable,
    TileColor,
};
use crate::inventory::{fits_i32, Inventory};
use crate::resources::TypedInput;
use crate::rooms::{can_enter_space, enterable, on_board, tile_index, Room};
use crate::status_area::{handle_player_typed_input, typed_command, typed_data};
use crate::text::string_pop;
use crate::{GAMEBOARD_HEIGHT, GAMEBOARD_WIDTH, GAME_HEIGHT};
use vstd::string::StringExecFns;
use vstd::utf8::encode_utf8;

verus! {

/// What a typed command asks for.
#[allow(non_camel_case_types)]
#[derive(Clone, Copy, Debug, PartialEq, Eq, Structural)]
pub enum InputCommands {
    LIST_INVENTORY,
    INVALID_INPUT,
    DROP_ITEM,
}

/// A typed command together with its argument.
#[derive(Clone, Debug, PartialEq, Eq)]
pub struct InputCommandEvent {
    pub command: InputCommands,
    pub data: String,
}

/// Marks the player entity.
#[derive(Clone, Copy, Debug, PartialEq, Eq, Structural)]
pub struct Player;

/// The components the player entity is made of.
#[derive(Clone, Debug, PartialEq, Eq)]
pub struct PlayerBundle {
    pub pos: Position,
    pub visual: Renderable,
    pub player: Player,
    pub inventory: Inventory,
    pub facing: CardinalDirection,
}

/// The player as it enters the game: at (5, 10), drawn as a grey club on
/// black, facing north, with an empty inventory.
pub fn spawn_player() -> (b: PlayerBundle)
    ensures
        b.pos == (Position { x: 5, y: 10 }),
        b.visual == (Renderable { glyph: '♣', fg: TileColor::Fore, bg: TileColor::Black }),
        b.inventory.inventory@.len() == 0,
        b.facing == (CardinalDirection { dir: CardDir::NORTH }),
{
    PlayerBundle {
        pos: Position { x: 5, y: 10 },
        visual: Renderable { glyph: '♣', fg: TileColor::Fore, bg: TileColor::Black },
        player: Player,
        inventory: Inventory { inventory: Vec::new() },
        facing: CardinalDirection { dir: CardDir::NORTH },
    }
}

/// The screen cell `p` lies on the board.
pub open spec fn on_screen_board(p: Position) -> bool {
    0 <= p.x <= GAMEBOARD_WIDTH - 1 && GAME_HEIGHT - GAMEBOARD_HEIGHT <= p.y <= GAME_HEIGHT - 1
}

/// Draws the player where it stands, when that is on the board.
pub fn render_player(visual: &Renderable, pos: Position) -> (ops: Vec<DrawOp>)
    ensures
        !on_screen_board(pos) ==> ops@.len() == 0,
        on_screen_board(pos) ==> draw_views(ops@) == seq![
            DrawView::PutChar {
                x: pos.x,
                y: pos.y,
                glyph: visual.glyph,
                fg: Some(visual.fg),
                bg: Some(visual.bg),
            },
        ],
{
    let mut ops: Vec<DrawOp> = Vec::new();
    if pos.x < 0 || pos.x > GAMEBOARD_WIDTH - 1 || pos.y < GAME_HEIGHT - GAMEBOARD_HEIGHT || pos.y
        > GAME_HEIGHT - 1 {
        return ops;
    }
    ops.push(
        DrawOp::PutChar {
            x: pos.x,
            y: pos.y,
            glyph: visual.glyph,
            fg: Some(visual.fg),
            bg: Some(visual.bg),
        },
    );
    assert(draw_views(ops@) =~= seq![
        DrawView::PutChar {
            x: pos.x,
            y: pos.y,
            glyph: visual.glyph,
            fg: Some(visual.fg),
            bg: Some(visual.bg),
        },
    ]);
    ops
}

/// Whether a key went down or came up.
#[derive(Clone, Copy, Debug, PartialEq, Eq, Structural)]
pub enum ButtonState {
    Pressed,
    Released,
}

/// The keys the game reacts to; `Character` carries the text the key types.
#[derive(Clone, Debug, PartialEq, Eq)]
pub enum Key {
    ArrowUp,
    ArrowDown,
    ArrowLeft,
    ArrowRight,
    Enter,
    Backspace,
    Space,
    Character(String),
    Other,
}

/// One keyboard event.
#[derive(Clone, Debug, PartialEq, Eq)]
pub struct KeyboardInput {
    pub logical_key: Key,
    pub state: ButtonState,
}

/// The length in bytes of a text with characters `input`, as `str::len`
/// gives it.
pub open spec fn byte_length(input: Seq<char>) -> usize {
    encode_utf8(input).len() as usize
}

/// The typed text may still grow: it is shorter than 14 bytes.
pub open spec fn room_to_type(input: Seq<char>) -> bool {
    byte_length(input) < 14
}

/// What a frame of keyboard events has done so far: the cell the player
/// heads for, the way it faces, the typed text, whether Enter was pressed,
/// and whether a coordinate left the range of `i32`.
pub struct KeyState {
    pub x: int,
    pub y: int,
    pub dir: CardDir,
    pub input: Seq<char>,
    pub enter: bool,
    pub overflow: bool,
}

/// What the keyboard event `k` does to `st`.
pub open spec fn key_step(st: KeyState, k: KeyboardInput) -> KeyState {
    if st.overflow || k.state == ButtonState::Released {
        st
    } else {
        match k.logical_key {
            Key::ArrowUp => KeyState { y: st.y + 1, dir: CardDir::NORTH, overflow: !fits_i32(st.y + 1), ..st },
            Key::ArrowDown => KeyState { y: st.y - 1, dir: CardDir::SOUTH, overflow: !fits_i32(st.y - 1), ..st },
            Key::ArrowLeft => KeyState { x: st.x - 1, dir: CardDir::WEST, overflow: !fits_i32(st.x - 1), ..st },
            Key::ArrowRight => KeyState { x: st.x + 1, dir: CardDir::EAST, overflow: !fits_i32(st.x + 1), ..st },
            Key::Enter => KeyState { enter: true, ..st },
            Key::Backspace => KeyState {
                input: if st.input.len() > 0 { st.input.drop_last() } else { st.input },
                ..st
            },
            Key::Space => KeyState { input: st.input.push(' '), ..st },
            Key::Character(s) => if room_to_type(st.input) {
                KeyState { input: st.input + s@, ..st }
            } else {
                st
            },
            Key::Other => st,
        }
    }
}

/// What the keyboard events `keys` do, in order, to `st`.
pub open spec fn keys_state(st: KeyState, keys: Seq<KeyboardInput>) -> KeyState
    decreases keys.len(),
{
    if keys.len() == 0 {
        st
    } else {
        key_step(keys_state(st, keys.drop_last()), keys.last())
    }
}

/// The state before any keyboard event of a frame.
pub open spec fn start_state(pos: Position, dir: CardDir, input: Seq<char>) -> KeyState {
    KeyState { x: pos.x as int, y: pos.y as int, dir, input, enter: false, overflow: false }
}

/// The board cell of the screen cell (`x`, `y`).
pub open spec fn board_cell(x: int, y: int) -> Position {
    Position { x: x as i32, y: (y - (GAME_HEIGHT - GAMEBOARD_HEIGHT)) as i32 }
}

/// Once a coordinate has left the range of `i32`, later events change
/// nothing.
proof fn lemma_overflow_sticks(st: KeyState, keys: Seq<KeyboardInput>, i: int)
    requires
        0 <= i <= keys.len(),
        keys_state(st, keys.take(i)).overflow,
    ensures
        keys_state(st, keys) == keys_state(st, keys.take(i)),
    decreases keys.len() - i,
{
    if i < keys.len() {
        assert(keys.take(i + 1).drop_last() =~= keys.take(i));
        lemma_overflow_sticks(st, keys, i + 1);
    } else {
        assert(keys.take(i) =~= keys);
    }
}

/// The state after the first `i + 1` events, from the state after the first
/// `i`.
proof fn lemma_keys_step(st: KeyState, keys: Seq<KeyboardInput>, i: int)
    requires
        0 <= i < keys.len(),
    ensures
        keys_state(st, keys.take(i + 1)) == key_step(keys_state(st, keys.take(i)), keys[i]),
{
    assert(keys.take(i + 1).drop_last() =~= keys.take(i));
}

/// Applies one keyboard event to the frame state held in `x`, `y`, `dir`,
/// `input` and `enter`; false when a coordinate would leave the range of
/// `i32`.
fn apply_key(
    x: &mut i32,
    y: &mut i32,
    dir: &mut CardDir,
    input: &mut String,
    enter: &mut bool,
    k: &KeyboardInput,
) -> (ok: bool)
    ensures
        ({
            let before = KeyState {
                x: *old(x) as int,
                y: *old(y) as int,
                dir: *old(dir),
                input: old(input)@,
                enter: *old(enter),
                overflow: false,
            };
            let after = key_step(before, *k);
            &&& ok == !after.overflow
            &&& ok ==> after == (KeyState {
                x: *final(x) as int,
                y: *final(y) as int,
                dir: *final(dir),
                input: final(input)@,
                enter: *final(enter),
                overflow: false,
            })
        }),
{
    if k.state == ButtonState::Released {
        return true;
    }
    match &k.logical_key {
        Key::ArrowUp => match y.checked_add(1) {
            Some(v) => {
                *y = v;
                *dir = CardDir::NORTH;
                true
            },
            None => false,
        },
        Key::ArrowDown => match y.checked_sub(1) {
            Some(v) => {
                *y = v;
                *dir = CardDir::SOUTH;
                true
            },
            None => false,
        },
        Key::ArrowLeft => match x.checked_sub(1) {
            Some(v) => {
                *x = v;
                *dir = CardDir::WEST;
                true
            },
            None => false,
        },
        Key::ArrowRight => match x.checked_add(1) {
            Some(v) => {
                *x = v;
                *dir = CardDir::EAST;
                true
            },
            None => false,
        },
        Key::Enter => {
            *enter = true;
            true
        },
        Key::Backspace => {
            string_pop(input);
            true
        },
        Key::Space => {
            proof {
                reveal_strlit(" ");
            }
            let ghost before = input@;
            input.append(" ");
            assert(input@ =~= before.push(' '));
            true
        },
        Key::Character(typed) => {
            if input.as_str().len() < 14 {
                input.append(typed.as_str());
            }
            true
        },
        Key::Other => true,
    }
}

/// The error, if any, of a frame whose keyboard events end in `st` in a room
/// with tiles `data`: a coordinate out of the range of `i32`, or a board cell
/// the room has no tile for.
pub open spec fn move_error(st: KeyState, data: Seq<char>) -> Option<GameError> {
    if st.overflow || !fits_i32(st.y - (GAME_HEIGHT - GAMEBOARD_HEIGHT)) {
        Some(GameError::CoordinateOverflow)
    } else if on_board(board_cell(st.x, st.y)) && tile_index(board_cell(st.x, st.y)) >= data.len() {
        Some(GameError::TileOutOfRange)
    } else {
        None
    }
}

/// Applies a frame of keyboard events. The arrow keys move the player one cell
/// and turn it that way, Space and the character keys type (a character key
/// only while the text is shorter than 14 bytes), Backspace deletes the last
/// typed character, and Enter reads the typed text as a command and clears
/// it. The player moves to the cell it headed for only if it may stand there;
/// it keeps the direction it turned to either way.
pub fn handle_room_player_input(
    position: &mut Position,
    facing: &mut CardinalDirection,
    input_string: &mut TypedInput,
    keys: &Vec<KeyboardInput>,
    room: &Room,
) -> (r: Result<Option<InputCommandEvent>, GameError>)
    ensures
        ({
            let st = keys_state(
                start_state(*old(position), old(facing).dir, old(input_string).input@),
                keys@,
            );
            let err = move_error(st, room.room_data@);
            &&& (r is Err <==> err is Some)
            &&& (r matches Err(e) ==> err == Some(e))
            &&& (r is Err ==> {
                &&& *final(position) == *old(position)
                &&& *final(facing) == *old(facing)
                &&& *final(input_string) == *old(input_string)
            })
            &&& (r matches Ok(ev) ==> {
                &&& final(facing).dir == st.dir
                &&& final(input_string).input@ == if st.enter { Seq::empty() } else { st.input }
                &&& (ev is Some <==> st.enter)
                &&& (ev matches Some(e) ==> e.command == typed_command(st.input) && e.data@
                    == typed_data(st.input))
                &&& *final(position) == if enterable(board_cell(st.x, st.y), room.room_data@) {
                    Position { x: st.x as i32, y: st.y as i32 }
                } else {
                    *old(position)
                }
            })
        }),
{
    let ghost st0 = start_state(*position, facing.dir, input_string.input@);
    let mut x: i32 = position.x;
    let mut y: i32 = position.y;
    let mut dir = facing.dir;
    let mut input = input_string.input.clone();
    let mut enter = false;
    let n = keys.len();
    for i in 0..n
        invariant
            n == keys@.len(),
            st0 == start_state(*old(position), old(facing).dir, old(input_string).input@),
            *position == *old(position),
            *facing == *old(facing),
            *input_string == *old(input_string),
            keys_state(st0, keys@.take(i as int)) == (KeyState {
                x: x as int,
                y: y as int,
                dir,
                input: input@,
                enter,
                overflow: false,
            }),
    {
        let ghost prev = keys@.take(i as int);
        proof {
            lemma_keys_step(st0, keys@, i as int);
        }
        let k = &keys[i];
        let ok = apply_key(&mut x, &mut y, &mut dir, &mut input, &mut enter, k);
        if !ok {
            proof {
                lemma_overflow_sticks(st0, keys@, i + 1);
            }
            return Err(GameError::CoordinateOverflow);
        }
    }
    assert(keys@.take(n as int) =~= keys@);
    let by = match y.checked_sub(GAME_HEIGHT - GAMEBOARD_HEIGHT) {
        Some(v) => v,
        None => {
            return Err(GameError::CoordinateOverflow);
        },
    };
    let cell = Position { x, y: by };
    if 0 <= x && x < GAMEBOARD_WIDTH && 0 <= by && by < GAMEBOARD_HEIGHT {
        let idx: usize = (by * GAMEBOARD_WIDTH + x) as usize;
        if idx >= room.room_data.len() {
            return Err(GameError::TileOutOfRange);
        }
    }
    let ev = if enter {
        let e = handle_player_typed_input(input.clone());
        input = String::new();
        Some(e)
    } else {
        None
    };
    if can_enter_space(cell, room) {
        *position = Position { x, y };
    }
    *facing = CardinalDirection { dir };
    input_string.input = input;
    Ok(ev)
}

/// A key going down.
pub open spec fn pressed(k: Key) -> KeyboardInput {
    KeyboardInput { logical_key: k, state: ButtonState::Pressed }
}

/// Typing a space and deleting it leaves the typed text as it was.
pub proof fn lemma_space_then_backspace(st: KeyState)
    ensures
        key_step(key_step(st, pressed(Key::Space)), pressed(Key::Backspace)).input == st.input,
{
    if !st.overflow {
        assert(st.input.push(' ').drop_last() =~= st.input);
    }
}

/// Typing one character while there is room to type, and deleting it, leaves
/// the typed text as it was.
pub proof fn lemma_character_then_backspace(st: KeyState, c: String)
    requires
        c@.len() == 1,
        room_to_type(st.input),
    ensures
        key_step(key_step(st, pressed(Key::Character(c))), pressed(Key::Backspace)).input == st.input,
{
    if !st.overflow {
        assert((st.input + c@).drop_last() =~= st.input);
    }
}

/// Once the typed text is 14 bytes long or longer, character keys add
/// nothing to it.
pub proof fn lemma_characters_stop_at_cap(st: KeyState, keys: Seq<KeyboardInput>)
    requires
        !room_to_type(st.input),
        forall|i: int| 0 <= i < keys.len() ==> #[trigger] keys[i].logical_key is Character,
    ensures
        keys_state(st, keys).input == st.input,
    decreases keys.len(),
{
    if keys.len() > 0 {
        let q = keys.drop_last();
        assert forall|i: int| 0 <= i < q.len() implies #[trigger] q[i].logical_key is Character by {
            assert(q[i] == keys[i]);
        }
        lemma_characters_stop_at_cap(st, q);
        assert(keys[keys.len() - 1].logical_key is Character);
    }
}

/// While no coordinate has left the range of `i32`, the cell the player
/// heads for lies in that range.
proof fn lemma_state_fits(pos: Position, dir: CardDir, input: Seq<char>, keys: Seq<KeyboardInput>)
    ensures
        !keys_state(start_state(pos, dir, input), keys).overflow ==> fits_i32(
            keys_state(start_state(pos, dir, input), keys).x,
        ) && fits_i32(keys_state(start_state(pos, dir, input), keys).y),
    decreases keys.len(),
{
    if keys.len() > 0 {
        lemma_state_fits(pos, dir, input, keys.drop_last());
    }
}

/// The player never ends a frame inside a wall: if it could stand where it
/// was, it can stand where it is after the frame.
pub proof fn lemma_never_into_wall(
    pos: Position,
    dir: CardDir,
    input: Seq<char>,
    keys: Seq<KeyboardInput>,
    data: Seq<char>,
)
    requires
        move_error(keys_state(start_state(pos, dir, input), keys), data) is None,
        enterable(board_cell(pos.x as int, pos.y as int), data),
    ensures
        ({
            let st = keys_state(start_state(pos, dir, input), keys);
            let after = if enterable(board_cell(st.x, st.y), data) {
                Position { x: st.x as i32, y: st.y as i32 }
            } else {
                pos
            };
            enterable(board_cell(after.x as int, after.y as int), data)
        }),
{
    lemma_state_fits(pos, dir, input, keys);
}

/// The number of events of `keys` that press the key `k`.
pub open spec fn presses(keys: Seq<KeyboardInput>, k: Key) -> int
    decreases keys.len(),
{
    if keys.len() == 0 {
        0
    } else {
        presses(keys.drop_last(), k) + if keys.last() == pressed(k) {
            1int
        } else {
            0int
        }
    }
}

/// The direction an arrow key points to: up is north.
pub open spec fn arrow_facing(k: Key) -> Option<CardDir> {
    match k {
        Key::ArrowUp => Some(CardDir::NORTH),
        Key::ArrowDown => Some(CardDir::SOUTH),
        Key::ArrowLeft => Some(CardDir::WEST),
        Key::ArrowRight => Some(CardDir::EAST),
        _ => None,
    }
}

/// The event `e` presses an arrow key.
pub open spec fn presses_arrow(e: KeyboardInput) -> bool {
    e.state == ButtonState::Pressed && arrow_facing(e.logical_key) is Some
}

/// A frame in which no coordinate leaves the range of `i32` started in no
/// such state either, event by event.
proof fn lemma_no_overflow_before(st: KeyState, keys: Seq<KeyboardInput>)
    requires
        keys.len() > 0,
        !keys_state(st, keys).overflow,
    ensures
        !keys_state(st, keys.drop_last()).overflow,
{
}

/// The player heads for the cell that its arrow keys add up to: one cell right
/// per Right, left per Left, up per Up and down per Down, in any order.
pub proof fn lemma_arrows_add_up(st: KeyState, keys: Seq<KeyboardInput>)
    requires
        !keys_state(st, keys).overflow,
    ensures
        keys_state(st, keys).x == st.x + presses(keys, Key::ArrowRight) - presses(keys, Key::ArrowLeft),
        keys_state(st, keys).y == st.y + presses(keys, Key::ArrowUp) - presses(keys, Key::ArrowDown),
    decreases keys.len(),
{
    if keys.len() > 0 {
        lemma_no_overflow_before(st, keys);
        lemma_arrows_add_up(st, keys.drop_last());
    }
}

/// The player faces the way of the last arrow key pressed in the frame, or,
/// when none was pressed, the way it faced before.
pub proof fn lemma_faces_last_arrow(st: KeyState, keys: Seq<KeyboardInput>)
    requires
        !keys_state(st, keys).overflow,
    ensures
        (forall|i: int| 0 <= i < keys.len() ==> !presses_arrow(#[trigger] keys[i])) ==> keys_state(st, keys).dir
            == st.dir,
        forall|m: int|
            0 <= m < keys.len() && presses_arrow(#[trigger] keys[m]) && (forall|j: int|
                m < j < keys.len() ==> !presses_arrow(#[trigger] keys[j])) ==> keys_state(st, keys).dir
                == arrow_facing(keys[m].logical_key)->0,
    decreases keys.len(),
{
    if keys.len() > 0 {
        let q = keys.drop_last();
        let n = keys.len() - 1;
        lemma_no_overflow_before(st, keys);
        lemma_faces_last_arrow(st, q);
        assert(forall|i: int| 0 <= i < q.len() ==> q[i] == keys[i]);
        assert(keys.last() == keys[n]);
        if !presses_arrow(keys[n]) {
            assert(keys_state(st, keys).dir == keys_state(st, q).dir);
            assert forall|m: int|
                0 <= m < keys.len() && presses_arrow(#[trigger] keys[m]) && (forall|j: int|
                    m < j < keys.len() ==> !presses_arrow(#[trigger] keys[j])) implies keys_state(st, keys).dir
                == arrow_facing(keys[m].logical_key)->0 by {
                assert(m < n);
                assert(presses_arrow(q[m]));
                assert(forall|j: int| m < j < q.len() ==> !presses_arrow(#[trigger] q[j]));
            }
            if forall|i: int| 0 <= i < keys.len() ==> !presses_arrow(#[trigger] keys[i]) {
                assert(forall|i: int| 0 <= i < q.len() ==> !presses_arrow(#[trigger] q[i]));
            }
        } else {
            assert forall|m: int|
                0 <= m < keys.len() && presses_arrow(#[trigger] keys[m]) && (forall|j: int|
                    m < j < keys.len() ==> !presses_arrow(#[trigger] keys[j])) implies keys_state(st, keys).dir
                == arrow_facing(keys[m].logical_key)->0 by {
                if m < n {
                    assert(!presses_arrow(keys[n]));
                }
            }
        }
    }
}

/// Enter was pressed in the frame exactly when some event of it presses
/// Enter (or it had been pressed before); no other key reads the command.
pub proof fn lemma_enter_reads_command(st: KeyState, keys: Seq<KeyboardInput>)
    requires
        !keys_state(st, keys).overflow,
    ensures
        keys_state(st, keys).enter == (st.enter || exists|i: int|
            0 <= i < keys.len() && #[trigger] keys[i] == pressed(Key::Enter)),
    decreases keys.len(),
{
    if keys.len() > 0 {
        let q = keys.drop_last();
        let n = keys.len() - 1;
        lemma_no_overflow_before(st, keys);
        lemma_enter_reads_command(st, q);
        assert(keys.last() == keys[n]);
        if exists|i: int| 0 <= i < q.len() && #[trigger] q[i] == pressed(Key::Enter) {
            let i = choose|i: int| 0 <= i < q.len() && #[trigger] q[i] == pressed(Key::Enter);
            assert(keys[i] == q[i]);
        }
        if exists|i: int| 0 <= i < keys.len() && #[trigger] keys[i] == pressed(Key::Enter) {
            let i = choose|i: int| 0 <= i < keys.len() && #[trigger] keys[i] == pressed(Key::Enter);
            if i < n {
                assert(q[i] == keys[i]);
            }
        }
    }
}

/// An arrow key moves the player one cell its own way: up and down change only
/// the row, left and right only the column, and each turns the player to face
/// the way it moved.
pub proof fn lemma_arrow_moves_its_way(st: KeyState)
    requires
        !st.overflow,
    ensures
        ({
            let a = key_step(st, pressed(Key::ArrowUp));
            !a.overflow ==> a.x == st.x && a.y == st.y + 1 && a.dir == CardDir::NORTH
        }),
        ({
            let a = key_step(st, pressed(Key::ArrowDown));
            !a.overflow ==> a.x == st.x && a.y == st.y - 1 && a.dir == CardDir::SOUTH
        }),
        ({
            let a = key_step(st, pressed(Key::ArrowLeft));
            !a.overflow ==> a.x == st.x - 1 && a.y == st.y && a.dir == CardDir::WEST
        }),
        ({
            let a = key_step(st, pressed(Key::ArrowRight));
            !a.overflow ==> a.x == st.x + 1 && a.y == st.y && a.dir == CardDir::EAST
        }),
{
}

} // verus!
