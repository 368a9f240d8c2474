use ascii_adventure::common_components::{CardDir, CardinalDirection, DrawOp, GameError, Position, Renderable, TileColor};
use ascii_adventure::player::{
    handle_room_player_input, render_player, spawn_player, ButtonState, InputCommands, Key, KeyboardInput,
};
use ascii_adventure::resources::{setup, TypedInput};
use ascii_adventure::rooms::Room;

fn press(k: Key) -> KeyboardInput {
    KeyboardInput { logical_key: k, state: ButtonState::Pressed }
}

fn release(k: Key) -> KeyboardInput {
    KeyboardInput { logical_key: k, state: ButtonState::Released }
}

fn ch(s: &str) -> KeyboardInput {
    press(Key::Character(s.to_string()))
}

fn open_room() -> Room {
    Room { room_name: "Hall".to_string(), room_data: vec!['.'; 432], room_desc: String::new() }
}

struct Frame {
    pos: Position,
    facing: CardinalDirection,
    input: TypedInput,
}

fn frame(x: i32, y: i32, text: &str) -> Frame {
    Frame {
        pos: Position { x, y },
        facing: CardinalDirection { dir: CardDir::NORTH },
        input: TypedInput { input: text.to_string() },
    }
}

fn run(f: &mut Frame, keys: Vec<KeyboardInput>, room: &Room) -> Result<Option<ascii_adventure::player::InputCommandEvent>, GameError> {
    handle_room_player_input(&mut f.pos, &mut f.facing, &mut f.input, &keys, room)
}

#[test]
fn arrows_move_and_turn() {
    let room = open_room();
    let mut f = frame(5, 10, "");
    assert_eq!(run(&mut f, vec![press(Key::ArrowUp), press(Key::ArrowRight)], &room), Ok(None));
    assert_eq!(f.pos, Position { x: 6, y: 11 });
    assert_eq!(f.facing.dir, CardDir::EAST);
    run(&mut f, vec![press(Key::ArrowDown), press(Key::ArrowDown), press(Key::ArrowLeft)], &room).unwrap();
    assert_eq!(f.pos, Position { x: 5, y: 9 });
    assert_eq!(f.facing.dir, CardDir::WEST);
}

#[test]
fn released_keys_are_ignored() {
    let room = open_room();
    let mut f = frame(5, 10, "ab");
    run(&mut f, vec![release(Key::ArrowUp), release(Key::Backspace), release(Key::Enter)], &room).unwrap();
    assert_eq!(f.pos, Position { x: 5, y: 10 });
    assert_eq!(f.input.input, "ab");
}

#[test]
fn walls_stop_the_player_but_it_still_turns() {
    let mut room = open_room();
    room.room_data[(11 - 7) * 24 + 5] = '▓';
    let mut f = frame(5, 10, "");
    f.facing.dir = CardDir::WEST;
    run(&mut f, vec![press(Key::ArrowUp)], &room).unwrap();
    assert_eq!(f.pos, Position { x: 5, y: 10 });
    assert_eq!(f.facing.dir, CardDir::NORTH);
}

#[test]
fn only_the_final_cell_is_checked() {
    let mut room = open_room();
    room.room_data[(11 - 7) * 24 + 5] = '▓';
    let mut f = frame(5, 10, "");
    run(&mut f, vec![press(Key::ArrowUp), press(Key::ArrowUp)], &room).unwrap();
    assert_eq!(f.pos, Position { x: 5, y: 12 });
}

#[test]
fn typing_and_enter_gives_a_command() {
    let room = open_room();
    let mut f = frame(5, 10, "");
    let keys = vec![ch("d"), ch("r"), ch("o"), ch("p"), press(Key::Space), ch("g"), ch("e"), ch("m"), press(Key::Enter)];
    let ev = run(&mut f, keys, &room).unwrap().unwrap();
    assert_eq!(ev.command, InputCommands::DROP_ITEM);
    assert_eq!(ev.data, "gem");
    assert_eq!(f.input.input, "");
}

#[test]
fn enter_reads_the_text_after_all_keys_of_the_frame() {
    let room = open_room();
    let mut f = frame(5, 10, "in");
    let ev = run(&mut f, vec![press(Key::Enter), ch("v")], &room).unwrap().unwrap();
    assert_eq!(ev.command, InputCommands::LIST_INVENTORY);
}

#[test]
fn enter_on_nonsense_is_invalid() {
    let room = open_room();
    let mut f = frame(5, 10, "xyz");
    let ev = run(&mut f, vec![press(Key::Enter)], &room).unwrap().unwrap();
    assert_eq!(ev.command, InputCommands::INVALID_INPUT);
}

#[test]
fn backspace_deletes_last_character() {
    let room = open_room();
    let mut f = frame(5, 10, "abé");
    run(&mut f, vec![press(Key::Backspace)], &room).unwrap();
    assert_eq!(f.input.input, "ab");
    let mut g = frame(5, 10, "");
    run(&mut g, vec![press(Key::Backspace)], &room).unwrap();
    assert_eq!(g.input.input, "");
}

#[test]
fn space_then_backspace_law_on_values() {
    let room = open_room();
    let mut f = frame(5, 10, "drop");
    run(&mut f, vec![press(Key::Space), press(Key::Backspace)], &room).unwrap();
    assert_eq!(f.input.input, "drop");
    run(&mut f, vec![ch("x"), press(Key::Backspace)], &room).unwrap();
    assert_eq!(f.input.input, "drop");
}

#[test]
fn characters_stop_at_fourteen_bytes() {
    let room = open_room();
    let mut f = frame(5, 10, "abcdefghijklm");
    run(&mut f, vec![ch("n"), ch("o"), ch("p")], &room).unwrap();
    assert_eq!(f.input.input, "abcdefghijklmn");
    // multi-byte characters count by their bytes
    let mut g = frame(5, 10, "éééééé");
    run(&mut g, vec![ch("é"), ch("é")], &room).unwrap();
    assert_eq!(g.input.input, "ééééééé");
    // space is not capped
    run(&mut g, vec![press(Key::Space)], &room).unwrap();
    assert_eq!(g.input.input, "ééééééé ");
    // a key that types several characters is added whole while there is room
    let mut h = frame(5, 10, "abcdefghijklm");
    run(&mut h, vec![ch("xyz")], &room).unwrap();
    assert_eq!(h.input.input, "abcdefghijklmxyz");
}

#[test]
fn other_keys_do_nothing() {
    let room = open_room();
    let mut f = frame(5, 10, "a");
    assert_eq!(run(&mut f, vec![press(Key::Other)], &room), Ok(None));
    assert_eq!(f.input.input, "a");
    assert_eq!(f.pos, Position { x: 5, y: 10 });
}

#[test]
fn off_board_moves_are_allowed() {
    let room = open_room();
    let mut f = frame(0, 7, "");
    run(&mut f, vec![press(Key::ArrowLeft)], &room).unwrap();
    assert_eq!(f.pos, Position { x: -1, y: 7 });
    run(&mut f, vec![press(Key::ArrowRight), press(Key::ArrowDown)], &room).unwrap();
    assert_eq!(f.pos, Position { x: 0, y: 6 });
}

#[test]
fn overflowing_coordinates_are_errors() {
    let room = open_room();
    let mut f = frame(i32::MAX, 10, "ab");
    assert_eq!(run(&mut f, vec![press(Key::ArrowRight)], &room), Err(GameError::CoordinateOverflow));
    assert_eq!(f.pos, Position { x: i32::MAX, y: 10 });
    let mut g = frame(0, i32::MIN + 3, "");
    assert_eq!(run(&mut g, vec![], &room), Err(GameError::CoordinateOverflow));
}

#[test]
fn short_room_data_is_an_error_on_the_board() {
    let room = Room { room_name: String::new(), room_data: vec!['.'; 10], room_desc: String::new() };
    let mut f = frame(5, 7, "");
    assert_eq!(run(&mut f, vec![], &room), Ok(None));
    let mut g = frame(5, 8, "");
    assert_eq!(run(&mut g, vec![], &room), Err(GameError::TileOutOfRange));
}

#[test]
fn spawned_player() {
    let b = spawn_player();
    assert_eq!(b.pos, Position { x: 5, y: 10 });
    assert_eq!(b.visual, Renderable { glyph: '♣', fg: TileColor::Fore, bg: TileColor::Black });
    assert!(b.inventory.inventory.is_empty());
    assert_eq!(b.facing.dir, CardDir::NORTH);
}

#[test]
fn player_is_drawn_only_on_the_board() {
    let v = Renderable { glyph: '♣', fg: TileColor::Fore, bg: TileColor::Black };
    assert_eq!(
        render_player(&v, Position { x: 5, y: 10 }),
        vec![DrawOp::PutChar { x: 5, y: 10, glyph: '♣', fg: Some(TileColor::Fore), bg: Some(TileColor::Black) }]
    );
    assert!(render_player(&v, Position { x: 5, y: 6 }).is_empty());
    assert!(render_player(&v, Position { x: 24, y: 10 }).is_empty());
    assert!(render_player(&v, Position { x: 5, y: 25 }).is_empty());
    assert_eq!(render_player(&v, Position { x: 23, y: 24 }).len(), 1);
}

#[test]
fn start_up_state() {
    let (input, log, changed) = setup();
    assert_eq!(input.input, "");
    assert!(log.messages.is_empty());
    assert!(changed.changed);
}
