use ascii_adventure::player::{InputCommandEvent, InputCommands};
use ascii_adventure::resources::{MessageEntry, MessageLog, RoomChanged, TypedInput};
use ascii_adventure::status_area::{
    find_space, handle_player_typed_input, record_invalid_inputs, render_messages,
    render_typed_input,
};
use ascii_adventure::common_components::{DrawOp, TileColor};

fn parse(s: &str) -> InputCommandEvent {
    handle_player_typed_input(s.to_string())
}

#[test]
fn inv_lists_inventory() {
    let e = parse("inv");
    assert_eq!(e.command, InputCommands::LIST_INVENTORY);
    assert_eq!(e.data, "");
}

#[test]
fn inventory_in_capitals_lists_inventory() {
    let e = parse("INVENTORY");
    assert_eq!(e.command, InputCommands::LIST_INVENTORY);
    assert_eq!(e.data, "");
}

#[test]
fn drop_with_argument_drops() {
    let e = parse("drop sword");
    assert_eq!(e.command, InputCommands::DROP_ITEM);
    assert_eq!(e.data, "sword");
}

#[test]
fn drop_argument_keeps_its_case_and_later_spaces() {
    let e = parse("DrOp Big  Gem");
    assert_eq!(e.command, InputCommands::DROP_ITEM);
    assert_eq!(e.data, "Big  Gem");
}

#[test]
fn drop_without_space_is_invalid() {
    let e = parse("drop");
    assert_eq!(e.command, InputCommands::INVALID_INPUT);
    assert_eq!(e.data, "");
}

#[test]
fn dropsword_without_space_is_invalid() {
    let e = parse("dropsword");
    assert_eq!(e.command, InputCommands::INVALID_INPUT);
}

#[test]
fn drop_with_trailing_space_drops_nothing_named() {
    let e = parse("drop ");
    assert_eq!(e.command, InputCommands::DROP_ITEM);
    assert_eq!(e.data, "");
}

#[test]
fn unknown_command_is_invalid() {
    assert_eq!(parse("look").command, InputCommands::INVALID_INPUT);
    assert_eq!(parse("").command, InputCommands::INVALID_INPUT);
    assert_eq!(parse(" inv").command, InputCommands::INVALID_INPUT);
}

#[test]
fn drop_round_trip_law_on_values() {
    for name in ["sword", "GEM", "", "a b c", "é"] {
        let e = parse(&format!("drop {}", name));
        assert_eq!(e.command, InputCommands::DROP_ITEM);
        assert_eq!(e.data, name);
    }
}

#[test]
fn command_ignores_case_law_on_values() {
    for s in ["Inv", "iNV x", "DROP gem", "Drop", "hello"] {
        assert_eq!(parse(s).command, parse(&s.to_ascii_lowercase()).command);
        assert_eq!(parse(s).command, parse(&s.to_ascii_uppercase()).command);
    }
}

#[test]
fn find_space_finds_first_space() {
    assert_eq!(find_space("ab cd ef"), Some(2));
    assert_eq!(find_space("abc"), None);
    assert_eq!(find_space("é é"), Some(1));
}

#[test]
fn typed_input_prompt() {
    let ops = render_typed_input(&TypedInput { input: "drop".to_string() });
    assert_eq!(
        ops,
        vec![
            DrawOp::ClearBox { x: 26, y: 2, width: 14, height: 2 },
            DrawOp::PutChar { x: 25, y: 2, glyph: '?', fg: Some(TileColor::Fore), bg: None },
            DrawOp::PutString { x: 26, y: 2, text: "drop".to_string(), fg: Some(TileColor::Fore), bg: None },
        ]
    );
}

#[test]
fn invalid_commands_are_logged() {
    let mut log = MessageLog { messages: vec![MessageEntry { msg: "old".to_string() }] };
    let events = vec![
        InputCommandEvent { command: InputCommands::INVALID_INPUT, data: String::new() },
        InputCommandEvent { command: InputCommands::LIST_INVENTORY, data: String::new() },
        InputCommandEvent { command: InputCommands::INVALID_INPUT, data: String::new() },
    ];
    let added = record_invalid_inputs(&events, &mut log);
    assert_eq!(added, 2);
    let texts: Vec<&str> = log.messages.iter().map(|m| m.msg.as_str()).collect();
    assert_eq!(texts, vec!["old", "What???", "What???"]);
}

#[test]
fn messages_drawn_while_shown() {
    let log = MessageLog {
        messages: vec![MessageEntry { msg: "What???".to_string() }, MessageEntry { msg: "Hi".to_string() }],
    };
    let ops = render_messages(&RoomChanged { changed: true }, &log, &vec![true, false]);
    assert_eq!(
        ops,
        vec![
            DrawOp::ClearBox { x: 26, y: 0, width: 40, height: 25 },
            DrawOp::ClearBox { x: 26, y: 0, width: 14, height: 1 },
            DrawOp::PutString {
                x: 26,
                y: 0,
                text: "Hi".to_string(),
                fg: Some(TileColor::Fore),
                bg: Some(TileColor::Black),
            },
        ]
    );
    let ops = render_messages(&RoomChanged { changed: false }, &log, &vec![false, true]);
    assert_eq!(ops.len(), 2);
    assert_eq!(
        ops[0],
        DrawOp::PutString {
            x: 26,
            y: 0,
            text: "What???".to_string(),
            fg: Some(TileColor::Fore),
            bg: Some(TileColor::Black),
        }
    );
}
