use ascii_adventure::common_components::{EntityId, GameError, Position};
use ascii_adventure::resources::RoomChanged;
use ascii_adventure::room_file::{room_specs_from_json, room_specs_from_text, Json};
use ascii_adventure::rooms::{is_player_on_exit, ExitArea, ExitEdge, Exits, RoomCommand};
use std::collections::BTreeSet;

const FILE: &str = r#"{
  "rooms": [
    {
      "room_name": "Courtyard",
      "room_data": "'.','▓',",
      "room_desc": "A courtyard.",
      "exits": [ { "edge": "NORTH", "next_room": "East Ballroom" }, { "next_room": "Courtyard" } ]
    },
    {
      "room_name": "East Ballroom",
      "room_data": "",
      "room_desc": "A ballroom.",
      "exits": [ { "edge": null, "next_room": "Courtyard", "note": 3 } ],
      "size": 12.5
    }
  ]
}"#;

#[test]
fn room_file_is_read_into_room_descriptions() {
    let specs = room_specs_from_text(FILE).unwrap();
    assert_eq!(specs.len(), 2);
    assert_eq!(specs[0].room_name, "Courtyard");
    assert_eq!(specs[0].room_data, "'.','▓',");
    assert_eq!(specs[0].room_desc, "A courtyard.");
    assert_eq!(specs[0].exits.len(), 2);
    assert_eq!(specs[0].exits[0].edge, Some("NORTH".to_string()));
    assert_eq!(specs[0].exits[0].next_room, "East Ballroom");
    assert_eq!(specs[0].exits[1].edge, None);
    assert_eq!(specs[1].exits[0].edge, None);
    assert_eq!(specs[1].exits[0].next_room, "Courtyard");
}

#[test]
fn text_that_is_not_json_is_malformed() {
    assert_eq!(room_specs_from_text("{ rooms: "), Err(GameError::MalformedRoomFile));
    assert_eq!(room_specs_from_text(""), Err(GameError::MalformedRoomFile));
}

#[test]
fn missing_or_wrong_fields_are_malformed() {
    let cases = [
        r#"{}"#,
        r#"{"rooms": {}}"#,
        r#"[1, 2]"#,
        r#"{"rooms": [ {"room_data": "", "room_desc": "", "exits": []} ]}"#,
        r#"{"rooms": [ {"room_name": 1, "room_data": "", "room_desc": "", "exits": []} ]}"#,
        r#"{"rooms": [ {"room_name": "A", "room_data": "", "room_desc": "", "exits": null} ]}"#,
        r#"{"rooms": [ {"room_name": "A", "room_data": "", "room_desc": "", "exits": [ {"edge": 1, "next_room": "A"} ]} ]}"#,
        r#"{"rooms": [ {"room_name": "A", "room_data": "", "room_desc": "", "exits": [ {"edge": "EAST"} ]} ]}"#,
    ];
    for c in cases {
        assert_eq!(room_specs_from_text(c), Err(GameError::MalformedRoomFile), "{}", c);
    }
}

#[test]
fn empty_room_list_is_no_rooms() {
    assert_eq!(room_specs_from_text(r#"{"rooms": []}"#).map(|v| v.len()), Ok(0));
}

#[test]
fn rooms_are_read_from_a_json_value() {
    let doc = Json::Object(vec![(
        "rooms".to_string(),
        Json::Array(vec![Json::Object(vec![
            ("room_name".to_string(), Json::String("Hall".to_string())),
            ("room_data".to_string(), Json::String("..".to_string())),
            ("room_desc".to_string(), Json::String("A hall.".to_string())),
            ("exits".to_string(), Json::Array(vec![])),
        ])]),
    )]);
    let specs = room_specs_from_json(&doc).unwrap();
    assert_eq!(specs[0].room_name, "Hall");
    assert!(specs[0].exits.is_empty());
    assert_eq!(room_specs_from_json(&Json::Number), Err(GameError::MalformedRoomFile));
}

fn apply(current: &mut BTreeSet<(u32, u32)>, cmds: &[RoomCommand]) {
    for c in cmds {
        match c {
            RoomCommand::Enter { room } => {
                current.insert((room.index, room.generation));
            }
            RoomCommand::Leave { room } => {
                current.remove(&(room.index, room.generation));
            }
        }
    }
}

#[test]
fn one_room_is_current_after_an_exit_law_on_values() {
    let cur = EntityId::from_raw(1);
    let exits = Exits {
        exits: vec![
            ExitArea { edge: ExitEdge::EAST, location: Position { x: 0, y: 0 }, exit_location: Position { x: 0, y: 0 }, next_room: EntityId::from_raw(2) },
            ExitArea { edge: ExitEdge::SOUTH, location: Position { x: 0, y: 0 }, exit_location: Position { x: 0, y: 0 }, next_room: EntityId::from_raw(3) },
        ],
    };
    for (start, expected) in [(Position { x: 5, y: 3 }, 3u32), (Position { x: 30, y: 10 }, 2), (Position { x: 5, y: 10 }, 1)] {
        let mut pos = start;
        let mut changed = RoomChanged { changed: false };
        let cmds = is_player_on_exit(&mut pos, &exits, cur, &mut changed);
        let mut current = BTreeSet::new();
        current.insert((1, 1));
        apply(&mut current, &cmds);
        assert_eq!(current.into_iter().collect::<Vec<_>>(), vec![(expected, 1)]);
    }
}
