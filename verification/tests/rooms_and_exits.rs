use ascii_adventure::common_components::{DrawOp, EntityId, GameError, Position, TileColor};
use ascii_adventure::inventory::InventoryItem;
use ascii_adventure::resources::RoomChanged;
use ascii_adventure::rooms::{
    build_exits, build_room, can_enter_space, check_exits, check_room_names, find_owner, is_player_on_exit, load_rooms,
    render_room, starting_items, ExitArea, ExitEdge, ExitSpec, Exits, Room, RoomCommand, RoomSpec,
};

fn open_room() -> Room {
    Room { room_name: "Hall".to_string(), room_data: vec!['.'; 432], room_desc: "A hall.".to_string() }
}

fn id(i: u32) -> EntityId {
    EntityId::from_raw(i)
}

fn exit(edge: ExitEdge, to: u32) -> ExitArea {
    ExitArea { edge, location: Position { x: 0, y: 0 }, exit_location: Position { x: 0, y: 0 }, next_room: id(to) }
}

#[test]
fn walls_block_and_floor_allows() {
    let mut room = open_room();
    room.room_data[2 * 24 + 3] = '▓';
    assert!(!can_enter_space(Position { x: 3, y: 2 }, &room));
    assert!(can_enter_space(Position { x: 4, y: 2 }, &room));
    assert!(can_enter_space(Position { x: 23, y: 17 }, &room));
}

#[test]
fn off_board_is_always_enterable() {
    let room = Room { room_name: String::new(), room_data: vec!['▓'; 432], room_desc: String::new() };
    assert!(can_enter_space(Position { x: -1, y: 0 }, &room));
    assert!(can_enter_space(Position { x: 24, y: 0 }, &room));
    assert!(can_enter_space(Position { x: 0, y: -1 }, &room));
    assert!(can_enter_space(Position { x: 0, y: 18 }, &room));
    assert!(!can_enter_space(Position { x: 0, y: 0 }, &room));
}

#[test]
fn south_exit_moves_to_top_row() {
    let mut pos = Position { x: 5, y: 6 };
    let mut changed = RoomChanged { changed: false };
    let exits = Exits { exits: vec![exit(ExitEdge::SOUTH, 7)] };
    let cmds = is_player_on_exit(&mut pos, &exits, id(1), &mut changed);
    assert_eq!(pos, Position { x: 5, y: 24 });
    assert!(changed.changed);
    assert_eq!(cmds, vec![RoomCommand::Enter { room: id(7) }, RoomCommand::Leave { room: id(1) }]);
}

#[test]
fn each_edge_wraps_to_the_opposite_edge() {
    let cases = [
        (ExitEdge::NORTH, Position { x: 5, y: 25 }, Position { x: 5, y: 7 }),
        (ExitEdge::EAST, Position { x: 24, y: 9 }, Position { x: 0, y: 9 }),
        (ExitEdge::WEST, Position { x: -1, y: 9 }, Position { x: 23, y: 9 }),
    ];
    for (edge, start, end) in cases {
        let mut pos = start;
        let mut changed = RoomChanged { changed: false };
        let cmds = is_player_on_exit(&mut pos, &Exits { exits: vec![exit(edge, 3)] }, id(1), &mut changed);
        assert_eq!(pos, end);
        assert_eq!(cmds.len(), 2);
        assert!(changed.changed);
    }
}

#[test]
fn exit_not_crossed_changes_nothing() {
    let mut pos = Position { x: 5, y: 10 };
    let mut changed = RoomChanged { changed: false };
    let exits = Exits { exits: vec![exit(ExitEdge::SOUTH, 7), exit(ExitEdge::NONE, 8)] };
    let cmds = is_player_on_exit(&mut pos, &exits, id(1), &mut changed);
    assert_eq!(pos, Position { x: 5, y: 10 });
    assert!(!changed.changed);
    assert!(cmds.is_empty());
}

#[test]
fn standing_on_exit_cell_takes_it() {
    let mut pos = Position { x: 0, y: 0 };
    let mut changed = RoomChanged { changed: false };
    let exits = Exits { exits: vec![exit(ExitEdge::SOUTH, 7)] };
    let cmds = is_player_on_exit(&mut pos, &exits, id(1), &mut changed);
    assert_eq!(pos, Position { x: 0, y: 24 });
    assert_eq!(cmds.len(), 4);
}

fn spec(name: &str, exits: Vec<(Option<&str>, &str)>) -> RoomSpec {
    RoomSpec {
        room_name: name.to_string(),
        room_data: "'.','▓'".to_string(),
        room_desc: format!("The {}.", name),
        exits: exits
            .into_iter()
            .map(|(e, n)| ExitSpec { edge: e.map(|s| s.to_string()), next_room: n.to_string() })
            .collect(),
    }
}

#[test]
fn room_tiles_drop_quotes_and_commas() {
    let r = build_room(&spec("Hall", vec![]));
    assert_eq!(r.room_data, vec!['.', '▓']);
    assert_eq!(r.room_name, "Hall");
    assert_eq!(r.room_desc, "The Hall.");
}

#[test]
fn load_links_rooms_by_name() {
    let specs = vec![
        spec("Courtyard", vec![(Some("NORTH"), "East Ballroom"), (None, "Courtyard")]),
        spec("East Ballroom", vec![(Some("SOUTH"), "Courtyard"), (Some("UP"), "Courtyard")]),
        spec("Cellar", vec![]),
    ];
    let ids = vec![id(10), id(11), id(12)];
    assert_eq!(check_room_names(&specs), Ok(()));
    let setup = load_rooms(&specs, &ids, id(20), id(21));
    assert_eq!(setup.current_room, id(10));
    let court = setup.exits[0].as_ref().unwrap();
    assert_eq!(court.exits, vec![exit(ExitEdge::NORTH, 11), exit(ExitEdge::NONE, 10)]);
    let ball = setup.exits[1].as_ref().unwrap();
    assert_eq!(ball.exits, vec![exit(ExitEdge::SOUTH, 10), exit(ExitEdge::NONE, 10)]);
    let cellar = setup.exits[2].as_ref().unwrap();
    assert_eq!(cellar.exits, vec![exit(ExitEdge::NONE, 99999)]);
    assert_eq!(setup.inventories[0].as_ref().unwrap().inventory, vec![InventoryItem { item: id(21), qty: 1 }]);
    assert_eq!(setup.inventories[1].as_ref().unwrap().inventory, vec![InventoryItem { item: id(20), qty: 1 }]);
    assert!(setup.inventories[2].as_ref().unwrap().inventory.is_empty());
}

#[test]
fn later_room_of_same_name_wins() {
    let specs = vec![
        spec("Courtyard", vec![(Some("EAST"), "East Ballroom")]),
        spec("East Ballroom", vec![]),
        spec("Courtyard", vec![(Some("WEST"), "East Ballroom")]),
    ];
    let ids = vec![id(1), id(2), id(3)];
    assert_eq!(check_room_names(&specs), Ok(()));
    let setup = load_rooms(&specs, &ids, id(8), id(9));
    assert!(setup.exits[0].is_none());
    assert!(setup.inventories[0].is_none());
    assert_eq!(setup.exits[2].as_ref().unwrap().exits, vec![exit(ExitEdge::WEST, 2)]);
    assert_eq!(setup.current_room, id(3));
    assert_eq!(find_owner(&specs, &"Courtyard".to_string()), Some(2));
}

#[test]
fn unknown_exit_target_is_an_error() {
    let specs = vec![
        spec("Courtyard", vec![(Some("EAST"), "Nowhere"), (None, "Elsewhere")]),
        spec("East Ballroom", vec![]),
    ];
    let ids = vec![id(1), id(2)];
    assert_eq!(
        check_room_names(&specs),
        Err(GameError::UnknownRoom { name: "Nowhere".to_string() })
    );
    assert_eq!(
        build_exits(&specs[0], &specs, &ids),
        Err(GameError::UnknownRoom { name: "Nowhere".to_string() })
    );
}

#[test]
fn missing_start_rooms_are_errors() {
    assert_eq!(
        check_room_names(&vec![spec("East Ballroom", vec![])]),
        Err(GameError::UnknownRoom { name: "Courtyard".to_string() })
    );
    assert_eq!(
        check_room_names(&vec![spec("Courtyard", vec![])]),
        Err(GameError::UnknownRoom { name: "East Ballroom".to_string() })
    );
}

#[test]
fn starting_items_are_sword_and_gem() {
    let (sword, gem) = starting_items();
    assert_eq!(sword.item.name, "SWORD");
    assert_eq!(sword.pos, Position { x: 15, y: 10 });
    assert_eq!(sword.visual.glyph, '┼');
    assert_eq!(gem.item.name, "GEM");
    assert_eq!(gem.pos, Position { x: 10, y: 15 });
    assert_eq!(gem.visual.glyph, '♦');
}

#[test]
fn render_room_draws_frame_tiles_and_description() {
    let mut room = open_room();
    room.room_data = vec!['a'; 25];
    room.room_desc = "one\ntwo".to_string();
    let mut changed = RoomChanged { changed: true };
    let ops = render_room(&room, &mut changed).unwrap();
    assert!(!changed.changed);
    assert_eq!(ops.len(), 25 + 18 + 1 + 25 + 2);
    assert_eq!(ops[0], DrawOp::PutChar { x: 0, y: 6, glyph: '─', fg: Some(TileColor::Fore), bg: None });
    assert_eq!(ops[25], DrawOp::PutChar { x: 24, y: 7, glyph: '│', fg: Some(TileColor::Fore), bg: None });
    assert_eq!(ops[43], DrawOp::PutChar { x: 24, y: 6, glyph: '┘', fg: None, bg: None });
    assert_eq!(ops[44 + 24], DrawOp::PutChar { x: 0, y: 8, glyph: 'a', fg: Some(TileColor::Fore), bg: None });
    assert_eq!(ops[69], DrawOp::Clear);
    assert_eq!(
        ops[70],
        DrawOp::PutString { x: 0, y: 4, text: "one\ntwo".to_string(), fg: Some(TileColor::Fore), bg: None }
    );
}

#[test]
fn render_room_without_change_skips_description() {
    let room = open_room();
    let mut changed = RoomChanged { changed: false };
    let ops = render_room(&room, &mut changed).unwrap();
    assert_eq!(ops.len(), 44 + 432);
}

#[test]
fn tall_description_is_an_error() {
    let mut room = open_room();
    room.room_desc = "1\n2\n3\n4\n5\n6\n7".to_string();
    let mut changed = RoomChanged { changed: true };
    assert_eq!(render_room(&room, &mut changed), Err(GameError::DescriptionTooTall));
    let mut unchanged = RoomChanged { changed: false };
    assert!(render_room(&room, &mut unchanged).is_ok());
}

#[test]
fn drawn_tile_decides_entry_law_on_values() {
    let mut room = open_room();
    room.room_data[5 * 24 + 7] = '▓';
    let mut changed = RoomChanged { changed: false };
    let ops = render_room(&room, &mut changed).unwrap();
    assert_eq!(ops[44 + 5 * 24 + 7], DrawOp::PutChar { x: 7, y: 12, glyph: '▓', fg: Some(TileColor::Fore), bg: None });
    assert!(!can_enter_space(Position { x: 7, y: 5 }, &room));
}

#[test]
fn check_exits_names_first_unknown_target() {
    let specs = vec![spec("Courtyard", vec![(None, "Courtyard"), (None, "Attic"), (None, "Cellar")])];
    assert_eq!(check_exits(&specs[0], &specs), Err(GameError::UnknownRoom { name: "Attic".to_string() }));
    let ok = vec![spec("Courtyard", vec![(None, "Courtyard")])];
    assert_eq!(check_exits(&ok[0], &ok), Ok(()));
}
