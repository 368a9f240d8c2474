use ascii_adventure::common_components::{
    CardDir, CardinalDirection, DrawOp, EntityId, GameError, Position, Renderable, TileColor,
};
use ascii_adventure::inventory::{list_inventory, neighbour_cell, not_held, process_inventory, Inventory, InventoryItem};
use ascii_adventure::item::{find_item, is_player_on_item, render_items, Item, ItemEntity};
use ascii_adventure::player::{InputCommandEvent, InputCommands};

fn id(i: u32) -> EntityId {
    EntityId::from_raw(i)
}

fn item(e: u32, name: &str, glyph: char, x: i32, y: i32) -> ItemEntity {
    ItemEntity {
        entity: id(e),
        item: Item { name: name.to_string(), visible: true },
        visual: Renderable { glyph, fg: TileColor::Fore, bg: TileColor::Black },
        pos: Position { x, y },
    }
}

fn line(e: u32) -> InventoryItem {
    InventoryItem { item: id(e), qty: 1 }
}

fn inv(lines: Vec<InventoryItem>) -> Option<Inventory> {
    Some(Inventory { inventory: lines })
}

fn drop_event(name: &str) -> InputCommandEvent {
    InputCommandEvent { command: InputCommands::DROP_ITEM, data: name.to_string() }
}

fn world() -> Vec<ItemEntity> {
    vec![item(5, "SWORD", '┼', 15, 10), item(6, "GEM", '♦', 10, 15)]
}

#[test]
fn pick_up_first_item_when_standing_on_it() {
    let items = world();
    let mut room = inv(vec![line(6), line(5)]);
    let mut player = inv(vec![]);
    assert_eq!(is_player_on_item(&mut room, Position { x: 10, y: 15 }, &mut player, &items), Ok(()));
    assert_eq!(room, inv(vec![line(5)]));
    assert_eq!(player, inv(vec![line(6)]));
}

#[test]
fn only_the_first_item_can_be_picked_up() {
    let items = world();
    let mut room = inv(vec![line(6), line(5)]);
    let mut player = inv(vec![]);
    is_player_on_item(&mut room, Position { x: 15, y: 10 }, &mut player, &items).unwrap();
    assert_eq!(room, inv(vec![line(6), line(5)]));
    assert_eq!(player, inv(vec![]));
}

#[test]
fn player_without_inventory_loses_the_item() {
    let items = world();
    let mut room = inv(vec![line(6)]);
    let mut player = None;
    is_player_on_item(&mut room, Position { x: 10, y: 15 }, &mut player, &items).unwrap();
    assert_eq!(room, inv(vec![]));
    assert_eq!(player, None);
}

#[test]
fn pickup_conserves_items_law_on_values() {
    let items = world();
    let mut room = inv(vec![line(6), line(5)]);
    let mut player = inv(vec![line(7)]);
    is_player_on_item(&mut room, Position { x: 10, y: 15 }, &mut player, &items).unwrap();
    let mut all: Vec<u32> = room.unwrap().inventory.iter().chain(player.unwrap().inventory.iter()).map(|l| l.item.index).collect();
    all.sort();
    assert_eq!(all, vec![5, 6, 7]);
}

#[test]
fn unknown_first_item_is_an_error() {
    let items = world();
    let mut room = inv(vec![line(9)]);
    let mut player = inv(vec![]);
    assert_eq!(
        is_player_on_item(&mut room, Position { x: 0, y: 0 }, &mut player, &items),
        Err(GameError::MissingItem)
    );
    assert_eq!(room, inv(vec![line(9)]));
}

#[test]
fn find_item_looks_up_by_entity() {
    let items = world();
    assert_eq!(find_item(&items, id(6)), Some(1));
    assert_eq!(find_item(&items, id(4)), None);
}

#[test]
fn render_items_draws_each_room_item() {
    let items = world();
    let ops = render_items(&inv(vec![line(5)]), &items).unwrap();
    assert_eq!(
        ops,
        vec![
            DrawOp::PutChar { x: 15, y: 10, glyph: '┼', fg: Some(TileColor::Fore), bg: Some(TileColor::Black) },
            DrawOp::ClearBox { x: 25, y: 15, width: 2, height: 5 },
            DrawOp::PutChar { x: 25, y: 23, glyph: '┼', fg: Some(TileColor::Fore), bg: Some(TileColor::Black) },
            DrawOp::PutString { x: 27, y: 23, text: "SWORD".to_string(), fg: Some(TileColor::Fore), bg: None },
        ]
    );
    assert_eq!(render_items(&None, &items), Ok(vec![]));
    assert_eq!(render_items(&inv(vec![line(1)]), &items), Err(GameError::MissingItem));
}

#[test]
fn list_inventory_draws_heading_and_items() {
    let items = world();
    let ops = list_inventory(&items, &vec![line(6)]).unwrap();
    assert_eq!(
        ops,
        vec![
            DrawOp::ClearBox { x: 25, y: 11, width: 40, height: 12 },
            DrawOp::PutString { x: 25, y: 12, text: "- Inventory -".to_string(), fg: Some(TileColor::Fore), bg: None },
            DrawOp::PutChar { x: 25, y: 11, glyph: '♦', fg: Some(TileColor::Fore), bg: Some(TileColor::Black) },
            DrawOp::PutString { x: 27, y: 11, text: "GEM".to_string(), fg: Some(TileColor::Fore), bg: None },
            DrawOp::Print { text: "GEM".to_string() },
        ]
    );
}

#[test]
fn list_command_changes_nothing() {
    let mut items = world();
    let mut player = inv(vec![line(5)]);
    let mut room = inv(vec![]);
    let ev = InputCommandEvent { command: InputCommands::LIST_INVENTORY, data: String::new() };
    let ops = process_inventory(&ev, Position { x: 1, y: 10 }, CardinalDirection { dir: CardDir::EAST }, &mut player, &mut items, &mut room).unwrap();
    assert_eq!(ops.len(), 5);
    assert_eq!(player, inv(vec![line(5)]));
    assert_eq!(room, inv(vec![]));
    assert_eq!(items, world());
}

#[test]
fn drop_puts_item_in_front_of_player() {
    let mut items = world();
    let mut player = inv(vec![line(6), line(5)]);
    let mut room = inv(vec![]);
    let ops = process_inventory(&drop_event("sword"), Position { x: 3, y: 10 }, CardinalDirection { dir: CardDir::EAST }, &mut player, &mut items, &mut room).unwrap();
    assert_eq!(player, inv(vec![line(6)]));
    assert_eq!(room, inv(vec![line(5)]));
    assert_eq!(items[0].pos, Position { x: 4, y: 10 });
    assert_eq!(items[1].pos, Position { x: 10, y: 15 });
    // the gem line names another item, so the "not held" message is drawn once
    assert_eq!(ops, not_held(&"SWORD".to_string()));
}

#[test]
fn drop_in_each_direction() {
    let cases = [
        (CardDir::NORTH, Position { x: 3, y: 11 }),
        (CardDir::SOUTH, Position { x: 3, y: 9 }),
        (CardDir::WEST, Position { x: 2, y: 10 }),
    ];
    for (dir, expected) in cases {
        let mut items = world();
        let mut player = inv(vec![line(5)]);
        let mut room = inv(vec![line(6)]);
        let ops = process_inventory(&drop_event("SwOrD"), Position { x: 3, y: 10 }, CardinalDirection { dir }, &mut player, &mut items, &mut room).unwrap();
        assert!(ops.is_empty());
        assert_eq!(items[0].pos, expected);
        assert_eq!(room, inv(vec![line(6), line(5)]));
        assert_eq!(player, inv(vec![]));
    }
}

#[test]
fn drop_resets_quantity_to_one() {
    let mut items = world();
    let mut player = inv(vec![InventoryItem { item: id(5), qty: 3 }]);
    let mut room = inv(vec![]);
    process_inventory(&drop_event("sword"), Position { x: 3, y: 10 }, CardinalDirection { dir: CardDir::NORTH }, &mut player, &mut items, &mut room).unwrap();
    assert_eq!(room, inv(vec![line(5)]));
}

#[test]
fn drop_with_empty_inventory_says_not_held() {
    let mut items = world();
    let mut player = inv(vec![]);
    let mut room = inv(vec![]);
    let ops = process_inventory(&drop_event("gem"), Position { x: 3, y: 10 }, CardinalDirection { dir: CardDir::NORTH }, &mut player, &mut items, &mut room).unwrap();
    assert_eq!(
        ops,
        vec![
            DrawOp::ClearBox { x: 25, y: 10, width: 40, height: 11 },
            DrawOp::PutString { x: 25, y: 11, text: "You don't have".to_string(), fg: Some(TileColor::Fore), bg: None },
            DrawOp::PutString { x: 25, y: 10, text: "a GEM".to_string(), fg: Some(TileColor::Fore), bg: None },
        ]
    );
    assert_eq!(player, inv(vec![]));
}

#[test]
fn drop_of_item_not_held_falls_back_to_entity_zero() {
    // nothing is called LAMP; the entity with raw index 0 is no item here
    let mut items = world();
    let mut player = inv(vec![line(5)]);
    let mut room = inv(vec![]);
    let r = process_inventory(&drop_event("lamp"), Position { x: 3, y: 10 }, CardinalDirection { dir: CardDir::EAST }, &mut player, &mut items, &mut room);
    assert_eq!(r, Err(GameError::MissingItem));
    assert_eq!(player, inv(vec![line(5)]));
    // when entity 0 is an item, it is moved north of the player and the first line goes
    let mut items = world();
    items.push(item(0, "STONE", 'o', 1, 1));
    let mut player = inv(vec![line(5)]);
    let mut room = inv(vec![]);
    let ops = process_inventory(&drop_event("lamp"), Position { x: 3, y: 10 }, CardinalDirection { dir: CardDir::EAST }, &mut player, &mut items, &mut room).unwrap();
    assert_eq!(ops, not_held(&"LAMP".to_string()));
    assert_eq!(items[2].pos, Position { x: 3, y: 11 });
    assert_eq!(room, inv(vec![line(0)]));
    assert_eq!(player, inv(vec![]));
}

#[test]
fn drop_without_room_inventory_is_an_error() {
    let mut items = world();
    let mut player = inv(vec![line(5)]);
    let mut room = None;
    let r = process_inventory(&drop_event("sword"), Position { x: 3, y: 10 }, CardinalDirection { dir: CardDir::EAST }, &mut player, &mut items, &mut room);
    assert_eq!(r, Err(GameError::MissingRoomInventory));
    assert_eq!(items, world());
}

#[test]
fn drop_next_to_edge_of_range_is_an_error() {
    let mut items = world();
    let mut player = inv(vec![line(5)]);
    let mut room = inv(vec![]);
    let r = process_inventory(&drop_event("sword"), Position { x: i32::MAX, y: 10 }, CardinalDirection { dir: CardDir::EAST }, &mut player, &mut items, &mut room);
    assert_eq!(r, Err(GameError::CoordinateOverflow));
    assert_eq!(neighbour_cell(Position { x: 0, y: i32::MIN }, CardDir::SOUTH), None);
    assert_eq!(neighbour_cell(Position { x: 0, y: 0 }, CardDir::SOUTH), Some(Position { x: 0, y: -1 }));
}

#[test]
fn drop_takes_the_last_matching_line() {
    let mut items = world();
    items.push(item(7, "SWORD", '+', 0, 0));
    let mut player = inv(vec![line(5), line(7), line(6)]);
    let mut room = inv(vec![]);
    let ops = process_inventory(&drop_event("sword"), Position { x: 3, y: 10 }, CardinalDirection { dir: CardDir::NORTH }, &mut player, &mut items, &mut room).unwrap();
    assert_eq!(player, inv(vec![line(5), line(6)]));
    assert_eq!(room, inv(vec![line(7)]));
    assert_eq!(items[2].pos, Position { x: 3, y: 11 });
    assert_eq!(ops.len(), 3);
}

#[test]
fn player_without_inventory_does_nothing() {
    let mut items = world();
    let mut player = None;
    let mut room = inv(vec![]);
    let ops = process_inventory(&drop_event("sword"), Position { x: 3, y: 10 }, CardinalDirection { dir: CardDir::NORTH }, &mut player, &mut items, &mut room).unwrap();
    assert!(ops.is_empty());
    assert_eq!(room, inv(vec![]));
    assert_eq!(player, None);
    assert_eq!(items, world());
}

#[test]
fn dropped_item_can_be_picked_up_again_law_on_values() {
    let mut items = world();
    let mut player = inv(vec![line(6), line(5)]);
    let mut room = inv(vec![]);
    let facing = CardinalDirection { dir: CardDir::SOUTH };
    process_inventory(&drop_event("gem"), Position { x: 8, y: 12 }, facing, &mut player, &mut items, &mut room).unwrap();
    assert_eq!(player, inv(vec![line(5)]));
    assert_eq!(room, inv(vec![line(6)]));
    let cell = items[1].pos;
    assert_eq!(cell, Position { x: 8, y: 11 });
    is_player_on_item(&mut room, cell, &mut player, &items).unwrap();
    assert_eq!(room, inv(vec![]));
    assert_eq!(player, inv(vec![line(5), line(6)]));
}

#[test]
fn drop_conserves_items_law_on_values() {
    let mut items = world();
    let mut player = inv(vec![line(5), line(6)]);
    let mut room = inv(vec![line(9)]);
    process_inventory(&drop_event("SWORD"), Position { x: 8, y: 12 }, CardinalDirection { dir: CardDir::NORTH }, &mut player, &mut items, &mut room).unwrap();
    let mut all: Vec<u32> = room.unwrap().inventory.iter().chain(player.unwrap().inventory.iter()).map(|l| l.item.index).collect();
    all.sort();
    assert_eq!(all, vec![5, 6, 9]);
}
