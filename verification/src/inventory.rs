//! Inventories, and what the typed inventory commands do.
use vstd::prelude::*;
use crate::common_components::{
    draw_views, CardDir, CardinalDirection, DrawOp, DrawView, EntityId, GameError, Position,
    TileColor,
};
use crate::item::{find_item, has_item, is_item_index, item_index, item_of, picks_up, ItemEntity};
use crate::player::{InputCommandEvent, InputCommands};
use crate::text::{to_ascii_uppercase, upper_seq};
use crate::{GAMEBOARD_WIDTH, GAME_HEIGHT, GAME_WIDTH};
use vstd::multiset::Multiset;
use vstd::string::StringExecFns;

verus! {

/// One line of an inventory: an item and how many of it.
#[derive(Clone, Copy, Debug, PartialEq, Eq, Structural)]
pub struct InventoryItem {
    pub item: EntityId,
    pub qty: i32,
}

/// What a player or a room holds.
#[derive(Clone, Debug, PartialEq, Eq)]
pub struct Inventory {
    pub inventory: Vec<InventoryItem>,
}

/// The lines of an optional inventory.
pub open spec fn inv_view(o: Option<Inventory>) -> Option<Seq<InventoryItem>> {
    match o {
        Some(i) => Some(i.inventory@),
        None => None,
    }
}

/// The items that the lines `s` name, as a multiset.
pub open spec fn item_ids(s: Seq<InventoryItem>) -> Multiset<EntityId> {
    s.map_values(|l: InventoryItem| l.item).to_multiset()
}

/// Every line of `p` names an item entity of `items`.
pub open spec fn all_known(p: Seq<InventoryItem>, items: Seq<ItemEntity>) -> bool {
    forall|i: int| 0 <= i < p.len() ==> has_item(items, #[trigger] p[i].item)
}

/// The name of the item that the line `l` names.
pub open spec fn held_name(items: Seq<ItemEntity>, l: InventoryItem) -> Seq<char> {
    item_of(items, l.item).item.name@
}

/// What listing one line of the inventory draws and prints.
pub open spec fn list_line(items: Seq<ItemEntity>, l: InventoryItem) -> Seq<DrawView> {
    let it = item_of(items, l.item);
    seq![
        DrawView::PutChar {
            x: (GAMEBOARD_WIDTH + 1) as i32,
            y: (GAME_HEIGHT - 14) as i32,
            glyph: it.visual.glyph,
            fg: Some(it.visual.fg),
            bg: Some(it.visual.bg),
        },
        DrawView::PutString {
            x: (GAMEBOARD_WIDTH + 3) as i32,
            y: (GAME_HEIGHT - 14) as i32,
            text: it.item.name@,
            fg: Some(TileColor::Fore),
            bg: None,
        },
        DrawView::Print { text: it.item.name@ },
    ]
}

/// What listing the lines `p` draws and prints, line by line.
pub open spec fn list_lines(items: Seq<ItemEntity>, p: Seq<InventoryItem>) -> Seq<DrawView>
    decreases p.len(),
{
    if p.len() == 0 {
        Seq::empty()
    } else {
        list_lines(items, p.drop_last()) + list_line(items, p.last())
    }
}

/// What listing the inventory `p` draws: a cleared panel with a heading,
/// then each line.
pub open spec fn list_ops(items: Seq<ItemEntity>, p: Seq<InventoryItem>) -> Seq<DrawView> {
    seq![
        DrawView::ClearBox {
            x: (GAMEBOARD_WIDTH + 1) as i32,
            y: (GAME_HEIGHT - 14) as i32,
            width: GAME_WIDTH,
            height: (GAME_HEIGHT - 13) as i32,
        },
        DrawView::PutString {
            x: (GAMEBOARD_WIDTH + 1) as i32,
            y: (GAME_HEIGHT - 13) as i32,
            text: "- Inventory -"@,
            fg: Some(TileColor::Fore),
            bg: None,
        },
    ] + list_lines(items, p)
}

/// The message that the player does not have an item named `u`.
pub open spec fn not_held_ops(u: Seq<char>) -> Seq<DrawView> {
    seq![
        DrawView::ClearBox {
            x: (GAMEBOARD_WIDTH + 1) as i32,
            y: (GAME_HEIGHT - 15) as i32,
            width: GAME_WIDTH,
            height: (GAME_HEIGHT - 14) as i32,
        },
        DrawView::PutString {
            x: (GAMEBOARD_WIDTH + 1) as i32,
            y: (GAME_HEIGHT - 14) as i32,
            text: "You don't have"@,
            fg: Some(TileColor::Fore),
            bg: None,
        },
        DrawView::PutString {
            x: (GAMEBOARD_WIDTH + 1) as i32,
            y: (GAME_HEIGHT - 15) as i32,
            text: "a "@ + u,
            fg: Some(TileColor::Fore),
            bg: None,
        },
    ]
}

/// The messages a drop of `u` draws: one for every line of `p` that names
/// another item.
pub open spec fn mismatch_ops(items: Seq<ItemEntity>, p: Seq<InventoryItem>, u: Seq<char>) -> Seq<
    DrawView,
>
    decreases p.len(),
{
    if p.len() == 0 {
        Seq::empty()
    } else {
        mismatch_ops(items, p.drop_last(), u) + if held_name(items, p.last()) == u {
            Seq::empty()
        } else {
            not_held_ops(u)
        }
    }
}

/// `m` is the last line of `p` that names an item called `u`.
pub open spec fn is_last_match(items: Seq<ItemEntity>, p: Seq<InventoryItem>, u: Seq<char>, m: int) -> bool {
    &&& 0 <= m < p.len()
    &&& held_name(items, p[m]) == u
    &&& forall|j: int| m < j < p.len() ==> held_name(items, #[trigger] p[j]) != u
}

/// Some line of `p` names an item called `u`.
pub open spec fn has_match(items: Seq<ItemEntity>, p: Seq<InventoryItem>, u: Seq<char>) -> bool {
    exists|i: int| 0 <= i < p.len() && held_name(items, #[trigger] p[i]) == u
}

/// The line of `p` that a drop of `u` takes: the last that names an item
/// called `u`, or else the first.
pub open spec fn drop_index(items: Seq<ItemEntity>, p: Seq<InventoryItem>, u: Seq<char>) -> int {
    if has_match(items, p, u) {
        choose|m: int| is_last_match(items, p, u, m)
    } else {
        0
    }
}

/// The item entity that a drop of `u` moves: the one the taken line names, or,
/// when no line names an item called `u`, the entity with raw index 0.
pub open spec fn drop_entity(items: Seq<ItemEntity>, p: Seq<InventoryItem>, u: Seq<char>) -> EntityId {
    if has_match(items, p, u) {
        p[drop_index(items, p, u)].item
    } else {
        EntityId { index: 0, generation: 1 }
    }
}

/// The direction in which a dropped item is put down.
pub open spec fn drop_dir(items: Seq<ItemEntity>, p: Seq<InventoryItem>, u: Seq<char>, facing: CardDir) -> CardDir {
    if has_match(items, p, u) {
        facing
    } else {
        CardDir::NORTH
    }
}

/// The cell next to `pos` in direction `dir` (north is up the screen, which
/// is the larger `y`), as mathematical integers.
pub open spec fn neighbour(pos: Position, dir: CardDir) -> (int, int) {
    match dir {
        CardDir::NORTH => (pos.x as int, pos.y + 1),
        CardDir::SOUTH => (pos.x as int, pos.y - 1),
        CardDir::EAST => (pos.x + 1, pos.y as int),
        CardDir::WEST => (pos.x - 1, pos.y as int),
    }
}

/// `v` is a value of `i32`.
pub open spec fn fits_i32(v: int) -> bool {
    i32::MIN <= v <= i32::MAX
}

/// The cell next to `pos` in direction `dir` lies in the range of `i32`.
pub open spec fn neighbour_fits(pos: Position, dir: CardDir) -> bool {
    fits_i32(neighbour(pos, dir).0) && fits_i32(neighbour(pos, dir).1)
}

/// The cell next to `pos` in direction `dir`.
pub fn neighbour_cell(pos: Position, dir: CardDir) -> (r: Option<Position>)
    ensures
        r is Some <==> neighbour_fits(pos, dir),
        r matches Some(q) ==> q.x == neighbour(pos, dir).0 && q.y == neighbour(pos, dir).1,
{
    match dir {
        CardDir::NORTH => match pos.y.checked_add(1) {
            Some(y) => Some(Position { x: pos.x, y }),
            None => None,
        },
        CardDir::SOUTH => match pos.y.checked_sub(1) {
            Some(y) => Some(Position { x: pos.x, y }),
            None => None,
        },
        CardDir::EAST => match pos.x.checked_add(1) {
            Some(x) => Some(Position { x, y: pos.y }),
            None => None,
        },
        CardDir::WEST => match pos.x.checked_sub(1) {
            Some(x) => Some(Position { x, y: pos.y }),
            None => None,
        },
    }
}

/// What listing the inventory `p` draws and prints.
pub fn list_inventory(items: &Vec<ItemEntity>, p: &Vec<InventoryItem>) -> (r: Result<Vec<DrawOp>, GameError>)
    ensures
        r is Err <==> !all_known(p@, items@),
        r is Err ==> r == Err::<Vec<DrawOp>, GameError>(GameError::MissingItem),
        r matches Ok(ops) ==> draw_views(ops@) == list_ops(items@, p@),
{
    let mut ops: Vec<DrawOp> = Vec::new();
    ops.push(
        DrawOp::ClearBox {
            x: GAMEBOARD_WIDTH + 1,
            y: GAME_HEIGHT - 14,
            width: GAME_WIDTH,
            height: GAME_HEIGHT - 13,
        },
    );
    ops.push(
        DrawOp::PutString {
            x: GAMEBOARD_WIDTH + 1,
            y: GAME_HEIGHT - 13,
            text: "- Inventory -".to_owned(),
            fg: Some(TileColor::Fore),
            bg: None,
        },
    );
    let ghost head = draw_views(ops@);
    assert(head =~= list_ops(items@, p@).take(2));
    let n = p.len();
    for i in 0..n
        invariant
            n == p@.len(),
            head =~= list_ops(items@, p@).take(2),
            draw_views(ops@) =~= head + list_lines(items@, p@.take(i as int)),
            all_known(p@.take(i as int), items@),
    {
        let line = p[i];
        let ghost prev = p@.take(i as int);
        let ghost next = p@.take(i + 1);
        assert(next.drop_last() =~= prev);
        assert(next.last() == line);
        match find_item(items, line.item) {
            None => {
                assert(!all_known(p@, items@)) by {
                    assert(p@[i as int] == line);
                }
                return Err(GameError::MissingItem);
            },
            Some(k) => {
                let ghost before = ops@;
                let it = &items[k];
                ops.push(
                    DrawOp::PutChar {
                        x: GAMEBOARD_WIDTH + 1,
                        y: GAME_HEIGHT - 14,
                        glyph: it.visual.glyph,
                        fg: Some(it.visual.fg),
                        bg: Some(it.visual.bg),
                    },
                );
                ops.push(
                    DrawOp::PutString {
                        x: GAMEBOARD_WIDTH + 3,
                        y: GAME_HEIGHT - 14,
                        text: it.item.name.clone(),
                        fg: Some(TileColor::Fore),
                        bg: None,
                    },
                );
                ops.push(DrawOp::Print { text: it.item.name.clone() });
                assert(draw_views(ops@) =~= draw_views(before) + list_line(items@, line));
                assert(all_known(next, items@)) by {
                    assert forall|j: int| 0 <= j < next.len() implies has_item(items@, #[trigger] next[j].item) by {
                        if j < i {
                            assert(next[j] == prev[j]);
                        }
                    }
                }
            },
        }
    }
    assert(p@.take(n as int) =~= p@);
    Ok(ops)
}

/// The message that the player does not have an item named `upper`.
pub fn not_held(upper: &String) -> (ops: Vec<DrawOp>)
    ensures
        draw_views(ops@) == not_held_ops(upper@),
{
    let mut text = "a ".to_owned();
    text.append(upper.as_str());
    let mut ops: Vec<DrawOp> = Vec::new();
    ops.push(
        DrawOp::ClearBox {
            x: GAMEBOARD_WIDTH + 1,
            y: GAME_HEIGHT - 15,
            width: GAME_WIDTH,
            height: GAME_HEIGHT - 14,
        },
    );
    ops.push(
        DrawOp::PutString {
            x: GAMEBOARD_WIDTH + 1,
            y: GAME_HEIGHT - 14,
            text: "You don't have".to_owned(),
            fg: Some(TileColor::Fore),
            bg: None,
        },
    );
    ops.push(
        DrawOp::PutString {
            x: GAMEBOARD_WIDTH + 1,
            y: GAME_HEIGHT - 15,
            text,
            fg: Some(TileColor::Fore),
            bg: None,
        },
    );
    assert(draw_views(ops@) =~= not_held_ops(upper@));
    ops
}

/// Goes through the lines of `p` looking for an item called `upper`: the
/// messages for the lines that name other items, and the last line that
/// names it.
fn scan_for_drop(upper: &String, p: &Vec<InventoryItem>, items: &Vec<ItemEntity>) -> (r: Result<
    (Vec<DrawOp>, Option<usize>),
    GameError,
>)
    ensures
        r is Err <==> !all_known(p@, items@),
        r is Err ==> r == Err::<(Vec<DrawOp>, Option<usize>), GameError>(GameError::MissingItem),
        r matches Ok((ops, m)) ==> {
            &&& draw_views(ops@) == mismatch_ops(items@, p@, upper@)
            &&& (m is Some <==> has_match(items@, p@, upper@))
            &&& (m matches Some(i) ==> is_last_match(items@, p@, upper@, i as int))
        },
{
    let mut ops: Vec<DrawOp> = Vec::new();
    let mut found: Option<usize> = None;
    let n = p.len();
    for i in 0..n
        invariant
            n == p@.len(),
            draw_views(ops@) =~= mismatch_ops(items@, p@.take(i as int), upper@),
            all_known(p@.take(i as int), items@),
            found is Some <==> has_match(items@, p@.take(i as int), upper@),
            found matches Some(m) ==> is_last_match(items@, p@.take(i as int), upper@, m as int),
    {
        let line = p[i];
        let ghost prev = p@.take(i as int);
        let ghost next = p@.take(i + 1);
        assert(next.drop_last() =~= prev);
        assert(next.last() == line);
        assert(forall|j: int| 0 <= j < i ==> next[j] == prev[j]);
        match find_item(items, line.item) {
            None => {
                assert(!all_known(p@, items@)) by {
                    assert(p@[i as int] == line);
                }
                return Err(GameError::MissingItem);
            },
            Some(k) => {
                assert(all_known(next, items@)) by {
                    assert forall|j: int| 0 <= j < next.len() implies has_item(items@, #[trigger] next[j].item) by {
                        if j < i {
                            assert(next[j] == prev[j]);
                        }
                    }
                }
                assert(held_name(items@, line) == items@[k as int].item.name@);
                if items[k].item.name == *upper {
                    found = Some(i);
                    assert(mismatch_ops(items@, next, upper@) =~= mismatch_ops(items@, prev, upper@));
                    assert(has_match(items@, next, upper@)) by {
                        assert(held_name(items@, next[i as int]) == upper@);
                    }
                } else {
                    let ghost before = ops@;
                    let mut msg = not_held(upper);
                    let ghost msg0 = msg@;
                    ops.append(&mut msg);
                    assert(ops@ == before + msg0);
                    assert(draw_views(ops@) =~= draw_views(before) + draw_views(msg0));
                    proof {
                        if has_match(items@, next, upper@) {
                            let j = choose|j: int| 0 <= j < next.len() && held_name(items@, #[trigger] next[j]) == upper@;
                            assert(j < i);
                            assert(has_match(items@, prev, upper@));
                        }
                    }
                }
            },
        }
    }
    assert(p@.take(n as int) =~= p@);
    Ok((ops, found))
}

/// Why a drop of `u` from the inventory `p` cannot be carried out, if it
/// cannot: a line names an unknown item, or the item to move is unknown; the
/// cell to put it on is out of range; the room has no inventory.
pub open spec fn drop_error(
    items: Seq<ItemEntity>,
    p: Seq<InventoryItem>,
    u: Seq<char>,
    pos: Position,
    facing: CardDir,
    room: Option<Seq<InventoryItem>>,
) -> Option<GameError> {
    if !all_known(p, items) || !has_item(items, drop_entity(items, p, u)) {
        Some(GameError::MissingItem)
    } else if !neighbour_fits(pos, drop_dir(items, p, u, facing)) {
        Some(GameError::CoordinateOverflow)
    } else if room is None {
        Some(GameError::MissingRoomInventory)
    } else {
        None
    }
}

/// The dropped item entity, put down next to the player at `pos`.
pub open spec fn dropped_item(
    items: Seq<ItemEntity>,
    p: Seq<InventoryItem>,
    u: Seq<char>,
    pos: Position,
    facing: CardDir,
) -> ItemEntity {
    let e = item_of(items, drop_entity(items, p, u));
    let cell = neighbour(pos, drop_dir(items, p, u, facing));
    ItemEntity { entity: e.entity, item: e.item, visual: e.visual, pos: Position { x: cell.0 as i32, y: cell.1 as i32 } }
}

/// Drops the item called `upper` from the player's non-empty inventory `p`
/// into the room's.
fn drop_from(
    upper: &String,
    player_position: Position,
    facing: CardDir,
    p: &mut Inventory,
    items: &mut Vec<ItemEntity>,
    room_inventory: &mut Option<Inventory>,
) -> (r: Result<Vec<DrawOp>, GameError>)
    requires
        old(p).inventory@.len() > 0,
    ensures
        ({
            let err = drop_error(
                old(items)@,
                old(p).inventory@,
                upper@,
                player_position,
                facing,
                inv_view(*old(room_inventory)),
            );
            &&& r is Err <==> err is Some
            &&& r matches Err(e) ==> err == Some(e)
        }),
        r is Err ==> {
            &&& *final(p) == *old(p)
            &&& *final(items) == *old(items)
            &&& *final(room_inventory) == *old(room_inventory)
        },
        r matches Ok(ops) ==> {
            let pv = old(p).inventory@;
            let t = drop_entity(old(items)@, pv, upper@);
            &&& draw_views(ops@) == mismatch_ops(old(items)@, pv, upper@)
            &&& final(items)@ == old(items)@.update(
                item_index(old(items)@, t),
                dropped_item(old(items)@, pv, upper@, player_position, facing),
            )
            &&& inv_view(*final(room_inventory)) == Some(
                inv_view(*old(room_inventory))->0.push(InventoryItem { item: t, qty: 1 }),
            )
            &&& final(p).inventory@ == pv.remove(drop_index(old(items)@, pv, upper@))
        },
{
    let ghost u = upper@;
    let ghost pv = p.inventory@;
    let ghost iv = items@;
    let scanned = scan_for_drop(upper, &p.inventory, items);
    let (ops, found) = match scanned {
        Err(e) => {
            return Err(e);
        },
        Ok(x) => x,
    };
    let (index, target, dir) = match found {
        Some(m) => {
            proof {
                let c = choose|c: int| is_last_match(iv, pv, u, c);
                if c < m {
                    assert(held_name(iv, pv[m as int]) != u);
                }
                if m < c {
                    assert(held_name(iv, pv[c]) != u);
                }
                assert(c == m);
            }
            (m, p.inventory[m].item, facing)
        },
        None => (0, EntityId::from_raw(0), CardDir::NORTH),
    };
    assert(target == drop_entity(iv, pv, u));
    assert(dir == drop_dir(iv, pv, u, facing));
    assert(index == drop_index(iv, pv, u));
    let k = match find_item(items, target) {
        None => {
            return Err(GameError::MissingItem);
        },
        Some(k) => k,
    };
    let cell = match neighbour_cell(player_position, dir) {
        None => {
            return Err(GameError::CoordinateOverflow);
        },
        Some(q) => q,
    };
    match room_inventory {
        None => {
            return Err(GameError::MissingRoomInventory);
        },
        Some(room) => {
            room.inventory.push(InventoryItem { item: target, qty: 1 });
        },
    }
    let mut moved = items.remove(k);
    moved.pos = cell;
    items.insert(k, moved);
    assert(items@ =~= iv.update(
        item_index(iv, target),
        dropped_item(iv, pv, u, player_position, facing),
    ));
    p.inventory.remove(index);
    Ok(ops)
}

/// Carries out a typed inventory command of the player standing at
/// `player_position` and facing `facing`, and says what to draw.
///
/// Listing draws the player's inventory. Dropping looks, in the player's
/// inventory, for the last line that names an item called like the argument
/// in upper case, drawing a "You don't have" message for every line that names
/// another item; it puts that item down on the cell the player faces, adds it
/// to the room's inventory with quantity 1 and removes its line from the
/// player's. When no line names such an item, the entity with raw index 0 is
/// moved instead (north of the player) and the first line is removed. An
/// empty inventory only draws the message. A player without an inventory
/// does nothing.
pub fn process_inventory(
    event: &InputCommandEvent,
    player_position: Position,
    facing: CardinalDirection,
    player_inventory: &mut Option<Inventory>,
    items: &mut Vec<ItemEntity>,
    room_inventory: &mut Option<Inventory>,
) -> (r: Result<Vec<DrawOp>, GameError>)
    ensures
        event.command != InputCommands::DROP_ITEM || r is Err || inv_view(*old(player_inventory)) is None ==> {
            &&& *final(player_inventory) == *old(player_inventory)
            &&& *final(items) == *old(items)
            &&& *final(room_inventory) == *old(room_inventory)
        },
        event.command == InputCommands::INVALID_INPUT ==> (r matches Ok(ops) && ops@.len() == 0),
        event.command == InputCommands::LIST_INVENTORY ==> match inv_view(*old(player_inventory)) {
            None => (r matches Ok(ops) && ops@.len() == 0),
            Some(p) => {
                &&& (r is Err <==> !all_known(p, old(items)@))
                &&& (r is Err ==> r == Err::<Vec<DrawOp>, GameError>(GameError::MissingItem))
                &&& (r matches Ok(ops) ==> draw_views(ops@) == list_ops(old(items)@, p))
            },
        },
        event.command == InputCommands::DROP_ITEM ==> {
            let u = upper_seq(event.data@);
            match inv_view(*old(player_inventory)) {
                None => (r matches Ok(ops) && ops@.len() == 0),
                Some(p) => if p.len() == 0 {
                    &&& r matches Ok(ops)
                    &&& draw_views(ops@) == not_held_ops(u)
                    &&& *final(player_inventory) == *old(player_inventory)
                    &&& *final(items) == *old(items)
                    &&& *final(room_inventory) == *old(room_inventory)
                } else {
                    let err = drop_error(
                        old(items)@,
                        p,
                        u,
                        player_position,
                        facing.dir,
                        inv_view(*old(room_inventory)),
                    );
                    let t = drop_entity(old(items)@, p, u);
                    &&& (r is Err <==> err is Some)
                    &&& (r matches Err(e) ==> err == Some(e))
                    &&& (r matches Ok(ops) ==> {
                        &&& draw_views(ops@) == mismatch_ops(old(items)@, p, u)
                        &&& final(items)@ == old(items)@.update(
                            item_index(old(items)@, t),
                            dropped_item(old(items)@, p, u, player_position, facing.dir),
                        )
                        &&& inv_view(*final(room_inventory)) == Some(
                            inv_view(*old(room_inventory))->0.push(InventoryItem { item: t, qty: 1 }),
                        )
                        &&& inv_view(*final(player_inventory)) == Some(
                            p.remove(drop_index(old(items)@, p, u)),
                        )
                    })
                },
            }
        },
{
    if event.command == InputCommands::LIST_INVENTORY {
        return match player_inventory {
            Some(p) => list_inventory(items, &p.inventory),
            None => Ok(Vec::new()),
        };
    }
    if event.command == InputCommands::DROP_ITEM {
        let upper = to_ascii_uppercase(event.data.as_str());
        return match player_inventory {
            Some(p) => {
                if p.inventory.len() == 0 {
                    Ok(not_held(&upper))
                } else {
                    drop_from(&upper, player_position, facing.dir, p, items, room_inventory)
                }
            },
            None => Ok(Vec::new()),
        };
    }
    Ok(Vec::new())
}

/// When some line of `p` names an item called `u`, one of them is the last.
proof fn lemma_last_match_exists(items: Seq<ItemEntity>, p: Seq<InventoryItem>, u: Seq<char>)
    requires
        has_match(items, p, u),
    ensures
        is_last_match(items, p, u, drop_index(items, p, u)),
    decreases p.len(),
{
    if held_name(items, p.last()) == u {
        assert(is_last_match(items, p, u, p.len() - 1));
    } else {
        let q = p.drop_last();
        let i = choose|i: int| 0 <= i < p.len() && held_name(items, #[trigger] p[i]) == u;
        assert(q[i] == p[i]);
        assert(has_match(items, q, u));
        lemma_last_match_exists(items, q, u);
        let m = drop_index(items, q, u);
        assert(is_last_match(items, p, u, m)) by {
            assert(q[m] == p[m]);
            assert forall|j: int| m < j < p.len() implies held_name(items, #[trigger] p[j]) != u by {
                if j < p.len() - 1 {
                    assert(q[j] == p[j]);
                }
            }
        }
    }
}

/// Dropping an item that the player has loses nothing and makes nothing: the
/// item whose line leaves the player's inventory is the item whose line joins
/// the room's, so together the two inventories name the same items before and
/// after.
pub proof fn lemma_drop_conserves_items(
    items: Seq<ItemEntity>,
    p: Seq<InventoryItem>,
    u: Seq<char>,
    room: Seq<InventoryItem>,
)
    requires
        has_match(items, p, u),
    ensures
        item_ids(room.push(InventoryItem { item: drop_entity(items, p, u), qty: 1 })).add(
            item_ids(p.remove(drop_index(items, p, u))),
        ) =~= item_ids(room).add(item_ids(p)),
{
    broadcast use vstd::seq_lib::group_to_multiset_ensures;

    lemma_last_match_exists(items, p, u);
    let m = drop_index(items, p, u);
    let f = |l: InventoryItem| l.item;
    let ids = p.map_values(f);
    assert(p.remove(m).map_values(f) =~= ids.remove(m));
    assert(room.push(InventoryItem { item: p[m].item, qty: 1 }).map_values(f) =~= room.map_values(f).push(
        p[m].item,
    ));
    assert(ids[m] == p[m].item);
}

/// What a drop undoes: an item dropped into a room that held nothing is the
/// room's first item and lies on the cell it was put down on, so the player
/// who steps onto that cell picks it up again.
pub proof fn lemma_dropped_item_can_be_picked_up(
    items: Seq<ItemEntity>,
    p: Seq<InventoryItem>,
    u: Seq<char>,
    pos: Position,
    facing: CardDir,
)
    requires
        p.len() > 0,
        has_match(items, p, u),
        drop_error(items, p, u, pos, facing, Some(Seq::<InventoryItem>::empty())) is None,
    ensures
        ({
            let t = drop_entity(items, p, u);
            let moved = dropped_item(items, p, u, pos, facing);
            let after = items.update(item_index(items, t), moved);
            picks_up(Some(seq![InventoryItem { item: t, qty: 1 }]), moved.pos, after)
        }),
{
    let t = drop_entity(items, p, u);
    let moved = dropped_item(items, p, u, pos, facing);
    let k = item_index(items, t);
    let w = choose|w: int| 0 <= w < items.len() && items[w].entity == t;
    lemma_first_item_index(items, t, w);
    let after = items.update(k, moved);
    assert(is_item_index(after, t, k));
    lemma_first_item_index(after, t, k);
    let c = item_index(after, t);
    if c < k {
        assert(after[c].entity == items[c].entity);
    }
    if k < c {
        assert(after[k].entity != t);
    }
    assert(c == k);
}

/// An entity that `items` holds has a first index there.
proof fn lemma_first_item_index(items: Seq<ItemEntity>, e: EntityId, w: int)
    requires
        0 <= w < items.len(),
        items[w].entity == e,
    ensures
        is_item_index(items, e, item_index(items, e)),
    decreases w,
{
    if exists|j: int| 0 <= j < w && items[j].entity == e {
        let j = choose|j: int| 0 <= j < w && items[j].entity == e;
        lemma_first_item_index(items, e, j);
    } else {
        assert(is_item_index(items, e, w));
    }
}

/// What listing draws for the `k`-th line of `p`, one instruction at a time.
proof fn lemma_list_lines_at(items: Seq<ItemEntity>, p: Seq<InventoryItem>)
    ensures
        list_lines(items, p).len() == 3 * p.len(),
        forall|k: int, i: int|
            0 <= k < p.len() && 0 <= i < 3 ==> #[trigger] list_lines(items, p)[3 * k + i] == list_line(
                items,
                p[k],
            )[i],
    decreases p.len(),
{
    if p.len() > 0 {
        let q = p.drop_last();
        lemma_list_lines_at(items, q);
        assert forall|k: int, i: int| 0 <= k < p.len() && 0 <= i < 3 implies #[trigger] list_lines(items, p)[3 * k + i]
            == list_line(items, p[k])[i] by {
            if k < p.len() - 1 {
                assert(q[k] == p[k]);
                assert(list_lines(items, q)[3 * k + i] == list_line(items, q[k])[i]);
            }
        }
    }
}

/// Listing shows every line of the inventory, in order: after the cleared
/// panel and the heading, the `k`-th line gives three instructions, its item's
/// glyph, its item's name, and its item's name printed.
pub proof fn lemma_list_shows_every_line(items: Seq<ItemEntity>, p: Seq<InventoryItem>)
    ensures
        list_ops(items, p).len() == 2 + 3 * p.len(),
        forall|k: int|
            0 <= k < p.len() ==> {
                let it = item_of(items, #[trigger] p[k].item);
                &&& list_ops(items, p)[2 + 3 * k] == (DrawView::PutChar {
                    x: 25,
                    y: 11,
                    glyph: it.visual.glyph,
                    fg: Some(it.visual.fg),
                    bg: Some(it.visual.bg),
                })
                &&& list_ops(items, p)[3 + 3 * k] == (DrawView::PutString {
                    x: 27,
                    y: 11,
                    text: it.item.name@,
                    fg: Some(TileColor::Fore),
                    bg: None,
                })
                &&& list_ops(items, p)[4 + 3 * k] == (DrawView::Print { text: it.item.name@ })
            },
{
    lemma_list_lines_at(items, p);
    assert forall|k: int| 0 <= k < p.len() implies {
        let it = item_of(items, #[trigger] p[k].item);
        &&& list_ops(items, p)[2 + 3 * k] == (DrawView::PutChar {
            x: 25,
            y: 11,
            glyph: it.visual.glyph,
            fg: Some(it.visual.fg),
            bg: Some(it.visual.bg),
        })
        &&& list_ops(items, p)[3 + 3 * k] == (DrawView::PutString {
            x: 27,
            y: 11,
            text: it.item.name@,
            fg: Some(TileColor::Fore),
            bg: None,
        })
        &&& list_ops(items, p)[4 + 3 * k] == (DrawView::Print { text: it.item.name@ })
    } by {
        assert(list_lines(items, p)[3 * k + 0] == list_line(items, p[k])[0]);
        assert(list_lines(items, p)[3 * k + 1] == list_line(items, p[k])[1]);
        assert(list_lines(items, p)[3 * k + 2] == list_line(items, p[k])[2]);
    }
}

/// A drop that finds the item puts down that item, called as asked, on the
/// cell the player faces: one up for north, one down for south, one right for
/// east, one left for west. One that does not find it puts down the entity
/// with raw index 0 on the cell above the player.
pub proof fn lemma_drop_lands_in_front(
    items: Seq<ItemEntity>,
    p: Seq<InventoryItem>,
    u: Seq<char>,
    pos: Position,
    facing: CardDir,
)
    requires
        neighbour_fits(pos, drop_dir(items, p, u, facing)),
    ensures
        ({
            let q = dropped_item(items, p, u, pos, facing).pos;
            &&& has_match(items, p, u) ==> {
                &&& held_name(items, p[drop_index(items, p, u)]) == u
                &&& drop_entity(items, p, u) == p[drop_index(items, p, u)].item
                &&& (facing == CardDir::NORTH ==> q.x == pos.x && q.y == pos.y + 1)
                &&& (facing == CardDir::SOUTH ==> q.x == pos.x && q.y == pos.y - 1)
                &&& (facing == CardDir::EAST ==> q.x == pos.x + 1 && q.y == pos.y)
                &&& (facing == CardDir::WEST ==> q.x == pos.x - 1 && q.y == pos.y)
            }
            &&& !has_match(items, p, u) ==> {
                &&& drop_entity(items, p, u) == (EntityId { index: 0, generation: 1 })
                &&& q.x == pos.x && q.y == pos.y + 1
            }
        }),
{
    if has_match(items, p, u) {
        lemma_last_match_exists(items, p, u);
    }
}

/// A drop draws one "You don't have" message for every line of the
/// inventory that names an item with another name, and none for a line that
/// names the item asked for.
pub proof fn lemma_one_message_per_other_line(items: Seq<ItemEntity>, p: Seq<InventoryItem>, u: Seq<char>)
    ensures
        mismatch_ops(items, p, u).len() == 3 * p.filter(|l: InventoryItem| held_name(items, l) != u).len(),
        forall|i: int|
            0 <= i < mismatch_ops(items, p, u).len() ==> #[trigger] mismatch_ops(items, p, u)[i]
                == not_held_ops(u)[i % 3],
    decreases p.len(),
{
    reveal(Seq::filter);
    let m = mismatch_ops(items, p, u);
    if p.len() > 0 {
        let q = p.drop_last();
        lemma_one_message_per_other_line(items, q, u);
        let mq = mismatch_ops(items, q, u);
        assert forall|i: int| 0 <= i < m.len() implies #[trigger] m[i] == not_held_ops(u)[i % 3] by {
            if i < mq.len() {
                assert(m[i] == mq[i]);
            } else {
                assert(i - mq.len() == i % 3) by (nonlinear_arith)
                    requires
                        mq.len() % 3 == 0,
                        mq.len() <= i < mq.len() + 3,
                {
                }
            }
        }
    }
}

} // verus!
