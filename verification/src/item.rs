//! Items: what they are, where they lie, and picking them up.
use vstd::prelude::*;
use crate::common_components::{
    draw_views, lemma_draw_views_push, DrawOp, DrawView, EntityId, GameError, Position, Renderable,
    TileColor,
};
use crate::inventory::all_known;
use crate::{GAMEBOARD_WIDTH, GAME_HEIGHT};
use crate::inventory::{inv_view, item_ids, Inventory, InventoryItem};

verus! {

/// An item: its name, and whether it is shown.
#[derive(Clone, Debug, PartialEq, Eq)]
pub struct Item {
    pub name: String,
    pub visible: bool,
}

/// The components an item entity is made of.
#[derive(Clone, Debug, PartialEq, Eq)]
pub struct ItemBundle {
    pub item: Item,
    pub visual: Renderable,
    pub pos: Position,
}

/// An item entity of the world: its identity and its components.
#[derive(Clone, Debug, PartialEq, Eq)]
pub struct ItemEntity {
    pub entity: EntityId,
    pub item: Item,
    pub visual: Renderable,
    pub pos: Position,
}

/// `i` is the first index of `items` whose entity is `e`.
pub open spec fn is_item_index(items: Seq<ItemEntity>, e: EntityId, i: int) -> bool {
    &&& 0 <= i < items.len()
    &&& items[i].entity == e
    &&& forall|j: int| 0 <= j < i ==> items[j].entity != e
}

/// Some entity of `items` is `e`.
pub open spec fn has_item(items: Seq<ItemEntity>, e: EntityId) -> bool {
    exists|i: int| 0 <= i < items.len() && items[i].entity == e
}

/// The index of the item entity `e` in `items` (meaningful when it is there).
pub open spec fn item_index(items: Seq<ItemEntity>, e: EntityId) -> int {
    choose|i: int| is_item_index(items, e, i)
}

/// The item entity `e` of `items` (meaningful when it is there).
pub open spec fn item_of(items: Seq<ItemEntity>, e: EntityId) -> ItemEntity {
    items[item_index(items, e)]
}

/// Looks up the item entity `e`.
pub fn find_item(items: &Vec<ItemEntity>, e: EntityId) -> (r: Option<usize>)
    ensures
        r matches Some(i) ==> is_item_index(items@, e, i as int) && item_index(items@, e) == i,
        r is None <==> !has_item(items@, e),
{
    let n = items.len();
    for i in 0..n
        invariant
            n == items@.len(),
            forall|j: int| 0 <= j < i ==> items@[j].entity != e,
    {
        if items[i].entity == e {
            proof {
                let k = choose|k: int| is_item_index(items@, e, k);
                assert(is_item_index(items@, e, i as int));
                assert(k == i);
            }
            return Some(i);
        }
    }
    None
}

/// The room's first item is picked up: the room has an inventory that is not
/// empty, and the player stands where the item it names lies.
pub open spec fn picks_up(
    room: Option<Seq<InventoryItem>>,
    player_position: Position,
    items: Seq<ItemEntity>,
) -> bool {
    &&& room matches Some(r)
    &&& r.len() > 0
    &&& has_item(items, r[0].item)
    &&& item_of(items, r[0].item).pos == player_position
}

/// Picks up the first item of the current room when the player stands on it:
/// it leaves the room's inventory and, if the player has an inventory, joins
/// the end of it.
pub fn is_player_on_item(
    room_inventory: &mut Option<Inventory>,
    player_position: Position,
    player_inventory: &mut Option<Inventory>,
    items: &Vec<ItemEntity>,
) -> (r: Result<(), GameError>)
    ensures
        r is Err <==> (inv_view(*old(room_inventory)) matches Some(s) && s.len() > 0 && !has_item(
            items@,
            s[0].item,
        )),
        r is Err ==> r == Err::<(), GameError>(GameError::MissingItem),
        !picks_up(inv_view(*old(room_inventory)), player_position, items@) ==> {
            &&& *final(room_inventory) == *old(room_inventory)
            &&& *final(player_inventory) == *old(player_inventory)
        },
        picks_up(inv_view(*old(room_inventory)), player_position, items@) ==> {
            let s = inv_view(*old(room_inventory))->0;
            &&& inv_view(*final(room_inventory)) == Some(s.subrange(1, s.len() as int))
            &&& inv_view(*final(player_inventory)) == match inv_view(*old(player_inventory)) {
                Some(p) => Some(p.push(s[0])),
                None => None::<Seq<InventoryItem>>,
            }
        },
{
    match room_inventory {
        Some(room) => {
            if room.inventory.len() > 0 {
                let first = room.inventory[0];
                match find_item(items, first.item) {
                    None => Err(GameError::MissingItem),
                    Some(k) => {
                        if items[k].pos == player_position {
                            let taken = room.inventory.remove(0);
                            match player_inventory {
                                Some(p) => {
                                    p.inventory.push(taken);
                                },
                                None => {},
                            }
                        }
                        Ok(())
                    },
                }
            } else {
                Ok(())
            }
        },
        None => Ok(()),
    }
}

/// Picking up an item loses nothing and makes nothing: the line that leaves
/// the room's inventory is the line that joins the player's, so together the
/// two inventories name the same items before and after.
pub proof fn lemma_pickup_conserves_items(room: Seq<InventoryItem>, player: Seq<InventoryItem>)
    requires
        room.len() > 0,
    ensures
        item_ids(room.subrange(1, room.len() as int)).add(item_ids(player.push(room[0])))
            =~= item_ids(room).add(item_ids(player)),
{
    broadcast use vstd::seq_lib::group_to_multiset_ensures;

    let f = |l: InventoryItem| l.item;
    let m = room.map_values(f);
    assert(room.subrange(1, room.len() as int).map_values(f) =~= m.remove(0));
    assert(player.push(room[0]).map_values(f) =~= player.map_values(f).push(room[0].item));
    assert(m.to_multiset().count(m[0]) > 0) by {
        assert(m.contains(m[0]));
    }
}

/// What drawing the room's item line `l` does: the item in its cell, and the
/// item with its name in the side panel.
pub open spec fn item_line_ops(items: Seq<ItemEntity>, l: InventoryItem) -> Seq<DrawView> {
    let it = item_of(items, l.item);
    seq![
        DrawView::PutChar {
            x: it.pos.x,
            y: it.pos.y,
            glyph: it.visual.glyph,
            fg: Some(it.visual.fg),
            bg: Some(it.visual.bg),
        },
        DrawView::ClearBox {
            x: (GAMEBOARD_WIDTH + 1) as i32,
            y: (GAME_HEIGHT - 10) as i32,
            width: 2,
            height: 5,
        },
        DrawView::PutChar {
            x: (GAMEBOARD_WIDTH + 1) as i32,
            y: (GAME_HEIGHT - 2) as i32,
            glyph: it.visual.glyph,
            fg: Some(it.visual.fg),
            bg: Some(it.visual.bg),
        },
        DrawView::PutString {
            x: (GAMEBOARD_WIDTH + 3) as i32,
            y: (GAME_HEIGHT - 2) as i32,
            text: it.item.name@,
            fg: Some(TileColor::Fore),
            bg: None,
        },
    ]
}

/// What drawing the room's item lines `p` does, line by line.
pub open spec fn item_lines_ops(items: Seq<ItemEntity>, p: Seq<InventoryItem>) -> Seq<DrawView>
    decreases p.len(),
{
    if p.len() == 0 {
        Seq::empty()
    } else {
        item_lines_ops(items, p.drop_last()) + item_line_ops(items, p.last())
    }
}

/// Draws the items that the current room holds.
pub fn render_items(room_inventory: &Option<Inventory>, items: &Vec<ItemEntity>) -> (r: Result<
    Vec<DrawOp>,
    GameError,
>)
    ensures
        match inv_view(*room_inventory) {
            None => (r matches Ok(ops) && ops@.len() == 0),
            Some(p) => {
                &&& (r is Err <==> !all_known(p, items@))
                &&& (r is Err ==> r == Err::<Vec<DrawOp>, GameError>(GameError::MissingItem))
                &&& (r matches Ok(ops) ==> draw_views(ops@) == item_lines_ops(items@, p))
            },
        },
{
    let mut ops: Vec<DrawOp> = Vec::new();
    match room_inventory {
        None => Ok(ops),
        Some(inv) => {
            let p = &inv.inventory;
            let n = p.len();
            for i in 0..n
                invariant
                    n == p@.len(),
                    inv_view(*room_inventory) == Some(p@),
                    draw_views(ops@) =~= item_lines_ops(items@, p@.take(i as int)),
                    all_known(p@.take(i as int), items@),
            {
                let line = p[i];
                let ghost prev = p@.take(i as int);
                let ghost next = p@.take(i + 1);
                assert(next.drop_last() =~= prev);
                assert(next.last() == line);
                match find_item(items, line.item) {
                    None => {
                        assert(!all_known(p@, items@)) by {
                            assert(p@[i as int] == line);
                        }
                        return Err(GameError::MissingItem);
                    },
                    Some(k) => {
                        let it = &items[k];
                        let ghost before = draw_views(ops@);
                        let op1 = DrawOp::PutChar {
                            x: it.pos.x,
                            y: it.pos.y,
                            glyph: it.visual.glyph,
                            fg: Some(it.visual.fg),
                            bg: Some(it.visual.bg),
                        };
                        let op2 = DrawOp::ClearBox {
                            x: GAMEBOARD_WIDTH + 1,
                            y: GAME_HEIGHT - 10,
                            width: 2,
                            height: 5,
                        };
                        let op3 = DrawOp::PutChar {
                            x: GAMEBOARD_WIDTH + 1,
                            y: GAME_HEIGHT - 2,
                            glyph: it.visual.glyph,
                            fg: Some(it.visual.fg),
                            bg: Some(it.visual.bg),
                        };
                        let op4 = DrawOp::PutString {
                            x: GAMEBOARD_WIDTH + 3,
                            y: GAME_HEIGHT - 2,
                            text: it.item.name.clone(),
                            fg: Some(TileColor::Fore),
                            bg: None,
                        };
                        proof {
                            lemma_draw_views_push(ops@, op1);
                            lemma_draw_views_push(ops@.push(op1), op2);
                            lemma_draw_views_push(ops@.push(op1).push(op2), op3);
                            lemma_draw_views_push(ops@.push(op1).push(op2).push(op3), op4);
                        }
                        ops.push(op1);
                        ops.push(op2);
                        ops.push(op3);
                        ops.push(op4);
                        assert(draw_views(ops@) =~= before + item_line_ops(items@, line));
                        assert(all_known(next, items@)) by {
                            assert forall|j: int| 0 <= j < next.len() implies has_item(items@, #[trigger] next[j].item) by {
                                if j < i {
                                    assert(next[j] == prev[j]);
                                }
                            }
                        }
                    },
                }
            }
            assert(p@.take(n as int) =~= p@);
            Ok(ops)
        },
    }
}

/// What drawing the room's items gives for the `k`-th line, one instruction
/// at a time.
proof fn lemma_item_lines_at(items: Seq<ItemEntity>, p: Seq<InventoryItem>)
    ensures
        item_lines_ops(items, p).len() == 4 * p.len(),
        forall|k: int, i: int|
            0 <= k < p.len() && 0 <= i < 4 ==> #[trigger] item_lines_ops(items, p)[4 * k + i]
                == item_line_ops(items, p[k])[i],
    decreases p.len(),
{
    if p.len() > 0 {
        let q = p.drop_last();
        lemma_item_lines_at(items, q);
        assert forall|k: int, i: int| 0 <= k < p.len() && 0 <= i < 4 implies #[trigger] item_lines_ops(items, p)[4
            * k + i] == item_line_ops(items, p[k])[i] by {
            if k < p.len() - 1 {
                assert(q[k] == p[k]);
                assert(item_lines_ops(items, q)[4 * k + i] == item_line_ops(items, q[k])[i]);
            }
        }
    }
}

/// Every item of the room is drawn, in order: the `k`-th line of the room's
/// inventory gives four instructions, the first of which draws its item's
/// glyph on the cell where the item lies, and the last its item's name in
/// the side panel.
pub proof fn lemma_every_room_item_is_drawn(items: Seq<ItemEntity>, p: Seq<InventoryItem>)
    ensures
        item_lines_ops(items, p).len() == 4 * p.len(),
        forall|k: int|
            0 <= k < p.len() ==> {
                let it = item_of(items, #[trigger] p[k].item);
                &&& item_lines_ops(items, p)[4 * k] == (DrawView::PutChar {
                    x: it.pos.x,
                    y: it.pos.y,
                    glyph: it.visual.glyph,
                    fg: Some(it.visual.fg),
                    bg: Some(it.visual.bg),
                })
                &&& item_lines_ops(items, p)[4 * k + 3] == (DrawView::PutString {
                    x: 27,
                    y: 23,
                    text: it.item.name@,
                    fg: Some(TileColor::Fore),
                    bg: None,
                })
            },
{
    lemma_item_lines_at(items, p);
    assert forall|k: int| 0 <= k < p.len() implies {
        let it = item_of(items, #[trigger] p[k].item);
        &&& item_lines_ops(items, p)[4 * k] == (DrawView::PutChar {
            x: it.pos.x,
            y: it.pos.y,
            glyph: it.visual.glyph,
            fg: Some(it.visual.fg),
            bg: Some(it.visual.bg),
        })
        &&& item_lines_ops(items, p)[4 * k + 3] == (DrawView::PutString {
            x: 27,
            y: 23,
            text: it.item.name@,
            fg: Some(TileColor::Fore),
            bg: None,
        })
    } by {
        assert(item_lines_ops(items, p)[4 * k + 0] == item_line_ops(items, p[k])[0]);
        assert(item_lines_ops(items, p)[4 * k + 3] == item_line_ops(items, p[k])[3]);
    }
}

} // verus!
