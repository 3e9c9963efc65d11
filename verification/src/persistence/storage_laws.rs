//! How much moves between what is carried, what is stored at home and what lies at a market.

use vstd::prelude::*;

use crate::persistence::db::DbView;
use crate::persistence::fee_laws::lemma_slots;
use crate::persistence::inventory::{
    carried, carried_order, carried_qty, carried_total, clamp_take, dropped, ids_for, is_carried,
    is_carried_by, lemma_carried_bound, lemma_dropped, lemma_picked_up, lemma_sum_constant, next_carried,
    packed, picked_up,
};
use crate::persistence::rows::{EquipmentView, InventoryItemView, WarehouseItemView};
use crate::persistence::stockroom::{
    banked, banked_count, banked_qty, goods_sound, is_armed, law_warehouse_conserves, lemma_tool_banked,
    lemma_tool_unbanked, stack_admitted, tool_banked, tool_unbanked, tools_banked, tools_unbanked,
    tools_wanted, unbanked, unbanked_count, unbanked_qty,
};
use crate::persistence::storage::{
    deposited, fits, lemma_put_away, lemma_stored_bound, lemma_taken_out, shelved, stored, stored_qty,
    withdrawn,
};
use crate::persistence::warehouse::{
    credited, is_stock, lands, lemma_credited, lemma_draw_qty, lemma_drawn, lemma_lock_qty, lemma_locked,
    lemma_states_differ, lock_qty, lock_rows, next_slot, row_qty, slot_order, stock, stock_qty, stocked,
    total_stock, StockKey,
};
use crate::table::{
    find, lemma_filter_contains, lemma_find, lemma_least, lemma_sum_le, lemma_sum_nonneg, lemma_sum_remove,
    not, qty_if, sum,
};
use crate::world::tools::is_tool;

verus! {

/// Picking up takes as much as there is room for in a pack of fifty, and changes nothing else of what anyone carries.
pub proof fn law_a_pack_holds_fifty(
    rows: Seq<InventoryItemView>,
    character: Seq<char>,
    item: Seq<char>,
    qty: int,
    ids: Seq<Seq<char>>,
    who: Seq<char>,
    what: Seq<char>,
)
    requires
        packed(rows),
        sum(rows, carried_qty()) + 50 <= i64::MAX,
    ensures
        ({
            let load = carried_total(rows, character);
            let n = fits(rows, character, qty);
            &&& qty <= 0 || load >= 50 ==> n == 0
            &&& qty > 0 && load < 50 ==> n <= qty && n <= 50 - load && (n == qty || n == 50 - load)
            &&& ids_for(item, n, ids) ==> carried(picked_up(rows, character, item, n, ids), who, what) == carried(rows, who, what)
                + if who == character && what == item {
                n
            } else {
                0
            }
        }),
{
    let n = fits(rows, character, qty);
    if ids_for(item, n, ids) {
        lemma_load_nonneg(rows, character);
        lemma_picked_up(rows, character, item, n, ids, who, what);
    }
}

proof fn lemma_load_nonneg(rows: Seq<InventoryItemView>, character: Seq<char>)
    requires
        packed(rows),
    ensures
        carried_total(rows, character) >= 0,
{
    lemma_sum_nonneg(
        rows,
        qty_if(is_carried_by(character), carried_qty()),
    );
}

/// Taking from what is carried takes as much as is asked for, or all there is, and nothing else of anyone's.
pub proof fn law_taking_takes_what_is_there(
    rows: Seq<InventoryItemView>,
    character: Seq<char>,
    item: Seq<char>,
    qty: int,
    id: Seq<char>,
    who: Seq<char>,
    what: Seq<char>,
)
    requires
        packed(rows),
    ensures
        ({
            let held = carried(rows, character, item);
            let n = clamp_take(qty, held);
            &&& qty <= 0 ==> n == 0
            &&& qty > 0 ==> n <= qty && n <= held && (n == qty || n == held)
            &&& carried(dropped(rows, character, item, qty, id), who, what) == carried(rows, who, what) - if who == character
                && what == item {
                n
            } else {
                0
            }
        }),
{
    lemma_carried_bound(rows, character, item);
    lemma_dropped(rows, character, item, qty, id, who, what);
}

/// A deposit moves as much as is asked for, or all that is carried, from the pack into storage.
pub proof fn law_a_deposit_moves_what_is_carried(
    s: DbView,
    character: Seq<char>,
    item: Seq<char>,
    qty: int,
    a: Seq<char>,
    b: Seq<char>,
    who: Seq<char>,
    what: Seq<char>,
)
    requires
        packed(s.inventory),
        shelved(s.storage),
        sum(s.storage, stored_qty()) + sum(s.inventory, carried_qty()) <= i64::MAX,
    ensures
        ({
            let held = carried(s.inventory, character, item);
            let n = clamp_take(qty, held);
            let t = deposited(s, character, item, n, a, b);
            let moved = if who == character && what == item {
                n
            } else {
                0
            };
            &&& qty <= 0 ==> n == 0
            &&& qty > 0 ==> n <= qty && n <= held && (n == qty || n == held)
            &&& carried(t.inventory, who, what) == carried(s.inventory, who, what) - moved
            &&& stored(t.storage, who, what) == stored(s.storage, who, what) + moved
        }),
{
    let n = clamp_take(qty, carried(s.inventory, character, item));
    lemma_carried_bound(s.inventory, character, item);
    lemma_dropped(s.inventory, character, item, n, a, who, what);
    if n > 0 {
        lemma_put_away(s.storage, character, item, n, b, who, what);
    }
}

/// A withdrawal moves as much as is asked for, is stored and has room in a pack of fifty, whichever is least.
pub proof fn law_a_withdrawal_moves_what_fits(
    s: DbView,
    character: Seq<char>,
    item: Seq<char>,
    qty: int,
    a: Seq<char>,
    ids: Seq<Seq<char>>,
    who: Seq<char>,
    what: Seq<char>,
)
    requires
        packed(s.inventory),
        shelved(s.storage),
        sum(s.inventory, carried_qty()) + 50 <= i64::MAX,
    ensures
        ({
            let held = stored(s.storage, character, item);
            let load = carried_total(s.inventory, character);
            let n = fits(s.inventory, character, clamp_take(qty, held));
            let t = withdrawn(s, character, item, n, a, ids);
            let moved = if who == character && what == item {
                n
            } else {
                0
            };
            &&& qty <= 0 || load >= 50 ==> n == 0
            &&& qty > 0 && load < 50 ==> {
                &&& n <= qty && n <= held && n <= 50 - load
                &&& n == qty || n == held || n == 50 - load
            }
            &&& ids_for(item, n, ids) ==> {
                &&& carried(t.inventory, who, what) == carried(s.inventory, who, what) + moved
                &&& stored(t.storage, who, what) == stored(s.storage, who, what) - moved
            }
        }),
{
    let n = fits(s.inventory, character, clamp_take(qty, stored(s.storage, character, item)));
    lemma_stored_bound(s.storage, character, item);
    lemma_load_nonneg(s.inventory, character);
    if ids_for(item, n, ids) {
        lemma_picked_up(s.inventory, character, item, n, ids, who, what);
        lemma_taken_out(s.storage, character, item, n, a, who, what);
    }
}

/// How much of a stack a market takes in: as much as is asked for or carried, if its owner has a stack of it there or a free
/// slot, and otherwise none. It leaves the pack and is available at the market, and nothing else of anyone's moves.
pub proof fn law_a_market_takes_a_stack_in(
    s: DbView,
    key: StockKey,
    qty: int,
    slots: int,
    a: Seq<char>,
    b: Seq<char>,
    who: Seq<char>,
    what: Seq<char>,
    other: StockKey,
)
    requires
        goods_sound(s),
        !is_tool(key.item),
    ensures
        ({
            let t = banked(s, key, qty, slots, a, b);
            let n = banked_qty(s, key, qty, slots);
            let held = carried(s.inventory, key.character, key.item);
            let room = (exists|i: int|
                0 <= i < s.warehouse.len() && (#[trigger] s.warehouse[i]).market_id == key.market && s.warehouse[i].character_id
                    == key.character && s.warehouse[i].item_id == key.item && s.warehouse[i].state == "available"@)
                || s.warehouse.filter(|r: WarehouseItemView| r.market_id == key.market && r.character_id == key.character).len()
                < slots;
            &&& qty <= 0 || !room ==> n == 0
            &&& qty > 0 && room ==> n <= qty && n <= held && (n == qty || n == held)
            &&& carried(t.inventory, who, what) == carried(s.inventory, who, what) - if who == key.character && what == key.item {
                n
            } else {
                0
            }
            &&& stock(t.warehouse, other, "available"@) == stock(s.warehouse, other, "available"@) + if other == key {
                n
            } else {
                0
            }
            &&& stock(t.warehouse, other, "locked"@) == stock(s.warehouse, other, "locked"@)
        }),
{
    let p = is_stock(key, "available"@);
    let k = find(s.warehouse, p);
    lemma_find(s.warehouse, p);
    lemma_states_differ();
    lemma_slots(s.warehouse, key.market, key.character);
    lemma_carried_bound(s.inventory, key.character, key.item);
    let n = clamp_take(qty, carried(s.inventory, key.character, key.item));
    lemma_dropped(s.inventory, key.character, key.item, qty, a, who, what);
    if k < s.warehouse.len() {
        assert(s.warehouse[k].market_id == key.market);
    }
    if qty > 0 && stack_admitted(s, key, slots) && n > 0 {
        lemma_credited(s.warehouse, key, n, slots, b, other, "available"@);
        lemma_credited(s.warehouse, key, n, slots, b, other, "locked"@);
    }
}

/// How much of a stack comes back from a market: as much as is asked for, is available there and has room in a pack of fifty,
/// whichever is least.
pub proof fn law_a_market_gives_a_stack_back(
    s: DbView,
    key: StockKey,
    qty: int,
    ids: Seq<Seq<char>>,
    who: Seq<char>,
    what: Seq<char>,
    other: StockKey,
)
    requires
        goods_sound(s),
        !is_tool(key.item),
        ids.len() == 1,
    ensures
        ({
            let t = unbanked(s, key, qty, ids);
            let n = unbanked_qty(s, key, qty);
            let there = stock(s.warehouse, key, "available"@);
            let load = carried_total(s.inventory, key.character);
            &&& qty <= 0 || load >= 50 ==> n == 0
            &&& qty > 0 && load < 50 ==> {
                &&& n <= qty && n <= there && n <= 50 - load
                &&& n == qty || n == there || n == 50 - load
            }
            &&& carried(t.inventory, who, what) == carried(s.inventory, who, what) + if who == key.character && what == key.item {
                n
            } else {
                0
            }
            &&& stock(t.warehouse, other, "available"@) == stock(s.warehouse, other, "available"@) - if other == key {
                n
            } else {
                0
            }
            &&& stock(t.warehouse, other, "locked"@) == stock(s.warehouse, other, "locked"@)
        }),
{
    let n = unbanked_qty(s, key, qty);
    lemma_states_differ();
    lemma_load_nonneg(s.inventory, key.character);
    lemma_draw_qty(s.warehouse, key, "available"@, n);
    lemma_drawn(s.warehouse, key, "available"@, n, key, "available"@);
    lemma_drawn(s.warehouse, key, "available"@, n, other, "available"@);
    lemma_drawn(s.warehouse, key, "available"@, n, other, "locked"@);
    lemma_sum_nonneg(s.warehouse, row_qty());
    if n > 0 {
        law_warehouse_conserves(s, key, qty, 0, key.item, key.item, ids);
        lemma_stock_le_total(s.warehouse, key);
        lemma_picked_up(s.inventory, key.character, key.item, n, ids, who, what);
    }
}

proof fn lemma_stock_le_total(rows: Seq<WarehouseItemView>, key: StockKey)
    requires
        stocked(rows),
    ensures
        stock(rows, key, "available"@) <= total_stock(rows),
{
    lemma_sum_le(rows, stock_qty(key, "available"@), row_qty());
}

/// Locking sets aside as much as is asked for, or all that is available, and touches nothing else.
pub proof fn law_locking_sets_aside(rows: Seq<WarehouseItemView>, key: StockKey, want: int, id: Seq<char>, other: StockKey)
    requires
        stocked(rows),
        !is_tool(key.item),
    ensures
        ({
            let t = lock_rows(rows, key, want, id);
            let n = lock_qty(rows, key, want);
            let there = stock(rows, key, "available"@);
            &&& want <= 0 ==> n == 0
            &&& want > 0 ==> n <= want && n <= there && (n == want || n == there)
            &&& stock(t, other, "available"@) == stock(rows, other, "available"@) - if other == key {
                n
            } else {
                0
            }
            &&& stock(t, other, "locked"@) == stock(rows, other, "locked"@) + if other == key {
                n
            } else {
                0
            }
        }),
{
    lemma_states_differ();
    lemma_locked(rows, key, want, id, other, "available"@);
    lemma_locked(rows, key, want, id, other, "locked"@);
    if want >= 0 {
        lemma_lock_qty(rows, key, want);
    }
}

/// How many tools a market takes in: as many as are asked for, are carried and have a free slot, whichever is least. Each
/// arrives as the instance it was, under its own id and with its own wear, and what lay there stays as it was.
pub proof fn law_a_market_takes_tools_in(
    s: DbView,
    key: StockKey,
    qty: int,
    slots: int,
    a: Seq<char>,
    b: Seq<char>,
    i: int,
)
    requires
        goods_sound(s),
        is_tool(key.item),
    ensures
        ({
            let t = banked(s, key, qty, slots, a, b);
            let n = banked_qty(s, key, qty, slots);
            let held = carried(s.inventory, key.character, key.item);
            let free = slots - s.warehouse.filter(
                |r: WarehouseItemView| r.market_id == key.market && r.character_id == key.character,
            ).len();
            &&& qty <= 0 || free <= 0 ==> n == 0
            &&& qty > 0 && free > 0 ==> n <= qty && n <= held && n <= free && (n == qty || n == held || n == free)
            &&& carried(t.inventory, key.character, key.item) == held - n
            &&& t.warehouse.len() == s.warehouse.len() + n
            &&& 0 <= i < s.warehouse.len() ==> t.warehouse[i] == s.warehouse[i]
            &&& s.warehouse.len() <= i < t.warehouse.len() ==> {
                let r = t.warehouse[i];
                &&& r.market_id == key.market && r.character_id == key.character && r.item_id == key.item
                &&& r.qty == 1 && r.state == "available"@
                &&& exists|j: int| 0 <= j < s.inventory.len() && same_tool(#[trigger] s.inventory[j], r)
            }
        }),
{
    lemma_slots(s.warehouse, key.market, key.character);
    lemma_carried_bound(s.inventory, key.character, key.item);
    let n = tools_wanted(s, key.market, key.character, qty, slots);
    if qty > 0 {
        lemma_tools_in(s, key, n, i);
    }
}

/// Whether a carried tool and one at a market are the same: one owner, one id, one wear.
pub open spec fn same_tool(c: InventoryItemView, r: WarehouseItemView) -> bool {
    c.id == r.id && c.character_id == r.character_id && c.item_id == r.item_id && c.durability == r.durability
}

proof fn lemma_tools_in(s: DbView, key: StockKey, n: int, i: int)
    requires
        goods_sound(s),
        is_tool(key.item),
        n >= 0,
    ensures
        ({
            let t = tools_banked(s, key.market, key.character, key.item, n);
            let m = banked_count(s, key.market, key.character, key.item, n);
            let held = carried(s.inventory, key.character, key.item);
            &&& 0 <= m <= n && m <= held && (m == n || m == held)
            &&& carried(t.inventory, key.character, key.item) == held - m
            &&& t.warehouse.len() == s.warehouse.len() + m
            &&& 0 <= i < s.warehouse.len() ==> t.warehouse[i] == s.warehouse[i]
            &&& s.warehouse.len() <= i < t.warehouse.len() ==> {
                let r = t.warehouse[i];
                &&& r.market_id == key.market && r.character_id == key.character && r.item_id == key.item
                &&& r.qty == 1 && r.state == "available"@
                &&& exists|j: int| 0 <= j < s.inventory.len() && same_tool(#[trigger] s.inventory[j], r)
            }
        }),
    decreases n,
{
    let p = is_carried(key.character, key.item);
    let k = next_carried(s.inventory, key.character, key.item);
    lemma_least(s.inventory, p, carried_order());
    lemma_carried_bound(s.inventory, key.character, key.item);
    if k >= s.inventory.len() {
        assert forall|j: int| 0 <= j < s.inventory.len() implies qty_if(p, carried_qty())(#[trigger] s.inventory[j]) == 0 by {
            assert(!p(s.inventory[j]));
        }
        lemma_sum_constant(s.inventory, qty_if(p, carried_qty()), 0);
        assert(s.inventory.len() * 0 == 0) by (nonlinear_arith);
    } else if n > 0 {
        let u = tool_banked(s, key.market, key.character, key.item);
        lemma_tool_banked(s, key);
        lemma_tools_in(u, key, n - 1, i);
        lemma_sum_remove(s.inventory, qty_if(p, carried_qty()), k);
        assert(s.inventory[k].qty == 1);
        let t = tools_banked(s, key.market, key.character, key.item, n);
        if i == s.warehouse.len() && i < t.warehouse.len() {
            assert(t.warehouse[i] == u.warehouse[i]);
            assert(same_tool(s.inventory[k], t.warehouse[i]));
        } else if s.warehouse.len() < i < t.warehouse.len() {
            let j = choose|j: int| 0 <= j < u.inventory.len() && same_tool(#[trigger] u.inventory[j], t.warehouse[i]);
            let at = if j < k {
                j
            } else {
                j + 1
            };
            assert(u.inventory[j] == s.inventory[at]);
            assert(same_tool(s.inventory[at], t.warehouse[i]));
        } else if 0 <= i < s.warehouse.len() {
            assert(u.warehouse[i] == s.warehouse[i]);
        }
    }
}

/// How many tools come back from a market: as many as are asked for, are available there and have room in a pack of fifty,
/// whichever is least. Each comes back as the instance it was, and what was carried stays as it was.
pub proof fn law_a_market_gives_tools_back(s: DbView, key: StockKey, qty: int, ids: Seq<Seq<char>>, i: int)
    requires
        goods_sound(s),
        is_tool(key.item),
    ensures
        ({
            let t = unbanked(s, key, qty, ids);
            let n = unbanked_qty(s, key, qty);
            let there = stock(s.warehouse, key, "available"@);
            let load = carried_total(s.inventory, key.character);
            &&& qty <= 0 || load >= 50 ==> n == 0
            &&& qty > 0 && load < 50 ==> {
                &&& n <= qty && n <= there && n <= 50 - load
                &&& n == qty || n == there || n == 50 - load
            }
            &&& stock(t.warehouse, key, "available"@) == there - n
            &&& t.inventory.len() == s.inventory.len() + n
            &&& 0 <= i < s.inventory.len() ==> t.inventory[i] == s.inventory[i]
            &&& s.inventory.len() <= i < t.inventory.len() ==> {
                let c = t.inventory[i];
                &&& c.character_id == key.character && c.item_id == key.item && c.qty == 1
                &&& exists|j: int| 0 <= j < s.warehouse.len() && same_tool(c, #[trigger] s.warehouse[j])
            }
        }),
{
    lemma_load_nonneg(s.inventory, key.character);
    lemma_tools_out(s, key, fits(s.inventory, key.character, qty), i);
}

proof fn lemma_tools_out(s: DbView, key: StockKey, n: int, i: int)
    requires
        goods_sound(s),
        is_tool(key.item),
        n >= 0,
    ensures
        ({
            let t = tools_unbanked(s, key, n);
            let m = unbanked_count(s, key, n);
            let there = stock(s.warehouse, key, "available"@);
            &&& 0 <= m <= n && m <= there && (m == n || m == there)
            &&& stock(t.warehouse, key, "available"@) == there - m
            &&& t.inventory.len() == s.inventory.len() + m
            &&& 0 <= i < s.inventory.len() ==> t.inventory[i] == s.inventory[i]
            &&& s.inventory.len() <= i < t.inventory.len() ==> {
                let c = t.inventory[i];
                &&& c.character_id == key.character && c.item_id == key.item && c.qty == 1
                &&& exists|j: int| 0 <= j < s.warehouse.len() && same_tool(c, #[trigger] s.warehouse[j])
            }
        }),
    decreases n,
{
    let p = is_stock(key, "available"@);
    let k = next_slot(s.warehouse, key, "available"@);
    lemma_least(s.warehouse, p, slot_order());
    lemma_sum_nonneg(s.warehouse, stock_qty(key, "available"@));
    if k >= s.warehouse.len() {
        assert forall|j: int| 0 <= j < s.warehouse.len() implies stock_qty(key, "available"@)(#[trigger] s.warehouse[j])
            == 0 by {
            assert(!p(s.warehouse[j]));
        }
        lemma_sum_constant(s.warehouse, stock_qty(key, "available"@), 0);
        assert(s.warehouse.len() * 0 == 0) by (nonlinear_arith);
    } else if n > 0 {
        let u = tool_unbanked(s, key);
        lemma_tool_unbanked(s, key);
        lemma_tools_out(u, key, n - 1, i);
        lemma_sum_remove(s.warehouse, stock_qty(key, "available"@), k);
        assert(s.warehouse[k].qty == 1);
        let t = tools_unbanked(s, key, n);
        if i == s.inventory.len() && i < t.inventory.len() {
            assert(t.inventory[i] == u.inventory[i]);
            assert(same_tool(t.inventory[i], s.warehouse[k]));
        } else if s.inventory.len() < i < t.inventory.len() {
            let j = choose|j: int| 0 <= j < u.warehouse.len() && same_tool(t.inventory[i], #[trigger] u.warehouse[j]);
            let at = if j < k {
                j
            } else {
                j + 1
            };
            assert(u.warehouse[j] == s.warehouse[at]);
            assert(same_tool(t.inventory[i], s.warehouse[at]));
        } else if 0 <= i < s.inventory.len() {
            assert(u.inventory[i] == s.inventory[i]);
        }
    }
}

/// A tool that goes to a market is taken off, and nothing else is.
pub proof fn law_a_banked_tool_is_taken_off(s: DbView, key: StockKey, e: EquipmentView)
    requires
        next_carried(s.inventory, key.character, key.item) < s.inventory.len(),
    ensures
        ({
            let tool = s.inventory[next_carried(s.inventory, key.character, key.item)];
            tool_banked(s, key.market, key.character, key.item).equipment.contains(e) <==> s.equipment.contains(e) && !(
            e.character_id == key.character && e.instance_id == tool.id)
        }),
{
    let tool = s.inventory[next_carried(s.inventory, key.character, key.item)];
    lemma_filter_contains(s.equipment, not(is_armed(key.character, tool.id)), e);
}

/// Goods that come to a market land on a stack that their owner has there, or else in a free slot of theirs, and nowhere
/// where there is neither. No slot is used up but the one that a new stack needs.
pub proof fn law_where_goods_land(
    rows: Seq<WarehouseItemView>,
    key: StockKey,
    qty: int,
    slots: int,
    id: Seq<char>,
    other: StockKey,
)
    ensures
        ({
            let t = credited(rows, key, qty, slots, id);
            let stack = exists|i: int|
                0 <= i < rows.len() && (#[trigger] rows[i]).market_id == key.market && rows[i].character_id == key.character
                    && rows[i].item_id == key.item && rows[i].state == "available"@;
            let used = rows.filter(|r: WarehouseItemView| r.market_id == key.market && r.character_id == key.character).len();
            let landed = qty > 0 && (stack || used < slots);
            &&& lands(rows, key, qty, slots) == landed
            &&& !landed ==> t == rows
            &&& landed && stack ==> t.len() == rows.len()
            &&& landed && !stack ==> t.len() == rows.len() + 1 && t.last().id == id && t.last().qty == qty
            &&& landed ==> stock(t, other, "available"@) == stock(rows, other, "available"@) + if other == key {
                qty
            } else {
                0
            }
            &&& landed ==> stock(t, other, "locked"@) == stock(rows, other, "locked"@)
        }),
{
    let p = is_stock(key, "available"@);
    let k = find(rows, p);
    lemma_find(rows, p);
    lemma_states_differ();
    lemma_slots(rows, key.market, key.character);
    if k < rows.len() {
        assert(rows[k].market_id == key.market);
    } else {
        assert forall|i: int|
            0 <= i < rows.len() && (#[trigger] rows[i]).market_id == key.market && rows[i].character_id == key.character
                && rows[i].item_id == key.item implies rows[i].state != "available"@ by {
            assert(!p(rows[i]));
        }
    }
    if lands(rows, key, qty, slots) {
        lemma_credited(rows, key, qty, slots, id, other, "available"@);
        lemma_credited(rows, key, qty, slots, id, other, "locked"@);
    }
}

} // verus!
