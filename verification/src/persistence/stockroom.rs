//! Moving goods between what a character carries and a market's warehouse.

use vstd::prelude::*;

use crate::persistence::db::{Db, DbView};
use crate::persistence::ids::new_id;
use crate::persistence::inventory::{
    add_inventory_in_tx, carried, carried_order, carried_qty, carried_to_take, clamp_take, dropped,
    is_carried, lemma_carried_bound, lemma_dropped, lemma_picked_up, next_carried, packed, picked_up,
    remove_inventory_in_tx,
};
use crate::persistence::rows::{
    Equipment, EquipmentView, InventoryItem, InventoryItemView, WarehouseItem, WarehouseItemView,
};
use crate::persistence::storage::fits;
use crate::persistence::warehouse::{
    below, credited, draw_rows, draw_stock_in_tx, holds, is_slot, is_stock, lemma_credited, lemma_draw_qty,
    lemma_drawn, lemma_headroom, lemma_locked, lemma_states_differ, lemma_stock_prefix, lock_qty, lock_rows,
    next_slot, row_qty, slot_order, slot_to_take, slots_used, stock, stock_key, stock_qty, stocked,
    total_stock, used_slots, warehouse_credit_in_tx, warehouse_lock_in_tx, StockKey,
};
use crate::table::{
    find, lemma_least, lemma_sum_nonneg, lemma_sum_push, lemma_sum_remove, not, qty_if, rows_view, sum,
};
use crate::text::same;
use crate::world::tools::{is_tool, tool_max_durability};

verus! {

/// Whether a row arms this instance for this character.
pub open spec fn is_armed(character: Seq<char>, instance: Seq<char>) -> spec_fn(EquipmentView) -> bool {
    |e: EquipmentView| e.character_id == character && e.instance_id == instance
}

/// The state after the first carried tool of a kind goes into a warehouse: the same instance, with
/// its wear, out of the hand that held it.
pub open spec fn tool_banked(s: DbView, market: Seq<char>, character: Seq<char>, item: Seq<char>) -> DbView {
    let k = next_carried(s.inventory, character, item);
    let tool = s.inventory[k];
    DbView {
        inventory: s.inventory.remove(k),
        equipment: s.equipment.filter(not(is_armed(character, tool.id))),
        warehouse: s.warehouse.push(
            WarehouseItemView {
                id: tool.id,
                market_id: market,
                character_id: character,
                item_id: item,
                qty: 1,
                state: "available"@,
                durability: tool.durability,
            },
        ),
        ..s
    }
}

/// The state after up to `n` carried tools of a kind go into a warehouse.
pub open spec fn tools_banked(s: DbView, market: Seq<char>, character: Seq<char>, item: Seq<char>, n: int) -> DbView
    decreases n,
{
    if n <= 0 || next_carried(s.inventory, character, item) >= s.inventory.len() {
        s
    } else {
        tools_banked(tool_banked(s, market, character, item), market, character, item, n - 1)
    }
}

/// How many tools [`tools_banked`] moves.
pub open spec fn banked_count(s: DbView, market: Seq<char>, character: Seq<char>, item: Seq<char>, n: int) -> int
    decreases n,
{
    if n <= 0 || next_carried(s.inventory, character, item) >= s.inventory.len() {
        0
    } else {
        1 + banked_count(tool_banked(s, market, character, item), market, character, item, n - 1)
    }
}

/// How many tools of `qty` there are free slots for.
pub open spec fn tools_wanted(s: DbView, market: Seq<char>, character: Seq<char>, qty: int, slots: int) -> int {
    let room = slots - used_slots(s.warehouse, market, character);
    if qty <= 0 || room <= 0 {
        0
    } else if qty <= room {
        qty
    } else {
        room
    }
}

/// Whether a stack that is carried may go into a warehouse: there is a stack to merge into, or a
/// free slot.
pub open spec fn stack_admitted(s: DbView, key: StockKey, slots: int) -> bool {
    find(s.warehouse, is_stock(key, "available"@)) < s.warehouse.len() || used_slots(
        s.warehouse,
        key.market,
        key.character,
    ) < slots
}

/// The state after a warehouse deposit: tools as instances, each in a slot of its own; a stack merged
/// into the available one or in a free slot, and refused outright when there is neither.
pub open spec fn banked(
    s: DbView,
    key: StockKey,
    qty: int,
    slots: int,
    a: Seq<char>,
    b: Seq<char>,
) -> DbView {
    if qty <= 0 {
        s
    } else if is_tool(key.item) {
        tools_banked(
            s,
            key.market,
            key.character,
            key.item,
            tools_wanted(s, key.market, key.character, qty, slots),
        )
    } else if !stack_admitted(s, key, slots) {
        s
    } else {
        DbView {
            inventory: dropped(s.inventory, key.character, key.item, qty, a),
            warehouse: credited(
                s.warehouse,
                key,
                clamp_take(qty, carried(s.inventory, key.character, key.item)),
                slots,
                b,
            ),
            ..s
        }
    }
}

/// How much a warehouse deposit moves.
pub open spec fn banked_qty(s: DbView, key: StockKey, qty: int, slots: int) -> int {
    if qty <= 0 {
        0
    } else if is_tool(key.item) {
        banked_count(
            s,
            key.market,
            key.character,
            key.item,
            tools_wanted(s, key.market, key.character, qty, slots),
        )
    } else if !stack_admitted(s, key, slots) {
        0
    } else {
        clamp_take(qty, carried(s.inventory, key.character, key.item))
    }
}

/// The state after the first available tool of a kind comes back out of a warehouse, the same
/// instance with its wear.
pub open spec fn tool_unbanked(s: DbView, key: StockKey) -> DbView {
    let k = next_slot(s.warehouse, key, "available"@);
    let tool = s.warehouse[k];
    DbView {
        warehouse: s.warehouse.remove(k),
        inventory: s.inventory.push(
            InventoryItemView {
                id: tool.id,
                character_id: key.character,
                item_id: key.item,
                qty: 1,
                slot: None,
                durability: tool.durability,
            },
        ),
        ..s
    }
}

/// The state after up to `n` available tools of a kind come back out of a warehouse.
pub open spec fn tools_unbanked(s: DbView, key: StockKey, n: int) -> DbView
    decreases n,
{
    if n <= 0 || next_slot(s.warehouse, key, "available"@) >= s.warehouse.len() {
        s
    } else {
        tools_unbanked(tool_unbanked(s, key), key, n - 1)
    }
}

/// How many tools [`tools_unbanked`] moves.
pub open spec fn unbanked_count(s: DbView, key: StockKey, n: int) -> int
    decreases n,
{
    if n <= 0 || next_slot(s.warehouse, key, "available"@) >= s.warehouse.len() {
        0
    } else {
        1 + unbanked_count(tool_unbanked(s, key), key, n - 1)
    }
}

/// How much a warehouse withdrawal moves: no more than is asked for, is available, and fits.
pub open spec fn unbanked_qty(s: DbView, key: StockKey, qty: int) -> int {
    let most = fits(s.inventory, key.character, qty);
    if is_tool(key.item) {
        unbanked_count(s, key, most)
    } else {
        clamp_take(most, stock(s.warehouse, key, "available"@))
    }
}

/// The state after a warehouse withdrawal of `moved`.
pub open spec fn unbanked(s: DbView, key: StockKey, qty: int, ids: Seq<Seq<char>>) -> DbView {
    let most = fits(s.inventory, key.character, qty);
    let moved = unbanked_qty(s, key, qty);
    if is_tool(key.item) {
        tools_unbanked(s, key, most)
    } else if moved <= 0 {
        s
    } else {
        DbView {
            warehouse: draw_rows(s.warehouse, key, "available"@, moved),
            inventory: picked_up(s.inventory, key.character, key.item, moved, ids),
            ..s
        }
    }
}

/// What a character holds of an item at a market and carries: in the pack, available and locked.
pub open spec fn holding(s: DbView, key: StockKey) -> int {
    carried(s.inventory, key.character, key.item) + stock(s.warehouse, key, "available"@) + stock(
        s.warehouse,
        key,
        "locked"@,
    )
}

/// Goods can be carried and stored without losing count.
pub open spec fn goods_sound(s: DbView) -> bool {
    &&& packed(s.inventory)
    &&& stocked(s.warehouse)
    &&& sum(s.inventory, carried_qty()) + total_stock(s.warehouse) <= i64::MAX
}

/// One tool that is banked keeps everything in order.
pub proof fn lemma_tool_banked(s: DbView, key: StockKey)
    requires
        goods_sound(s),
        is_tool(key.item),
        next_carried(s.inventory, key.character, key.item) < s.inventory.len(),
    ensures
        goods_sound(tool_banked(s, key.market, key.character, key.item)),
        holding(tool_banked(s, key.market, key.character, key.item), key) == holding(s, key),
{
    let p = is_carried(key.character, key.item);
    let k = next_carried(s.inventory, key.character, key.item);
    let t = tool_banked(s, key.market, key.character, key.item);
    lemma_least(s.inventory, p, carried_order());
    lemma_states_differ();
    assert(s.inventory[k].qty == 1);
    lemma_sum_remove(s.inventory, carried_qty(), k);
    lemma_sum_remove(s.inventory, qty_if(p, carried_qty()), k);
    let row = t.warehouse[s.warehouse.len() as int];
    lemma_sum_push(s.warehouse, row_qty(), row);
    lemma_sum_push(s.warehouse, stock_qty(key, "available"@), row);
    lemma_sum_push(s.warehouse, stock_qty(key, "locked"@), row);
    assert forall|i: int| 0 <= i < t.inventory.len() implies {
        &&& (#[trigger] t.inventory[i]).qty >= 0
        &&& is_tool(t.inventory[i].item_id) ==> t.inventory[i].qty == 1 && t.inventory[i].durability is Some
        &&& !is_tool(t.inventory[i].item_id) ==> t.inventory[i].durability is None
    } by {
        let j = if i < k {
            i
        } else {
            i + 1
        };
        assert(t.inventory[i] == s.inventory[j]);
        assert(s.inventory[j].qty >= 0);
    }
}

pub proof fn lemma_tools_banked(s: DbView, key: StockKey, n: int)
    requires
        goods_sound(s),
        is_tool(key.item),
    ensures
        goods_sound(tools_banked(s, key.market, key.character, key.item, n)),
        holding(tools_banked(s, key.market, key.character, key.item, n), key) == holding(s, key),
    decreases
        if n > 0 {
            n
        } else {
            0
        },
{
    if n > 0 && next_carried(s.inventory, key.character, key.item) < s.inventory.len() {
        lemma_tool_banked(s, key);
        lemma_tools_banked(tool_banked(s, key.market, key.character, key.item), key, n - 1);
    }
}

/// One tool that comes back keeps everything in order.
pub proof fn lemma_tool_unbanked(s: DbView, key: StockKey)
    requires
        goods_sound(s),
        is_tool(key.item),
        next_slot(s.warehouse, key, "available"@) < s.warehouse.len(),
    ensures
        goods_sound(tool_unbanked(s, key)),
        holding(tool_unbanked(s, key), key) == holding(s, key),
{
    let p = is_stock(key, "available"@);
    let k = next_slot(s.warehouse, key, "available"@);
    let t = tool_unbanked(s, key);
    lemma_least(s.warehouse, p, slot_order());
    lemma_states_differ();
    assert(s.warehouse[k].qty == 1);
    lemma_sum_remove(s.warehouse, row_qty(), k);
    lemma_sum_remove(s.warehouse, stock_qty(key, "available"@), k);
    lemma_sum_remove(s.warehouse, stock_qty(key, "locked"@), k);
    let row = t.inventory[s.inventory.len() as int];
    lemma_sum_push(s.inventory, carried_qty(), row);
    lemma_sum_push(s.inventory, qty_if(is_carried(key.character, key.item), carried_qty()), row);
    assert forall|i: int| 0 <= i < t.warehouse.len() implies {
        &&& (#[trigger] t.warehouse[i]).qty > 0
        &&& is_tool(t.warehouse[i].item_id) == (t.warehouse[i].durability is Some)
        &&& is_tool(t.warehouse[i].item_id) ==> t.warehouse[i].qty == 1
    } by {
        let j = if i < k {
            i
        } else {
            i + 1
        };
        assert(t.warehouse[i] == s.warehouse[j]);
        assert(s.warehouse[j].qty > 0);
    }
    lemma_total_nonneg(t);
}

proof fn lemma_total_nonneg(s: DbView)
    requires
        stocked(s.warehouse),
    ensures
        total_stock(s.warehouse) >= 0,
{
    lemma_sum_nonneg(s.warehouse, row_qty());
}

pub proof fn lemma_tools_unbanked(s: DbView, key: StockKey, n: int)
    requires
        goods_sound(s),
        is_tool(key.item),
    ensures
        goods_sound(tools_unbanked(s, key, n)),
        holding(tools_unbanked(s, key, n), key) == holding(s, key),
    decreases
        if n > 0 {
            n
        } else {
            0
        },
{
    if n > 0 && next_slot(s.warehouse, key, "available"@) < s.warehouse.len() {
        lemma_tool_unbanked(s, key);
        lemma_tools_unbanked(tool_unbanked(s, key), key, n - 1);
    }
}

/// Depositing, withdrawing and locking move goods and neither make nor lose any: what is carried,
/// available and locked, together, stays the same.
pub proof fn law_warehouse_conserves(
    s: DbView,
    key: StockKey,
    qty: int,
    slots: int,
    a: Seq<char>,
    b: Seq<char>,
    ids: Seq<Seq<char>>,
)
    requires
        goods_sound(s),
        is_tool(key.item) || ids.len() == 1,
    ensures
        goods_sound(banked(s, key, qty, slots, a, b)),
        holding(banked(s, key, qty, slots, a, b), key) == holding(s, key),
        goods_sound(unbanked(s, key, qty, ids)),
        holding(unbanked(s, key, qty, ids), key) == holding(s, key),
        holding(DbView { warehouse: lock_rows(s.warehouse, key, qty, a), ..s }, key) == holding(s, key),
{
    lemma_states_differ();
    lemma_locked(s.warehouse, key, qty, a, key, "available"@);
    lemma_locked(s.warehouse, key, qty, a, key, "locked"@);
    lemma_carried_bound(s.inventory, key.character, key.item);
    if is_tool(key.item) {
        lemma_tools_banked(s, key, tools_wanted(s, key.market, key.character, qty, slots));
        lemma_tools_unbanked(s, key, fits(s.inventory, key.character, qty));
    } else {
        let moved = clamp_take(qty, carried(s.inventory, key.character, key.item));
        lemma_dropped(s.inventory, key.character, key.item, qty, a, key.character, key.item);
        if qty > 0 && stack_admitted(s, key, slots) && moved > 0 {
            lemma_credited(s.warehouse, key, moved, slots, b, key, "available"@);
            lemma_credited(s.warehouse, key, moved, slots, b, key, "locked"@);
        }
        let out = unbanked_qty(s, key, qty);
        if out > 0 {
            assert(s.warehouse.take(s.warehouse.len() as int) =~= s.warehouse);
            lemma_stock_prefix(s.warehouse, key, "available"@, s.warehouse.len() as int);
            lemma_total_nonneg(s);
            lemma_draw_qty(s.warehouse, key, "available"@, out);
            lemma_drawn(s.warehouse, key, "available"@, out, key, "available"@);
            lemma_drawn(s.warehouse, key, "available"@, out, key, "locked"@);
            lemma_picked_up(s.inventory, key.character, key.item, out, ids, key.character, key.item);
        }
    }
}

/// Locked stock is not the owner's to withdraw: a withdrawal leaves it as it was.
pub proof fn law_locked_stock_stays(s: DbView, key: StockKey, qty: int, ids: Seq<Seq<char>>)
    requires
        goods_sound(s),
        !is_tool(key.item),
        ids.len() == 1,
    ensures
        stock(unbanked(s, key, qty, ids).warehouse, key, "locked"@) == stock(s.warehouse, key, "locked"@),
{
    lemma_states_differ();
    let out = unbanked_qty(s, key, qty);
    lemma_drawn(s.warehouse, key, "available"@, out, key, "locked"@);
}

impl Db {
    /// Everything a character holds at a market, available and locked alike, oldest first.
    pub fn warehouse_for_character(&self, market_id: &str, character_id: &str) -> (out: Vec<WarehouseItem>)
        ensures
            rows_view(out@) == self@.warehouse.filter(is_slot(market_id@, character_id@)),
    {
        let f = |r: &WarehouseItem| -> (b: bool)
            ensures
                b == is_slot(market_id@, character_id@)(r@),
            { same(r.market_id.as_str(), market_id) && same(r.character_id.as_str(), character_id) };
        self.warehouse.select(f, Ghost(is_slot(market_id@, character_id@)))
    }

    /// Move up to `qty` of an item from what a character carries into a market's warehouse. Returns
    /// how much moved.
    ///
    /// Capacity is in slots: a stack of any size takes one, and so does each tool. A stack that would
    /// need a new slot when there is none is refused outright; topping up a stack is always allowed.
    /// A tool moves as the instance it is.
    pub fn warehouse_deposit(
        &mut self,
        market_id: &str,
        character_id: &str,
        item_id: &str,
        qty: i64,
        slots: i64,
    ) -> (moved: i64)
        requires
            goods_sound(old(self)@),
        ensures
            goods_sound(final(self)@),
            moved == banked_qty(
                old(self)@,
                stock_key(market_id@, character_id@, item_id@),
                qty as int,
                slots as int,
            ),
            exists|a: Seq<char>, b: Seq<char>|
                final(self)@ == #[trigger] banked(
                    old(self)@,
                    stock_key(market_id@, character_id@, item_id@),
                    qty as int,
                    slots as int,
                    a,
                    b,
                ),
    {
        let ghost s = self@;
        let ghost key = stock_key(market_id@, character_id@, item_id@);
        let a = new_id();
        let b = new_id();
        let ghost av = a@;
        let ghost bv = b@;
        if qty <= 0 {
            assert(self@ == banked(s, key, qty as int, slots as int, av, bv));
            return 0;
        }
        let used: usize = slots_used(&self.warehouse, market_id, character_id);
        if tool_max_durability(item_id).is_some() {
            let room: i64 = if below(used, slots) {
                slots - used as i64
            } else {
                0
            };
            let take: i64 = if qty <= room {
                qty
            } else {
                room
            };
            let mut moved: i64 = 0;
            while moved < take
                invariant_except_break
                    key == stock_key(market_id@, character_id@, item_id@),
                    is_tool(item_id@),
                    goods_sound(self@),
                    0 <= moved <= take,
                    tools_banked(s, key.market, key.character, key.item, take as int) == tools_banked(
                        self@,
                        key.market,
                        key.character,
                        key.item,
                        take - moved,
                    ),
                    banked_count(s, key.market, key.character, key.item, take as int) == moved + banked_count(
                        self@,
                        key.market,
                        key.character,
                        key.item,
                        take - moved,
                    ),
                ensures
                    goods_sound(self@),
                    tools_banked(s, key.market, key.character, key.item, take as int) == self@,
                    banked_count(s, key.market, key.character, key.item, take as int) == moved,
                decreases take - moved,
            {
                let k: usize = carried_to_take(&self.inventory, character_id, item_id);
                if k >= self.inventory.len() {
                    break ;
                }
                let ghost before = self@;
                proof {
                    lemma_tool_banked(self@, key);
                }
                let tool = self.inventory.remove(k);
                self.unarm(character_id, tool.id.as_str());
                self.warehouse.push(
                    WarehouseItem {
                        id: tool.id,
                        market_id: market_id.to_string(),
                        character_id: character_id.to_string(),
                        item_id: item_id.to_string(),
                        qty: 1,
                        state: "available".to_string(),
                        durability: tool.durability,
                    },
                );
                assert(self@ == tool_banked(before, key.market, key.character, key.item));
                moved = moved + 1;
            }
            assert(self@ == banked(s, key, qty as int, slots as int, av, bv));
            return moved;
        }
        let f = |r: &WarehouseItem| -> (b: bool)
            ensures
                b == is_stock(stock_key(market_id@, character_id@, item_id@), "available"@)(r@),
            { holds(r, market_id, character_id, item_id, "available") };
        let at: usize = self.warehouse.find(f, Ghost(is_stock(key, "available"@)));
        if at >= self.warehouse.len() && !below(used, slots) {
            assert(self@ == banked(s, key, qty as int, slots as int, av, bv));
            return 0;
        }
        proof {
            lemma_carried_bound(s.inventory, character_id@, item_id@);
            let held = carried(s.inventory, character_id@, item_id@);
            lemma_dropped(s.inventory, character_id@, item_id@, qty as int, av, character_id@, item_id@);
            lemma_headroom(s.warehouse, key, clamp_take(qty as int, held));
            if clamp_take(qty as int, held) > 0 {
                lemma_credited(s.warehouse, key, clamp_take(qty as int, held), slots as int, bv, key, "locked"@);
            }
        }
        let moved: i64 = remove_inventory_in_tx(&mut self.inventory, character_id, item_id, qty, a);
        warehouse_credit_in_tx(&mut self.warehouse, market_id, character_id, item_id, moved, slots, b);
        assert(self@ == banked(s, key, qty as int, slots as int, av, bv));
        moved
    }

    /// Disarm an instance, whatever slot it is in.
    fn unarm(&mut self, character_id: &str, instance_id: &str)
        ensures
            final(self)@ == (DbView {
                equipment: old(self)@.equipment.filter(not(is_armed(character_id@, instance_id@))),
                ..old(self)@
            }),
    {
        let f = |e: &Equipment| -> (b: bool)
            ensures
                b == is_armed(character_id@, instance_id@)(e@),
            { same(e.character_id.as_str(), character_id) && same(e.instance_id.as_str(), instance_id) };
        self.equipment.delete_where(f, Ghost(is_armed(character_id@, instance_id@)));
    }

    /// Move up to `qty` of an item from a market's warehouse into what a character carries, as far as
    /// it fits. Only available stock moves; what is locked is escrowed. Returns how much moved.
    pub fn warehouse_withdraw(&mut self, market_id: &str, character_id: &str, item_id: &str, qty: i64) -> (moved: i64)
        requires
            goods_sound(old(self)@),
        ensures
            goods_sound(final(self)@),
            moved == unbanked_qty(old(self)@, stock_key(market_id@, character_id@, item_id@), qty as int),
            exists|ids: Seq<Seq<char>>|
                (is_tool(item_id@) || ids.len() == 1) && final(self)@ == #[trigger] unbanked(
                    old(self)@,
                    stock_key(market_id@, character_id@, item_id@),
                    qty as int,
                    ids,
                ),
    {
        let ghost s = self@;
        let ghost key = stock_key(market_id@, character_id@, item_id@);
        let ghost none = seq![Seq::<char>::empty()];
        let room: i64 = self.room_to_carry(character_id);
        let most: i64 = if qty <= 0 {
            0
        } else if qty <= room {
            qty
        } else {
            room
        };
        if tool_max_durability(item_id).is_some() {
            let mut moved: i64 = 0;
            while moved < most
                invariant_except_break
                    key == stock_key(market_id@, character_id@, item_id@),
                    is_tool(item_id@),
                    goods_sound(self@),
                    0 <= moved <= most,
                    tools_unbanked(s, key, most as int) == tools_unbanked(self@, key, most - moved),
                    unbanked_count(s, key, most as int) == moved + unbanked_count(self@, key, most - moved),
                ensures
                    goods_sound(self@),
                    tools_unbanked(s, key, most as int) == self@,
                    unbanked_count(s, key, most as int) == moved,
                decreases most - moved,
            {
                let k: usize = slot_to_take(&self.warehouse, market_id, character_id, item_id, "available");
                if k >= self.warehouse.len() {
                    break ;
                }
                let ghost before = self@;
                proof {
                    lemma_tool_unbanked(self@, key);
                }
                let tool = self.warehouse.remove(k);
                self.inventory.push(
                    InventoryItem {
                        id: tool.id,
                        character_id: character_id.to_string(),
                        item_id: item_id.to_string(),
                        qty: 1,
                        slot: None,
                        durability: tool.durability,
                    },
                );
                assert(self@ == tool_unbanked(before, key));
                moved = moved + 1;
            }
            assert(self@ == unbanked(s, key, qty as int, none));
            return moved;
        }
        proof {
            lemma_total_nonneg(s);
            lemma_carried_bound(s.inventory, character_id@, item_id@);
            lemma_stock_prefix(s.warehouse, key, "available"@, s.warehouse.len() as int);
            assert(s.warehouse.take(s.warehouse.len() as int) =~= s.warehouse);
        }
        let held: i64 = self.available_stock(market_id, character_id, item_id);
        let moved: i64 = if most <= held {
            most
        } else {
            held
        };
        if moved <= 0 {
            assert(self@ == unbanked(s, key, qty as int, none));
            return 0;
        }
        proof {
            lemma_draw_qty(s.warehouse, key, "available"@, moved as int);
        }
        let taken: i64 = draw_stock_in_tx(
            &mut self.warehouse,
            market_id,
            character_id,
            item_id,
            "available",
            moved,
        );
        proof {
            lemma_total_nonneg(self@);
        }
        let ids = add_inventory_in_tx(&mut self.inventory, character_id, item_id, moved);
        proof {
            lemma_picked_up(s.inventory, character_id@, item_id@, moved as int, ids@, character_id@, item_id@);
            assert(self@ == unbanked(s, key, qty as int, ids@));
        }
        moved
    }

    /// Lock up to `qty` of the available stock of an item. Returns how much was locked.
    pub fn warehouse_lock(&mut self, market_id: &str, character_id: &str, item_id: &str, qty: i64) -> (locked: i64)
        requires
            stocked(old(self)@.warehouse),
            total_stock(old(self)@.warehouse) <= i64::MAX,
        ensures
            locked == lock_qty(
                old(self)@.warehouse,
                stock_key(market_id@, character_id@, item_id@),
                qty as int,
            ),
            exists|id: Seq<char>|
                final(self)@ == (DbView {
                    warehouse: #[trigger] lock_rows(
                        old(self)@.warehouse,
                        stock_key(market_id@, character_id@, item_id@),
                        qty as int,
                        id,
                    ),
                    ..old(self)@
                }),
    {
        let id = new_id();
        warehouse_lock_in_tx(&mut self.warehouse, market_id, character_id, item_id, qty, id)
    }
}

} // verus!
