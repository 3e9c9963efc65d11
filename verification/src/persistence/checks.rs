//! Whether a state is in order, for one that comes from outside.

use vstd::prelude::*;

use crate::persistence::candles::{trade_qty, trades_sound};
use crate::persistence::db::{Db, DbView};
use crate::persistence::inventory::{carried_qty, packed, MAX_CARRY};
use crate::persistence::listings::{board_sound, listing_ok, tool_under};
use crate::persistence::market::{
    lemma_escrow_nonneg, market_sound, order_ok, orders_ok, promise_qty, promised,
};
use crate::persistence::purse::{find_character, order_escrow, purse_gold, purses, solvent, wealth};
use crate::persistence::rows::{
    CharacterRecord, InventoryItem, MarketTrade, OrderRecord, OrderRecordView, StorageItem, WarehouseItem,
};
use crate::persistence::stations::{job_sound, jobs_sound, pair_qty};
use crate::persistence::stockroom::goods_sound;
use crate::persistence::storage::{shelved, stored_qty};
use crate::persistence::warehouse::{
    lemma_stock_prefix, row_qty, stock, stock_in_state, stock_key, stocked, total_stock, StockKey,
};
use crate::table::{lemma_sum_nonneg, lemma_sum_prefix, sum};
use crate::text::{pairs_view, same};
use crate::world::tools::{is_tool, tool_max_durability};

verus! {

/// Everything that the operations of the city keep, and count on.
pub open spec fn city_sound(s: DbView) -> bool {
    &&& market_sound(s)
    &&& board_sound(s)
    &&& goods_sound(s)
    &&& shelved(s.storage)
    &&& jobs_sound(s)
    &&& trades_sound(s.trades)
    &&& sum(s.inventory, carried_qty()) + MAX_CARRY <= i64::MAX
    &&& sum(s.storage, stored_qty()) + sum(s.inventory, carried_qty()) <= i64::MAX
}

fn is_instanced(item_id: &str) -> (yes: bool)
    ensures
        yes == is_tool(item_id@),
{
    tool_max_durability(item_id).is_some()
}

impl Db {
    /// Whether what is carried is in order, and how much it is in all.
    fn carried_soundly(&self) -> (total: Option<i128>)
        ensures
            total is Some == packed(self@.inventory),
            total matches Some(n) ==> n == sum(self@.inventory, carried_qty()),
    {
        let ghost rows = self@.inventory;
        let mut i: usize = 0;
        while i < self.inventory.len()
            invariant
                i <= rows.len(),
                rows == self@.inventory,
                forall|j: int|
                    0 <= j < i ==> {
                        &&& (#[trigger] rows[j]).qty >= 0
                        &&& is_tool(rows[j].item_id) ==> rows[j].qty == 1 && rows[j].durability is Some
                        &&& !is_tool(rows[j].item_id) ==> rows[j].durability is None
                    },
            decreases rows.len() - i,
        {
            let r = self.inventory.get(i);
            let tool: bool = is_instanced(r.item_id.as_str());
            let good: bool = r.qty >= 0 && if tool {
                r.qty == 1 && r.durability.is_some()
            } else {
                r.durability.is_none()
            };
            if !good {
                assert(rows[i as int] == r@);
                return None;
            }
            i = i + 1;
        }
        let f = |r: &InventoryItem| -> (n: i64)
            ensures
                n == carried_qty()(r@),
            { r.qty };
        let total: i128 = self.inventory.total(f, Ghost(carried_qty()));
        if total <= i64::MAX as i128 {
            Some(total)
        } else {
            None
        }
    }

    /// Whether the warehouses are in order, and how much they hold in all.
    fn stocked_soundly(&self) -> (total: Option<i128>)
        ensures
            total is Some == stocked(self@.warehouse),
            total matches Some(n) ==> n == total_stock(self@.warehouse),
    {
        let ghost rows = self@.warehouse;
        let mut i: usize = 0;
        while i < self.warehouse.len()
            invariant
                i <= rows.len(),
                rows == self@.warehouse,
                forall|j: int|
                    0 <= j < i ==> {
                        &&& (#[trigger] rows[j]).qty > 0
                        &&& is_tool(rows[j].item_id) == (rows[j].durability is Some)
                        &&& is_tool(rows[j].item_id) ==> rows[j].qty == 1
                    },
            decreases rows.len() - i,
        {
            let r = self.warehouse.get(i);
            let tool: bool = is_instanced(r.item_id.as_str());
            if r.qty <= 0 || tool != r.durability.is_some() || (tool && r.qty != 1) {
                assert(rows[i as int] == r@);
                return None;
            }
            i = i + 1;
        }
        let f = |r: &WarehouseItem| -> (n: i64)
            ensures
                n == row_qty()(r@),
            { r.qty };
        Some(self.warehouse.total(f, Ghost(row_qty())))
    }

    /// Whether no purse is overdrawn, and what all purses hold.
    fn solvent_purses(&self) -> (total: Option<i128>)
        ensures
            total is Some == solvent(self@.characters),
            total matches Some(n) ==> n == purses(self@) && n >= 0,
    {
        let ghost rows = self@.characters;
        let mut i: usize = 0;
        while i < self.characters.len()
            invariant
                i <= rows.len(),
                rows == self@.characters,
                forall|j: int| 0 <= j < i ==> (#[trigger] rows[j]).gold >= 0,
            decreases rows.len() - i,
        {
            if self.characters.get(i).gold < 0 {
                assert(rows[i as int].gold < 0);
                return None;
            }
            i = i + 1;
        }
        let f = |c: &CharacterRecord| -> (n: i64)
            ensures
                n == purse_gold()(c@),
            { c.gold };
        proof {
            assert forall|j: int| 0 <= j < rows.len() implies purse_gold()(#[trigger] rows[j]) >= 0 by {}
            lemma_sum_nonneg(rows, purse_gold());
        }
        Some(self.characters.total(f, Ghost(purse_gold())))
    }

    /// Whether every order may rest.
    fn orders_may_rest(&self) -> (yes: bool)
        ensures
            yes == orders_ok(self@),
    {
        let ghost s = self@;
        let mut i: usize = 0;
        while i < self.orders.len()
            invariant
                i <= s.orders.len(),
                s == self@,
                forall|j: int| 0 <= j < i ==> order_ok(s.characters, #[trigger] s.orders[j]),
            decreases s.orders.len() - i,
        {
            let o = &self.orders.get(i).order;
            let owner: usize = find_character(&self.characters, o.character_id.as_str());
            let good: bool = (same(o.side.as_str(), "buy") || same(o.side.as_str(), "sell")) && o.qty_remaining > 0
                && o.unit_price >= 0 && owner < self.characters.len() && !is_instanced(o.item_id.as_str());
            if !good {
                assert(!order_ok(s.characters, s.orders[i as int]));
                return false;
            }
            i = i + 1;
        }
        true
    }

    /// Whether all gold, in `purses` and in escrow, can be counted.
    fn wealth_counts(&self, gold: i128) -> (yes: bool)
        requires
            orders_ok(self@),
            gold == purses(self@),
            gold >= 0,
        ensures
            yes == (wealth(self@) <= i64::MAX),
    {
        let ghost s = self@;
        let ghost f = order_escrow();
        proof {
            lemma_escrow_nonneg(s);
        }
        if gold > i64::MAX as i128 {
            return false;
        }
        let mut n: i128 = gold;
        let mut i: usize = 0;
        assert(s.orders.take(0) =~= Seq::empty());
        while i < self.orders.len()
            invariant
                i <= s.orders.len(),
                s == self@,
                f == order_escrow(),
                orders_ok(s),
                gold == purses(s),
                0 <= n <= i64::MAX,
                n == gold + sum(s.orders.take(i as int), f),
            decreases s.orders.len() - i,
        {
            let o = &self.orders.get(i).order;
            proof {
                assert(order_ok(s.characters, s.orders[i as int]));
                assert(s.orders.take(i + 1).drop_last() =~= s.orders.take(i as int));
                assert forall|j: int| 0 <= j < s.orders.len() implies f(#[trigger] s.orders[j]) >= 0 by {
                    assert(order_ok(s.characters, s.orders[j]));
                    let x = s.orders[j].order;
                    assert(x.unit_price * x.qty_remaining >= 0) by (nonlinear_arith)
                        requires
                            x.unit_price >= 0,
                            x.qty_remaining > 0,
                    ;
                }
                lemma_sum_prefix(s.orders, f, i + 1);
                assert(0 <= o.unit_price * o.qty_remaining <= i64::MAX * i64::MAX) by (nonlinear_arith)
                    requires
                        0 <= o.unit_price <= i64::MAX,
                        0 < o.qty_remaining <= i64::MAX,
                ;
            }
            if same(o.side.as_str(), "buy") {
                n = n + o.unit_price as i128 * o.qty_remaining as i128;
            }
            if n > i64::MAX as i128 {
                return false;
            }
            i = i + 1;
        }
        assert(s.orders.take(i as int) =~= s.orders);
        true
    }

    /// Whether every open sell is covered by locked stock.
    fn sells_are_covered(&self) -> (yes: bool)
        requires
            orders_ok(self@),
            stocked(self@.warehouse),
            total_stock(self@.warehouse) <= i64::MAX,
        ensures
            yes == forall|key: StockKey| #[trigger]
                promised(self@.orders, key) <= stock(self@.warehouse, key, "locked"@),
    {
        let ghost s = self@;
        let mut i: usize = 0;
        while i < self.orders.len()
            invariant
                i <= s.orders.len(),
                s == self@,
                orders_ok(s),
                stocked(s.warehouse),
                total_stock(s.warehouse) <= i64::MAX,
                forall|j: int|
                    0 <= j < i ==> covered_order(s, #[trigger] s.orders[j]),
            decreases s.orders.len() - i,
        {
            let o = &self.orders.get(i).order;
            let ghost key = stock_key(o.market_id@, o.character_id@, o.item_id@);
            if same(o.side.as_str(), "sell") {
                let f = |r: &OrderRecord| -> (n: i64)
                    ensures
                        n == promise_qty(stock_key(o.market_id@, o.character_id@, o.item_id@))(r@),
                    {
                        if same(r.order.side.as_str(), "sell") && same(
                            r.order.market_id.as_str(),
                            o.market_id.as_str(),
                        ) && same(r.order.character_id.as_str(), o.character_id.as_str()) && same(
                            r.order.item_id.as_str(),
                            o.item_id.as_str(),
                        ) {
                            r.order.qty_remaining
                        } else {
                            0
                        }
                    };
                let due: i128 = self.orders.total(f, Ghost(promise_qty(key)));
                let held: i64 = stock_in_state(
                    &self.warehouse,
                    o.market_id.as_str(),
                    o.character_id.as_str(),
                    o.item_id.as_str(),
                    "locked",
                );
                if due > held as i128 {
                    assert(promised(s.orders, key) > stock(s.warehouse, key, "locked"@));
                    return false;
                }
            }
            assert(covered_order(s, s.orders[i as int]));
            i = i + 1;
        }
        assert forall|key: StockKey| #[trigger]
            promised(s.orders, key) <= stock(s.warehouse, key, "locked"@) by {
            lemma_covered(s, key);
        }
        true
    }

    /// Whether whatever is kept under an id is a tool.
    fn is_tool_under(&self, id: &str) -> (yes: bool)
        ensures
            yes == tool_under(self@.warehouse, id@),
    {
        let ghost rows = self@.warehouse;
        let mut k: usize = 0;
        while k < self.warehouse.len()
            invariant
                k <= rows.len(),
                rows == self@.warehouse,
                forall|j: int| 0 <= j < k && (#[trigger] rows[j]).id == id@ ==> is_tool(rows[j].item_id),
            decreases rows.len() - k,
        {
            let r = self.warehouse.get(k);
            if same(r.id.as_str(), id) && !is_instanced(r.item_id.as_str()) {
                assert(rows[k as int] == r@);
                return false;
            }
            k = k + 1;
        }
        true
    }

    /// Whether every listing is of a tool, at a price, by someone, with a tool in escrow.
    fn board_is_sound(&self) -> (yes: bool)
        ensures
            yes == board_sound(self@),
    {
        let ghost s = self@;
        let mut i: usize = 0;
        while i < self.listings.len()
            invariant
                i <= s.listings.len(),
                s == self@,
                forall|j: int| 0 <= j < i ==> listing_ok(s, #[trigger] s.listings[j]),
            decreases s.listings.len() - i,
        {
            let l = self.listings.get(i);
            let seller: usize = find_character(&self.characters, l.seller_id.as_str());
            if l.ask_price <= 0 || seller >= self.characters.len() || !is_instanced(l.item_id.as_str())
                || !self.is_tool_under(l.warehouse_item_id.as_str()) {
                assert(!listing_ok(s, s.listings[i as int]));
                return false;
            }
            i = i + 1;
        }
        true
    }

    /// Whether every job can be paid out or refunded.
    fn jobs_are_sound(&self) -> (yes: bool)
        ensures
            yes == jobs_sound(self@),
    {
        let ghost s = self@;
        let mut i: usize = 0;
        while i < self.jobs.len()
            invariant
                i <= s.jobs.len(),
                s == self@,
                forall|j: int| 0 <= j < i ==> job_sound(#[trigger] s.jobs[j]),
            decreases s.jobs.len() - i,
        {
            let j = self.jobs.get(i);
            if j.output_qty < 0 || !inputs_are_sound(&j.inputs) {
                assert(!job_sound(s.jobs[i as int]));
                return false;
            }
            i = i + 1;
        }
        true
    }

    /// Whether what is in storage is in order, and how much it is.
    fn storage_total(&self) -> (total: Option<i128>)
        ensures
            total is Some == shelved(self@.storage),
            total matches Some(n) ==> n == sum(self@.storage, stored_qty()),
    {
        let ghost rows = self@.storage;
        let mut i: usize = 0;
        while i < self.storage.len()
            invariant
                i <= rows.len(),
                rows == self@.storage,
                forall|j: int| 0 <= j < i ==> (#[trigger] rows[j]).qty >= 0,
            decreases rows.len() - i,
        {
            if self.storage.get(i).qty < 0 {
                assert(rows[i as int].qty < 0);
                return None;
            }
            i = i + 1;
        }
        let f = |r: &StorageItem| -> (n: i64)
            ensures
                n == stored_qty()(r@),
            { r.qty };
        let total: i128 = self.storage.total(f, Ghost(stored_qty()));
        if total <= i64::MAX as i128 {
            Some(total)
        } else {
            None
        }
    }

    /// Whether the trade ledger can be rolled up.
    fn trades_are_sound(&self) -> (yes: bool)
        ensures
            yes == trades_sound(self@.trades),
    {
        let ghost rows = self@.trades;
        let mut i: usize = 0;
        while i < self.trades.len()
            invariant
                i <= rows.len(),
                rows == self@.trades,
                forall|j: int| 0 <= j < i ==> (#[trigger] rows[j]).qty >= 0,
            decreases rows.len() - i,
        {
            if self.trades.get(i).qty < 0 {
                assert(rows[i as int].qty < 0);
                return false;
            }
            i = i + 1;
        }
        let f = |r: &MarketTrade| -> (n: i64)
            ensures
                n == trade_qty()(r@),
            { r.qty };
        self.trades.total(f, Ghost(trade_qty())) <= i64::MAX as i128 && self.trades.len() as u64 <= i64::MAX as u64
    }

    /// Whether the state is one that the operations of the city could have led to, as far as they count on it:
    /// nothing is negative, tools are instances, every sell is covered, and everything can be counted.
    pub fn is_sound(&self) -> (yes: bool)
        ensures
            yes == city_sound(self@),
    {
        let carried: i128 = match self.carried_soundly() {
            Some(n) => n,
            None => {
                return false;
            },
        };
        let stock: i128 = match self.stocked_soundly() {
            Some(n) => n,
            None => {
                return false;
            },
        };
        let stored: i128 = match self.storage_total() {
            Some(n) => n,
            None => {
                return false;
            },
        };
        let gold: i128 = match self.solvent_purses() {
            Some(n) => n,
            None => {
                return false;
            },
        };
        proof {
            let rows = self@.inventory;
            assert forall|j: int| 0 <= j < rows.len() implies carried_qty()(#[trigger] rows[j]) >= 0 by {
                assert(rows[j].qty >= 0);
            }
            lemma_sum_nonneg(rows, carried_qty());
            let shelves = self@.storage;
            assert forall|j: int| 0 <= j < shelves.len() implies stored_qty()(#[trigger] shelves[j]) >= 0 by {}
            lemma_sum_nonneg(shelves, stored_qty());
            let slots = self@.warehouse;
            assert forall|j: int| 0 <= j < slots.len() implies row_qty()(#[trigger] slots[j]) >= 0 by {
                assert(slots[j].qty > 0);
            }
            lemma_sum_nonneg(slots, row_qty());
        }
        if stock > i64::MAX as i128 || carried + stock > i64::MAX as i128 || stored + carried > i64::MAX as i128
            || carried + MAX_CARRY as i128 > i64::MAX as i128 {
            return false;
        }
        if !self.orders_may_rest() {
            return false;
        }
        if !self.wealth_counts(gold) {
            return false;
        }
        self.sells_are_covered() && self.board_is_sound() && self.jobs_are_sound() && self.trades_are_sound()
    }
}

/// Whether what an order promises, with all others of its owner, is covered.
spec fn covered_order(s: DbView, o: OrderRecordView) -> bool {
    let key = stock_key(o.order.market_id, o.order.character_id, o.order.item_id);
    o.order.side == "sell"@ ==> promised(s.orders, key) <= stock(s.warehouse, key, "locked"@)
}

/// With every order covered, every promise is.
proof fn lemma_covered(s: DbView, key: StockKey)
    requires
        orders_ok(s),
        stocked(s.warehouse),
        forall|j: int| 0 <= j < s.orders.len() ==> covered_order(s, #[trigger] s.orders[j]),
    ensures
        promised(s.orders, key) <= stock(s.warehouse, key, "locked"@),
{
    lemma_stock_prefix(s.warehouse, key, "locked"@, s.warehouse.len() as int);
    assert(s.warehouse.take(s.warehouse.len() as int) =~= s.warehouse);
    if forall|j: int| 0 <= j < s.orders.len() ==> promise_qty(key)(#[trigger] s.orders[j]) == 0 {
        lemma_no_promise(s.orders, key);
    } else {
        let j = choose|j: int| 0 <= j < s.orders.len() && promise_qty(key)(#[trigger] s.orders[j]) != 0;
        let o = s.orders[j].order;
        assert(covered_order(s, s.orders[j]));
        assert(stock_key(o.market_id, o.character_id, o.item_id) == key);
    }
}

proof fn lemma_no_promise(orders: Seq<OrderRecordView>, key: StockKey)
    requires
        forall|j: int| 0 <= j < orders.len() ==> promise_qty(key)(#[trigger] orders[j]) == 0,
    ensures
        promised(orders, key) == 0,
    decreases orders.len(),
{
    if orders.len() > 0 {
        assert(promise_qty(key)(orders[orders.len() - 1]) == 0);
        assert forall|j: int| 0 <= j < orders.drop_last().len() implies promise_qty(key)(
            #[trigger] orders.drop_last()[j],
        ) == 0 by {
            assert(orders.drop_last()[j] == orders[j]);
        }
        lemma_no_promise(orders.drop_last(), key);
    }
}

/// Whether no input is negative, and all of them can be counted.
fn inputs_are_sound(inputs: &Vec<(String, i64)>) -> (yes: bool)
    ensures
        yes == ((forall|i: int| 0 <= i < inputs@.len() ==> (#[trigger] pairs_view(inputs@)[i]).1 >= 0) && sum(
            pairs_view(inputs@),
            pair_qty(),
        ) <= i64::MAX),
{
    let ghost all = pairs_view(inputs@);
    let mut n: i128 = 0;
    let mut i: usize = 0;
    assert(all.take(0) =~= Seq::empty());
    while i < inputs.len()
        invariant
            i <= inputs.len(),
            all == pairs_view(inputs@),
            0 <= n <= i * 0x8000_0000_0000_0000,
            n == sum(all.take(i as int), pair_qty()),
            forall|j: int| 0 <= j < i ==> (#[trigger] all[j]).1 >= 0,
        decreases inputs.len() - i,
    {
        let q: i64 = inputs[i].1;
        assert(all[i as int].1 == q);
        if q < 0 {
            return false;
        }
        assert(all.take(i + 1).drop_last() =~= all.take(i as int));
        n = n + q as i128;
        i = i + 1;
    }
    assert(all.take(i as int) =~= all);
    n <= i64::MAX as i128
}

} // verus!
