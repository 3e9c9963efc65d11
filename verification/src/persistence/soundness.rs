//! What the rest of the city does leaves the markets in order.

use vstd::prelude::*;

use crate::persistence::db::DbView;
use crate::persistence::inventory::{carried, clamp_take, dropped, lemma_carried_bound, next_carried};
use crate::persistence::listings::{board_sound, listing_ok, tool_under};
use crate::persistence::market::{market_sound, order_ok, promised};
use crate::persistence::plots::rent_bought;
use crate::persistence::purse::{gold_of, has_character, lemma_paid, lemma_purse_bound, minted, paid, wealth};
use crate::persistence::rows::WarehouseItemView;
use crate::persistence::stations::bounty_paid;
use crate::persistence::stockroom::{
    banked, goods_sound, law_warehouse_conserves, tool_banked, tool_unbanked, tools_banked, tools_unbanked,
    tools_wanted, unbanked, unbanked_qty,
};
use crate::persistence::storage::fits;
use crate::persistence::warehouse::{
    credited, draw_rows, is_stock, lands, lemma_credited, lemma_drawn, lemma_states_differ, next_slot,
    slot_order, stock, stock_qty, total_stock, StockKey,
};
use crate::table::{lemma_find, lemma_least, lemma_sum_push, lemma_sum_remove};
use crate::world::tools::is_tool;

verus! {

/// Only purses, warehouses and orders matter to the markets: an operation that touches none of them, such as
/// crafting, storing, building, claiming or wearing a tool down, keeps them in order.
pub proof fn law_other_business_keeps_the_market_sound(s: DbView, t: DbView)
    requires
        market_sound(s),
        t.characters == s.characters,
        t.warehouse == s.warehouse,
        t.orders == s.orders,
    ensures
        market_sound(t),
        board_sound(s) && t.listings == s.listings ==> board_sound(t),
{
    assert forall|key: StockKey| #[trigger] promised(t.orders, key) <= stock(t.warehouse, key, "locked"@) by {
        assert(promised(s.orders, key) <= stock(s.warehouse, key, "locked"@));
    }
    assert forall|i: int| 0 <= i < t.orders.len() implies order_ok(t.characters, #[trigger] t.orders[i]) by {
        assert(order_ok(s.characters, s.orders[i]));
    }
}

/// Paying into a purse, or out of one that holds enough, keeps the markets in order.
pub proof fn law_paying_keeps_the_market_sound(s: DbView, t: DbView, id: Seq<char>, amount: int)
    requires
        market_sound(s),
        has_character(s.characters, id),
        gold_of(s.characters, id) + amount >= 0,
        wealth(s) + amount <= i64::MAX,
        t.characters == paid(s.characters, id, amount),
        t.warehouse == s.warehouse,
        t.orders == s.orders,
    ensures
        market_sound(t),
        board_sound(s) && t.listings == s.listings ==> board_sound(t),
{
    lemma_paid(s.characters, id, amount);
    assert forall|key: StockKey| #[trigger] promised(t.orders, key) <= stock(t.warehouse, key, "locked"@) by {
        assert(promised(s.orders, key) <= stock(s.warehouse, key, "locked"@));
    }
    assert forall|i: int| 0 <= i < t.orders.len() implies order_ok(t.characters, #[trigger] t.orders[i]) by {
        assert(order_ok(s.characters, s.orders[i]));
    }
    if board_sound(s) && t.listings == s.listings {
        assert forall|i: int| 0 <= i < t.listings.len() implies listing_ok(t, #[trigger] t.listings[i]) by {
            assert(listing_ok(s, s.listings[i]));
        }
    }
}

/// Creating gold keeps the markets in order.
pub proof fn law_minting_keeps_the_market_sound(s: DbView, id: Seq<char>, amount: int, reason: Seq<char>, now: int)
    requires
        market_sound(s),
        has_character(s.characters, id),
        amount > 0 ==> wealth(s) + amount <= i64::MAX,
    ensures
        market_sound(minted(s, id, amount, reason, now)),
        board_sound(s) ==> board_sound(minted(s, id, amount, reason, now)),
{
    if amount > 0 {
        lemma_purse_bound(s.characters, id);
        law_paying_keeps_the_market_sound(s, minted(s, id, amount, reason, now), id, amount);
    }
}

/// Paying rent keeps the markets in order.
pub proof fn law_rent_keeps_the_market_sound(
    s: DbView,
    character: Seq<char>,
    plot: Seq<char>,
    cost: int,
    period: int,
    now: int,
)
    requires
        market_sound(s),
        has_character(s.characters, character),
        0 <= cost <= gold_of(s.characters, character),
    ensures
        market_sound(rent_bought(s, character, plot, cost, period, now)),
{
    law_paying_keeps_the_market_sound(s, rent_bought(s, character, plot, cost, period, now), character, -cost);
}

/// Paying a bounty keeps the markets in order.
pub proof fn law_a_bounty_keeps_the_market_sound(
    s: DbView,
    character: Seq<char>,
    item: Seq<char>,
    required: int,
    gold: int,
    now: int,
    id: Seq<char>,
)
    requires
        market_sound(s),
        has_character(s.characters, character),
        gold > 0 ==> wealth(s) + gold <= i64::MAX,
    ensures
        market_sound(bounty_paid(s, character, item, required, gold, now, id)),
{
    let mid = DbView {
        inventory: dropped(s.inventory, character, item, required, id),
        ..s
    };
    law_other_business_keeps_the_market_sound(s, mid);
    law_minting_keeps_the_market_sound(mid, character, gold, "bounty"@, now);
}

/// Banking a tool leaves all locked stock as it was.
proof fn lemma_tools_banked_locked(s: DbView, market: Seq<char>, character: Seq<char>, item: Seq<char>, n: int, key: StockKey)
    ensures
        stock(tools_banked(s, market, character, item, n).warehouse, key, "locked"@) == stock(
            s.warehouse,
            key,
            "locked"@,
        ),
        tools_banked(s, market, character, item, n).characters == s.characters,
        tools_banked(s, market, character, item, n).orders == s.orders,
        tools_banked(s, market, character, item, n).listings == s.listings,
    decreases n,
{
    if n > 0 && next_carried(s.inventory, character, item) < s.inventory.len() {
        let t = tool_banked(s, market, character, item);
        lemma_states_differ();
        lemma_sum_push(s.warehouse, stock_qty(key, "locked"@), t.warehouse[s.warehouse.len() as int]);
        lemma_tools_banked_locked(t, market, character, item, n - 1, key);
    }
}

/// Taking a tool out leaves all locked stock as it was.
proof fn lemma_tools_unbanked_locked(s: DbView, from: StockKey, n: int, key: StockKey)
    ensures
        stock(tools_unbanked(s, from, n).warehouse, key, "locked"@) == stock(s.warehouse, key, "locked"@),
        tools_unbanked(s, from, n).characters == s.characters,
        tools_unbanked(s, from, n).orders == s.orders,
        tools_unbanked(s, from, n).listings == s.listings,
    decreases n,
{
    let k = next_slot(s.warehouse, from, "available"@);
    if n > 0 && k < s.warehouse.len() {
        let t = tool_unbanked(s, from);
        lemma_states_differ();
        lemma_least(s.warehouse, is_stock(from, "available"@), slot_order());
        lemma_sum_remove(s.warehouse, stock_qty(key, "locked"@), k);
        lemma_tools_unbanked_locked(t, from, n - 1, key);
    }
}

/// A state whose goods are in order, and whose purses, orders and locked stock are those of a sound one, is sound.
proof fn lemma_sound_by_frame(s: DbView, t: DbView)
    requires
        market_sound(s),
        goods_sound(t),
        t.characters == s.characters,
        t.orders == s.orders,
        t.listings == s.listings,
        forall|key: StockKey| #[trigger] stock(t.warehouse, key, "locked"@) == stock(s.warehouse, key, "locked"@),
    ensures
        market_sound(t),
        board_sound(s) && (forall|i: int|
            0 <= i < s.listings.len() ==> tool_under(t.warehouse, (#[trigger] s.listings[i]).warehouse_item_id))
            ==> board_sound(t),
{
    if board_sound(s) && (forall|i: int|
        0 <= i < s.listings.len() ==> tool_under(t.warehouse, (#[trigger] s.listings[i]).warehouse_item_id)) {
        assert forall|i: int| 0 <= i < t.listings.len() implies listing_ok(t, #[trigger] t.listings[i]) by {
            assert(listing_ok(s, s.listings[i]));
        }
    }
    assert forall|key: StockKey| #[trigger] promised(t.orders, key) <= stock(t.warehouse, key, "locked"@) by {
        assert(promised(s.orders, key) <= stock(s.warehouse, key, "locked"@));
        assert(stock(t.warehouse, key, "locked"@) == stock(s.warehouse, key, "locked"@));
    }
    assert forall|i: int| 0 <= i < t.orders.len() implies order_ok(t.characters, #[trigger] t.orders[i]) by {
        assert(order_ok(s.characters, s.orders[i]));
    }
    lemma_carried_total_nonneg(t);
}

proof fn lemma_carried_total_nonneg(s: DbView)
    requires
        goods_sound(s),
    ensures
        total_stock(s.warehouse) <= i64::MAX,
{
    lemma_carried_bound(s.inventory, Seq::empty(), Seq::empty());
}

/// Goods that are put under another id leave what is under this one.
proof fn lemma_under_credited(
    rows: Seq<WarehouseItemView>,
    key: StockKey,
    qty: int,
    slots: int,
    fresh: Seq<char>,
    id: Seq<char>,
)
    requires
        tool_under(rows, id),
        fresh != id,
    ensures
        tool_under(credited(rows, key, qty, slots, fresh), id),
{
    let after = credited(rows, key, qty, slots, fresh);
    lemma_find(rows, is_stock(key, "available"@));
    assert forall|k: int| 0 <= k < after.len() && (#[trigger] after[k]).id == id implies is_tool(after[k].item_id) by {
        if k < rows.len() {
            assert(rows[k].id == id);
        }
    }
}

proof fn lemma_under_removed(rows: Seq<WarehouseItemView>, at: int, id: Seq<char>)
    requires
        tool_under(rows, id),
        0 <= at < rows.len(),
    ensures
        tool_under(rows.remove(at), id),
{
    let after = rows.remove(at);
    assert forall|k: int| 0 <= k < after.len() && (#[trigger] after[k]).id == id implies is_tool(after[k].item_id) by {
        let j = if k < at {
            k
        } else {
            k + 1
        };
        assert(after[k] == rows[j]);
        assert(rows[j].id == id);
    }
}

/// Goods that are taken out leave what else is under an id.
proof fn lemma_under_drawn(rows: Seq<WarehouseItemView>, key: StockKey, from: Seq<char>, want: int, id: Seq<char>)
    requires
        tool_under(rows, id),
    ensures
        tool_under(draw_rows(rows, key, from, want), id),
    decreases rows.len(),
{
    let k = next_slot(rows, key, from);
    lemma_least(rows, is_stock(key, from), slot_order());
    if want <= 0 || k >= rows.len() {
    } else if rows[k].qty <= want {
        lemma_under_removed(rows, k, id);
        lemma_under_drawn(rows.remove(k), key, from, want - rows[k].qty, id);
    } else {
        let after = draw_rows(rows, key, from, want);
        assert forall|j: int| 0 <= j < after.len() && (#[trigger] after[j]).id == id implies is_tool(
            after[j].item_id,
        ) by {
            assert(rows[j].id == id);
        }
    }
}

proof fn lemma_under_tools_banked(
    s: DbView,
    market: Seq<char>,
    character: Seq<char>,
    item: Seq<char>,
    n: int,
    id: Seq<char>,
)
    requires
        tool_under(s.warehouse, id),
        is_tool(item),
    ensures
        tool_under(tools_banked(s, market, character, item, n).warehouse, id),
    decreases n,
{
    if n > 0 && next_carried(s.inventory, character, item) < s.inventory.len() {
        let t = tool_banked(s, market, character, item);
        assert forall|k: int| 0 <= k < t.warehouse.len() && (#[trigger] t.warehouse[k]).id == id implies is_tool(
            t.warehouse[k].item_id,
        ) by {
            if k < s.warehouse.len() {
                assert(s.warehouse[k].id == id);
            }
        }
        lemma_under_tools_banked(t, market, character, item, n - 1, id);
    }
}

proof fn lemma_under_tools_unbanked(s: DbView, from: StockKey, n: int, id: Seq<char>)
    requires
        tool_under(s.warehouse, id),
    ensures
        tool_under(tools_unbanked(s, from, n).warehouse, id),
    decreases n,
{
    let k = next_slot(s.warehouse, from, "available"@);
    lemma_least(s.warehouse, is_stock(from, "available"@), slot_order());
    if n > 0 && k < s.warehouse.len() {
        lemma_under_removed(s.warehouse, k, id);
        lemma_under_tools_unbanked(tool_unbanked(s, from), from, n - 1, id);
    }
}

/// Depositing goods at a market, and taking them out again, keeps the markets in order: what is escrowed is not
/// touched. The board stays in order as long as a new slot does not get the id of an instance that is listed.
pub proof fn law_moving_goods_keeps_the_market_sound(
    s: DbView,
    key: StockKey,
    qty: int,
    slots: int,
    a: Seq<char>,
    b: Seq<char>,
    ids: Seq<Seq<char>>,
)
    requires
        market_sound(s),
        goods_sound(s),
        is_tool(key.item) || ids.len() == 1,
    ensures
        market_sound(banked(s, key, qty, slots, a, b)),
        market_sound(unbanked(s, key, qty, ids)),
        board_sound(s) && (forall|i: int| 0 <= i < s.listings.len() ==> (#[trigger] s.listings[i]).warehouse_item_id != b)
            ==> board_sound(banked(s, key, qty, slots, a, b)),
        board_sound(s) ==> board_sound(unbanked(s, key, qty, ids)),
{
    law_warehouse_conserves(s, key, qty, slots, a, b, ids);
    lemma_states_differ();
    let t = banked(s, key, qty, slots, a, b);
    let u = unbanked(s, key, qty, ids);
    let wanted = tools_wanted(s, key.market, key.character, qty, slots);
    let most = fits(s.inventory, key.character, qty);
    let moved = clamp_take(qty, carried(s.inventory, key.character, key.item));
    let out = unbanked_qty(s, key, qty);
    lemma_tools_banked_locked(s, key.market, key.character, key.item, wanted, key);
    lemma_tools_unbanked_locked(s, key, most, key);
    assert forall|other: StockKey| #[trigger] stock(t.warehouse, other, "locked"@) == stock(
        s.warehouse,
        other,
        "locked"@,
    ) by {
        lemma_tools_banked_locked(s, key.market, key.character, key.item, wanted, other);
        if lands(s.warehouse, key, moved, slots) {
            lemma_credited(s.warehouse, key, moved, slots, b, other, "locked"@);
        }
    }
    assert forall|other: StockKey| #[trigger] stock(u.warehouse, other, "locked"@) == stock(
        s.warehouse,
        other,
        "locked"@,
    ) by {
        lemma_tools_unbanked_locked(s, key, most, other);
        lemma_drawn(s.warehouse, key, "available"@, out, other, "locked"@);
    }
    if board_sound(s) {
        assert forall|i: int| 0 <= i < s.listings.len() implies tool_under(
            u.warehouse,
            (#[trigger] s.listings[i]).warehouse_item_id,
        ) && (s.listings[i].warehouse_item_id != b ==> tool_under(t.warehouse, s.listings[i].warehouse_item_id)) by {
            let id = s.listings[i].warehouse_item_id;
            assert(listing_ok(s, s.listings[i]));
            if is_tool(key.item) {
                lemma_under_tools_banked(s, key.market, key.character, key.item, wanted, id);
                lemma_under_tools_unbanked(s, key, most, id);
            } else {
                lemma_under_drawn(s.warehouse, key, "available"@, out, id);
                if id != b {
                    lemma_under_credited(s.warehouse, key, moved, slots, b, id);
                }
            }
        }
    }
    lemma_sound_by_frame(s, t);
    lemma_sound_by_frame(s, u);
}

} // verus!
