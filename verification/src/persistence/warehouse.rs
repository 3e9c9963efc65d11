//! Market warehouses: stock that is available, and stock that is locked in escrow.

use vstd::prelude::*;

use crate::persistence::rows::{WarehouseItem, WarehouseItemView};
use crate::table::{
    count, find, least, lemma_find, lemma_least, lemma_sum_le, lemma_sum_nonneg, lemma_sum_prefix,
    lemma_sum_push, lemma_sum_remove, lemma_sum_update, sum, Table,
};
use crate::text::{before, same, text_before};
use crate::world::tools::is_tool;

verus! {

/// A kind of stock: what one character holds of one item at one market.
pub struct StockKey {
    pub market: Seq<char>,
    pub character: Seq<char>,
    pub item: Seq<char>,
}

pub open spec fn stock_key(market: Seq<char>, character: Seq<char>, item: Seq<char>) -> StockKey {
    StockKey { market, character, item }
}

/// Whether a row is a slot of this character's warehouse at this market.
pub open spec fn is_slot(market: Seq<char>, character: Seq<char>) -> spec_fn(WarehouseItemView) -> bool {
    |r: WarehouseItemView| r.market_id == market && r.character_id == character
}

/// Whether a row holds this stock in this state.
pub open spec fn is_stock(key: StockKey, state: Seq<char>) -> spec_fn(WarehouseItemView) -> bool {
    |r: WarehouseItemView|
        {
            &&& r.market_id == key.market
            &&& r.character_id == key.character
            &&& r.item_id == key.item
            &&& r.state == state
        }
}

/// What a row adds to this stock in this state.
pub open spec fn stock_qty(key: StockKey, state: Seq<char>) -> spec_fn(WarehouseItemView) -> int {
    |r: WarehouseItemView|
        if is_stock(key, state)(r) {
            r.qty
        } else {
            0
        }
}

/// How much of a kind of stock is held in a state.
pub open spec fn stock(rows: Seq<WarehouseItemView>, key: StockKey, state: Seq<char>) -> int {
    sum(rows, stock_qty(key, state))
}

pub open spec fn row_qty() -> spec_fn(WarehouseItemView) -> int {
    |r: WarehouseItemView| r.qty
}

/// How much is held in all, of everything, by everyone.
pub open spec fn total_stock(rows: Seq<WarehouseItemView>) -> int {
    sum(rows, row_qty())
}

pub open spec fn item_qty(item: Seq<char>) -> spec_fn(WarehouseItemView) -> int {
    |r: WarehouseItemView|
        if r.item_id == item {
            r.qty
        } else {
            0
        }
}

/// How much of an item is held in all, at every market, by everyone.
pub open spec fn item_stock(rows: Seq<WarehouseItemView>, item: Seq<char>) -> int {
    sum(rows, item_qty(item))
}

/// No slot is empty, and a tool takes a slot of its own.
pub open spec fn stocked(rows: Seq<WarehouseItemView>) -> bool {
    forall|i: int|
        0 <= i < rows.len() ==> {
            &&& (#[trigger] rows[i]).qty > 0
            &&& is_tool(rows[i].item_id) == (rows[i].durability is Some)
            &&& is_tool(rows[i].item_id) ==> rows[i].qty == 1
        }
}

/// How many slots a character uses at a market.
pub open spec fn used_slots(rows: Seq<WarehouseItemView>, market: Seq<char>, character: Seq<char>) -> int {
    count(rows, is_slot(market, character))
}

/// Whether a credit has somewhere to go: a stack to merge into, or a free slot.
pub open spec fn lands(rows: Seq<WarehouseItemView>, key: StockKey, qty: int, slots: int) -> bool {
    qty > 0 && (find(rows, is_stock(key, "available"@)) < rows.len() || used_slots(
        rows,
        key.market,
        key.character,
    ) < slots)
}

/// Whether the available stack, if there is one, can count `qty` more.
pub open spec fn has_headroom(rows: Seq<WarehouseItemView>, key: StockKey, qty: int) -> bool {
    let k = find(rows, is_stock(key, "available"@));
    k < rows.len() ==> rows[k].qty + qty <= i64::MAX
}

/// The rows after goods are put into a warehouse: merged into the available stack, or in a new
/// slot under `id`. Goods that do not land change nothing.
pub open spec fn credited(
    rows: Seq<WarehouseItemView>,
    key: StockKey,
    qty: int,
    slots: int,
    id: Seq<char>,
) -> Seq<WarehouseItemView> {
    let k = find(rows, is_stock(key, "available"@));
    if !lands(rows, key, qty, slots) {
        rows
    } else if k < rows.len() {
        rows.update(k, WarehouseItemView { qty: rows[k].qty + qty, ..rows[k] })
    } else {
        rows.push(
            WarehouseItemView {
                id,
                market_id: key.market,
                character_id: key.character,
                item_id: key.item,
                qty,
                state: "available"@,
                durability: None,
            },
        )
    }
}

/// Slots are taken in the order of their ids.
pub open spec fn slot_order() -> spec_fn(WarehouseItemView, WarehouseItemView) -> bool {
    |a: WarehouseItemView, b: WarehouseItemView| text_before(a.id, b.id)
}

/// The slot that a kind of stock in a state is taken from next.
pub open spec fn next_slot(rows: Seq<WarehouseItemView>, key: StockKey, state: Seq<char>) -> int {
    least(rows, is_stock(key, state), slot_order())
}

/// The rows after up to `want` of the available stock is locked, slot by slot. A stack of which only a part is wanted is
/// split: the locked part goes under `id`. An empty slot would end it; there is none.
pub open spec fn lock_rows(
    rows: Seq<WarehouseItemView>,
    key: StockKey,
    want: int,
    id: Seq<char>,
) -> Seq<WarehouseItemView>
    decreases
        if want > 0 {
            want
        } else {
            0
        },
{
    let k = next_slot(rows, key, "available"@);
    if want <= 0 || k >= rows.len() || rows[k].qty <= 0 {
        rows
    } else if rows[k].durability is Some || rows[k].qty <= want {
        lock_rows(rows.update(k, WarehouseItemView { state: "locked"@, ..rows[k] }), key, want - rows[k].qty, id)
    } else {
        rows.update(k, WarehouseItemView { qty: rows[k].qty - want, ..rows[k] }).push(
            WarehouseItemView {
                id,
                market_id: key.market,
                character_id: key.character,
                item_id: key.item,
                qty: want,
                state: "locked"@,
                durability: None,
            },
        )
    }
}

/// How much is locked by [`lock_rows`].
pub open spec fn lock_qty(rows: Seq<WarehouseItemView>, key: StockKey, want: int) -> int
    decreases
        if want > 0 {
            want
        } else {
            0
        },
{
    let k = next_slot(rows, key, "available"@);
    if want <= 0 || k >= rows.len() || rows[k].qty <= 0 {
        0
    } else if rows[k].durability is Some || rows[k].qty <= want {
        rows[k].qty + lock_qty(
            rows.update(k, WarehouseItemView { state: "locked"@, ..rows[k] }),
            key,
            want - rows[k].qty,
        )
    } else {
        want
    }
}

/// The rows after up to `want` of the stock in one state is taken out, slot by slot.
pub open spec fn draw_rows(
    rows: Seq<WarehouseItemView>,
    key: StockKey,
    from: Seq<char>,
    want: int,
) -> Seq<WarehouseItemView>
    decreases rows.len(),
{
    let k = next_slot(rows, key, from);
    if want <= 0 || k < 0 || k >= rows.len() {
        rows
    } else if rows[k].qty <= want {
        draw_rows(rows.remove(k), key, from, want - rows[k].qty)
    } else {
        rows.update(k, WarehouseItemView { qty: rows[k].qty - want, ..rows[k] })
    }
}

/// How much is taken out by [`draw_rows`].
pub open spec fn draw_qty(
    rows: Seq<WarehouseItemView>,
    key: StockKey,
    from: Seq<char>,
    want: int,
) -> int
    decreases rows.len(),
{
    let k = next_slot(rows, key, from);
    if want <= 0 || k < 0 || k >= rows.len() {
        0
    } else if rows[k].qty <= want {
        rows[k].qty + draw_qty(rows.remove(k), key, from, want - rows[k].qty)
    } else {
        want
    }
}

/// The rows after `qty` is taken out of escrow and, with `back`, made available to its owner again.
pub open spec fn released(
    rows: Seq<WarehouseItemView>,
    key: StockKey,
    qty: int,
    back: bool,
    id: Seq<char>,
) -> Seq<WarehouseItemView> {
    let out = draw_rows(rows, key, "locked"@, qty);
    if back {
        credited(out, key, draw_qty(rows, key, "locked"@, qty), i64::MAX as int, id)
    } else {
        out
    }
}

/// `qty` when the two stocks and states are the same, else 0.
pub open spec fn matching(a: StockKey, a_state: Seq<char>, b: StockKey, b_state: Seq<char>, qty: int) -> int {
    if a == b && a_state == b_state {
        qty
    } else {
        0
    }
}

pub proof fn lemma_states_differ()
    ensures
        "available"@ != "locked"@,
{
    reveal_strlit("available");
    reveal_strlit("locked");
    assert("available"@.len() == 9);
    assert("locked"@.len() == 6);
}

/// A stack can count whatever fits beside all the stock there is.
pub proof fn lemma_headroom(rows: Seq<WarehouseItemView>, key: StockKey, qty: int)
    requires
        stocked(rows),
        total_stock(rows) + qty <= i64::MAX,
    ensures
        has_headroom(rows, key, qty),
        total_stock(rows) >= 0,
{
    lemma_find(rows, is_stock(key, "available"@));
    lemma_sum_nonneg(rows, row_qty());
    let k = find(rows, is_stock(key, "available"@));
    if k < rows.len() {
        assert(row_qty()(rows[k]) == rows[k].qty);
    }
}

/// Every slot holds something, so there are no more slots than goods.
pub proof fn lemma_slots_le_stock(rows: Seq<WarehouseItemView>, market: Seq<char>, character: Seq<char>)
    requires
        stocked(rows),
    ensures
        0 <= used_slots(rows, market, character) <= total_stock(rows),
{
    let one = |r: WarehouseItemView|
        if is_slot(market, character)(r) {
            1int
        } else {
            0int
        };
    assert forall|i: int| 0 <= i < rows.len() implies one(#[trigger] rows[i]) <= row_qty()(rows[i]) by {}
    lemma_sum_le(rows, one, row_qty());
    lemma_sum_nonneg(rows, one);
}

/// A stack can count what is locked, since both are part of all the stock there is.
pub proof fn lemma_headroom_locked(rows: Seq<WarehouseItemView>, key: StockKey, other: StockKey, qty: int)
    requires
        stocked(rows),
        total_stock(rows) <= i64::MAX,
        qty <= stock(rows, other, "locked"@),
    ensures
        has_headroom(rows, key, qty),
{
    lemma_states_differ();
    let k = find(rows, is_stock(key, "available"@));
    lemma_find(rows, is_stock(key, "available"@));
    if k < rows.len() {
        let gone = WarehouseItemView { qty: 0, ..rows[k] };
        lemma_sum_update(rows, stock_qty(other, "locked"@), k, gone);
        lemma_sum_update(rows, row_qty(), k, gone);
        lemma_sum_le(rows.update(k, gone), stock_qty(other, "locked"@), row_qty());
    }
}

/// A credit that lands adds its quantity to the available stock, and to nothing else.
pub proof fn lemma_credited(
    rows: Seq<WarehouseItemView>,
    key: StockKey,
    qty: int,
    slots: int,
    id: Seq<char>,
    other: StockKey,
    state: Seq<char>,
)
    requires
        lands(rows, key, qty, slots),
    ensures
        stock(credited(rows, key, qty, slots, id), other, state) == stock(rows, other, state) + matching(
            key,
            "available"@,
            other,
            state,
            qty,
        ),
        total_stock(credited(rows, key, qty, slots, id)) == total_stock(rows) + qty,
        item_stock(credited(rows, key, qty, slots, id), other.item) == item_stock(rows, other.item) + if key.item
            == other.item {
            qty
        } else {
            0
        },
        stocked(rows) && !is_tool(key.item) ==> stocked(credited(rows, key, qty, slots, id)),
{
    let k = find(rows, is_stock(key, "available"@));
    lemma_find(rows, is_stock(key, "available"@));
    if k < rows.len() {
        let row = WarehouseItemView { qty: rows[k].qty + qty, ..rows[k] };
        lemma_sum_update(rows, stock_qty(other, state), k, row);
        lemma_sum_update(rows, row_qty(), k, row);
        lemma_sum_update(rows, item_qty(other.item), k, row);
        if is_stock(other, state)(rows[k]) {
            assert(key == other);
        }
    } else {
        let row = WarehouseItemView {
            id,
            market_id: key.market,
            character_id: key.character,
            item_id: key.item,
            qty,
            state: "available"@,
            durability: None,
        };
        lemma_sum_push(rows, stock_qty(other, state), row);
        lemma_sum_push(rows, row_qty(), row);
        lemma_sum_push(rows, item_qty(other.item), row);
        if is_stock(other, state)(row) {
            assert(key == other);
        }
    }
}

/// Locking moves its quantity from the available stock to the locked, and touches nothing else.
pub proof fn lemma_locked(
    rows: Seq<WarehouseItemView>,
    key: StockKey,
    want: int,
    id: Seq<char>,
    other: StockKey,
    state: Seq<char>,
)
    ensures
        stock(lock_rows(rows, key, want, id), other, state) == stock(rows, other, state) - matching(
            key,
            "available"@,
            other,
            state,
            lock_qty(rows, key, want),
        ) + matching(key, "locked"@, other, state, lock_qty(rows, key, want)),
        total_stock(lock_rows(rows, key, want, id)) == total_stock(rows),
        item_stock(lock_rows(rows, key, want, id), other.item) == item_stock(rows, other.item),
    decreases
        if want > 0 {
            want
        } else {
            0
        },
{
    lemma_states_differ();
    let k = next_slot(rows, key, "available"@);
    lemma_least(rows, is_stock(key, "available"@), slot_order());
    if want <= 0 || k >= rows.len() || rows[k].qty <= 0 {
    } else if rows[k].durability is Some || rows[k].qty <= want {
        let row = WarehouseItemView { state: "locked"@, ..rows[k] };
        let next = rows.update(k, row);
        lemma_sum_update(rows, stock_qty(other, state), k, row);
        lemma_sum_update(rows, row_qty(), k, row);
        lemma_sum_update(rows, item_qty(other.item), k, row);
        lemma_locked(next, key, want - rows[k].qty, id, other, state);
        if is_stock(other, "available"@)(rows[k]) || is_stock(other, "locked"@)(row) {
            assert(key == other);
        }
    } else {
        let row = WarehouseItemView { qty: rows[k].qty - want, ..rows[k] };
        let split = WarehouseItemView {
            id,
            market_id: key.market,
            character_id: key.character,
            item_id: key.item,
            qty: want,
            state: "locked"@,
            durability: None,
        };
        lemma_sum_update(rows, stock_qty(other, state), k, row);
        lemma_sum_update(rows, row_qty(), k, row);
        lemma_sum_update(rows, item_qty(other.item), k, row);
        lemma_sum_push(rows.update(k, row), stock_qty(other, state), split);
        lemma_sum_push(rows.update(k, row), row_qty(), split);
        lemma_sum_push(rows.update(k, row), item_qty(other.item), split);
        if is_stock(other, "available"@)(rows[k]) || is_stock(other, "locked"@)(split) {
            assert(key == other);
        }
    }
}

/// A stock of which there is no slot is none.
proof fn lemma_no_slot(rows: Seq<WarehouseItemView>, key: StockKey, state: Seq<char>)
    requires
        stocked(rows),
    ensures
        stock(rows, key, state) >= 0,
        next_slot(rows, key, state) >= rows.len() ==> stock(rows, key, state) == 0,
        0 <= next_slot(rows, key, state) < rows.len() ==> rows[next_slot(rows, key, state)].qty <= stock(
            rows,
            key,
            state,
        ),
{
    let f = stock_qty(key, state);
    lemma_least(rows, is_stock(key, state), slot_order());
    lemma_sum_nonneg(rows, f);
    if next_slot(rows, key, state) >= rows.len() {
        let none = |r: WarehouseItemView| 0int;
        assert forall|i: int| 0 <= i < rows.len() implies f(#[trigger] rows[i]) <= none(rows[i]) by {}
        lemma_sum_le(rows, f, none);
        lemma_sum_zero(rows, none);
    } else {
        assert(f(rows[next_slot(rows, key, state)]) == rows[next_slot(rows, key, state)].qty);
    }
}

proof fn lemma_sum_zero(rows: Seq<WarehouseItemView>, f: spec_fn(WarehouseItemView) -> int)
    requires
        forall|r: WarehouseItemView| #[trigger] f(r) == 0,
    ensures
        sum(rows, f) == 0,
    decreases rows.len(),
{
    if rows.len() > 0 {
        lemma_sum_zero(rows.drop_last(), f);
    }
}

/// What is locked is what is wanted, as far as the available stock goes.
pub proof fn lemma_lock_qty(rows: Seq<WarehouseItemView>, key: StockKey, want: int)
    requires
        stocked(rows),
        want >= 0,
    ensures
        lock_qty(rows, key, want) == if want <= stock(rows, key, "available"@) {
            want
        } else {
            stock(rows, key, "available"@)
        },
        stock(rows, key, "available"@) >= 0,
    decreases want,
{
    let k = next_slot(rows, key, "available"@);
    lemma_states_differ();
    lemma_least(rows, is_stock(key, "available"@), slot_order());
    lemma_no_slot(rows, key, "available"@);
    if want <= 0 || k >= rows.len() {
    } else if rows[k].durability is Some || rows[k].qty <= want {
        let row = WarehouseItemView { state: "locked"@, ..rows[k] };
        lemma_sum_update(rows, stock_qty(key, "available"@), k, row);
        lemma_lock_qty(rows.update(k, row), key, want - rows[k].qty);
    }
}

/// When nothing is locked, nothing changes.
pub proof fn lemma_lock_none(rows: Seq<WarehouseItemView>, key: StockKey, want: int, id: Seq<char>)
    requires
        stocked(rows),
    ensures
        lock_qty(rows, key, want) >= 0,
        lock_qty(rows, key, want) == 0 ==> lock_rows(rows, key, want, id) == rows,
{
    lemma_least(rows, is_stock(key, "available"@), slot_order());
    if want > 0 {
        lemma_lock_qty(rows, key, want);
        lemma_no_slot(rows, key, "available"@);
    }
}

pub proof fn lemma_locked_stocked(rows: Seq<WarehouseItemView>, key: StockKey, want: int, id: Seq<char>)
    requires
        stocked(rows),
    ensures
        stocked(lock_rows(rows, key, want, id)),
    decreases
        if want > 0 {
            want
        } else {
            0
        },
{
    let k = next_slot(rows, key, "available"@);
    lemma_least(rows, is_stock(key, "available"@), slot_order());
    if want <= 0 || k >= rows.len() || rows[k].qty <= 0 {
    } else if rows[k].durability is Some || rows[k].qty <= want {
        lemma_locked_stocked(
            rows.update(k, WarehouseItemView { state: "locked"@, ..rows[k] }),
            key,
            want - rows[k].qty,
            id,
        );
    }
}

/// Taking goods out takes them out of the stock in that state, and touches nothing else.
pub proof fn lemma_drawn(
    rows: Seq<WarehouseItemView>,
    key: StockKey,
    from: Seq<char>,
    want: int,
    other: StockKey,
    state: Seq<char>,
)
    ensures
        stock(draw_rows(rows, key, from, want), other, state) == stock(rows, other, state) - matching(
            key,
            from,
            other,
            state,
            draw_qty(rows, key, from, want),
        ),
        total_stock(draw_rows(rows, key, from, want)) == total_stock(rows) - draw_qty(rows, key, from, want),
        item_stock(draw_rows(rows, key, from, want), other.item) == item_stock(rows, other.item) - if key.item
            == other.item {
            draw_qty(rows, key, from, want)
        } else {
            0
        },
    decreases rows.len(),
{
    let k = next_slot(rows, key, from);
    lemma_least(rows, is_stock(key, from), slot_order());
    if want <= 0 || k >= rows.len() {
    } else if rows[k].qty <= want {
        lemma_sum_remove(rows, stock_qty(other, state), k);
        lemma_sum_remove(rows, row_qty(), k);
        lemma_sum_remove(rows, item_qty(other.item), k);
        lemma_drawn(rows.remove(k), key, from, want - rows[k].qty, other, state);
        if is_stock(other, from)(rows[k]) {
            assert(key == other);
        }
    } else {
        let row = WarehouseItemView { qty: rows[k].qty - want, ..rows[k] };
        lemma_sum_update(rows, stock_qty(other, state), k, row);
        lemma_sum_update(rows, row_qty(), k, row);
        lemma_sum_update(rows, item_qty(other.item), k, row);
        if is_stock(other, from)(rows[k]) {
            assert(key == other);
        }
    }
}

/// What is taken out is what is wanted, as far as the stock goes.
pub proof fn lemma_draw_qty(
    rows: Seq<WarehouseItemView>,
    key: StockKey,
    from: Seq<char>,
    want: int,
)
    requires
        stocked(rows),
        want >= 0,
    ensures
        draw_qty(rows, key, from, want) == if want <= stock(rows, key, from) {
            want
        } else {
            stock(rows, key, from)
        },
        stock(rows, key, from) >= 0,
        stocked(draw_rows(rows, key, from, want)),
    decreases rows.len(),
{
    let k = next_slot(rows, key, from);
    lemma_least(rows, is_stock(key, from), slot_order());
    lemma_no_slot(rows, key, from);
    if want <= 0 || k >= rows.len() {
    } else if rows[k].qty <= want {
        lemma_sum_remove(rows, stock_qty(key, from), k);
        lemma_removed_stocked(rows, k);
        lemma_draw_qty(rows.remove(k), key, from, want - rows[k].qty);
    }
}

proof fn lemma_removed_stocked(rows: Seq<WarehouseItemView>, k: int)
    requires
        stocked(rows),
        0 <= k < rows.len(),
    ensures
        stocked(rows.remove(k)),
{
    let after = rows.remove(k);
    assert forall|i: int| 0 <= i < after.len() implies {
        &&& (#[trigger] after[i]).qty > 0
        &&& is_tool(after[i].item_id) == (after[i].durability is Some)
        &&& is_tool(after[i].item_id) ==> after[i].qty == 1
    } by {
        let j = if i < k {
            i
        } else {
            i + 1
        };
        assert(after[i] == rows[j]);
        assert(rows[j].qty > 0);
    }
}

/// Whether a row holds this stock in this state.
pub fn holds(r: &WarehouseItem, market_id: &str, character_id: &str, item_id: &str, state: &str) -> (b: bool)
    ensures
        b == is_stock(stock_key(market_id@, character_id@, item_id@), state@)(r@),
{
    same(r.market_id.as_str(), market_id) && same(r.character_id.as_str(), character_id) && same(
        r.item_id.as_str(),
        item_id,
    ) && same(r.state.as_str(), state)
}

/// Put goods into a warehouse, merging into the available stack if there is one and otherwise
/// taking a fresh slot. Returns how much landed: all of it, or nothing when there is no room.
pub fn warehouse_credit_in_tx(
    rows: &mut Table<WarehouseItem>,
    market_id: &str,
    character_id: &str,
    item_id: &str,
    qty: i64,
    slots: i64,
    id: String,
) -> (landed: i64)
    requires
        has_headroom(old(rows)@, stock_key(market_id@, character_id@, item_id@), qty as int),
        stocked(old(rows)@),
        !is_tool(item_id@),
    ensures
        ({
            let key = stock_key(market_id@, character_id@, item_id@);
            &&& landed == if lands(old(rows)@, key, qty as int, slots as int) {
                qty as int
            } else {
                0
            }
            &&& final(rows)@ == credited(old(rows)@, key, qty as int, slots as int, id@)
        }),
        stocked(final(rows)@),
{
    if qty <= 0 {
        return 0;
    }
    let ghost key = StockKey { market: market_id@, character: character_id@, item: item_id@ };
    let f = |r: &WarehouseItem| -> (b: bool)
        ensures
            b == is_stock(stock_key(market_id@, character_id@, item_id@), "available"@)(r@),
        { holds(r, market_id, character_id, item_id, "available") };
    let k: usize = rows.find(f, Ghost(is_stock(key, "available"@)));
    if k < rows.len() {
        let r = rows.get_mut(k);
        r.qty = r.qty + qty;
    } else {
        let used: usize = slots_used(rows, market_id, character_id);
        if !below(used, slots) {
            return 0;
        }
        rows.push(
            WarehouseItem {
                id,
                market_id: market_id.to_string(),
                character_id: character_id.to_string(),
                item_id: item_id.to_string(),
                qty,
                state: "available".to_string(),
                durability: None,
            },
        );
    }
    qty
}

/// Lock up to `qty` of the available stock in escrow, splitting a stack of which only a part is
/// committed; a tool moves whole. Returns how much was locked.
pub fn warehouse_lock_in_tx(
    rows: &mut Table<WarehouseItem>,
    market_id: &str,
    character_id: &str,
    item_id: &str,
    qty: i64,
    id: String,
) -> (locked: i64)
    requires
        stocked(old(rows)@),
        total_stock(old(rows)@) <= i64::MAX,
    ensures
        locked == lock_qty(old(rows)@, stock_key(market_id@, character_id@, item_id@), qty as int),
        final(rows)@ == lock_rows(
            old(rows)@,
            stock_key(market_id@, character_id@, item_id@),
            qty as int,
            id@,
        ),
{
    let ghost key = stock_key(market_id@, character_id@, item_id@);
    let ghost start = rows@;
    let mut locked: i64 = 0;
    let mut want: i64 = qty;
    while want > 0
        invariant_except_break
            start == old(rows)@,
            key == stock_key(market_id@, character_id@, item_id@),
            stocked(rows@),
            total_stock(rows@) <= i64::MAX,
            0 <= locked <= qty - want || want == qty && locked == 0,
            lock_rows(start, key, qty as int, id@) == lock_rows(rows@, key, want as int, id@),
            lock_qty(start, key, qty as int) == locked + lock_qty(rows@, key, want as int),
        ensures
            lock_rows(start, key, qty as int, id@) == rows@,
            lock_qty(start, key, qty as int) == locked,
        decreases want,
    {
        let k: usize = slot_to_take(rows, market_id, character_id, item_id, "available");
        if k >= rows.len() {
            break ;
        }
        let r = rows.get(k);
        let have: i64 = r.qty;
        let tool: bool = r.durability.is_some();
        if tool || have <= want {
            proof {
                let row = WarehouseItemView { state: "locked"@, ..rows@[k as int] };
                lemma_sum_update(rows@, row_qty(), k as int, row);
            }
            let r = rows.get_mut(k);
            r.state = "locked".to_string();
            locked = locked + have;
            want = want - have;
        } else {
            let r = rows.get_mut(k);
            r.qty = have - want;
            rows.push(
                WarehouseItem {
                    id,
                    market_id: market_id.to_string(),
                    character_id: character_id.to_string(),
                    item_id: item_id.to_string(),
                    qty: want,
                    state: "locked".to_string(),
                    durability: None,
                },
            );
            return locked + want;
        }
    }
    locked
}

/// The slot that a kind of stock in a state is taken from next, or the number of slots.
pub fn slot_to_take(
    rows: &Table<WarehouseItem>,
    market_id: &str,
    character_id: &str,
    item_id: &str,
    state: &str,
) -> (k: usize)
    ensures
        k == next_slot(rows@, stock_key(market_id@, character_id@, item_id@), state@),
        k <= rows@.len(),
        k < rows@.len() ==> is_stock(stock_key(market_id@, character_id@, item_id@), state@)(rows@[k as int]),
{
    let ghost key = stock_key(market_id@, character_id@, item_id@);
    let f = |r: &WarehouseItem| -> (b: bool)
        ensures
            b == is_stock(stock_key(market_id@, character_id@, item_id@), state@)(r@),
        { holds(r, market_id, character_id, item_id, state) };
    let g = |a: &WarehouseItem, b: &WarehouseItem| -> (r: bool)
        ensures
            r == slot_order()(a@, b@),
        { before(a.id.as_str(), b.id.as_str()) };
    rows.least(f, g, Ghost(is_stock(key, state@)), Ghost(slot_order()))
}

/// Take up to `qty` of a kind of stock out of a warehouse, from the rows in one state. Returns how
/// much was taken.
pub fn draw_stock_in_tx(
    rows: &mut Table<WarehouseItem>,
    market_id: &str,
    character_id: &str,
    item_id: &str,
    state: &str,
    qty: i64,
) -> (taken: i64)
    requires
        stocked(old(rows)@),
    ensures
        taken == draw_qty(
            old(rows)@,
            stock_key(market_id@, character_id@, item_id@),
            state@,
            qty as int,
        ),
        final(rows)@ == draw_rows(
            old(rows)@,
            stock_key(market_id@, character_id@, item_id@),
            state@,
            qty as int,
        ),
        stocked(final(rows)@),
        total_stock(final(rows)@) + taken == total_stock(old(rows)@),
{
    let ghost key = stock_key(market_id@, character_id@, item_id@);
    let ghost start = rows@;
    let mut taken: i64 = 0;
    let mut want: i64 = qty;
    while want > 0
        invariant_except_break
            key == stock_key(market_id@, character_id@, item_id@),
            stocked(rows@),
            total_stock(rows@) + taken == total_stock(start),
            0 <= taken,
            taken == qty - want,
            draw_rows(start, key, state@, qty as int) == draw_rows(rows@, key, state@, want as int),
            draw_qty(start, key, state@, qty as int) == taken + draw_qty(rows@, key, state@, want as int),
        ensures
            stocked(rows@),
            total_stock(rows@) + taken == total_stock(start),
            draw_rows(start, key, state@, qty as int) == rows@,
            draw_qty(start, key, state@, qty as int) == taken,
        decreases want,
    {
        let k: usize = slot_to_take(rows, market_id, character_id, item_id, state);
        if k >= rows.len() {
            break ;
        }
        let have: i64 = rows.get(k).qty;
        if have <= want {
            proof {
                lemma_sum_remove(rows@, row_qty(), k as int);
                lemma_removed_stocked(rows@, k as int);
            }
            let gone = rows.remove(k);
            taken = taken + have;
            want = want - have;
        } else {
            let ghost row = WarehouseItemView { qty: have - want, ..rows@[k as int] };
            proof {
                lemma_sum_update(rows@, row_qty(), k as int, row);
            }
            let r = rows.get_mut(k);
            r.qty = have - want;
            taken = taken + want;
            want = 0;
        }
    }
    taken
}

/// Take up to `qty` out of escrow. With `back` the goods return to the owner's available stock;
/// without it they leave. Returns how much was taken.
pub fn release_locked_in_tx(
    rows: &mut Table<WarehouseItem>,
    market_id: &str,
    character_id: &str,
    item_id: &str,
    qty: i64,
    back: bool,
    id: String,
) -> (taken: i64)
    requires
        stocked(old(rows)@),
        back ==> total_stock(old(rows)@) <= i64::MAX && !is_tool(item_id@),
    ensures
        taken == draw_qty(
            old(rows)@,
            stock_key(market_id@, character_id@, item_id@),
            "locked"@,
            qty as int,
        ),
        final(rows)@ == released(
            old(rows)@,
            stock_key(market_id@, character_id@, item_id@),
            qty as int,
            back,
            id@,
        ),
        stocked(final(rows)@),
{
    let taken: i64 = draw_stock_in_tx(rows, market_id, character_id, item_id, "locked", qty);
    if back {
        proof {
            lemma_headroom(rows@, stock_key(market_id@, character_id@, item_id@), taken as int);
        }
        warehouse_credit_in_tx(rows, market_id, character_id, item_id, taken, i64::MAX, id);
    }
    taken
}

/// How much of a kind of stock is held in a state.
pub fn stock_in_state(
    rows: &Table<WarehouseItem>,
    market_id: &str,
    character_id: &str,
    item_id: &str,
    state: &str,
) -> (n: i64)
    requires
        stocked(rows@),
        total_stock(rows@) <= i64::MAX,
    ensures
        n == stock(rows@, stock_key(market_id@, character_id@, item_id@), state@),
        n >= 0,
{
    let ghost key = stock_key(market_id@, character_id@, item_id@);
    let mut n: i64 = 0;
    let mut i: usize = 0;
    while i < rows.len()
        invariant
            key == stock_key(market_id@, character_id@, item_id@),
            stocked(rows@),
            total_stock(rows@) <= i64::MAX,
            i <= rows@.len(),
            n >= 0,
            n == stock(rows@.take(i as int), key, state@),
        decreases rows@.len() - i,
    {
        proof {
            lemma_stock_prefix(rows@, key, state@, i + 1);
            assert(rows@.take(i + 1).drop_last() =~= rows@.take(i as int));
        }
        let r = rows.get(i);
        if holds(r, market_id, character_id, item_id, state) {
            n = n + r.qty;
        }
        i = i + 1;
    }
    assert(rows@.take(i as int) =~= rows@);
    n
}

/// What the first rows hold of a stock is no more than all the stock there is.
pub proof fn lemma_stock_prefix(rows: Seq<WarehouseItemView>, key: StockKey, state: Seq<char>, i: int)
    requires
        stocked(rows),
        0 <= i <= rows.len(),
    ensures
        0 <= stock(rows.take(i), key, state) <= total_stock(rows),
{
    lemma_sum_nonneg(rows.take(i), stock_qty(key, state));
    lemma_sum_le(rows.take(i), stock_qty(key, state), row_qty());
    lemma_sum_prefix(rows, row_qty(), i);
}

/// How many slots a character uses at a market.
pub fn slots_used(rows: &Table<WarehouseItem>, market_id: &str, character_id: &str) -> (n: usize)
    ensures
        n == used_slots(rows@, market_id@, character_id@),
{
    let f = |r: &WarehouseItem| -> (b: bool)
        ensures
            b == is_slot(market_id@, character_id@)(r@),
        { same(r.market_id.as_str(), market_id) && same(r.character_id.as_str(), character_id) };
    rows.count(f, Ghost(is_slot(market_id@, character_id@)))
}

/// Whether a count is below a limit.
pub fn below(n: usize, limit: i64) -> (b: bool)
    ensures
        b == (n < limit),
{
    limit > 0 && (n as u64) < (limit as u64)
}

} // verus!
