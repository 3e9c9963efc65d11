//! What holds of the market as a whole.

use vstd::prelude::*;

use crate::market_config::{fair, law_fees_are_bounded, listing_fee_of, sale_tax_of, MarketConfig};
use crate::persistence::book::on_book;
use crate::persistence::db::DbView;
use crate::persistence::market::{
    admitted, best, buying, concluded, crosses, escrowed, lemma_best, lemma_buy_size, lemma_concluded_sound,
    lemma_fill_cover, lemma_fill_gold, lemma_fill_goods, lemma_fill_sound, lemma_fill_tally, lemma_granted,
    lemma_listed_sound, lemma_sides_differ, lemma_top_seq_filled, listed, market_sound, min, order_filled,
    pending_gold, pending_goods, placed, promised, rest_qty, resting, seller, sweep_sound, swept, swept_out,
    tallied, top_seq, BuyOutcomeView, FillIds, PlaceIds, Placed, Sweep, Terms,
};
use crate::persistence::purse::{
    claimed, fee_gold, fresh_command, gold_of, granted, has_character, is_command, law_burning_is_ledgered,
    lemma_paid, lemma_purse_bound, supply_gap, wealth,
};
use crate::persistence::rows::{MarketTradeView, OrderRecordView};
use crate::persistence::warehouse::{
    item_stock, lemma_lock_none, lemma_lock_qty, lemma_locked, lemma_stock_prefix, lock_qty, stock,
    stock_key, total_stock, StockKey,
};
use crate::table::{find, lemma_find, lemma_sum_push, sum};
use crate::world::tools::is_tool;

verus! {

/// Whether no bid rests at or above an ask of a different owner on the same book.
pub open spec fn uncrossed(orders: Seq<OrderRecordView>) -> bool {
    forall|i: int, j: int|
        {
            &&& 0 <= i < orders.len()
            &&& 0 <= j < orders.len()
            &&& (#[trigger] orders[i]).order.side == "buy"@
            &&& (#[trigger] orders[j]).order.side == "sell"@
            &&& orders[i].order.market_id == orders[j].order.market_id
            &&& orders[i].order.item_id == orders[j].order.item_id
            &&& orders[i].order.character_id != orders[j].order.character_id
        } ==> orders[i].order.unit_price < orders[j].order.unit_price
}

/// Whether no bid rests at or above an ask of a different owner on one book.
pub open spec fn uncrossed_at(orders: Seq<OrderRecordView>, market: Seq<char>, item: Seq<char>) -> bool {
    forall|i: int, j: int|
        {
            &&& 0 <= i < orders.len()
            &&& 0 <= j < orders.len()
            &&& on_book((#[trigger] orders[i]), market, item, "buy"@)
            &&& on_book((#[trigger] orders[j]), market, item, "sell"@)
            &&& orders[i].order.character_id != orders[j].order.character_id
        } ==> orders[i].order.unit_price < orders[j].order.unit_price
}

/// Whether a trade is a fair fill of an order: between two different characters, and at a price no
/// worse than the order's own.
pub open spec fn fair_fill(trade: MarketTradeView, t: Terms) -> bool {
    &&& trade.seller_id != trade.buyer_id
    &&& trade.qty > 0
    &&& if buying(t) {
        trade.buyer_id == t.character && trade.unit_price <= t.price
    } else {
        trade.seller_id == t.character && trade.unit_price >= t.price
    }
}

/// What a whole sweep keeps: a sound state, every coin and every good accounted for, an uncrossed
/// book, and fair fills.
pub proof fn law_sweep(start: Sweep, t: Terms, cfg: MarketConfig, ids: Seq<FillIds>)
    requires
        sweep_sound(start, t),
        fair(cfg),
        tallied(start, start, t),
        start.fills.len() == 0,
    ensures
        ({
            let w = swept(start, t, cfg, ids);
            &&& sweep_sound(w, t)
            &&& tallied(w, start, t)
            &&& w.want <= start.want
            &&& supply_gap(w.db) - pending_gold(w, t) == supply_gap(start.db) - pending_gold(start, t)
            &&& wealth(w.db) + pending_gold(w, t) + sum(w.db.fees, fee_gold()) == wealth(start.db) + pending_gold(
                start,
                t,
            ) + sum(start.db.fees, fee_gold())
            &&& forall|item: Seq<char>|
                #[trigger] item_stock(w.db.warehouse, item) == item_stock(start.db.warehouse, item)
            &&& forall|key: StockKey|
                #![trigger stock(w.db.warehouse, key, "locked"@)]
                stock(w.db.warehouse, key, "locked"@) - promised(w.db.orders, key) - pending_goods(w, t, key)
                    == stock(start.db.warehouse, key, "locked"@) - promised(start.db.orders, key) - pending_goods(
                    start,
                    t,
                    key,
                )
            &&& uncrossed(start.db.orders) ==> uncrossed(w.db.orders)
            &&& forall|i: int| 0 <= i < w.fills.len() ==> fair_fill(#[trigger] w.fills[i], t)
        }),
    decreases ids.len(),
{
    if ids.len() > 0 {
        let before = ids.drop_last();
        law_sweep(start, t, cfg, before);
        let v = swept(start, t, cfg, before);
        let w = swept(start, t, cfg, ids);
        let id = ids.last();
        if !swept_out(v, t, cfg) {
            lemma_fill_gold(v, t, cfg, id);
            lemma_fill_goods(v, t, cfg, id);
            lemma_fill_sound(v, t, cfg, id);
            lemma_fill_tally(v, start, t, cfg, id);
            let n = v.db.orders.len() as int;
            let k = best(v.db.orders, n, t)->0;
            lemma_fill_cover(v, t, k);
            let take = min(v.want, v.db.orders[k].order.qty_remaining);
            assert(w.db.orders == order_filled(v.db.orders, k, take));
            assert forall|item: Seq<char>| #[trigger]
                item_stock(w.db.warehouse, item) == item_stock(start.db.warehouse, item) by {
                assert(item_stock(w.db.warehouse, item) == item_stock(v.db.warehouse, item));
            }
            assert forall|key: StockKey|
                #![trigger stock(w.db.warehouse, key, "locked"@)]
                stock(w.db.warehouse, key, "locked"@) - promised(w.db.orders, key) - pending_goods(w, t, key)
                    == stock(start.db.warehouse, key, "locked"@) - promised(start.db.orders, key) - pending_goods(
                    start,
                    t,
                    key,
                ) by {
                assert(stock(v.db.warehouse, key, "locked"@) - promised(v.db.orders, key) - pending_goods(v, t, key)
                    == stock(start.db.warehouse, key, "locked"@) - promised(start.db.orders, key) - pending_goods(
                    start,
                    t,
                    key,
                ));
            }
            if uncrossed(start.db.orders) {
                lemma_filled_uncrossed(v.db.orders, k, take);
            }
            assert forall|i: int| 0 <= i < w.fills.len() implies fair_fill(#[trigger] w.fills[i], t) by {
                if i < v.fills.len() {
                    assert(w.fills[i] == v.fills[i]);
                } else {
                    assert(crosses(v.db.orders[k], t));
                }
            }
        }
    }
}

/// Filling an order makes no book cross.
proof fn lemma_filled_uncrossed(orders: Seq<OrderRecordView>, k: int, take: int)
    requires
        uncrossed(orders),
        0 <= k < orders.len(),
    ensures
        uncrossed(order_filled(orders, k, take)),
{
    let after = order_filled(orders, k, take);
    let kept = orders[k].order.qty_remaining - take > 0;
    assert forall|i: int, j: int|
        {
            &&& 0 <= i < after.len()
            &&& 0 <= j < after.len()
            &&& (#[trigger] after[i]).order.side == "buy"@
            &&& (#[trigger] after[j]).order.side == "sell"@
            &&& after[i].order.market_id == after[j].order.market_id
            &&& after[i].order.item_id == after[j].order.item_id
            &&& after[i].order.character_id != after[j].order.character_id
        } implies after[i].order.unit_price < after[j].order.unit_price by {
        let i0 = if kept || i < k {
            i
        } else {
            i + 1
        };
        let j0 = if kept || j < k {
            j
        } else {
            j + 1
        };
        assert(orders[i0].order.side == "buy"@);
        assert(orders[j0].order.side == "sell"@);
    }
}

/// Placing an order makes and loses no gold but the fees, which both ledgers record; makes and loses
/// no goods; leaves what is locked beyond what is promised as it was; and keeps the state sound.
pub proof fn law_placing_conserves(
    s: DbView,
    t: Terms,
    qty: int,
    cfg: MarketConfig,
    command: Seq<char>,
    ids: PlaceIds,
)
    requires
        market_sound(s),
        fair(cfg),
        t.side == "buy"@ || t.side == "sell"@,
        t.side == "sell"@ ==> t.price >= 0,
        !is_tool(t.item),
        has_character(s.characters, t.character),
    ensures
        ({
            let p = placed(s, t, qty, cfg, command, ids);
            &&& market_sound(p.db)
            &&& supply_gap(p.db) == supply_gap(s)
            &&& wealth(p.db) + sum(p.db.fees, fee_gold()) == wealth(s) + sum(s.fees, fee_gold())
            &&& forall|item: Seq<char>| #[trigger] item_stock(p.db.warehouse, item) == item_stock(s.warehouse, item)
            &&& forall|key: StockKey|
                #![trigger stock(p.db.warehouse, key, "locked"@)]
                stock(p.db.warehouse, key, "locked"@) - promised(p.db.orders, key) == stock(
                    s.warehouse,
                    key,
                    "locked"@,
                ) - promised(s.orders, key)
            &&& forall|i: int| 0 <= i < p.out.fills.len() ==> fair_fill(#[trigger] p.out.fills[i], t)
        }),
{
    let begun = DbView { commands: claimed(s.commands, command, t.character, t.now), ..s };
    let e = escrowed(begun, t, qty, cfg, ids.slot);
    let p = placed(s, t, qty, cfg, command, ids);
    assert(market_sound(begun));
    if admitted(s, t, cfg, command) && !e.unaffordable {
        if e.qty > 0 {
            lemma_listed_sound(begun, t, qty, cfg, ids.slot);
            lemma_listed_fees(begun, t, qty, cfg, ids.slot);
            let start = listed(e, t, cfg);
            law_sweep(start, t, cfg, ids.fills);
            let w = swept(start, t, cfg, ids.fills);
            lemma_concluded_sound(w, t, ids.order);
            assert forall|item: Seq<char>| #[trigger] item_stock(p.db.warehouse, item) == item_stock(s.warehouse, item) by {
                assert(item_stock(w.db.warehouse, item) == item_stock(start.db.warehouse, item));
                assert(item_stock(start.db.warehouse, item) == item_stock(begun.warehouse, item));
            }
            assert forall|key: StockKey|
                #![trigger stock(p.db.warehouse, key, "locked"@)]
                stock(p.db.warehouse, key, "locked"@) - promised(p.db.orders, key) == stock(
                    s.warehouse,
                    key,
                    "locked"@,
                ) - promised(s.orders, key) by {
                assert(stock(p.db.warehouse, key, "locked"@) - promised(p.db.orders, key) == stock(
                    w.db.warehouse,
                    key,
                    "locked"@,
                ) - promised(w.db.orders, key) - pending_goods(w, t, key));
                assert(stock(w.db.warehouse, key, "locked"@) - promised(w.db.orders, key) - pending_goods(w, t, key)
                    == stock(start.db.warehouse, key, "locked"@) - promised(start.db.orders, key) - pending_goods(
                    start,
                    t,
                    key,
                ));
                assert(stock(start.db.warehouse, key, "locked"@) - promised(s.orders, key) - pending_goods(
                    start,
                    t,
                    key,
                ) == stock(s.warehouse, key, "locked"@) - promised(s.orders, key));
            }
        } else {
            if !buying(t) {
                lemma_lock_none(s.warehouse, stock_key(t.market, t.character, t.item), qty, ids.slot);
            }
            assert(e.db == begun);
        }
    }
}

/// Escrow and the listing fee take from the purse only what is held for the order and what is burned.
proof fn lemma_listed_fees(s: DbView, t: Terms, qty: int, cfg: MarketConfig, id: Seq<char>)
    requires
        market_sound(s),
        fair(cfg),
        t.side == "buy"@ || t.side == "sell"@,
        t.side == "sell"@ ==> t.price >= 0,
        !is_tool(t.item),
        has_character(s.characters, t.character),
        escrowed(s, t, qty, cfg, id).qty > 0,
    ensures
        ({
            let w = listed(escrowed(s, t, qty, cfg, id), t, cfg);
            wealth(w.db) + pending_gold(w, t) + sum(w.db.fees, fee_gold()) == wealth(s) + sum(s.fees, fee_gold())
        }),
{
    let e = escrowed(s, t, qty, cfg, id);
    let fee = listing_fee_of(cfg, e.qty * t.price);
    law_fees_are_bounded(cfg, e.qty * t.price);
    lemma_paid(s.characters, t.character, -(e.qty * t.price));
    law_burning_is_ledgered(e.db, t.market, t.character, "listing"@, fee, None, t.now);
}

/// The book never crosses: where it was uncrossed, it still is after an order is placed.
pub proof fn law_book_never_crosses(
    s: DbView,
    t: Terms,
    qty: int,
    cfg: MarketConfig,
    command: Seq<char>,
    ids: PlaceIds,
)
    requires
        market_sound(s),
        fair(cfg),
        t.side == "buy"@ || t.side == "sell"@,
        t.side == "sell"@ ==> t.price >= 0,
        !is_tool(t.item),
        has_character(s.characters, t.character),
        uncrossed(s.orders),
    ensures
        uncrossed(placed(s, t, qty, cfg, command, ids).db.orders),
{
    let begun = DbView { commands: claimed(s.commands, command, t.character, t.now), ..s };
    let e = escrowed(begun, t, qty, cfg, ids.slot);
    assert(market_sound(begun));
    lemma_sides_differ();
    if admitted(s, t, cfg, command) && !e.unaffordable && e.qty > 0 {
        lemma_listed_sound(begun, t, qty, cfg, ids.slot);
        let start = listed(e, t, cfg);
        law_sweep(start, t, cfg, ids.fills);
        let w = swept(start, t, cfg, ids.fills);
        lemma_concluded_sound(w, t, ids.order);
        if rest_qty(w, t) > 0 {
            lemma_best(w.db.orders, w.db.orders.len() as int, t);
            let after = concluded(w, t, ids.order).orders;
            assert forall|i: int, j: int|
                {
                    &&& 0 <= i < after.len()
                    &&& 0 <= j < after.len()
                    &&& (#[trigger] after[i]).order.side == "buy"@
                    &&& (#[trigger] after[j]).order.side == "sell"@
                    &&& after[i].order.market_id == after[j].order.market_id
                    &&& after[i].order.item_id == after[j].order.item_id
                    &&& after[i].order.character_id != after[j].order.character_id
                } implies after[i].order.unit_price < after[j].order.unit_price by {
                let n = w.db.orders.len();
                if i < n && j < n {
                    assert(w.db.orders[i].order.side == "buy"@);
                    assert(w.db.orders[j].order.side == "sell"@);
                } else if i < n {
                    assert(!crosses(w.db.orders[i], t));
                } else if j < n {
                    assert(!crosses(w.db.orders[j], t));
                }
            }
        }
    }
}

/// No book is made to cross: whichever book was uncrossed still is after an order is placed, whatever the others are.
pub proof fn law_no_book_is_made_to_cross(
    s: DbView,
    t: Terms,
    qty: int,
    cfg: MarketConfig,
    command: Seq<char>,
    ids: PlaceIds,
    market: Seq<char>,
    item: Seq<char>,
)
    requires
        market_sound(s),
        fair(cfg),
        t.side == "buy"@ || t.side == "sell"@,
        t.side == "sell"@ ==> t.price >= 0,
        !is_tool(t.item),
        has_character(s.characters, t.character),
        uncrossed_at(s.orders, market, item),
    ensures
        uncrossed_at(placed(s, t, qty, cfg, command, ids).db.orders, market, item),
{
    let begun = DbView { commands: claimed(s.commands, command, t.character, t.now), ..s };
    let e = escrowed(begun, t, qty, cfg, ids.slot);
    assert(market_sound(begun));
    lemma_sides_differ();
    if admitted(s, t, cfg, command) && !e.unaffordable && e.qty > 0 {
        lemma_listed_sound(begun, t, qty, cfg, ids.slot);
        let start = listed(e, t, cfg);
        law_sweep(start, t, cfg, ids.fills);
        let w = swept(start, t, cfg, ids.fills);
        lemma_sweep_adds_none(start, t, cfg, ids.fills);
        lemma_concluded_sound(w, t, ids.order);
        lemma_best(w.db.orders, w.db.orders.len() as int, t);
        let n = w.db.orders.len();
        let after = concluded(w, t, ids.order).orders;
        assert forall|i: int, j: int|
            {
                &&& 0 <= i < after.len()
                &&& 0 <= j < after.len()
                &&& on_book((#[trigger] after[i]), market, item, "buy"@)
                &&& on_book((#[trigger] after[j]), market, item, "sell"@)
                &&& after[i].order.character_id != after[j].order.character_id
            } implies after[i].order.unit_price < after[j].order.unit_price by {
            if i < n && j < n {
                assert(rests_among(w.db.orders[i], s.orders) && rests_among(w.db.orders[j], s.orders));
                let a = choose|a: int| 0 <= a < s.orders.len() && rests_as(w.db.orders[i], #[trigger] s.orders[a]);
                let b = choose|b: int| 0 <= b < s.orders.len() && rests_as(w.db.orders[j], #[trigger] s.orders[b]);
                assert(on_book(s.orders[a], market, item, "buy"@));
                assert(on_book(s.orders[b], market, item, "sell"@));
            } else if i < n {
                assert(!crosses(w.db.orders[i], t));
            } else if j < n {
                assert(!crosses(w.db.orders[j], t));
            }
        }
    }
}

/// Whether an order is another one, or what is left of it.
pub open spec fn rests_as(o: OrderRecordView, was: OrderRecordView) -> bool {
    &&& o.order.side == was.order.side
    &&& o.order.market_id == was.order.market_id
    &&& o.order.item_id == was.order.item_id
    &&& o.order.character_id == was.order.character_id
    &&& o.order.unit_price == was.order.unit_price
}

/// Whether an order is one of these, or what is left of one.
pub open spec fn rests_among(o: OrderRecordView, orders: Seq<OrderRecordView>) -> bool {
    exists|a: int| 0 <= a < orders.len() && rests_as(o, #[trigger] orders[a])
}

/// Whatever is on the book after a sweep was on it before.
proof fn lemma_sweep_adds_none(start: Sweep, t: Terms, cfg: MarketConfig, ids: Seq<FillIds>)
    ensures
        ({
            let w = swept(start, t, cfg, ids);
            forall|i: int| 0 <= i < w.db.orders.len() ==> rests_among(#[trigger] w.db.orders[i], start.db.orders)
        }),
    decreases ids.len(),
{
    let w = swept(start, t, cfg, ids);
    if ids.len() > 0 {
        let before = ids.drop_last();
        lemma_sweep_adds_none(start, t, cfg, before);
        let v = swept(start, t, cfg, before);
        assert forall|i: int| 0 <= i < w.db.orders.len() implies rests_among(
            #[trigger] w.db.orders[i],
            start.db.orders,
        ) by {
            if swept_out(v, t, cfg) {
                assert(w.db.orders[i] == v.db.orders[i]);
            } else {
                lemma_best(v.db.orders, v.db.orders.len() as int, t);
                let k = best(v.db.orders, v.db.orders.len() as int, t)->0;
                let take = min(v.want, v.db.orders[k].order.qty_remaining);
                let m = if v.db.orders[k].order.qty_remaining - take > 0 || i < k {
                    i
                } else {
                    i + 1
                };
                assert(w.db.orders == order_filled(v.db.orders, k, take));
                assert(rests_as(w.db.orders[i], v.db.orders[m]));
                assert(rests_among(v.db.orders[m], start.db.orders));
                let a = choose|a: int|
                    0 <= a < start.db.orders.len() && rests_as(v.db.orders[m], #[trigger] start.db.orders[a]);
                assert(rests_as(w.db.orders[i], start.db.orders[a]));
            }
        }
    } else {
        assert forall|i: int| 0 <= i < w.db.orders.len() implies rests_among(
            #[trigger] w.db.orders[i],
            start.db.orders,
        ) by {
            assert(rests_as(w.db.orders[i], start.db.orders[i]));
        }
    }
}

/// A repeated command does nothing: once an order was placed under an id, whatever is placed under it again changes
/// nothing and reports only that it was seen. Sending a command twice has the effect of sending it once.
pub proof fn law_a_repeated_command_does_nothing(
    s: DbView,
    t: Terms,
    qty: int,
    cfg: MarketConfig,
    command: Seq<char>,
    ids: PlaceIds,
    again: Terms,
    again_qty: int,
    again_ids: PlaceIds,
)
    requires
        command.len() > 0,
    ensures
        ({
            let p = placed(s, t, qty, cfg, command, ids).db;
            &&& !fresh_command(p.commands, command)
            &&& placed(p, again, again_qty, cfg, command, again_ids) == (Placed {
                db: p,
                out: BuyOutcomeView { deduped: true, ..BuyOutcomeView::nothing() },
            })
        }),
{
    let begun = DbView { commands: claimed(s.commands, command, t.character, t.now), ..s };
    let after = begun.commands;
    lemma_find(after, is_command(command));
    if find(after, is_command(command)) == after.len() {
        let last = after.len() - 1;
        assert(is_command(command)(after[last]));
        assert(!is_command(command)(after[last]));
    }
    let e = escrowed(begun, t, qty, cfg, ids.slot);
    lemma_sweep_commands(listed(e, t, cfg), t, cfg, ids.fills);
}

/// A sweep claims no command.
proof fn lemma_sweep_commands(start: Sweep, t: Terms, cfg: MarketConfig, ids: Seq<FillIds>)
    ensures
        swept(start, t, cfg, ids).db.commands == start.db.commands,
    decreases ids.len(),
{
    if ids.len() > 0 {
        lemma_sweep_commands(start, t, cfg, ids.drop_last());
    }
}

/// What fills and what rests is together no more than was asked for and than there was to put in escrow, and a buy
/// spends, gets back and still holds exactly its limit times that size.
pub proof fn law_an_order_is_sized_to_its_escrow(
    s: DbView,
    t: Terms,
    qty: int,
    cfg: MarketConfig,
    command: Seq<char>,
    ids: PlaceIds,
)
    requires
        market_sound(s),
        fair(cfg),
        t.side == "buy"@ || t.side == "sell"@,
        t.side == "sell"@ ==> t.price >= 0,
        !is_tool(t.item),
        has_character(s.characters, t.character),
    ensures
        ({
            let out = placed(s, t, qty, cfg, command, ids).out;
            &&& out.filled >= 0 && out.resting_qty >= 0
            &&& out.filled + out.resting_qty > 0 ==> out.filled + out.resting_qty <= qty
            &&& buying(t) ==> out.spent + out.refunded + out.resting_qty * t.price == (out.filled + out.resting_qty)
                * t.price && out.spent + out.refunded + out.resting_qty * t.price + out.listing_fee <= gold_of(
                s.characters,
                t.character,
            )
            &&& !buying(t) ==> out.filled + out.resting_qty <= stock(
                s.warehouse,
                stock_key(t.market, t.character, t.item),
                "available"@,
            )
        }),
{
    let begun = DbView { commands: claimed(s.commands, command, t.character, t.now), ..s };
    let e = escrowed(begun, t, qty, cfg, ids.slot);
    let key = stock_key(t.market, t.character, t.item);
    let out = placed(s, t, qty, cfg, command, ids).out;
    lemma_purse_bound(s.characters, t.character);
    lemma_stock_prefix(s.warehouse, key, "available"@, s.warehouse.len() as int);
    assert(s.warehouse.take(s.warehouse.len() as int) =~= s.warehouse);
    assert(0 * t.price == 0) by (nonlinear_arith);
    if admitted(s, t, cfg, command) && !e.unaffordable && e.qty > 0 {
        lemma_listed_sound(begun, t, qty, cfg, ids.slot);
        let start = listed(e, t, cfg);
        law_sweep(start, t, cfg, ids.fills);
        if buying(t) {
            let w = swept(start, t, cfg, ids.fills);
            lemma_buy_size(qty, t.price, gold_of(s.characters, t.character), cfg);
            assert((e.qty - w.want) * t.price == e.qty * t.price - w.want * t.price) by (nonlinear_arith);
            assert(w.want * t.price >= 0) by (nonlinear_arith)
                requires
                    w.want >= 0,
                    t.price >= 0,
            ;
        } else {
            if qty < 0 {
                assert(lock_qty(s.warehouse, key, qty) == 0);
            }
            lemma_lock_qty(s.warehouse, key, qty);
        }
    }
}

/// A buy costs its placer exactly what it reports: what was spent, the listing fee, and the price of what rests.
pub proof fn law_a_buy_costs_what_it_reports(
    s: DbView,
    t: Terms,
    qty: int,
    cfg: MarketConfig,
    command: Seq<char>,
    ids: PlaceIds,
)
    requires
        market_sound(s),
        fair(cfg),
        buying(t),
        !is_tool(t.item),
        has_character(s.characters, t.character),
    ensures
        ({
            let p = placed(s, t, qty, cfg, command, ids);
            gold_of(p.db.characters, t.character) == gold_of(s.characters, t.character) - (p.out.spent
                + p.out.listing_fee + t.price * p.out.resting_qty)
        }),
{
    let begun = DbView { commands: claimed(s.commands, command, t.character, t.now), ..s };
    let e = escrowed(begun, t, qty, cfg, ids.slot);
    let p = placed(s, t, qty, cfg, command, ids);
    assert(market_sound(begun));
    lemma_sides_differ();
    assert(t.price * 0 == 0) by (nonlinear_arith);
    if admitted(s, t, cfg, command) && e.qty > 0 {
        lemma_listed_sound(begun, t, qty, cfg, ids.slot);
        let start = listed(e, t, cfg);
        let fee = listing_fee_of(cfg, e.qty * t.price);
        lemma_paid(begun.characters, t.character, -(e.qty * t.price));
        law_fees_are_bounded(cfg, e.qty * t.price);
        lemma_paid(e.db.characters, t.character, -fee);
        law_burning_is_ledgered(e.db, t.market, t.character, "listing"@, fee, None, t.now);
        law_sweep(start, t, cfg, ids.fills);
        lemma_sweep_purse(start, t, cfg, ids.fills);
        let w = swept(start, t, cfg, ids.fills);
        lemma_concluded_sound(w, t, ids.order);
        assert(t.price * rest_qty(w, t) == rest_qty(w, t) * t.price) by (nonlinear_arith);
    }
}

/// A sweep gives a buyer back exactly what it reports as refunded.
proof fn lemma_sweep_purse(start: Sweep, t: Terms, cfg: MarketConfig, ids: Seq<FillIds>)
    requires
        sweep_sound(start, t),
        fair(cfg),
        tallied(start, start, t),
        start.fills.len() == 0,
        buying(t),
    ensures
        gold_of(swept(start, t, cfg, ids).db.characters, t.character) - swept(start, t, cfg, ids).refunded == gold_of(
            start.db.characters,
            t.character,
        ) - start.refunded,
    decreases ids.len(),
{
    if ids.len() > 0 {
        let before = ids.drop_last();
        lemma_sweep_purse(start, t, cfg, before);
        law_sweep(start, t, cfg, before);
        let v = swept(start, t, cfg, before);
        if !swept_out(v, t, cfg) {
            lemma_best(v.db.orders, v.db.orders.len() as int, t);
            let k = best(v.db.orders, v.db.orders.len() as int, t)->0;
            let o = v.db.orders[k];
            lemma_fill_cover(v, t, k);
            let take = min(v.want, o.order.qty_remaining);
            let refund = take * (t.price - o.order.unit_price);
            let value = take * o.order.unit_price;
            let tax = sale_tax_of(cfg, value);
            assert(refund >= 0) by (nonlinear_arith)
                requires
                    refund == take * (t.price - o.order.unit_price),
                    take >= 0,
                    o.order.unit_price <= t.price,
            ;
            law_fees_are_bounded(cfg, value);
            lemma_granted(v.db.characters, t.character, refund);
            let refunded = granted(v.db.characters, t.character, refund);
            lemma_paid(refunded, seller(t, o), value);
            let earned = granted(refunded, seller(t, o), value);
            lemma_paid(earned, seller(t, o), -tax);
        }
    }
}

/// A sell brings its placer exactly what it reports: what was earned, less the tax and the listing fee.
pub proof fn law_a_sell_earns_what_it_reports(
    s: DbView,
    t: Terms,
    qty: int,
    cfg: MarketConfig,
    command: Seq<char>,
    ids: PlaceIds,
)
    requires
        market_sound(s),
        fair(cfg),
        t.side == "sell"@,
        t.price >= 0,
        !is_tool(t.item),
        has_character(s.characters, t.character),
    ensures
        ({
            let p = placed(s, t, qty, cfg, command, ids);
            gold_of(p.db.characters, t.character) == gold_of(s.characters, t.character) + p.out.earned - p.out.sale_tax
                - p.out.listing_fee
        }),
{
    let begun = DbView { commands: claimed(s.commands, command, t.character, t.now), ..s };
    let e = escrowed(begun, t, qty, cfg, ids.slot);
    assert(market_sound(begun));
    lemma_sides_differ();
    if admitted(s, t, cfg, command) && !e.unaffordable && e.qty > 0 {
        lemma_listed_sound(begun, t, qty, cfg, ids.slot);
        let start = listed(e, t, cfg);
        let fee = listing_fee_of(cfg, e.qty * t.price);
        lemma_paid(e.db.characters, t.character, -fee);
        law_sweep(start, t, cfg, ids.fills);
        lemma_sweep_proceeds(start, t, cfg, ids.fills);
        lemma_concluded_sound(swept(start, t, cfg, ids.fills), t, ids.order);
    }
}

/// A sweep brings a seller exactly what it reports as earned, less the tax.
proof fn lemma_sweep_proceeds(start: Sweep, t: Terms, cfg: MarketConfig, ids: Seq<FillIds>)
    requires
        sweep_sound(start, t),
        fair(cfg),
        tallied(start, start, t),
        start.fills.len() == 0,
        !buying(t),
    ensures
        ({
            let w = swept(start, t, cfg, ids);
            gold_of(w.db.characters, t.character) - w.earned + w.sale_tax == gold_of(
                start.db.characters,
                t.character,
            ) - start.earned + start.sale_tax
        }),
    decreases ids.len(),
{
    if ids.len() > 0 {
        let before = ids.drop_last();
        lemma_sweep_proceeds(start, t, cfg, before);
        law_sweep(start, t, cfg, before);
        let v = swept(start, t, cfg, before);
        if !swept_out(v, t, cfg) {
            lemma_best(v.db.orders, v.db.orders.len() as int, t);
            let k = best(v.db.orders, v.db.orders.len() as int, t)->0;
            let o = v.db.orders[k];
            lemma_fill_cover(v, t, k);
            let value = min(v.want, o.order.qty_remaining) * o.order.unit_price;
            law_fees_are_bounded(cfg, value);
            lemma_granted(v.db.characters, t.character, value);
            let earned = granted(v.db.characters, t.character, value);
            lemma_paid(earned, t.character, -sale_tax_of(cfg, value));
        }
    }
}

pub open spec fn fill_qty() -> spec_fn(MarketTradeView) -> int {
    |f: MarketTradeView| f.qty
}

pub open spec fn fill_value() -> spec_fn(MarketTradeView) -> int {
    |f: MarketTradeView| f.qty * f.unit_price
}

/// Who a trade was made with.
pub open spec fn counterparty(f: MarketTradeView, t: Terms) -> Seq<char> {
    if buying(t) {
        f.seller_id
    } else {
        f.buyer_id
    }
}

/// Whether a trade filled an order that rested on the other side of the book, at the price of that order.
pub open spec fn fills_one_of(f: MarketTradeView, t: Terms, orders: Seq<OrderRecordView>) -> bool {
    exists|a: int|
        {
            &&& 0 <= a < orders.len()
            &&& on_book(#[trigger] orders[a], t.market, t.item, if buying(t) {
                "sell"@
            } else {
                "buy"@
            })
            &&& orders[a].order.character_id == counterparty(f, t)
            &&& orders[a].order.unit_price == f.unit_price
        }
}

/// What an order reports adds up over its fills, and each fill is of an order that rested, at its price.
pub proof fn law_fills_add_up(
    s: DbView,
    t: Terms,
    qty: int,
    cfg: MarketConfig,
    command: Seq<char>,
    ids: PlaceIds,
)
    requires
        market_sound(s),
        fair(cfg),
        t.side == "buy"@ || t.side == "sell"@,
        t.side == "sell"@ ==> t.price >= 0,
        !is_tool(t.item),
        has_character(s.characters, t.character),
    ensures
        ({
            let out = placed(s, t, qty, cfg, command, ids).out;
            &&& out.filled == sum(out.fills, fill_qty())
            &&& out.spent + out.earned == sum(out.fills, fill_value())
            &&& buying(t) ==> out.earned == 0
            &&& !buying(t) ==> out.spent == 0
            &&& out.sale_tax >= 0 && out.listing_fee >= 0
            &&& forall|i: int| 0 <= i < out.fills.len() ==> fills_one_of(#[trigger] out.fills[i], t, s.orders)
        }),
{
    let begun = DbView { commands: claimed(s.commands, command, t.character, t.now), ..s };
    let e = escrowed(begun, t, qty, cfg, ids.slot);
    assert(market_sound(begun));
    lemma_sides_differ();
    if admitted(s, t, cfg, command) && !e.unaffordable && e.qty > 0 {
        lemma_listed_sound(begun, t, qty, cfg, ids.slot);
        let start = listed(e, t, cfg);
        law_sweep(start, t, cfg, ids.fills);
        lemma_sweep_adds_up(start, t, cfg, ids.fills);
    }
}

proof fn lemma_sweep_adds_up(start: Sweep, t: Terms, cfg: MarketConfig, ids: Seq<FillIds>)
    requires
        sweep_sound(start, t),
        fair(cfg),
        tallied(start, start, t),
        start.fills.len() == 0,
        start.spent == 0,
        start.earned == 0,
    ensures
        ({
            let w = swept(start, t, cfg, ids);
            &&& start.want - w.want == sum(w.fills, fill_qty())
            &&& w.spent + w.earned == sum(w.fills, fill_value())
            &&& forall|i: int| 0 <= i < w.fills.len() ==> fills_one_of(#[trigger] w.fills[i], t, start.db.orders)
        }),
    decreases ids.len(),
{
    if ids.len() > 0 {
        let before = ids.drop_last();
        lemma_sweep_adds_up(start, t, cfg, before);
        law_sweep(start, t, cfg, before);
        lemma_sweep_adds_none(start, t, cfg, before);
        let v = swept(start, t, cfg, before);
        let w = swept(start, t, cfg, ids);
        if !swept_out(v, t, cfg) {
            lemma_best(v.db.orders, v.db.orders.len() as int, t);
            let k = best(v.db.orders, v.db.orders.len() as int, t)->0;
            let f = w.fills.last();
            lemma_sum_push(v.fills, fill_qty(), f);
            lemma_sum_push(v.fills, fill_value(), f);
            assert(rests_among(v.db.orders[k], start.db.orders));
            let a = choose|a: int|
                0 <= a < start.db.orders.len() && rests_as(v.db.orders[k], #[trigger] start.db.orders[a]);
            assert(crosses(v.db.orders[k], t));
            assert forall|i: int| 0 <= i < w.fills.len() implies fills_one_of(
                #[trigger] w.fills[i],
                t,
                start.db.orders,
            ) by {
                if i < v.fills.len() {
                    assert(w.fills[i] == v.fills[i]);
                } else {
                    assert(w.fills[i] == f);
                    assert(on_book(start.db.orders[a], t.market, t.item, if buying(t) {
                        "sell"@
                    } else {
                        "buy"@
                    }));
                }
            }
        }
    }
}

/// Whether an order is what an order that was just placed rests as.
pub open spec fn newly_rests(o: OrderRecordView, t: Terms) -> bool {
    &&& on_book(o, t.market, t.item, t.side)
    &&& o.order.character_id == t.character
    &&& o.order.unit_price == t.price
}

/// Whatever is on the books after an order is placed was there before, or is that order.
pub proof fn lemma_placing_adds_one(
    s: DbView,
    t: Terms,
    qty: int,
    cfg: MarketConfig,
    command: Seq<char>,
    ids: PlaceIds,
)
    requires
        market_sound(s),
        fair(cfg),
        t.side == "buy"@ || t.side == "sell"@,
        t.side == "sell"@ ==> t.price >= 0,
        !is_tool(t.item),
        has_character(s.characters, t.character),
    ensures
        ({
            let after = placed(s, t, qty, cfg, command, ids).db.orders;
            forall|i: int|
                0 <= i < after.len() ==> rests_among(#[trigger] after[i], s.orders) || newly_rests(after[i], t)
        }),
{
    let begun = DbView { commands: claimed(s.commands, command, t.character, t.now), ..s };
    let e = escrowed(begun, t, qty, cfg, ids.slot);
    let after = placed(s, t, qty, cfg, command, ids).db.orders;
    assert(market_sound(begun));
    lemma_sides_differ();
    if admitted(s, t, cfg, command) && !e.unaffordable && e.qty > 0 {
        lemma_listed_sound(begun, t, qty, cfg, ids.slot);
        let start = listed(e, t, cfg);
        law_sweep(start, t, cfg, ids.fills);
        lemma_sweep_adds_none(start, t, cfg, ids.fills);
        let w = swept(start, t, cfg, ids.fills);
        lemma_concluded_sound(w, t, ids.order);
        assert forall|i: int| 0 <= i < after.len() implies rests_among(#[trigger] after[i], s.orders) || newly_rests(
            after[i],
            t,
        ) by {
            if i < w.db.orders.len() {
                assert(after[i] == w.db.orders[i]);
            }
        }
    } else {
        assert forall|i: int| 0 <= i < after.len() implies rests_among(#[trigger] after[i], s.orders) || newly_rests(
            after[i],
            t,
        ) by {
            assert(rests_as(after[i], s.orders[i]));
        }
    }
}

/// What rests of a character's own stays as it was when they place an order: their own orders are skipped and not
/// cancelled, and no fill has one character on both sides. Where something of the order rests, nothing that is left on
/// the book crosses it, so that whatever stood behind an own order was matched as well.
pub proof fn law_own_orders_are_skipped(
    s: DbView,
    t: Terms,
    qty: int,
    cfg: MarketConfig,
    command: Seq<char>,
    ids: PlaceIds,
)
    requires
        market_sound(s),
        fair(cfg),
        t.side == "buy"@ || t.side == "sell"@,
        t.side == "sell"@ ==> t.price >= 0,
        !is_tool(t.item),
        has_character(s.characters, t.character),
    ensures
        ({
            let p = placed(s, t, qty, cfg, command, ids);
            &&& forall|i: int|
                0 <= i < s.orders.len() && (#[trigger] s.orders[i]).order.character_id == t.character
                    ==> p.db.orders.contains(s.orders[i])
            &&& forall|i: int|
                0 <= i < p.out.fills.len() ==> (#[trigger] p.out.fills[i]).seller_id != p.out.fills[i].buyer_id
            &&& p.out.resting_qty > 0 ==> forall|i: int|
                0 <= i < p.db.orders.len() ==> !crosses(#[trigger] p.db.orders[i], t)
        }),
{
    let begun = DbView { commands: claimed(s.commands, command, t.character, t.now), ..s };
    let e = escrowed(begun, t, qty, cfg, ids.slot);
    let p = placed(s, t, qty, cfg, command, ids);
    assert(market_sound(begun));
    law_placing_conserves(s, t, qty, cfg, command, ids);
    assert forall|i: int| 0 <= i < p.out.fills.len() implies (#[trigger] p.out.fills[i]).seller_id
        != p.out.fills[i].buyer_id by {
        assert(fair_fill(p.out.fills[i], t));
    }
    if admitted(s, t, cfg, command) && !e.unaffordable && e.qty > 0 {
        lemma_listed_sound(begun, t, qty, cfg, ids.slot);
        let start = listed(e, t, cfg);
        law_sweep(start, t, cfg, ids.fills);
        lemma_sweep_keeps_own(start, t, cfg, ids.fills);
        let w = swept(start, t, cfg, ids.fills);
        lemma_concluded_sound(w, t, ids.order);
        lemma_best(w.db.orders, w.db.orders.len() as int, t);
        assert forall|i: int|
            0 <= i < s.orders.len() && (#[trigger] s.orders[i]).order.character_id == t.character implies p.db.orders.contains(
            s.orders[i],
        ) by {
            assert(start.db.orders[i] == s.orders[i]);
            let j = choose|j: int| 0 <= j < w.db.orders.len() && w.db.orders[j] == s.orders[i];
            assert(p.db.orders[j] == s.orders[i]);
        }
    } else {
        assert forall|i: int|
            0 <= i < s.orders.len() && (#[trigger] s.orders[i]).order.character_id == t.character implies p.db.orders.contains(
            s.orders[i],
        ) by {
            assert(p.db.orders[i] == s.orders[i]);
        }
    }
}

/// A sweep leaves every order of who sweeps as it was.
proof fn lemma_sweep_keeps_own(start: Sweep, t: Terms, cfg: MarketConfig, ids: Seq<FillIds>)
    ensures
        forall|i: int|
            0 <= i < start.db.orders.len() && (#[trigger] start.db.orders[i]).order.character_id == t.character
                ==> swept(start, t, cfg, ids).db.orders.contains(start.db.orders[i]),
    decreases ids.len(),
{
    if ids.len() > 0 {
        let before = ids.drop_last();
        lemma_sweep_keeps_own(start, t, cfg, before);
        let v = swept(start, t, cfg, before);
        let w = swept(start, t, cfg, ids);
        assert forall|i: int|
            0 <= i < start.db.orders.len() && (#[trigger] start.db.orders[i]).order.character_id
                == t.character implies w.db.orders.contains(start.db.orders[i]) by {
            let j = choose|j: int| 0 <= j < v.db.orders.len() && v.db.orders[j] == start.db.orders[i];
            if !swept_out(v, t, cfg) {
                lemma_best(v.db.orders, v.db.orders.len() as int, t);
                let k = best(v.db.orders, v.db.orders.len() as int, t)->0;
                let take = min(v.want, v.db.orders[k].order.qty_remaining);
                let m = if v.db.orders[k].order.qty_remaining - take > 0 || j < k {
                    j
                } else {
                    j - 1
                };
                assert(w.db.orders == order_filled(v.db.orders, k, take));
                assert(j != k);
                assert(w.db.orders[m] == start.db.orders[i]);
            } else {
                assert(w.db.orders[j] == start.db.orders[i]);
            }
        }
    } else {
        assert forall|i: int|
            0 <= i < start.db.orders.len() && (#[trigger] start.db.orders[i]).order.character_id
                == t.character implies swept(start, t, cfg, ids).db.orders.contains(start.db.orders[i]) by {}
    }
}

/// Placing an order adds at most one order to the books and no character to the city, and keeps the
/// count of all goods.
pub proof fn lemma_placing_frame(
    s: DbView,
    t: Terms,
    qty: int,
    cfg: MarketConfig,
    command: Seq<char>,
    ids: PlaceIds,
)
    requires
        market_sound(s),
        fair(cfg),
        t.side == "buy"@ || t.side == "sell"@,
        t.side == "sell"@ ==> t.price >= 0,
        !is_tool(t.item),
        has_character(s.characters, t.character),
    ensures
        ({
            let p = placed(s, t, qty, cfg, command, ids).db;
            &&& wealth(p) <= wealth(s)
            &&& total_stock(p.warehouse) == total_stock(s.warehouse)
            &&& top_seq(p.orders) <= top_seq(s.orders) + 1
            &&& forall|x: Seq<char>|
                #![trigger has_character(p.characters, x)]
                has_character(p.characters, x) == has_character(s.characters, x)
        }),
{
    let begun = DbView { commands: claimed(s.commands, command, t.character, t.now), ..s };
    let e = escrowed(begun, t, qty, cfg, ids.slot);
    let key = stock_key(t.market, t.character, t.item);
    assert(market_sound(begun));
    lemma_paid(s.characters, t.character, -(e.qty * t.price));
    lemma_locked(s.warehouse, key, qty, ids.slot, key, "locked"@);
    if admitted(s, t, cfg, command) && !e.unaffordable && e.qty > 0 {
        lemma_listed_sound(begun, t, qty, cfg, ids.slot);
        lemma_listed_fees(begun, t, qty, cfg, ids.slot);
        let fee = listing_fee_of(cfg, e.qty * t.price);
        law_fees_are_bounded(cfg, e.qty * t.price);
        lemma_paid(e.db.characters, t.character, -fee);
        let start = listed(e, t, cfg);
        lemma_swept_frame(start, t, cfg, ids.fills);
        law_sweep(start, t, cfg, ids.fills);
        let w = swept(start, t, cfg, ids.fills);
        lemma_concluded_sound(w, t, ids.order);
        lemma_top_seq_push(w.db.orders, resting(w, t, ids.order));
        law_burning_is_ledgered(e.db, t.market, t.character, "listing"@, fee, None, t.now);
    }
}

/// A sweep adds no order and no character, and keeps the count of all goods.
proof fn lemma_swept_frame(start: Sweep, t: Terms, cfg: MarketConfig, ids: Seq<FillIds>)
    requires
        sweep_sound(start, t),
        fair(cfg),
        tallied(start, start, t),
        start.fills.len() == 0,
    ensures
        ({
            let w = swept(start, t, cfg, ids);
            &&& wealth(w.db) + pending_gold(w, t) <= wealth(start.db) + pending_gold(start, t)
            &&& total_stock(w.db.warehouse) == total_stock(start.db.warehouse)
            &&& top_seq(w.db.orders) <= top_seq(start.db.orders)
            &&& forall|x: Seq<char>|
                #![trigger has_character(w.db.characters, x)]
                has_character(w.db.characters, x) == has_character(start.db.characters, x)
        }),
    decreases ids.len(),
{
    if ids.len() > 0 {
        let before = ids.drop_last();
        lemma_swept_frame(start, t, cfg, before);
        law_sweep(start, t, cfg, before);
        let v = swept(start, t, cfg, before);
        let w = swept(start, t, cfg, ids);
        let id = ids.last();
        if !swept_out(v, t, cfg) {
            lemma_fill_gold(v, t, cfg, id);
            lemma_fill_goods(v, t, cfg, id);
            let k = best(v.db.orders, v.db.orders.len() as int, t)->0;
            lemma_fill_cover(v, t, k);
            lemma_top_seq_filled(v.db.orders, k, min(v.want, v.db.orders[k].order.qty_remaining));
            assert forall|x: Seq<char>|
                #![trigger has_character(w.db.characters, x)]
                has_character(w.db.characters, x) == has_character(start.db.characters, x) by {
                assert(has_character(v.db.characters, x) == has_character(start.db.characters, x));
            }
        }
    }
}

proof fn lemma_top_seq_push(orders: Seq<OrderRecordView>, o: OrderRecordView)
    requires
        o.order.created_seq == top_seq(orders) + 1,
    ensures
        top_seq(orders.push(o)) == top_seq(orders) + 1,
{
    assert(orders.push(o).drop_last() =~= orders);
}

} // verus!
