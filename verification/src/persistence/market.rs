//! The order book: escrow, matching, resting, cancelling and expiry.

use vstd::prelude::*;

use crate::market_config::{fair, law_fees_are_bounded, listing_fee_of, sale_tax_of, MarketConfig};
use crate::persistence::book::{law_release_returns_the_escrow, order_released};
use crate::persistence::db::{Db, DbView};
use crate::persistence::ids::new_id;
use crate::persistence::purse::{
    burned, claimed, escrow, fee_gold, find_character, fresh_command, gold_of, grant_gold_in_tx, granted,
    has_character, law_burning_is_ledgered, lemma_paid, lemma_purse_bound, order_escrow, paid, pay_in_tx,
    purse_gold, purses, solvent, supply_gap, wealth,
};
use crate::persistence::rows::{
    CharacterRecordView, MarketOrder, MarketOrderView, MarketTrade, MarketTradeView, OrderRecord,
    OrderRecordView,
};
use crate::persistence::warehouse::{
    below, credited, draw_qty, draw_rows, item_stock, lands, lemma_credited, lemma_draw_qty, lemma_drawn,
    lemma_headroom_locked, lemma_lock_none, lemma_lock_qty, lemma_locked, lemma_locked_stocked,
    lemma_states_differ, lock_qty, lock_rows, release_locked_in_tx, stock, stock_in_state, stock_key,
    stocked, total_stock, warehouse_credit_in_tx, warehouse_lock_in_tx, StockKey,
};
use crate::table::{
    count, lemma_sum_nonneg, lemma_sum_push, lemma_sum_remove, lemma_sum_update, rows_view, sum, Row,
};
use crate::text::{opt_text, same};
use crate::world::tools::is_tool;

verus! {

/// What an order asks for.
pub struct Terms {
    pub market: Seq<char>,
    pub character: Seq<char>,
    pub side: Seq<char>,
    pub item: Seq<char>,
    pub price: int,
    pub expires_at: int,
    pub now: int,
}

/// The ids that one fill uses: of its trade, and of the slot the goods go to if they need a new one.
pub struct FillIds {
    pub trade: Seq<char>,
    pub slot: Seq<char>,
}

pub open spec fn buying(t: Terms) -> bool {
    t.side == "buy"@
}

/// Whether a resting order can fill an incoming one: it is on the other side of the same book, at
/// a price that crosses, and someone else's.
pub open spec fn crosses(o: OrderRecordView, t: Terms) -> bool {
    &&& o.order.market_id == t.market
    &&& o.order.item_id == t.item
    &&& o.order.character_id != t.character
    &&& if buying(t) {
        o.order.side == "sell"@ && o.order.unit_price <= t.price
    } else {
        o.order.side == "buy"@ && o.order.unit_price >= t.price
    }
}

/// Whether order `a` is filled ahead of order `b`: by price, and by age at the same price.
pub open spec fn ahead(a: OrderRecordView, b: OrderRecordView, t: Terms) -> bool {
    if a.order.unit_price == b.order.unit_price {
        a.order.created_seq < b.order.created_seq
    } else if buying(t) {
        a.order.unit_price < b.order.unit_price
    } else {
        a.order.unit_price > b.order.unit_price
    }
}

/// The first of the first `n` orders in price-time priority, among those that cross.
pub open spec fn best(orders: Seq<OrderRecordView>, n: int, t: Terms) -> Option<int>
    decreases n,
{
    if n <= 0 {
        None
    } else {
        match best(orders, n - 1, t) {
            None => if crosses(orders[n - 1], t) {
                Some(n - 1)
            } else {
                None
            },
            Some(b) => if crosses(orders[n - 1], t) && ahead(orders[n - 1], orders[b], t) {
                Some(n - 1)
            } else {
                Some(b)
            },
        }
    }
}

/// A sweep of the book under way: the state so far, how much is still wanted, and what has
/// happened on the way.
pub struct Sweep {
    pub db: DbView,
    pub want: int,
    pub spent: int,
    pub earned: int,
    pub refunded: int,
    pub sale_tax: int,
    pub fills: Seq<MarketTradeView>,
    pub touched: Seq<(Seq<char>, Seq<char>, int)>,
}

pub open spec fn sweep_start(db: DbView, want: int) -> Sweep {
    Sweep {
        db,
        want,
        spent: 0,
        earned: 0,
        refunded: 0,
        sale_tax: 0,
        fills: Seq::empty(),
        touched: Seq::empty(),
    }
}

pub open spec fn min(a: int, b: int) -> int {
    if a <= b {
        a
    } else {
        b
    }
}

pub open spec fn buyer(t: Terms, o: OrderRecordView) -> Seq<char> {
    if buying(t) {
        t.character
    } else {
        o.order.character_id
    }
}

pub open spec fn seller(t: Terms, o: OrderRecordView) -> Seq<char> {
    if buying(t) {
        o.order.character_id
    } else {
        t.character
    }
}

/// Whether the buyer of the next fill has nowhere to put the goods.
pub open spec fn blocked(w: Sweep, t: Terms, cfg: MarketConfig) -> bool {
    best(w.db.orders, w.db.orders.len() as int, t) matches Some(k) && !lands(
        w.db.warehouse,
        stock_key(t.market, buyer(t, w.db.orders[k]), t.item),
        min(w.want, w.db.orders[k].order.qty_remaining),
        cfg.warehouse_slots as int,
    )
}

/// Whether a sweep is over: nothing is wanted, nothing crosses, or the goods cannot be received.
pub open spec fn swept_out(w: Sweep, t: Terms, cfg: MarketConfig) -> bool {
    w.want <= 0 || best(w.db.orders, w.db.orders.len() as int, t) is None || blocked(w, t, cfg)
}

/// The trade that filling `take` of an order makes. The resting order's price wins.
pub open spec fn trade_of(t: Terms, o: OrderRecordView, take: int, cfg: MarketConfig, id: Seq<char>) -> MarketTradeView {
    MarketTradeView {
        id,
        market_id: t.market,
        item_id: t.item,
        unit_price: o.order.unit_price,
        qty: take,
        seller_id: seller(t, o),
        buyer_id: buyer(t, o),
        sale_tax_gold: sale_tax_of(cfg, take * o.order.unit_price),
        listing_fee_gold: 0,
        created_at: t.now,
    }
}

/// The orders after `take` of order `k` is filled.
pub open spec fn order_filled(orders: Seq<OrderRecordView>, k: int, take: int) -> Seq<OrderRecordView> {
    let o = orders[k];
    if o.order.qty_remaining - take > 0 {
        orders.update(
            k,
            OrderRecordView {
                order: MarketOrderView { qty_remaining: o.order.qty_remaining - take, ..o.order },
                ..o
            },
        )
    } else {
        orders.remove(k)
    }
}

/// The state after `take` of order `k` is filled: goods move from the seller's escrow to the buyer,
/// the seller is paid at the resting price and taxed, and a buyer who bid more gets the rest back.
pub open spec fn db_filled(s: DbView, t: Terms, k: int, take: int, cfg: MarketConfig, ids: FillIds) -> DbView {
    let o = s.orders[k];
    let value = take * o.order.unit_price;
    let refunded = if buying(t) {
        granted(s.characters, t.character, take * (t.price - o.order.unit_price))
    } else {
        s.characters
    };
    burned(
        DbView {
            warehouse: draw_rows(
                credited(
                    s.warehouse,
                    stock_key(t.market, buyer(t, o), t.item),
                    take,
                    cfg.warehouse_slots as int,
                    ids.slot,
                ),
                stock_key(t.market, seller(t, o), t.item), "locked"@,
                take,
            ),
            characters: granted(refunded, seller(t, o), value),
            orders: order_filled(s.orders, k, take),
            trades: s.trades.push(trade_of(t, o, take, cfg, ids.trade)),
            ..s
        },
        t.market,
        seller(t, o),
        "sale_tax"@,
        sale_tax_of(cfg, value),
        Some(ids.trade),
        t.now,
    )
}

/// A sweep after one more fill, of the first order in priority.
pub open spec fn fill_best(w: Sweep, t: Terms, cfg: MarketConfig, ids: FillIds) -> Sweep {
    if swept_out(w, t, cfg) {
        w
    } else {
        let k = best(w.db.orders, w.db.orders.len() as int, t)->0;
        let o = w.db.orders[k];
        let take = min(w.want, o.order.qty_remaining);
        let value = take * o.order.unit_price;
        Sweep {
            db: db_filled(w.db, t, k, take, cfg, ids),
            want: w.want - take,
            spent: if buying(t) {
                w.spent + value
            } else {
                w.spent
            },
            earned: if buying(t) {
                w.earned
            } else {
                w.earned + value
            },
            refunded: if buying(t) {
                w.refunded + take * (t.price - o.order.unit_price)
            } else {
                w.refunded
            },
            sale_tax: if buying(t) {
                w.sale_tax
            } else {
                w.sale_tax + sale_tax_of(cfg, value)
            },
            fills: w.fills.push(trade_of(t, o, take, cfg, ids.trade)),
            touched: w.touched.push((o.order.id, o.order.character_id, o.order.qty_remaining - take)),
        }
    }
}

/// A sweep after one fill for each entry of `ids`, or fewer once it is over.
pub open spec fn swept(w: Sweep, t: Terms, cfg: MarketConfig, ids: Seq<FillIds>) -> Sweep
    decreases ids.len(),
{
    if ids.len() == 0 {
        w
    } else {
        fill_best(swept(w, t, cfg, ids.drop_last()), t, cfg, ids.last())
    }
}

/// What an order adds to the sells that a stock has been promised to.
pub open spec fn promise_qty(key: StockKey) -> spec_fn(OrderRecordView) -> int {
    |o: OrderRecordView|
        if {
            &&& o.order.side == "sell"@
            &&& o.order.market_id == key.market
            &&& o.order.character_id == key.character
            &&& o.order.item_id == key.item
        } {
            o.order.qty_remaining
        } else {
            0
        }
}

/// How much of a kind of stock open sell orders promise.
pub open spec fn promised(orders: Seq<OrderRecordView>, key: StockKey) -> int {
    sum(orders, promise_qty(key))
}

/// Whether an order may rest: it buys or sells, it is for something, at a price, by someone, and what it trades stacks.
pub open spec fn order_ok(characters: Seq<CharacterRecordView>, o: OrderRecordView) -> bool {
    &&& o.order.side == "buy"@ || o.order.side == "sell"@
    &&& o.order.qty_remaining > 0
    &&& o.order.unit_price >= 0
    &&& has_character(characters, o.order.character_id)
    &&& !is_tool(o.order.item_id)
}

pub open spec fn orders_ok(s: DbView) -> bool {
    forall|i: int| 0 <= i < s.orders.len() ==> order_ok(s.characters, #[trigger] s.orders[i])
}

/// What every market operation keeps: no purse is overdrawn, no slot is empty, every order may
/// rest, every sell order is covered by locked stock, and all gold and all stock can be counted.
pub open spec fn market_sound(s: DbView) -> bool {
    &&& solvent(s.characters)
    &&& stocked(s.warehouse)
    &&& orders_ok(s)
    &&& forall|key: StockKey| #[trigger] promised(s.orders, key) <= stock(s.warehouse, key, "locked"@)
    &&& wealth(s) <= i64::MAX
    &&& total_stock(s.warehouse) <= i64::MAX
}

/// The gold that a sweep holds in escrow for what is still wanted.
pub open spec fn pending_gold(w: Sweep, t: Terms) -> int {
    if buying(t) {
        w.want * t.price
    } else {
        0
    }
}

/// The goods that a sweep holds in escrow for what is still wanted.
pub open spec fn pending_goods(w: Sweep, t: Terms, key: StockKey) -> int {
    if !buying(t) && key == stock_key(t.market, t.character, t.item) {
        w.want
    } else {
        0
    }
}

/// A sound state, with what the sweep holds in escrow counted in.
pub open spec fn sweep_sound(w: Sweep, t: Terms) -> bool {
    &&& w.want >= 0
    &&& t.side == "buy"@ || t.side == "sell"@
    &&& t.price >= 0
    &&& !is_tool(t.item)
    &&& has_character(w.db.characters, t.character)
    &&& solvent(w.db.characters)
    &&& stocked(w.db.warehouse)
    &&& orders_ok(w.db)
    &&& forall|key: StockKey| #[trigger]
        promised(w.db.orders, key) + pending_goods(w, t, key) <= stock(w.db.warehouse, key, "locked"@)
    &&& wealth(w.db) + pending_gold(w, t) <= i64::MAX
    &&& total_stock(w.db.warehouse) <= i64::MAX
}

/// The order that [`best`] picks crosses, and no crossing order is ahead of it.
pub proof fn lemma_best(orders: Seq<OrderRecordView>, n: int, t: Terms)
    requires
        0 <= n <= orders.len(),
    ensures
        best(orders, n, t) matches Some(k) ==> {
            &&& 0 <= k < n
            &&& crosses(orders[k], t)
            &&& forall|i: int| 0 <= i < n && crosses(#[trigger] orders[i], t) ==> !ahead(orders[i], orders[k], t)
        },
        best(orders, n, t) is None ==> forall|i: int| 0 <= i < n ==> !crosses(#[trigger] orders[i], t),
    decreases n,
{
    if n > 0 {
        lemma_best(orders, n - 1, t);
    }
}

pub proof fn lemma_sides_differ()
    ensures
        "buy"@ != "sell"@,
{
    reveal_strlit("buy");
    reveal_strlit("sell");
    assert("buy"@.len() == 3);
    assert("sell"@.len() == 4);
}

/// Filling part of an order takes exactly that part off what the book holds and promises.
pub proof fn lemma_order_filled(orders: Seq<OrderRecordView>, k: int, take: int, key: StockKey)
    requires
        0 <= k < orders.len(),
        0 < take <= orders[k].order.qty_remaining,
    ensures
        sum(order_filled(orders, k, take), order_escrow()) == sum(orders, order_escrow()) - if orders[k].order.side
            == "buy"@ {
            take * orders[k].order.unit_price
        } else {
            0
        },
        promised(order_filled(orders, k, take), key) == promised(orders, key) - if {
            &&& orders[k].order.side == "sell"@
            &&& stock_key(orders[k].order.market_id, orders[k].order.character_id, orders[k].order.item_id) == key
        } {
            take
        } else {
            0
        },
{
    let o = orders[k];
    let left = o.order.qty_remaining - take;
    assert(o.order.unit_price * left == o.order.unit_price * o.order.qty_remaining - take * o.order.unit_price)
        by (nonlinear_arith)
        requires
            left == o.order.qty_remaining - take,
    ;
    if left > 0 {
        let after = OrderRecordView { order: MarketOrderView { qty_remaining: left, ..o.order }, ..o };
        lemma_sum_update(orders, order_escrow(), k, after);
        lemma_sum_update(orders, promise_qty(key), k, after);
    } else {
        lemma_sum_remove(orders, order_escrow(), k);
        lemma_sum_remove(orders, promise_qty(key), k);
        assert(left == 0);
        assert(o.order.unit_price * left == 0) by (nonlinear_arith)
            requires
                left == 0,
        ;
    }
}

pub proof fn lemma_granted(
    characters: Seq<CharacterRecordView>,
    id: Seq<char>,
    amount: int,
)
    requires
        solvent(characters),
        has_character(characters, id),
        amount >= 0,
    ensures
        solvent(granted(characters, id, amount)),
        sum(granted(characters, id, amount), purse_gold()) == sum(characters, purse_gold()) + amount,
        gold_of(granted(characters, id, amount), id) == gold_of(characters, id) + amount,
        forall|other: Seq<char>|
            #![trigger has_character(granted(characters, id, amount), other)]
            has_character(granted(characters, id, amount), other) == has_character(characters, other),
{
    lemma_paid(characters, id, amount);
    lemma_purse_bound(characters, id);
}

/// One fill moves gold without making or losing any, but for the tax, which is burned.
pub proof fn lemma_fill_gold(w: Sweep, t: Terms, cfg: MarketConfig, ids: FillIds)
    requires
        sweep_sound(w, t),
        fair(cfg),
        !swept_out(w, t, cfg),
    ensures
        ({
            let after = fill_best(w, t, cfg, ids);
            let k = best(w.db.orders, w.db.orders.len() as int, t)->0;
            let value = min(w.want, w.db.orders[k].order.qty_remaining) * w.db.orders[k].order.unit_price;
            &&& 0 <= k < w.db.orders.len()
            &&& 0 <= value <= i64::MAX
            &&& solvent(after.db.characters)
            &&& forall|other: Seq<char>|
                #![trigger has_character(after.db.characters, other)]
                has_character(after.db.characters, other) == has_character(w.db.characters, other)
            &&& wealth(after.db) + pending_gold(after, t) == wealth(w.db) + pending_gold(w, t) - sale_tax_of(
                cfg,
                value,
            )
            &&& supply_gap(after.db) - pending_gold(after, t) == supply_gap(w.db) - pending_gold(w, t)
            &&& 0 <= sale_tax_of(cfg, value) <= value
            &&& sum(after.db.fees, fee_gold()) == sum(
                w.db.fees,
                fee_gold(),
            ) + sale_tax_of(cfg, value)
        }),
{
    let n = w.db.orders.len() as int;
    lemma_best(w.db.orders, n, t);
    let k = best(w.db.orders, n, t)->0;
    let o = w.db.orders[k];
    assert(order_ok(w.db.characters, o));
    let take = min(w.want, o.order.qty_remaining);
    let exec = o.order.unit_price;
    let value = take * exec;
    let refund = take * (t.price - exec);
    lemma_order_filled(w.db.orders, k, take, stock_key(t.market, seller(t, o), t.item));
    lemma_sides_differ();
    assert(value >= 0) by (nonlinear_arith)
        requires
            value == take * exec,
            take >= 0,
            exec >= 0,
    ;
    law_fees_are_bounded(cfg, value);
    let c0 = w.db.characters;
    let c1 = if buying(t) {
        granted(c0, t.character, refund)
    } else {
        c0
    };
    if buying(t) {
        assert(refund >= 0) by (nonlinear_arith)
            requires
                refund == take * (t.price - exec),
                take >= 0,
                exec <= t.price,
        ;
        lemma_granted(c0, t.character, refund);
        assert(refund + value == take * t.price) by (nonlinear_arith)
            requires
                refund == take * (t.price - exec),
                value == take * exec,
        ;
        assert((w.want - take) * t.price == w.want * t.price - take * t.price) by (nonlinear_arith);
        assert(take * t.price <= w.want * t.price) by (nonlinear_arith)
            requires
                take <= w.want,
                t.price >= 0,
        ;
    }
    assert(has_character(c1, seller(t, o)));
    lemma_granted(c1, seller(t, o), value);
    let mid = DbView {
        warehouse: draw_rows(
            credited(
                w.db.warehouse,
                stock_key(t.market, buyer(t, o), t.item),
                take,
                cfg.warehouse_slots as int,
                ids.slot,
            ),
            stock_key(t.market, seller(t, o), t.item), "locked"@,
            take,
        ),
        characters: granted(c1, seller(t, o), value),
        orders: order_filled(w.db.orders, k, take),
        trades: w.db.trades.push(trade_of(t, o, take, cfg, ids.trade)),
        ..w.db
    };
    let tax = sale_tax_of(cfg, value);
    law_burning_is_ledgered(mid, t.market, seller(t, o), "sale_tax"@, tax, Some(ids.trade), t.now);
    lemma_purse_bound(c1, seller(t, o));
    lemma_paid(mid.characters, seller(t, o), -tax);
    lemma_sum_nonneg_orders(w.db, k);
    lemma_purse_bound(c0, t.character);
}

/// One fill moves goods from the seller's escrow to the buyer, and leaves every promise covered.
pub proof fn lemma_fill_goods(w: Sweep, t: Terms, cfg: MarketConfig, ids: FillIds)
    requires
        sweep_sound(w, t),
        !swept_out(w, t, cfg),
    ensures
        ({
            let after = fill_best(w, t, cfg, ids);
            &&& stocked(after.db.warehouse)
            &&& total_stock(after.db.warehouse) == total_stock(w.db.warehouse)
            &&& forall|item: Seq<char>|
                #[trigger] item_stock(after.db.warehouse, item) == item_stock(w.db.warehouse, item)
            &&& forall|key: StockKey| #[trigger]
                promised(after.db.orders, key) + pending_goods(after, t, key) <= stock(
                    after.db.warehouse,
                    key,
                    "locked"@,
                )
            &&& forall|key: StockKey|
                #![trigger stock(after.db.warehouse, key, "locked"@)]
                stock(after.db.warehouse, key, "locked"@) - promised(after.db.orders, key) - pending_goods(
                    after,
                    t,
                    key,
                ) == stock(w.db.warehouse, key, "locked"@) - promised(w.db.orders, key) - pending_goods(w, t, key)
        }),
{
    let n = w.db.orders.len() as int;
    lemma_best(w.db.orders, n, t);
    let k = best(w.db.orders, n, t)->0;
    let o = w.db.orders[k];
    assert(order_ok(w.db.characters, o));
    let take = min(w.want, o.order.qty_remaining);
    let to = stock_key(t.market, buyer(t, o), t.item);
    let from = stock_key(t.market, seller(t, o), t.item);
    let rows0 = w.db.warehouse;
    let rows1 = credited(rows0, to, take, cfg.warehouse_slots as int, ids.slot);
    let rows2 = draw_rows(rows1, from, "locked"@, take);
    let after = fill_best(w, t, cfg, ids);
    assert(after.db.warehouse == rows2);
    lemma_states_differ();
    lemma_sides_differ();
    lemma_credited(rows0, to, take, cfg.warehouse_slots as int, ids.slot, from, "locked"@);
    assert(promised(w.db.orders, from) + pending_goods(w, t, from) <= stock(rows0, from, "locked"@));
    lemma_order_filled(w.db.orders, k, take, from);
    lemma_promise_nonneg(w.db, from);
    assert(take <= stock(rows0, from, "locked"@)) by {
        if buying(t) {
            assert(promise_qty(from)(o) == o.order.qty_remaining);
        }
    }
    lemma_draw_qty(rows1, from, "locked"@, take);
    assert(draw_qty(rows1, from, "locked"@, take) == take);
    lemma_drawn(rows1, from, "locked"@, take, from, "locked"@);
    assert forall|item: Seq<char>| #[trigger] item_stock(rows2, item) == item_stock(rows0, item) by {
        let other = StockKey { item, ..from };
        lemma_credited(rows0, to, take, cfg.warehouse_slots as int, ids.slot, other, "locked"@);
        lemma_drawn(rows1, from, "locked"@, take, other, "locked"@);
    }
    assert forall|key: StockKey|
        #![trigger stock(after.db.warehouse, key, "locked"@)]
        stock(after.db.warehouse, key, "locked"@) - promised(after.db.orders, key) - pending_goods(after, t, key)
            == stock(rows0, key, "locked"@) - promised(w.db.orders, key) - pending_goods(w, t, key) by {
        lemma_credited(rows0, to, take, cfg.warehouse_slots as int, ids.slot, key, "locked"@);
        lemma_drawn(rows1, from, "locked"@, take, key, "locked"@);
        lemma_order_filled(w.db.orders, k, take, key);
    }
    assert forall|key: StockKey| #[trigger]
        promised(after.db.orders, key) + pending_goods(after, t, key) <= stock(
            after.db.warehouse,
            key,
            "locked"@,
        ) by {
        assert(promised(w.db.orders, key) + pending_goods(w, t, key) <= stock(rows0, key, "locked"@));
        assert(stock(after.db.warehouse, key, "locked"@) - promised(after.db.orders, key) - pending_goods(
            after,
            t,
            key,
        ) == stock(rows0, key, "locked"@) - promised(w.db.orders, key) - pending_goods(w, t, key));
    }
}

/// What one open sell order promises is part of all that is promised.
pub proof fn lemma_promise_nonneg(s: DbView, key: StockKey)
    requires
        orders_ok(s),
    ensures
        promised(s.orders, key) >= 0,
        forall|i: int| 0 <= i < s.orders.len() ==> promise_qty(key)(#[trigger] s.orders[i]) <= promised(s.orders, key),
{
    assert forall|i: int| 0 <= i < s.orders.len() implies promise_qty(key)(#[trigger] s.orders[i]) >= 0 by {
        assert(order_ok(s.characters, s.orders[i]));
    }
    lemma_sum_nonneg(s.orders, promise_qty(key));
}

/// A fill keeps a sweep sound.
pub proof fn lemma_fill_sound(w: Sweep, t: Terms, cfg: MarketConfig, ids: FillIds)
    requires
        sweep_sound(w, t),
        fair(cfg),
    ensures
        sweep_sound(fill_best(w, t, cfg, ids), t),
{
    if !swept_out(w, t, cfg) {
        lemma_fill_gold(w, t, cfg, ids);
        lemma_fill_goods(w, t, cfg, ids);
        let n = w.db.orders.len() as int;
        lemma_best(w.db.orders, n, t);
        let k = best(w.db.orders, n, t)->0;
        let take = min(w.want, w.db.orders[k].order.qty_remaining);
        let after = fill_best(w, t, cfg, ids);
        assert(after.db.orders == order_filled(w.db.orders, k, take));
        assert forall|i: int| 0 <= i < after.db.orders.len() implies order_ok(
            after.db.characters,
            #[trigger] after.db.orders[i],
        ) by {
            let j = if w.db.orders[k].order.qty_remaining - take > 0 || i < k {
                i
            } else {
                i + 1
            };
            assert(order_ok(w.db.characters, w.db.orders[j]));
        }
    }
}

/// What an open buy order holds in escrow is part of all the escrow.
pub proof fn lemma_sum_nonneg_orders(s: DbView, k: int)
    requires
        orders_ok(s),
        0 <= k < s.orders.len(),
    ensures
        escrow(s) >= 0,
        s.orders[k].order.side == "buy"@ ==> s.orders[k].order.unit_price * s.orders[k].order.qty_remaining <= escrow(
            s,
        ),
        s.orders[k].order.side == "buy"@ ==> forall|take: int|
            0 <= take <= s.orders[k].order.qty_remaining ==> #[trigger] (take * s.orders[k].order.unit_price)
                <= escrow(s),
{
    lemma_escrow_nonneg(s);
    let o = s.orders[k].order;
    assert(order_escrow()(s.orders[k]) <= sum(s.orders, order_escrow()));
    assert forall|take: int| 0 <= take <= o.qty_remaining implies #[trigger] (take * o.unit_price)
        <= o.unit_price * o.qty_remaining by {
        assert(order_ok(s.characters, s.orders[k]));
        assert(take * o.unit_price <= o.unit_price * o.qty_remaining) by (nonlinear_arith)
            requires
                0 <= take <= o.qty_remaining,
                o.unit_price >= 0,
        ;
    }
}

pub proof fn lemma_escrow_nonneg(s: DbView)
    requires
        orders_ok(s),
    ensures
        escrow(s) >= 0,
        forall|i: int| 0 <= i < s.orders.len() ==> order_escrow()(#[trigger] s.orders[i]) <= escrow(s),
{
    assert forall|i: int| 0 <= i < s.orders.len() implies order_escrow()(#[trigger] s.orders[i]) >= 0 by {
        assert(order_ok(s.characters, s.orders[i]));
        let o = s.orders[i].order;
        assert(o.unit_price * o.qty_remaining >= 0) by (nonlinear_arith)
            requires
                o.unit_price >= 0,
                o.qty_remaining > 0,
        ;
    }
    lemma_sum_nonneg(s.orders, order_escrow());
}

/// How much gold a sweep has moved, held against what it began with.
pub open spec fn tallied(w: Sweep, start: Sweep, t: Terms) -> bool {
    if buying(t) {
        &&& w.spent + w.refunded + w.want * t.price == start.want * t.price
        &&& w.spent >= 0
        &&& w.refunded >= 0
        &&& w.earned == 0
        &&& w.sale_tax == 0
    } else {
        &&& w.earned + escrow(w.db) == escrow(start.db)
        &&& 0 <= w.sale_tax <= w.earned
        &&& w.spent == 0
        &&& w.refunded == 0
    }
}

/// A fill takes no more than the seller has in escrow, and no more gold than is held for it.
pub proof fn lemma_fill_cover(w: Sweep, t: Terms, k: int)
    requires
        sweep_sound(w, t),
        w.want > 0,
        best(w.db.orders, w.db.orders.len() as int, t) == Some(k),
    ensures
        0 <= k < w.db.orders.len(),
        crosses(w.db.orders[k], t),
        order_ok(w.db.characters, w.db.orders[k]),
        ({
            let o = w.db.orders[k];
            let take = min(w.want, o.order.qty_remaining);
            &&& 0 < take
            &&& take <= stock(w.db.warehouse, stock_key(t.market, seller(t, o), t.item), "locked"@)
            &&& take * o.order.unit_price >= 0
            &&& buying(t) ==> take * (t.price - o.order.unit_price) >= 0 && take * o.order.unit_price + take * (t.price
                - o.order.unit_price) == take * t.price && purses(w.db) + take * t.price <= i64::MAX
            &&& !buying(t) ==> purses(w.db) + take * o.order.unit_price <= i64::MAX
        }),
        0 <= purses(w.db) <= i64::MAX,
{
    lemma_best(w.db.orders, w.db.orders.len() as int, t);
    lemma_sides_differ();
    let o = w.db.orders[k];
    assert(order_ok(w.db.characters, o));
    let take = min(w.want, o.order.qty_remaining);
    let from = stock_key(t.market, seller(t, o), t.item);
    assert(promised(w.db.orders, from) + pending_goods(w, t, from) <= stock(w.db.warehouse, from, "locked"@));
    lemma_promise_nonneg(w.db, from);
    if buying(t) {
        assert(promise_qty(from)(o) == o.order.qty_remaining);
    }
    lemma_sum_nonneg_orders(w.db, k);
    lemma_purse_bound(w.db.characters, t.character);
    let exec = o.order.unit_price;
    assert(take * exec >= 0) by (nonlinear_arith)
        requires
            take >= 0,
            exec >= 0,
    ;
    assert(take * exec <= o.order.unit_price * o.order.qty_remaining) by (nonlinear_arith)
        requires
            0 <= take <= o.order.qty_remaining,
            exec == o.order.unit_price,
            exec >= 0,
    ;
    if buying(t) {
        assert(take * (t.price - exec) >= 0) by (nonlinear_arith)
            requires
                take >= 0,
                exec <= t.price,
        ;
        assert(take * exec + take * (t.price - exec) == take * t.price) by (nonlinear_arith);
        assert(take * t.price <= w.want * t.price) by (nonlinear_arith)
            requires
                take <= w.want,
                t.price >= 0,
        ;
    }
}

pub proof fn lemma_fill_tally(w: Sweep, start: Sweep, t: Terms, cfg: MarketConfig, ids: FillIds)
    requires
        sweep_sound(w, t),
        fair(cfg),
        tallied(w, start, t),
    ensures
        tallied(fill_best(w, t, cfg, ids), start, t),
{
    if !swept_out(w, t, cfg) {
        let k = best(w.db.orders, w.db.orders.len() as int, t)->0;
        lemma_fill_cover(w, t, k);
        let o = w.db.orders[k];
        let take = min(w.want, o.order.qty_remaining);
        let value = take * o.order.unit_price;
        lemma_order_filled(w.db.orders, k, take, stock_key(t.market, seller(t, o), t.item));
        law_fees_are_bounded(cfg, value);
        assert((w.want - take) * t.price == w.want * t.price - take * t.price) by (nonlinear_arith);
        lemma_sides_differ();
    }
}

/// The size of a buy: what is asked for, walked down until the purse covers it and its fee.
pub open spec fn walk_down(take: int, price: int, purse: int, cfg: MarketConfig) -> int
    decreases
        if take > 0 {
            take
        } else {
            0
        },
{
    let short = take * price + listing_fee_of(cfg, take * price) - purse;
    if take <= 0 || short <= 0 {
        take
    } else if short / price > 1 {
        walk_down(take - short / price, price, purse, cfg)
    } else {
        walk_down(take - 1, price, purse, cfg)
    }
}

/// The size of a buy: no more than the purse covers, its listing fee included.
pub open spec fn buy_size(qty: int, price: int, purse: int, cfg: MarketConfig) -> int {
    walk_down(
        min(
            qty,
            if price > 0 {
                purse / price
            } else {
                0
            },
        ),
        price,
        purse,
        cfg,
    )
}

/// What placing an order has put in escrow.
pub struct Escrowed {
    pub db: DbView,
    pub qty: int,
    pub unaffordable: bool,
}

/// Escrow for an order: gold for a buy, goods for a sell, as far as there is any. A sell whose
/// listing fee the purse does not cover is refused before anything moves.
pub open spec fn escrowed(s: DbView, t: Terms, qty: int, cfg: MarketConfig, id: Seq<char>) -> Escrowed {
    let purse = gold_of(s.characters, t.character);
    let key = stock_key(t.market, t.character, t.item);
    let would = min(qty, stock(s.warehouse, key, "available"@));
    if buying(t) {
        let take = buy_size(qty, t.price, purse, cfg);
        if take > 0 {
            Escrowed {
                db: DbView { characters: paid(s.characters, t.character, -(take * t.price)), ..s },
                qty: take,
                unaffordable: false,
            }
        } else {
            Escrowed { db: s, qty: 0, unaffordable: false }
        }
    } else if would > 0 && listing_fee_of(cfg, would * t.price) > purse {
        Escrowed { db: s, qty: 0, unaffordable: true }
    } else {
        Escrowed {
            db: DbView { warehouse: lock_rows(s.warehouse, key, qty, id), ..s },
            qty: lock_qty(s.warehouse, key, qty),
            unaffordable: false,
        }
    }
}

/// The sweep that an escrowed order starts, once its listing fee is burned.
pub open spec fn listed(e: Escrowed, t: Terms, cfg: MarketConfig) -> Sweep {
    sweep_start(
        burned(
            e.db,
            t.market,
            t.character,
            "listing"@,
            listing_fee_of(cfg, e.qty * t.price),
            None,
            t.now,
        ),
        e.qty,
    )
}

/// The highest sequence number on the books; 0 when they are empty.
pub open spec fn top_seq(orders: Seq<OrderRecordView>) -> int
    decreases orders.len(),
{
    if orders.len() == 0 {
        0
    } else if orders.last().order.created_seq > top_seq(orders.drop_last()) {
        orders.last().order.created_seq
    } else {
        top_seq(orders.drop_last())
    }
}

/// The order that the remainder of a sweep rests as.
pub open spec fn resting(w: Sweep, t: Terms, id: Seq<char>) -> OrderRecordView {
    OrderRecordView {
        order: MarketOrderView {
            id,
            market_id: t.market,
            character_id: t.character,
            side: t.side,
            item_id: t.item,
            unit_price: t.price,
            qty_total: w.want,
            qty_remaining: w.want,
            created_seq: top_seq(w.db.orders) + 1,
            created_at: t.now,
        },
        expires_at: t.expires_at,
    }
}

/// The state after what is left of a sweep rests on the book.
pub open spec fn rested(w: Sweep, t: Terms, id: Seq<char>) -> DbView {
    if w.want > 0 {
        DbView { orders: w.db.orders.push(resting(w, t, id)), ..w.db }
    } else {
        w.db
    }
}

/// Whether what is left of a sweep would cross the book where it rested.
pub open spec fn would_cross(w: Sweep, t: Terms) -> bool {
    w.want > 0 && best(w.db.orders, w.db.orders.len() as int, t) is Some
}

/// The state after a sweep: what is left rests on the book. Where it would cross the book it comes off again at
/// once, and what it holds in escrow goes back.
pub open spec fn concluded(w: Sweep, t: Terms, id: Seq<char>) -> DbView {
    if would_cross(w, t) {
        order_released(rested(w, t, id), w.db.orders.len() as int, id)
    } else {
        rested(w, t, id)
    }
}

/// How much of what is left of a sweep stays on the book.
pub open spec fn rest_qty(w: Sweep, t: Terms) -> int {
    if would_cross(w, t) {
        0
    } else {
        w.want
    }
}

/// The view of a [`BuyOutcome`].
pub struct BuyOutcomeView {
    pub filled: int,
    pub spent: int,
    pub earned: int,
    pub refunded: int,
    pub resting_order_id: Option<Seq<char>>,
    pub resting_qty: int,
    pub fills: Seq<MarketTradeView>,
    pub touched: Seq<(Seq<char>, Seq<char>, int)>,
    pub deduped: bool,
    pub listing_fee: int,
    pub sale_tax: int,
    pub fee_unaffordable: bool,
}

impl BuyOutcomeView {
    /// The outcome of an order that did nothing.
    pub open spec fn nothing() -> BuyOutcomeView {
        BuyOutcomeView {
            filled: 0,
            spent: 0,
            earned: 0,
            refunded: 0,
            resting_order_id: None,
            resting_qty: 0,
            fills: Seq::empty(),
            touched: Seq::empty(),
            deduped: false,
            listing_fee: 0,
            sale_tax: 0,
            fee_unaffordable: false,
        }
    }
}

/// The ids that placing an order uses: of the slot that a split stack's locked part goes to, of the
/// order that rests or else of the slot that goods handed back go to, and of each fill.
pub struct PlaceIds {
    pub slot: Seq<char>,
    pub order: Seq<char>,
    pub fills: Seq<FillIds>,
}

/// What placing an order leads to: the state after it, and what is reported.
pub struct Placed {
    pub db: DbView,
    pub out: BuyOutcomeView,
}

pub open spec fn is_open_order(market: Seq<char>, character: Seq<char>) -> spec_fn(OrderRecordView) -> bool {
    |o: OrderRecordView| o.order.market_id == market && o.order.character_id == character
}

/// The sweep that placing an order ends with.
pub open spec fn placed_sweep(
    s: DbView,
    t: Terms,
    qty: int,
    cfg: MarketConfig,
    command: Seq<char>,
    ids: PlaceIds,
) -> Sweep {
    let begun = DbView { commands: claimed(s.commands, command, t.character, t.now), ..s };
    swept(listed(escrowed(begun, t, qty, cfg, ids.slot), t, cfg), t, cfg, ids.fills)
}

/// Whether an order gets as far as escrow: its command is fresh, and there is room on the book.
pub open spec fn admitted(s: DbView, t: Terms, cfg: MarketConfig, command: Seq<char>) -> bool {
    fresh_command(s.commands, command) && count(s.orders, is_open_order(t.market, t.character)) < cfg.max_open_orders
}

/// Placing an order: a command seen before does nothing; too many open orders, nothing to escrow
/// or a fee that cannot be paid refuse it; else it is escrowed, listed and swept, and the rest rests, unless
/// it would cross the book, and is then handed back.
pub open spec fn placed(
    s: DbView,
    t: Terms,
    qty: int,
    cfg: MarketConfig,
    command: Seq<char>,
    ids: PlaceIds,
) -> Placed {
    let begun = DbView { commands: claimed(s.commands, command, t.character, t.now), ..s };
    let e = escrowed(begun, t, qty, cfg, ids.slot);
    let w = placed_sweep(s, t, qty, cfg, command, ids);
    if !fresh_command(s.commands, command) {
        Placed { db: s, out: BuyOutcomeView { deduped: true, ..BuyOutcomeView::nothing() } }
    } else if !admitted(s, t, cfg, command) {
        Placed { db: begun, out: BuyOutcomeView::nothing() }
    } else if e.unaffordable {
        Placed { db: begun, out: BuyOutcomeView { fee_unaffordable: true, ..BuyOutcomeView::nothing() } }
    } else if e.qty <= 0 {
        Placed { db: e.db, out: BuyOutcomeView::nothing() }
    } else {
        Placed {
            db: concluded(w, t, ids.order),
            out: BuyOutcomeView {
                filled: e.qty - w.want,
                spent: w.spent,
                earned: w.earned,
                refunded: w.refunded,
                resting_order_id: if rest_qty(w, t) > 0 {
                    Some(ids.order)
                } else {
                    None
                },
                resting_qty: rest_qty(w, t),
                fills: w.fills,
                touched: w.touched,
                deduped: false,
                listing_fee: listing_fee_of(cfg, e.qty * t.price),
                sale_tax: w.sale_tax,
                fee_unaffordable: false,
            },
        }
    }
}

/// Whether an order that was placed has been swept as far as it goes.
pub open spec fn carried_through(
    s: DbView,
    t: Terms,
    qty: int,
    cfg: MarketConfig,
    command: Seq<char>,
    ids: PlaceIds,
) -> bool {
    let begun = DbView { commands: claimed(s.commands, command, t.character, t.now), ..s };
    admitted(s, t, cfg, command) && escrowed(begun, t, qty, cfg, ids.slot).qty > 0 ==> swept_out(
        placed_sweep(s, t, qty, cfg, command, ids),
        t,
        cfg,
    )
}

/// Escrow puts aside at most what there is, so that a sound state gives a sound sweep.
pub proof fn lemma_listed_sound(s: DbView, t: Terms, qty: int, cfg: MarketConfig, id: Seq<char>)
    requires
        market_sound(s),
        fair(cfg),
        t.side == "buy"@ || t.side == "sell"@,
        t.side == "sell"@ ==> t.price >= 0,
        !is_tool(t.item),
        has_character(s.characters, t.character),
        escrowed(s, t, qty, cfg, id).qty > 0,
    ensures
        sweep_sound(listed(escrowed(s, t, qty, cfg, id), t, cfg), t),
        0 <= listing_fee_of(cfg, escrowed(s, t, qty, cfg, id).qty * t.price) <= gold_of(
            escrowed(s, t, qty, cfg, id).db.characters,
            t.character,
        ),
        supply_gap(listed(escrowed(s, t, qty, cfg, id), t, cfg).db) - pending_gold(
            listed(escrowed(s, t, qty, cfg, id), t, cfg),
            t,
        ) == supply_gap(s),
        forall|item: Seq<char>|
            #[trigger] item_stock(listed(escrowed(s, t, qty, cfg, id), t, cfg).db.warehouse, item) == item_stock(
                s.warehouse,
                item,
            ),
        forall|key: StockKey|
            stock(listed(escrowed(s, t, qty, cfg, id), t, cfg).db.warehouse, key, "locked"@) - promised(
                s.orders,
                key,
            ) - #[trigger] pending_goods(listed(escrowed(s, t, qty, cfg, id), t, cfg), t, key) == stock(
                s.warehouse,
                key,
                "locked"@,
            ) - promised(s.orders, key),
{
    let e = escrowed(s, t, qty, cfg, id);
    let w = listed(e, t, cfg);
    let key = stock_key(t.market, t.character, t.item);
    let purse = gold_of(s.characters, t.character);
    let fee = listing_fee_of(cfg, e.qty * t.price);
    lemma_purse_bound(s.characters, t.character);
    lemma_states_differ();
    if buying(t) {
        lemma_buy_size(qty, t.price, purse, cfg);
    }
    assert(e.qty * t.price >= 0) by (nonlinear_arith)
        requires
            e.qty >= 0,
            t.price >= 0,
    ;
    law_fees_are_bounded(cfg, e.qty * t.price);
    if buying(t) {
        lemma_paid(s.characters, t.character, -(e.qty * t.price));
    } else {
        lemma_lock_qty(s.warehouse, key, qty);
        lemma_locked_stocked(s.warehouse, key, qty, id);
        lemma_locked(s.warehouse, key, qty, id, key, "locked"@);
        assert forall|other: StockKey|
            #![trigger stock(w.db.warehouse, other, "locked"@)]
            stock(w.db.warehouse, other, "locked"@) == stock(s.warehouse, other, "locked"@) + pending_goods(
                w,
                t,
                other,
            ) by {
            lemma_locked(s.warehouse, key, qty, id, other, "locked"@);
        }
        assert forall|item: Seq<char>| #[trigger] item_stock(w.db.warehouse, item) == item_stock(s.warehouse, item) by {
            lemma_locked(s.warehouse, key, qty, id, StockKey { item, ..key }, "locked"@);
        }
    }
    assert(fee <= gold_of(e.db.characters, t.character));
    law_burning_is_ledgered(e.db, t.market, t.character, "listing"@, fee, None, t.now);
    lemma_paid(e.db.characters, t.character, -fee);
    lemma_purse_bound(e.db.characters, t.character);
    assert forall|i: int| 0 <= i < w.db.orders.len() implies order_ok(w.db.characters, #[trigger] w.db.orders[i]) by {
        assert(order_ok(s.characters, s.orders[i]));
    }
    assert forall|other: StockKey| #[trigger]
        promised(w.db.orders, other) + pending_goods(w, t, other) <= stock(w.db.warehouse, other, "locked"@) by {
        assert(promised(s.orders, other) <= stock(s.warehouse, other, "locked"@));
    }
}

/// A buy that is sized at all fits the purse, fee included, and is no larger than asked.
pub proof fn lemma_buy_size(qty: int, price: int, purse: int, cfg: MarketConfig)
    requires
        purse >= 0,
    ensures
        ({
            let take = buy_size(qty, price, purse, cfg);
            &&& take <= qty
            &&& take > 0 ==> take * price + listing_fee_of(cfg, take * price) <= purse && price > 0
        }),
{
    let first = min(
        qty,
        if price > 0 {
            purse / price
        } else {
            0
        },
    );
    lemma_walk_down(first, price, purse, cfg);
}

proof fn lemma_walk_down(take: int, price: int, purse: int, cfg: MarketConfig)
    ensures
        walk_down(take, price, purse, cfg) <= take,
        walk_down(take, price, purse, cfg) > 0 ==> walk_down(take, price, purse, cfg) * price + listing_fee_of(
            cfg,
            walk_down(take, price, purse, cfg) * price,
        ) <= purse,
    decreases
        if take > 0 {
            take
        } else {
            0
        },
{
    let short = take * price + listing_fee_of(cfg, take * price) - purse;
    if take <= 0 || short <= 0 {
    } else if short / price > 1 {
        lemma_walk_down(take - short / price, price, purse, cfg);
    } else {
        lemma_walk_down(take - 1, price, purse, cfg);
    }
}

/// Every sequence number is at most the highest.
pub proof fn lemma_top_seq(orders: Seq<OrderRecordView>)
    ensures
        top_seq(orders) >= 0,
        forall|i: int| 0 <= i < orders.len() ==> (#[trigger] orders[i]).order.created_seq <= top_seq(orders),
    decreases orders.len(),
{
    if orders.len() > 0 {
        lemma_top_seq(orders.drop_last());
        assert forall|i: int| 0 <= i < orders.len() implies (#[trigger] orders[i]).order.created_seq <= top_seq(
            orders,
        ) by {
            if i < orders.len() - 1 {
                assert(orders.drop_last()[i] == orders[i]);
            }
        }
    }
}

/// The highest sequence number is at most whatever every one is at most.
pub proof fn lemma_top_seq_le(orders: Seq<OrderRecordView>, bound: int)
    requires
        bound >= 0,
        forall|i: int| 0 <= i < orders.len() ==> (#[trigger] orders[i]).order.created_seq <= bound,
    ensures
        top_seq(orders) <= bound,
    decreases orders.len(),
{
    if orders.len() > 0 {
        assert forall|i: int| 0 <= i < orders.drop_last().len() implies (#[trigger] orders.drop_last()[i]).order.created_seq
            <= bound by {
            assert(orders.drop_last()[i] == orders[i]);
        }
        lemma_top_seq_le(orders.drop_last(), bound);
    }
}

/// Filling an order raises no sequence number.
pub proof fn lemma_top_seq_filled(orders: Seq<OrderRecordView>, k: int, take: int)
    requires
        0 <= k < orders.len(),
    ensures
        top_seq(order_filled(orders, k, take)) <= top_seq(orders),
{
    lemma_top_seq(orders);
    let after = order_filled(orders, k, take);
    assert forall|i: int| 0 <= i < after.len() implies (#[trigger] after[i]).order.created_seq <= top_seq(orders) by {
        let j = if orders[k].order.qty_remaining - take > 0 || i < k {
            i
        } else {
            i + 1
        };
        assert(after[i].order.created_seq == orders[j].order.created_seq);
    }
    lemma_top_seq_le(after, top_seq(orders));
}

/// Resting the remainder turns what the sweep holds in escrow into what the book holds.
pub proof fn lemma_rested_sound(w: Sweep, t: Terms, id: Seq<char>)
    requires
        sweep_sound(w, t),
    ensures
        market_sound(rested(w, t, id)),
        supply_gap(rested(w, t, id)) == supply_gap(w.db) - pending_gold(w, t),
        forall|key: StockKey|
            #[trigger] promised(rested(w, t, id).orders, key) == promised(w.db.orders, key) + pending_goods(w, t, key),
{
    let s = rested(w, t, id);
    let o = resting(w, t, id);
    lemma_sides_differ();
    if w.want > 0 {
        lemma_sum_push(w.db.orders, order_escrow(), o);
        assert(t.price * w.want == w.want * t.price) by (nonlinear_arith);
        assert forall|key: StockKey| #[trigger]
            promised(s.orders, key) <= stock(s.warehouse, key, "locked"@) by {
            lemma_sum_push(w.db.orders, promise_qty(key), o);
            assert(promised(w.db.orders, key) + pending_goods(w, t, key) <= stock(w.db.warehouse, key, "locked"@));
        }
        assert forall|key: StockKey| #[trigger]
            promised(s.orders, key) == promised(w.db.orders, key) + pending_goods(w, t, key) by {
            lemma_sum_push(w.db.orders, promise_qty(key), o);
        }
        assert forall|i: int| 0 <= i < s.orders.len() implies order_ok(s.characters, #[trigger] s.orders[i]) by {
            if i < w.db.orders.len() {
                assert(order_ok(w.db.characters, w.db.orders[i]));
            }
        }
    } else {
        assert(w.want * t.price == 0) by (nonlinear_arith)
            requires
                w.want == 0,
        ;
        assert forall|key: StockKey| #[trigger]
            promised(s.orders, key) <= stock(s.warehouse, key, "locked"@) by {
            assert(promised(w.db.orders, key) + pending_goods(w, t, key) <= stock(w.db.warehouse, key, "locked"@));
        }
    }
}

/// What is left of a sweep rests, or goes back to who placed it: no gold and no goods are made or lost, and what is
/// locked beyond what is promised stays as it was.
pub proof fn lemma_concluded_sound(w: Sweep, t: Terms, id: Seq<char>)
    requires
        sweep_sound(w, t),
    ensures
        ({
            let s = concluded(w, t, id);
            &&& market_sound(s)
            &&& supply_gap(s) == supply_gap(w.db) - pending_gold(w, t)
            &&& wealth(s) == wealth(w.db) + pending_gold(w, t)
            &&& s.fees == w.db.fees
            &&& s.orders == if rest_qty(w, t) > 0 {
                w.db.orders.push(resting(w, t, id))
            } else {
                w.db.orders
            }
            &&& gold_of(s.characters, t.character) == gold_of(w.db.characters, t.character) + pending_gold(w, t) - if buying(t) {
                rest_qty(w, t) * t.price
            } else {
                0
            }
            &&& total_stock(s.warehouse) == total_stock(w.db.warehouse)
            &&& forall|item: Seq<char>| #[trigger] item_stock(s.warehouse, item) == item_stock(w.db.warehouse, item)
            &&& forall|key: StockKey|
                #![trigger stock(s.warehouse, key, "locked"@)]
                stock(s.warehouse, key, "locked"@) - promised(s.orders, key) == stock(
                    w.db.warehouse,
                    key,
                    "locked"@,
                ) - promised(w.db.orders, key) - pending_goods(w, t, key)
            &&& forall|other: Seq<char>|
                #![trigger has_character(s.characters, other)]
                has_character(s.characters, other) == has_character(w.db.characters, other)
        }),
{
    let r = rested(w, t, id);
    let s = concluded(w, t, id);
    let n = w.db.orders.len() as int;
    lemma_rested_sound(w, t, id);
    assert(0 * t.price == 0) by (nonlinear_arith);
    assert forall|key: StockKey|
        #![trigger stock(r.warehouse, key, "locked"@)]
        stock(r.warehouse, key, "locked"@) - promised(r.orders, key) == stock(
            w.db.warehouse,
            key,
            "locked"@,
        ) - promised(w.db.orders, key) - pending_goods(w, t, key) by {
        assert(promised(r.orders, key) == promised(w.db.orders, key) + pending_goods(w, t, key));
    }
    if would_cross(w, t) {
        law_release_returns_the_escrow(r, n, id);
        assert(s.orders =~= w.db.orders);
        assert forall|key: StockKey|
            #![trigger stock(s.warehouse, key, "locked"@)]
            stock(s.warehouse, key, "locked"@) - promised(s.orders, key) == stock(
                w.db.warehouse,
                key,
                "locked"@,
            ) - promised(w.db.orders, key) - pending_goods(w, t, key) by {
            assert(stock(r.warehouse, key, "locked"@) - promised(r.orders, key) == stock(
                w.db.warehouse,
                key,
                "locked"@,
            ) - promised(w.db.orders, key) - pending_goods(w, t, key));
        }
        if buying(t) {
            assert(w.want * t.price >= 0) by (nonlinear_arith)
                requires
                    w.want >= 0,
                    t.price >= 0,
            ;
            lemma_granted(r.characters, t.character, w.want * t.price);
        }
    }
}

pub open spec fn order_terms(
    market: Seq<char>,
    character: Seq<char>,
    side: Seq<char>,
    item: Seq<char>,
    price: int,
    expires_at: int,
    now: int,
) -> Terms {
    Terms { market, character, side, item, price, expires_at, now }
}

/// The outcome of placing an order.
#[derive(Debug, Clone, PartialEq, Eq)]
pub struct BuyOutcome {
    /// Units traded at once, across every level crossed.
    pub filled: i64,
    /// Gold the placer of a buy spent, at the resting orders' prices.
    pub spent: i64,
    /// Gold the placer of a sell received, before tax.
    pub earned: i64,
    /// Escrowed gold handed back to a buy that crossed below its own limit.
    pub refunded: i64,
    /// The order that the remainder rests as, if any.
    pub resting_order_id: Option<String>,
    /// Units left resting on the book.
    pub resting_qty: i64,
    /// Each fill.
    pub fills: Vec<MarketTrade>,
    /// Resting orders touched, as `(order_id, owner_id, qty_remaining)`.
    pub touched: Vec<(String, String, i64)>,
    /// The command had been seen before and was not applied.
    pub deduped: bool,
    /// The listing fee that was burned. It is never refunded.
    pub listing_fee: i64,
    /// The sale tax that was burned out of the placer's proceeds.
    pub sale_tax: i64,
    /// The order was refused because the placer could not cover the listing fee.
    pub fee_unaffordable: bool,
}

pub open spec fn touched_view(v: Seq<(String, String, i64)>) -> Seq<(Seq<char>, Seq<char>, int)> {
    Seq::new(v.len(), |i: int| (v[i].0@, v[i].1@, v[i].2 as int))
}

impl View for BuyOutcome {
    type V = BuyOutcomeView;

    open spec fn view(&self) -> BuyOutcomeView {
        BuyOutcomeView {
            filled: self.filled as int,
            spent: self.spent as int,
            earned: self.earned as int,
            refunded: self.refunded as int,
            resting_order_id: opt_text(self.resting_order_id),
            resting_qty: self.resting_qty as int,
            fills: rows_view(self.fills@),
            touched: touched_view(self.touched@),
            deduped: self.deduped,
            listing_fee: self.listing_fee as int,
            sale_tax: self.sale_tax as int,
            fee_unaffordable: self.fee_unaffordable,
        }
    }
}

impl Default for BuyOutcome {
    fn default() -> (out: BuyOutcome)
        ensures
            out@ == BuyOutcomeView::nothing(),
    {
        let out = BuyOutcome {
            filled: 0,
            spent: 0,
            earned: 0,
            refunded: 0,
            resting_order_id: None,
            resting_qty: 0,
            fills: Vec::new(),
            touched: Vec::new(),
            deduped: false,
            listing_fee: 0,
            sale_tax: 0,
            fee_unaffordable: false,
        };
        assert(out@.fills =~= BuyOutcomeView::nothing().fills);
        assert(out@.touched =~= BuyOutcomeView::nothing().touched);
        out
    }
}

/// The size of a buy that a purse covers, its listing fee included.
fn size_buy(qty: i64, unit_price: i64, purse: i64, cfg: &MarketConfig) -> (take: i64)
    requires
        fair(*cfg),
        purse >= 0,
    ensures
        take == buy_size(qty as int, unit_price as int, purse as int, *cfg) || take <= 0 && buy_size(
            qty as int,
            unit_price as int,
            purse as int,
            *cfg,
        ) <= 0,
{
    let most: i64 = if unit_price > 0 {
        purse / unit_price
    } else {
        0
    };
    let mut take: i64 = if qty <= most {
        qty
    } else {
        most
    };
    proof {
        if unit_price > 0 {
            assert(most * unit_price <= purse) by {
                vstd::arithmetic::div_mod::lemma_fundamental_div_mod(purse as int, unit_price as int);
                assert(most * unit_price == unit_price * most) by (nonlinear_arith);
            }
            assert(take * unit_price <= most * unit_price) by (nonlinear_arith)
                requires
                    take <= most,
                    unit_price >= 0,
            ;
        }
    }
    while take > 0
        invariant_except_break
            take > 0 ==> unit_price > 0 && take * unit_price <= purse,
            buy_size(qty as int, unit_price as int, purse as int, *cfg) == walk_down(
                take as int,
                unit_price as int,
                purse as int,
                *cfg,
            ),
        invariant
            fair(*cfg),
            purse >= 0,
        ensures
            buy_size(qty as int, unit_price as int, purse as int, *cfg) == take || take <= 0 && buy_size(
                qty as int,
                unit_price as int,
                purse as int,
                *cfg,
            ) <= 0,
        decreases take,
    {
        assert(take * unit_price >= 0) by (nonlinear_arith)
            requires
                take >= 0,
                unit_price >= 0,
        ;
        let notional: i64 = take * unit_price;
        let fee: i64 = cfg.listing_fee(notional);
        proof {
            law_fees_are_bounded(*cfg, notional as int);
        }
        if fee <= purse - notional {
            break ;
        }
        let short: i64 = fee - (purse - notional);
        let ghost was = take;
        let less: i64 = short / unit_price;
        let step: i64 = if less > 1 {
            less
        } else {
            1
        };
        if step >= take {
            proof {
                lemma_walk_down(take - step, unit_price as int, purse as int, *cfg);
            }
            take = 0;
            break ;
        }
        take = take - step;
        assert(take * unit_price <= was * unit_price) by (nonlinear_arith)
            requires
                take <= was,
                unit_price >= 0,
        ;
    }
    take
}

/// Why an operation on the state could not be carried out.
#[derive(Debug, Clone, Copy, PartialEq, Eq)]
pub enum DbError {
    /// A row that must exist does not.
    RowNotFound,
    /// A column that must hold a value does not.
    ColumnDecode,
}

impl Db {
    /// The first order in price-time priority that an incoming order crosses.
    fn best_order(&self, market_id: &str, character_id: &str, side: &str, item_id: &str, unit_price: i64) -> (found:
        Option<usize>)
        ensures
            forall|expires_at: int, now: int|
                #![trigger order_terms(market_id@, character_id@, side@, item_id@, unit_price as int, expires_at, now)]
                {
                    let b = best(
                        self@.orders,
                        self@.orders.len() as int,
                        order_terms(
                            market_id@,
                            character_id@,
                            side@,
                            item_id@,
                            unit_price as int,
                            expires_at,
                            now,
                        ),
                    );
                    match found {
                        Some(k) => b == Some(k as int) && k < self@.orders.len(),
                        None => b is None,
                    }
                },
    {
        let buys: bool = same(side, "buy");
        let other: &str = if buys {
            "sell"
        } else {
            "buy"
        };
        let mut found: Option<usize> = None;
        let mut i: usize = 0;
        while i < self.orders.len()
            invariant
                i <= self@.orders.len(),
                buys == (side@ == "buy"@),
                other@ == if buys {
                    "sell"@
                } else {
                    "buy"@
                },
                found matches Some(k) ==> k < i,
                forall|expires_at: int, now: int|
                    #![trigger order_terms(market_id@, character_id@, side@, item_id@, unit_price as int, expires_at, now)]
                    {
                        let b = best(
                            self@.orders,
                            i as int,
                            order_terms(
                                market_id@,
                                character_id@,
                                side@,
                                item_id@,
                                unit_price as int,
                                expires_at,
                                now,
                            ),
                        );
                        match found {
                            Some(k) => b == Some(k as int),
                            None => b is None,
                        }
                    },
            decreases self@.orders.len() - i,
        {
            let o = self.orders.get(i);
            let hit: bool = same(o.order.market_id.as_str(), market_id) && same(o.order.item_id.as_str(), item_id)
                && !same(o.order.character_id.as_str(), character_id) && same(o.order.side.as_str(), other) && (if buys {
                o.order.unit_price <= unit_price
            } else {
                o.order.unit_price >= unit_price
            });
            if hit {
                match found {
                    None => {
                        found = Some(i);
                    },
                    Some(k) => {
                        let b = self.orders.get(k);
                        let first: bool = if o.order.unit_price == b.order.unit_price {
                            o.order.created_seq < b.order.created_seq
                        } else if buys {
                            o.order.unit_price < b.order.unit_price
                        } else {
                            o.order.unit_price > b.order.unit_price
                        };
                        if first {
                            found = Some(i);
                        }
                    },
                }
            }
            i = i + 1;
        }
        found
    }

    /// Fill `take` of order `k`: goods to the buyer, gold to the seller, tax to the fire. Nothing
    /// happens when the buyer has nowhere to put the goods.
    fn fill_order(
        &mut self,
        k: usize,
        market_id: &str,
        character_id: &str,
        side: &str,
        item_id: &str,
        unit_price: i64,
        take: i64,
        cfg: &MarketConfig,
        now: i64,
        slot_id: String,
        trade_id: String,
        sweep: Ghost<Sweep>,
        expires_at: Ghost<int>,
    ) -> (trade: Option<MarketTrade>)
        requires
            ({
                let t = order_terms(
                    market_id@,
                    character_id@,
                    side@,
                    item_id@,
                    unit_price as int,
                    expires_at@,
                    now as int,
                );
                &&& sweep_sound(sweep@, t)
                &&& fair(*cfg)
                &&& sweep@.db == old(self)@
                &&& sweep@.want > 0
                &&& best(old(self)@.orders, old(self)@.orders.len() as int, t) == Some(k as int)
                &&& take == min(sweep@.want, old(self)@.orders[k as int].order.qty_remaining)
            }),
        ensures
            ({
                let t = order_terms(
                    market_id@,
                    character_id@,
                    side@,
                    item_id@,
                    unit_price as int,
                    expires_at@,
                    now as int,
                );
                let ids = FillIds { trade: trade_id@, slot: slot_id@ };
                &&& trade is None == blocked(sweep@, t, *cfg)
                &&& trade is None ==> final(self)@ == old(self)@
                &&& trade matches Some(made) ==> {
                    &&& final(self)@ == db_filled(old(self)@, t, k as int, take as int, *cfg, ids)
                    &&& made@ == trade_of(t, old(self)@.orders[k as int], take as int, *cfg, trade_id@)
                }
            }),
    {
        let ghost t = order_terms(
            market_id@,
            character_id@,
            side@,
            item_id@,
            unit_price as int,
            expires_at@,
            now as int,
        );
        let ghost w = sweep@;
        let ghost before = self@;
        let ghost ids = FillIds { trade: trade_id@, slot: slot_id@ };
        let buys: bool = same(side, "buy");
        proof {
            lemma_fill_cover(w, t, k as int);
        }
        let o = self.orders.get(k).order.copy();
        let exec: i64 = o.unit_price;
        let (buyer_id, seller_id): (&str, &str) = if buys {
            (character_id, o.character_id.as_str())
        } else {
            (o.character_id.as_str(), character_id)
        };
        proof {
            lemma_headroom_locked(
                self@.warehouse,
                stock_key(t.market, buyer_id@, t.item),
                stock_key(t.market, seller_id@, t.item),
                take as int,
            );
        }
        // The buyer must be able to receive before anything else moves.
        let landed: i64 = warehouse_credit_in_tx(
            &mut self.warehouse,
            market_id,
            buyer_id,
            item_id,
            take,
            cfg.warehouse_slots,
            slot_id,
        );
        if landed <= 0 {
            return None;
        }
        proof {
            lemma_fill_gold(w, t, *cfg, ids);
        }
        release_locked_in_tx(&mut self.warehouse, market_id, seller_id, item_id, take, false, String::new());
        let value: i64 = take * exec;
        let tax: i64 = cfg.sale_tax(value);
        proof {
            lemma_purse_bound(before.characters, t.character);
            lemma_purse_bound(before.characters, seller_id@);
        }
        if buys {
            // The placer escrowed at its own limit: it pays the resting price and gets the rest back.
            let refund: i64 = take * (unit_price - exec);
            proof {
                lemma_granted(before.characters, t.character, refund as int);
                lemma_purse_bound(granted(before.characters, t.character, refund as int), seller_id@);
            }
            grant_gold_in_tx(&mut self.characters, character_id, refund);
        }
        proof {
            lemma_granted(self@.characters, seller_id@, value as int);
        }
        grant_gold_in_tx(&mut self.characters, seller_id, value);
        let left: i64 = o.qty_remaining - take;
        if left > 0 {
            let row = self.orders.get_mut(k);
            row.order.qty_remaining = left;
        } else {
            let gone = self.orders.remove(k);
        }
        let trade = MarketTrade {
            id: trade_id,
            market_id: market_id.to_string(),
            item_id: item_id.to_string(),
            unit_price: exec,
            qty: take,
            seller_id: seller_id.to_string(),
            buyer_id: buyer_id.to_string(),
            sale_tax_gold: tax,
            listing_fee_gold: 0,
            created_at: now,
        };
        self.trades.push(trade.copy());
        proof {
            lemma_purse_bound(self@.characters, seller_id@);
        }
        // The seller pays the tax, whichever side of the match it was on.
        self.burn_fee_in_tx(market_id, seller_id, "sale_tax", tax, Some(trade.id.as_str()), now);
        Some(trade)
    }

    /// The sequence number that the next order gets.
    fn next_seq(&self) -> (seq: i64)
        requires
            top_seq(self@.orders) < i64::MAX,
        ensures
            seq == top_seq(self@.orders) + 1,
    {
        let mut top: i64 = 0;
        let mut i: usize = 0;
        while i < self.orders.len()
            invariant
                i <= self@.orders.len(),
                top == top_seq(self@.orders.take(i as int)),
            decreases self@.orders.len() - i,
        {
            assert(self@.orders.take(i + 1).drop_last() =~= self@.orders.take(i as int));
            let o = self.orders.get(i);
            if o.order.created_seq > top {
                top = o.order.created_seq;
            }
            i = i + 1;
        }
        assert(self@.orders.take(i as int) =~= self@.orders);
        top + 1
    }

    /// How many orders a character has open at a market.
    fn open_orders(&self, market_id: &str, character_id: &str) -> (n: usize)
        ensures
            n == count(self@.orders, is_open_order(market_id@, character_id@)),
    {
        let f = |o: &OrderRecord| -> (b: bool)
            ensures
                b == is_open_order(market_id@, character_id@)(o@),
            { same(o.order.market_id.as_str(), market_id) && same(o.order.character_id.as_str(), character_id) };
        self.orders.count(f, Ghost(is_open_order(market_id@, character_id@)))
    }

    /// How much of a kind of stock is available.
    pub fn available_stock(&self, market_id: &str, character_id: &str, item_id: &str) -> (n: i64)
        requires
            stocked(self@.warehouse),
            total_stock(self@.warehouse) <= i64::MAX,
        ensures
            n == stock(self@.warehouse, stock_key(market_id@, character_id@, item_id@), "available"@),
            n >= 0,
    {
        stock_in_state(&self.warehouse, market_id, character_id, item_id, "available")
    }

    /// Place an order on either side of the book: escrow, match against everything it crosses, then
    /// rest what is left.
    ///
    /// A sell locks goods out of the seller's warehouse and a buy takes `unit_price * qty` gold out of
    /// the purse, and the order is sized to what could be escrowed. The opposite side is swept best
    /// price first, then oldest first, and never against the placer's own orders. The resting order's
    /// price wins. The listing fee is burned whatever happens next. What is left because a buyer has no room for
    /// the goods, and would cross the book, does not rest: what it holds in escrow goes back.
    pub fn place_order(
        &mut self,
        market_id: &str,
        character_id: &str,
        side: &str,
        item_id: &str,
        unit_price: i64,
        qty: i64,
        expires_at: i64,
        cfg: &MarketConfig,
        command_id: &str,
        now: i64,
    ) -> (out: Result<BuyOutcome, DbError>)
        requires
            market_sound(old(self)@),
            fair(*cfg),
            side@ == "buy"@ || side@ == "sell"@,
            side@ == "sell"@ ==> unit_price >= 0,
            !is_tool(item_id@),
            side@ == "sell"@ ==> min(
                qty as int,
                stock(old(self)@.warehouse, stock_key(market_id@, character_id@, item_id@), "available"@),
            ) * unit_price <= i64::MAX,
            top_seq(old(self)@.orders) < i64::MAX,
        ensures
            market_sound(final(self)@),
            ({
                let t = order_terms(
                    market_id@,
                    character_id@,
                    side@,
                    item_id@,
                    unit_price as int,
                    expires_at as int,
                    now as int,
                );
                &&& out is Err == (admitted(old(self)@, t, *cfg, command_id@) && !has_character(
                    old(self)@.characters,
                    character_id@,
                ))
                &&& out matches Err(e) ==> e is RowNotFound && final(self)@ == old(self)@
                &&& out matches Ok(o) ==> exists|ids: PlaceIds|
                    {
                        &&& #[trigger] placed(old(self)@, t, qty as int, *cfg, command_id@, ids) == (Placed {
                            db: final(self)@,
                            out: o@,
                        })
                        &&& carried_through(old(self)@, t, qty as int, *cfg, command_id@, ids)
                    }
            }),
    {
        let ghost t = order_terms(
            market_id@,
            character_id@,
            side@,
            item_id@,
            unit_price as int,
            expires_at as int,
            now as int,
        );
        let ghost before = self@;
        let mut out = BuyOutcome::default();
        let buys: bool = same(side, "buy");
        let slot_id = new_id();
        let order_id = new_id();
        let ghost ids = PlaceIds { slot: slot_id@, order: order_id@, fills: Seq::empty() };
        let ghost mut fills = Seq::<FillIds>::empty();
        if !self.is_fresh_command(command_id) {
            out.deduped = true;
            assert(placed(before, t, qty as int, *cfg, command_id@, ids) == (Placed { db: self@, out: out@ }));
            return Ok(out);
        }
        let open: usize = self.open_orders(market_id, character_id);
        if !below(open, cfg.max_open_orders) {
            self.claim_command_in_tx(command_id, character_id, now);
            assert(placed(before, t, qty as int, *cfg, command_id@, ids) == (Placed { db: self@, out: out@ }));
            return Ok(out);
        }
        let at: usize = find_character(&self.characters, character_id);
        if at >= self.characters.len() {
            return Err(DbError::RowNotFound);
        }
        let purse: i64 = self.characters.get(at).gold;
        self.claim_command_in_tx(command_id, character_id, now);
        let ghost begun = self@;
        let ghost key = stock_key(market_id@, character_id@, item_id@);
        assert(market_sound(begun));
        proof {
            lemma_purse_bound(before.characters, character_id@);
        }
        let escrowed_qty: i64 = if buys {
            let take: i64 = size_buy(qty, unit_price, purse, cfg);
            proof {
                lemma_buy_size(qty as int, unit_price as int, purse as int, *cfg);
            }
            if take > 0 {
                proof {
                    law_fees_are_bounded(*cfg, take * unit_price);
                    assert(take * unit_price >= 0) by (nonlinear_arith)
                        requires
                            take >= 0,
                            unit_price >= 0,
                    ;
                }
                pay_in_tx(&mut self.characters, character_id, -(take * unit_price));
                take
            } else {
                0
            }
        } else {
            let stocked_qty: i64 = self.available_stock(market_id, character_id, item_id);
            let would: i64 = if qty <= stocked_qty {
                qty
            } else {
                stocked_qty
            };
            if would > 0 {
                assert(would * unit_price >= 0) by (nonlinear_arith)
                    requires
                        would >= 0,
                        unit_price >= 0,
                ;
                if cfg.listing_fee(would * unit_price) > purse {
                    out.fee_unaffordable = true;
                    assert(placed(before, t, qty as int, *cfg, command_id@, ids) == (Placed { db: self@, out: out@ }));
                    return Ok(out);
                }
            }
            proof {
                if qty >= 0 {
                    lemma_lock_qty(begun.warehouse, key, qty as int);
                }
            }
            warehouse_lock_in_tx(&mut self.warehouse, market_id, character_id, item_id, qty, slot_id)
        };
        let ghost e = escrowed(begun, t, qty as int, *cfg, ids.slot);
        assert(self@ == e.db && escrowed_qty == e.qty);
        if escrowed_qty <= 0 {
            proof {
                assert(placed(before, t, qty as int, *cfg, command_id@, ids) == (Placed { db: self@, out: out@ }));
                lemma_lock_none(begun.warehouse, key, qty as int, ids.slot);
            }
            return Ok(out);
        }
        proof {
            lemma_listed_sound(begun, t, qty as int, *cfg, ids.slot);
            assert(escrowed_qty * unit_price <= i64::MAX) by {
                if buys {
                    law_fees_are_bounded(*cfg, escrowed_qty * unit_price);
                }
            }
            assert(escrowed_qty * unit_price >= 0) by (nonlinear_arith)
                requires
                    escrowed_qty >= 0,
                    unit_price >= 0,
            ;
        }
        let fee: i64 = cfg.listing_fee(escrowed_qty * unit_price);
        out.listing_fee = fee;
        self.burn_fee_in_tx(market_id, character_id, "listing", fee, None, now);
        let ghost start = listed(e, t, *cfg);
        let ghost mut w = start;
        assert(self@ == start.db);
        proof {
            lemma_escrow_nonneg(start.db);
            lemma_purse_bound(start.db.characters, t.character);
        }
        let mut want: i64 = escrowed_qty;
        while want > 0
            invariant_except_break
                want == w.want,
                self@ == w.db,
            invariant
                t == order_terms(
                    market_id@,
                    character_id@,
                    side@,
                    item_id@,
                    unit_price as int,
                    expires_at as int,
                    now as int,
                ),
                fair(*cfg),
                buys == buying(t),
                w == swept(start, t, *cfg, fills),
                sweep_sound(w, t),
                tallied(w, start, t),
                start.want == escrowed_qty,
                escrowed_qty * unit_price <= i64::MAX,
                escrow(start.db) <= i64::MAX,
                top_seq(w.db.orders) <= top_seq(start.db.orders),
                out@ == (BuyOutcomeView {
                    spent: w.spent,
                    earned: w.earned,
                    refunded: w.refunded,
                    sale_tax: w.sale_tax,
                    fills: w.fills,
                    touched: w.touched,
                    listing_fee: fee as int,
                    ..BuyOutcomeView::nothing()
                }),
            ensures
                want == w.want,
                self@ == w.db,
                swept_out(w, t, *cfg),
            decreases want,
        {
            let found = self.best_order(market_id, character_id, side, item_id, unit_price);
            if found.is_none() {
                break ;
            }
            let k: usize = found.unwrap();
            proof {
                lemma_fill_cover(w, t, k as int);
            }
            let o = self.orders.get(k);
            let exec: i64 = o.order.unit_price;
            let remaining: i64 = o.order.qty_remaining;
            let take: i64 = if want <= remaining {
                want
            } else {
                remaining
            };
            let touched_id = o.order.id.clone();
            let touched_owner = o.order.character_id.clone();
            let fill_slot = new_id();
            let trade_id = new_id();
            let ghost fill = FillIds { trade: trade_id@, slot: fill_slot@ };
            let ghost next = fill_best(w, t, *cfg, fill);
            let made = self.fill_order(
                k,
                market_id,
                character_id,
                side,
                item_id,
                unit_price,
                take,
                cfg,
                now,
                fill_slot,
                trade_id,
                Ghost(w),
                Ghost(expires_at as int),
            );
            match made {
                None => {
                    break ;
                },
                Some(trade) => {
                    let ghost was = out;
                    proof {
                        lemma_fill_sound(w, t, *cfg, fill);
                        lemma_fill_tally(w, start, t, *cfg, fill);
                        lemma_top_seq_filled(w.db.orders, k as int, take as int);
                        lemma_escrow_nonneg(next.db);
                        law_fees_are_bounded(*cfg, take * exec);
                        assert(next.want * t.price >= 0) by (nonlinear_arith)
                            requires
                                next.want >= 0,
                                t.price >= 0,
                        ;
                        assert(swept(start, t, *cfg, fills.push(fill)) == next) by {
                            assert(fills.push(fill).drop_last() =~= fills);
                        }
                    }
                    let value: i64 = take * exec;
                    if buys {
                        out.refunded = out.refunded + take * (unit_price - exec);
                        out.spent = out.spent + value;
                    } else {
                        out.earned = out.earned + value;
                        out.sale_tax = out.sale_tax + trade.sale_tax_gold;
                    }
                    out.touched.push((touched_id, touched_owner, remaining - take));
                    out.fills.push(trade);
                    want = want - take;
                    proof {
                        assert(out@.fills =~= was@.fills.push(trade@));
                        assert(out@.touched =~= next.touched);
                        fills = fills.push(fill);
                        w = next;
                    }
                },
            }
        }
        let ghost all = PlaceIds { fills, ..ids };
        out.filled = escrowed_qty - want;
        proof {
            lemma_rested_sound(w, t, ids.order);
            lemma_concluded_sound(w, t, ids.order);
        }
        if want > 0 {
            let crossing = self.best_order(market_id, character_id, side, item_id, unit_price);
            let seq: i64 = self.next_seq();
            self.orders.push(
                OrderRecord {
                    order: MarketOrder {
                        id: order_id.clone(),
                        market_id: market_id.to_string(),
                        character_id: character_id.to_string(),
                        side: side.to_string(),
                        item_id: item_id.to_string(),
                        unit_price,
                        qty_total: want,
                        qty_remaining: want,
                        created_seq: seq,
                        created_at: now,
                    },
                    expires_at,
                },
            );
            assert(self@ == rested(w, t, ids.order));
            if crossing.is_some() {
                let last: usize = self.orders.len() - 1;
                self.release_order_in_tx(last, order_id);
            } else {
                out.resting_order_id = Some(order_id);
                out.resting_qty = want;
            }
        }
        assert(placed_sweep(before, t, qty as int, *cfg, command_id@, all) == w);
        assert(placed(before, t, qty as int, *cfg, command_id@, all) == (Placed { db: self@, out: out@ }));
        Ok(out)
    }
}

} // verus!
