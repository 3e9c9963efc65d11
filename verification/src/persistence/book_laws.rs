//! What taking an order off the book gives back, and what the book and the trades show.

use vstd::prelude::*;

use crate::persistence::book::{
    expired, expiry_order, has_level, is_due, is_own_order, is_trade_of, law_release_returns_the_escrow,
    level_qty, newer, on_book, order_released, own_order_before, quoted, quoted_ahead, shows_book,
    BookLevel,
};
use crate::persistence::db::DbView;
use crate::persistence::home_laws::{lemma_not_before, lemma_shown};
use crate::persistence::listing_laws::{lemma_filter_keeps_all, lemma_filter_removed};
use crate::persistence::market::{is_open_order, market_sound, order_ok, promise_qty, promised};
use crate::persistence::purse::{gold_of, lemma_paid};
use crate::persistence::rows::{MarketTradeView, OrderRecordView};
use crate::persistence::warehouse::{
    draw_qty, draw_rows, lands, lemma_credited, lemma_draw_qty, lemma_drawn, lemma_slots_le_stock,
    lemma_states_differ, stock, stock_key, StockKey,
};
use crate::table::{
    find, law_equals_keep_their_order, law_page, least, lemma_filter_contains, lemma_find, lemma_find_is,
    lemma_least, lemma_sum_nonneg, lemma_sum_remove, lemma_sum_same, limited, ordered, orders_rows, places,
    sum,
};
use crate::text::{lemma_text_before, text_before};

verus! {

/// The gold that a character's orders to buy hold.
pub open spec fn gold_held(orders: Seq<OrderRecordView>, who: Seq<char>) -> int {
    sum(
        orders,
        |o: OrderRecordView|
            if o.order.side == "buy"@ && o.order.character_id == who {
                o.order.qty_remaining * o.order.unit_price
            } else {
                0
            },
    )
}

/// The goods that a character's orders to sell an item at a market hold.
pub open spec fn goods_held(orders: Seq<OrderRecordView>, key: StockKey) -> int {
    sum(
        orders,
        |o: OrderRecordView|
            if o.order.side == "sell"@ && o.order.market_id == key.market && o.order.character_id == key.character
                && o.order.item_id == key.item {
                o.order.qty_remaining
            } else {
                0
            },
    )
}

/// An order that leaves the book gives its owner back exactly what it still holds, gold or goods: what each character has and
/// has on order is the same before and after, and likewise of each item. No other order changes.
pub proof fn law_an_order_gives_back_what_it_holds(s: DbView, k: int, id: Seq<char>, who: Seq<char>, key: StockKey)
    requires
        market_sound(s),
        0 <= k < s.orders.len(),
    ensures
        ({
            let t = order_released(s, k, id);
            &&& t.orders == s.orders.remove(k)
            &&& s.orders[k].order.side == "buy"@ ==> t.warehouse == s.warehouse
            &&& s.orders[k].order.side == "sell"@ ==> t.characters == s.characters
            &&& gold_of(t.characters, who) + gold_held(t.orders, who) == gold_of(s.characters, who) + gold_held(s.orders, who)
            &&& stock(t.warehouse, key, "available"@) + goods_held(t.orders, key) == stock(s.warehouse, key, "available"@)
                + goods_held(s.orders, key)
            &&& stock(t.warehouse, key, "locked"@) - goods_held(t.orders, key) == stock(s.warehouse, key, "locked"@)
                - goods_held(s.orders, key)
        }),
{
    let o = s.orders[k].order;
    let t = order_released(s, k, id);
    let gold = |o: OrderRecordView|
        if o.order.side == "buy"@ && o.order.character_id == who {
            o.order.qty_remaining * o.order.unit_price
        } else {
            0
        };
    let goods = |o: OrderRecordView|
        if o.order.side == "sell"@ && o.order.market_id == key.market && o.order.character_id == key.character && o.order.item_id
            == key.item {
            o.order.qty_remaining
        } else {
            0
        };
    reveal_strlit("buy");
    reveal_strlit("sell");
    assert("buy"@.len() != "sell"@.len());
    lemma_states_differ();
    assert(order_ok(s.characters, s.orders[k]));
    lemma_sum_remove(s.orders, gold, k);
    lemma_sum_remove(s.orders, goods, k);
    if o.side == "sell"@ {
        let own = stock_key(o.market_id, o.character_id, o.item_id);
        let rows = draw_rows(s.warehouse, own, "locked"@, o.qty_remaining);
        let promise = promise_qty(own);
        assert(promised(s.orders, own) <= stock(s.warehouse, own, "locked"@));
        assert forall|i: int| 0 <= i < s.orders.len() implies promise(#[trigger] s.orders[i]) >= 0 by {
            assert(order_ok(s.characters, s.orders[i]));
        }
        lemma_sum_remove(s.orders, promise, k);
        let rest = s.orders.remove(k);
        assert forall|i: int| 0 <= i < rest.len() implies promise(#[trigger] rest[i]) >= 0 by {
            assert(rest[i] == s.orders[if i < k {
                i
            } else {
                i + 1
            }]);
        }
        lemma_sum_nonneg(rest, promise);
        lemma_draw_qty(s.warehouse, own, "locked"@, o.qty_remaining);
        assert(draw_qty(s.warehouse, own, "locked"@, o.qty_remaining) == o.qty_remaining);
        lemma_drawn(s.warehouse, own, "locked"@, o.qty_remaining, own, "locked"@);
        lemma_slots_le_stock(rows, own.market, own.character);
        assert(lands(rows, own, o.qty_remaining, i64::MAX as int));
        lemma_drawn(s.warehouse, own, "locked"@, o.qty_remaining, key, "available"@);
        lemma_drawn(s.warehouse, own, "locked"@, o.qty_remaining, key, "locked"@);
        lemma_credited(rows, own, o.qty_remaining, i64::MAX as int, id, key, "available"@);
        lemma_credited(rows, own, o.qty_remaining, i64::MAX as int, id, key, "locked"@);
        assert(key == own <==> o.market_id == key.market && o.character_id == key.character && o.item_id == key.item);
    } else {
        let worth = o.qty_remaining * o.unit_price;
        assert(worth >= 0) by (nonlinear_arith)
            requires
                worth == o.qty_remaining * o.unit_price,
                o.qty_remaining > 0,
                o.unit_price >= 0,
        ;
        lemma_paid(s.characters, o.character_id, worth);
    }
}

/// Only orders with a time that has come expire, and each gives its owner back exactly what it still holds.
pub proof fn law_orders_expire_when_due(s: DbView, now: int, ids: Seq<Seq<char>>, who: Seq<char>, key: StockKey)
    requires
        market_sound(s),
    ensures
        ({
            let t = expired(s, now, ids);
            let stays = |o: OrderRecordView| o.expires_at <= 0 || o.expires_at > now;
            &&& market_sound(t)
            &&& t.orders.filter(stays) == s.orders.filter(stays)
            &&& gold_of(t.characters, who) + gold_held(t.orders, who) == gold_of(s.characters, who) + gold_held(s.orders, who)
            &&& stock(t.warehouse, key, "available"@) + goods_held(t.orders, key) == stock(s.warehouse, key, "available"@)
                + goods_held(s.orders, key)
            &&& t.listings == s.listings && t.trades == s.trades && t.fees == s.fees && t.ledger == s.ledger
        }),
    decreases ids.len(),
{
    if ids.len() > 0 {
        let stays = |o: OrderRecordView| o.expires_at <= 0 || o.expires_at > now;
        law_orders_expire_when_due(s, now, ids.drop_last(), who, key);
        let u = expired(s, now, ids.drop_last());
        let k = least(u.orders, is_due(now), expiry_order());
        lemma_least(u.orders, is_due(now), expiry_order());
        if k < u.orders.len() {
            law_release_returns_the_escrow(u, k, ids.last());
            law_an_order_gives_back_what_it_holds(u, k, ids.last(), who, key);
            lemma_filter_removed(u.orders, stays, k);
        }
    }
}

/// An order is due once it has a time and that time has come. Expiry is over when no such order is left, and the book is then
/// exactly what was not due, in its order; what is reported as due is exactly what was.
pub proof fn law_expiry_leaves_what_is_not_due(s: DbView, now: int, ids: Seq<Seq<char>>, x: OrderRecordView)
    requires
        market_sound(s),
    ensures
        ({
            let t = expired(s, now, ids);
            let stays = |o: OrderRecordView| o.expires_at <= 0 || o.expires_at > now;
            let over = find(t.orders, is_due(now)) == t.orders.len();
            &&& over <==> forall|k: int| 0 <= k < t.orders.len() ==> (#[trigger] t.orders[k]).expires_at <= 0 || t.orders[k].expires_at
                > now
            &&& over ==> t.orders == s.orders.filter(stays)
        }),
        ordered(s.orders.filter(is_due(now)), expiry_order()).contains(x) <==> s.orders.contains(x) && 0 < x.expires_at <= now,
{
    let t = expired(s, now, ids);
    let due = is_due(now);
    let stays = |o: OrderRecordView| o.expires_at <= 0 || o.expires_at > now;
    law_orders_expire_when_due(s, now, ids, x.order.id, stock_key(x.order.id, x.order.id, x.order.id));
    lemma_find(t.orders, due);
    let m = find(t.orders, due);
    if m < t.orders.len() {
        assert(0 < t.orders[m].expires_at <= now);
    } else {
        assert forall|k: int| 0 <= k < t.orders.len() implies (#[trigger] t.orders[k]).expires_at <= 0 || t.orders[k].expires_at
            > now by {
            assert(!due(t.orders[k]));
        }
        lemma_filter_keeps_all(t.orders, stays);
    }
    let before = expiry_order();
    assert forall|a: OrderRecordView, b: OrderRecordView| #[trigger] before(a, b) implies !before(b, a) by {
        lemma_text_before(a.order.id, b.order.id, a.order.id);
    }
    assert forall|a: OrderRecordView, b: OrderRecordView, c: OrderRecordView|
        !(#[trigger] before(a, b)) && !(#[trigger] before(b, c)) implies !before(a, c) by {
        lemma_not_before(a.order.id, b.order.id, c.order.id);
    }
    lemma_shown(s.orders, due, before, x);
}

/// Whoever placed an order, and nobody else, can cancel it.
pub proof fn law_only_the_owner_cancels(s: DbView, character: Seq<char>, order: Seq<char>, k: int)
    requires
        0 <= k < s.orders.len(),
        s.orders[k].order.id == order,
        forall|j: int| 0 <= j < s.orders.len() && j != k ==> (#[trigger] s.orders[j]).order.id != order,
    ensures
        s.orders[k].order.character_id == character ==> find(s.orders, is_own_order(character, order)) == k,
        s.orders[k].order.character_id != character ==> find(s.orders, is_own_order(character, order)) == s.orders.len(),
{
    let p = is_own_order(character, order);
    let m = if s.orders[k].order.character_id == character {
        k
    } else {
        s.orders.len() as int
    };
    assert forall|j: int| 0 <= j < m implies !p(#[trigger] s.orders[j]) by {}
    lemma_find_is(s.orders, p, m);
}

/// What the recent trades show: only trades of the item at the market, the newest first, the later on the ledger first among
/// equals, and a trade is left out only by a full page of trades no older.
pub proof fn law_recent_trades_are_the_newest(
    s: DbView,
    market: Seq<char>,
    item: Seq<char>,
    limit: int,
    i: int,
    j: int,
    x: MarketTradeView,
)
    ensures
        ({
            let own = |t: MarketTradeView| t.market_id == market && t.item_id == item;
            let of = s.trades.filter(is_trade_of(market, item)).reverse();
            let out = limited(ordered(of, newer()), limit);
            &&& limit >= 0 ==> out.len() <= limit
            &&& 0 <= i < out.len() ==> s.trades.contains(out[i]) && own(out[i])
            &&& 0 <= i < j < out.len() ==> out[i].created_at >= out[j].created_at
            &&& 0 <= i < j < out.len() && out[i].created_at == out[j].created_at ==> {
                let at = places(of, newer(), of.len() as int);
                &&& 0 <= at[i] < at[j] < of.len()
                &&& out[i] == s.trades.filter(is_trade_of(market, item))[of.len() - 1 - at[i]]
                &&& out[j] == s.trades.filter(is_trade_of(market, item))[of.len() - 1 - at[j]]
            }
            &&& s.trades.contains(x) && own(x) && !out.contains(x) ==> out.len() == limit
            &&& s.trades.contains(x) && own(x) && !out.contains(x) && 0 <= i < out.len() ==> out[i].created_at >= x.created_at
        }),
{
    let p = is_trade_of(market, item);
    let f = s.trades.filter(p);
    let of = f.reverse();
    let out = limited(ordered(of, newer()), limit);
    assert(orders_rows(newer()));
    law_page(of, newer(), limit, x);
    lemma_filter_contains(s.trades, p, x);
    if f.contains(x) {
        let k = choose|k: int| 0 <= k < f.len() && f[k] == x;
        assert(of[f.len() - 1 - k] == x);
    }
    if 0 <= i < out.len() {
        assert(of.contains(out[i]));
        let k = choose|k: int| 0 <= k < of.len() && of[k] == out[i];
        assert(f[f.len() - 1 - k] == out[i]);
        assert(f.contains(out[i]));
        lemma_filter_contains(s.trades, p, out[i]);
    }
    if 0 <= i < j < out.len() {
        assert(!newer()(out[j], out[i]));
        law_equals_keep_their_order(of, newer(), i, j);
        law_equals_keep_their_order(of, newer(), j, j);
        assert(out[i] == ordered(of, newer())[i]);
        assert(out[j] == ordered(of, newer())[j]);
    }
}

/// The book shows asks from the lowest price and bids from the highest, each price once, with all that is offered there and
/// nothing else.
pub proof fn law_the_book_is_shown_best_first(
    levels: Seq<BookLevel>,
    orders: Seq<OrderRecordView>,
    market: Seq<char>,
    item: Seq<char>,
    side: Seq<char>,
    i: int,
    j: int,
    k: int,
)
    requires
        shows_book(levels, orders, market, item, side),
    ensures
        side == "sell"@ && 0 <= i < j < levels.len() ==> levels[i].unit_price < levels[j].unit_price,
        side == "buy"@ && 0 <= i < j < levels.len() ==> levels[i].unit_price > levels[j].unit_price,
        0 <= i < levels.len() ==> levels[i].qty == sum(
            orders,
            |o: OrderRecordView|
                if o.order.market_id == market && o.order.item_id == item && o.order.side == side && o.order.unit_price
                    == levels[i].unit_price {
                    o.order.qty_remaining
                } else {
                    0
                },
        ),
        0 <= k < orders.len() && orders[k].order.market_id == market && orders[k].order.item_id == item
            && orders[k].order.side == side ==> exists|n: int|
            0 <= n < levels.len() && (#[trigger] levels[n]).unit_price == orders[k].order.unit_price,
{
    reveal_strlit("buy");
    reveal_strlit("sell");
    assert("buy"@.len() != "sell"@.len());
    if 0 <= i < j < levels.len() {
        assert(quoted_ahead(side, levels[i].unit_price as int, levels[j].unit_price as int));
    }
    if 0 <= i < levels.len() {
        let f = |o: OrderRecordView|
            if o.order.market_id == market && o.order.item_id == item && o.order.side == side && o.order.unit_price
                == levels[i].unit_price {
                o.order.qty_remaining
            } else {
                0
            };
        lemma_sum_same(orders, f, level_qty(market, item, side, levels[i].unit_price as int));
    }
    if 0 <= k < orders.len() && on_book(orders[k], market, item, side) {
        let price = orders[k].order.unit_price;
        assert(quoted(orders, market, item, side, price));
        assert(has_level(levels, price));
    }
}

/// A character's orders at a market are all shown and no others, by item, then by price, then by age.
pub proof fn law_own_orders_are_shown(s: DbView, market: Seq<char>, character: Seq<char>, i: int, j: int, x: OrderRecordView)
    ensures
        ({
            let own = |o: OrderRecordView| o.order.market_id == market && o.order.character_id == character;
            let out = ordered(s.orders.filter(is_open_order(market, character)), own_order_before());
            &&& out.contains(x) <==> s.orders.contains(x) && own(x)
            &&& 0 <= i < j < out.len() ==> !text_before(out[j].order.item_id, out[i].order.item_id)
            &&& 0 <= i < j < out.len() && out[i].order.item_id == out[j].order.item_id ==> out[i].order.unit_price
                <= out[j].order.unit_price
            &&& 0 <= i < j < out.len() && out[i].order.item_id == out[j].order.item_id && out[i].order.unit_price
                == out[j].order.unit_price ==> out[i].order.created_seq <= out[j].order.created_seq
        }),
{
    let p = is_open_order(market, character);
    let f = s.orders.filter(p);
    let before = own_order_before();
    let out = ordered(f, before);
    lemma_own_order_before();
    law_page(f, before, -1, x);
    lemma_filter_contains(s.orders, p, x);
    if out.contains(x) {
        let k = choose|k: int| 0 <= k < out.len() && out[k] == x;
        assert(f.contains(out[k]));
    }
    if 0 <= i < j < out.len() {
        assert(!before(out[j], out[i]));
        lemma_text_before(out[i].order.item_id, out[i].order.item_id, out[i].order.item_id);
    }
}

proof fn lemma_own_order_before()
    ensures
        orders_rows(own_order_before()),
{
    let before = own_order_before();
    assert forall|a: OrderRecordView, b: OrderRecordView| #[trigger] before(a, b) implies !before(b, a) by {
        lemma_text_before(a.order.item_id, b.order.item_id, a.order.item_id);
    }
    assert forall|a: OrderRecordView, b: OrderRecordView, c: OrderRecordView|
        !(#[trigger] before(a, b)) && !(#[trigger] before(b, c)) implies !before(a, c) by {
        lemma_text_before(a.order.item_id, b.order.item_id, c.order.item_id);
        lemma_text_before(c.order.item_id, b.order.item_id, a.order.item_id);
        lemma_text_before(a.order.item_id, c.order.item_id, b.order.item_id);
    }
}

} // verus!
