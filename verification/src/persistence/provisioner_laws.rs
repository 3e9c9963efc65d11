//! What refreshing the provisioner's orders leaves as it was.

use vstd::prelude::*;

use crate::market_config::{fair, listing_fee_of, MarketConfig, ProvisionerBounds};
use crate::persistence::book::{law_release_returns_the_escrow, order_released};
use crate::persistence::db::DbView;
use crate::persistence::market::{
    best, buy_size, buying, crosses, escrowed, is_open_order, lemma_best, lemma_sides_differ, listed,
    market_sound, order_ok, placed, resting, swept, swept_out, FillIds, PlaceIds, Sweep, Terms,
};
use crate::persistence::market_laws::{law_placing_conserves, lemma_placing_frame};
use crate::persistence::provisioner::{
    ask_terms, bid_posted, bid_terms, cleared, is_house_tuning, is_standing, lemma_cleared, lemma_readied,
    lemma_seeded, postable, readied, refresh_complete, refresh_minted, refreshed, seed_command, seeded,
    shortfall, RefreshIds,
};
use crate::persistence::purse::{
    claimed, fresh_command, gold_of, has_character, is_command, lemma_paid, lemma_purse_bound, wealth,
};
use crate::persistence::rows::OrderRecordView;
use crate::persistence::warehouse::{
    lemma_lock_qty, lemma_locked, lemma_states_differ, lemma_stock_prefix, stock, stock_key, total_stock,
    StockKey,
};
use crate::table::{count, find, lemma_find, lemma_sum_push, lemma_sum_remove, lemma_sum_same, not, sum};

verus! {

/// What an order adds to a level of the book.
pub open spec fn level_qty(market: Seq<char>, item: Seq<char>, side: Seq<char>, price: int) -> spec_fn(
    OrderRecordView,
) -> int {
    |o: OrderRecordView|
        if o.order.market_id == market && o.order.item_id == item && o.order.side == side && o.order.unit_price
            == price {
            o.order.qty_remaining
        } else {
            0
        }
}

/// How much rests at a level of the book.
pub open spec fn depth(orders: Seq<OrderRecordView>, market: Seq<char>, item: Seq<char>, side: Seq<char>, price: int) -> int {
    sum(orders, level_qty(market, item, side, price))
}

/// A number of the orders that satisfy a predicate, and 0 of the others.
pub open spec fn only(p: spec_fn(OrderRecordView) -> bool, f: spec_fn(OrderRecordView) -> int) -> spec_fn(
    OrderRecordView,
) -> int {
    |o: OrderRecordView|
        if p(o) {
            f(o)
        } else {
            0
        }
}

/// What an order still has to trade on a side.
pub open spec fn side_left(side: Seq<char>) -> spec_fn(OrderRecordView) -> int {
    |o: OrderRecordView|
        if o.order.side == side {
            o.order.qty_remaining
        } else {
            0
        }
}

/// How much of the provisioner's own rests on a side.
pub open spec fn standing_qty(
    orders: Seq<OrderRecordView>,
    market: Seq<char>,
    npc: Seq<char>,
    item: Seq<char>,
    side: Seq<char>,
) -> int {
    sum(orders, only(is_standing(market, npc, item), side_left(side)))
}

/// How much a standing bid is for: nothing is bid at a floor of nothing.
pub open spec fn bid_size(b: ProvisionerBounds) -> int {
    if b.floor > 0 {
        b.bid_qty as int
    } else {
        0
    }
}

/// Every order of the provisioner's for a commodity bids at the floor or asks for the ceiling.
pub open spec fn at_bounds(
    orders: Seq<OrderRecordView>,
    market: Seq<char>,
    npc: Seq<char>,
    item: Seq<char>,
    b: ProvisionerBounds,
) -> bool {
    forall|i: int|
        0 <= i < orders.len() && is_standing(market, npc, item)(#[trigger] orders[i]) ==> orders[i].order.unit_price
            == if orders[i].order.side == "buy"@ {
            b.floor as int
        } else {
            b.ceiling as int
        }
}

/// The provisioner's orders for a commodity stand as it posts them: the seed is granted, the whole bid rests at the
/// floor, all the stock rests at the ceiling, and nobody else's order crosses either.
pub open spec fn stands(
    s: DbView,
    market: Seq<char>,
    npc: Seq<char>,
    item: Seq<char>,
    b: ProvisionerBounds,
    now: int,
) -> bool {
    &&& b.seed_stock > 0 ==> !fresh_command(s.commands, seed_command(market, item))
    &&& at_bounds(s.orders, market, npc, item, b)
    &&& standing_qty(s.orders, market, npc, item, "buy"@) == bid_size(b)
    &&& stock(s.warehouse, stock_key(market, npc, item), "available"@) == 0
    &&& forall|i: int|
        0 <= i < s.orders.len() ==> !crosses(#[trigger] s.orders[i], bid_terms(market, npc, item, b, now)) && !crosses(
            s.orders[i],
            ask_terms(market, npc, item, b, now),
        )
}

/// A sweep that has nothing to fill fills nothing.
proof fn lemma_still(w: Sweep, t: Terms, cfg: MarketConfig, ids: Seq<FillIds>)
    requires
        swept_out(w, t, cfg),
    ensures
        swept(w, t, cfg, ids) == w,
    decreases ids.len(),
{
    if ids.len() > 0 {
        lemma_still(w, t, cfg, ids.drop_last());
    }
}

/// Listing is free under the house's tuning.
proof fn lemma_free_listing(house: MarketConfig, cfg: MarketConfig, value: int)
    requires
        is_house_tuning(house, cfg),
        fair(house),
    ensures
        listing_fee_of(house, value) == 0,
{
    if value > 0 {
        let den = house.listing_fee_den as int;
        assert(value * 0 == 0);
        assert((den - 1) / den == 0) by (nonlinear_arith)
            requires
                den > 0,
        ;
    }
}

proof fn lemma_count_le<A>(s: Seq<A>, p: spec_fn(A) -> bool)
    ensures
        count(s, p) <= s.len(),
    decreases s.len(),
{
    if s.len() > 0 {
        lemma_count_le(s.drop_last(), p);
        assert(count(s, p) == count(s.drop_last(), p) + if p(s.last()) {
            1int
        } else {
            0int
        });
    }
}

/// Placing a bid that nothing crosses, with the gold for all of it, rests it.
pub proof fn lemma_quiet_bid(s: DbView, t: Terms, qty: int, house: MarketConfig, cfg: MarketConfig, ids: PlaceIds)
    requires
        market_sound(s),
        is_house_tuning(house, cfg),
        fair(house),
        buying(t),
        t.price >= 0,
        qty >= 0,
        has_character(s.characters, t.character),
        gold_of(s.characters, t.character) >= t.price * qty,
        s.orders.len() < i64::MAX,
        forall|i: int| 0 <= i < s.orders.len() ==> !crosses(#[trigger] s.orders[i], t),
    ensures
        ({
            let p = placed(s, t, qty, house, Seq::empty(), ids).db;
            &&& p.warehouse == s.warehouse
            &&& p.commands == s.commands
            &&& t.price > 0 && qty > 0 ==> {
                &&& p.orders.len() == s.orders.len() + 1
                &&& p.orders.drop_last() == s.orders
                &&& p.orders.last().order.market_id == t.market
                &&& p.orders.last().order.character_id == t.character
                &&& p.orders.last().order.item_id == t.item
                &&& p.orders.last().order.side == "buy"@
                &&& p.orders.last().order.unit_price == t.price
                &&& p.orders.last().order.qty_remaining == qty
                &&& gold_of(p.characters, t.character) == gold_of(s.characters, t.character) - t.price * qty
            }
            &&& !(t.price > 0 && qty > 0) ==> p.orders == s.orders && p.characters == s.characters
        }),
{
    let begun = DbView {
        commands: claimed(s.commands, Seq::empty(), t.character, t.now),
        ..s
    };
    assert(begun == s);
    lemma_count_le(s.orders, is_open_order(t.market, t.character));
    let purse = gold_of(s.characters, t.character);
    let take = buy_size(qty, t.price, purse, house);
    lemma_free_listing(house, cfg, qty * t.price);
    lemma_free_listing(house, cfg, take * t.price);
    if t.price > 0 && qty > 0 {
        assert(purse / t.price >= qty) by (nonlinear_arith)
            requires
                t.price > 0,
                purse >= t.price * qty,
        ;
        assert(qty * t.price == t.price * qty) by (nonlinear_arith);
        assert(take == qty);
        lemma_best(s.orders, s.orders.len() as int, t);
        lemma_paid(s.characters, t.character, -(take * t.price));
        let e = escrowed(s, t, qty, house, ids.slot);
        let w = listed(e, t, house);
        assert(w.db == e.db);
        assert(best(w.db.orders, w.db.orders.len() as int, t) is None);
        lemma_still(w, t, house, ids.fills);
        let p = placed(s, t, qty, house, Seq::empty(), ids).db;
        assert(p.orders == s.orders.push(resting(w, t, ids.order)));
        assert(p.orders.drop_last() =~= s.orders);
    } else if t.price > 0 {
        assert(take <= 0);
    }
}

/// Asking for all the available stock, where nothing crosses, locks and rests all of it.
pub proof fn lemma_quiet_ask(s: DbView, t: Terms, qty: int, house: MarketConfig, cfg: MarketConfig, ids: PlaceIds)
    requires
        market_sound(s),
        is_house_tuning(house, cfg),
        fair(house),
        t.side == "sell"@,
        t.price >= 0,
        qty > 0,
        qty == stock(s.warehouse, stock_key(t.market, t.character, t.item), "available"@),
        has_character(s.characters, t.character),
        s.orders.len() < i64::MAX,
        forall|i: int| 0 <= i < s.orders.len() ==> !crosses(#[trigger] s.orders[i], t),
    ensures
        ({
            let p = placed(s, t, qty, house, Seq::empty(), ids).db;
            &&& p.characters == s.characters
            &&& p.commands == s.commands
            &&& p.orders.len() == s.orders.len() + 1
            &&& p.orders.drop_last() == s.orders
            &&& p.orders.last().order.market_id == t.market
            &&& p.orders.last().order.character_id == t.character
            &&& p.orders.last().order.item_id == t.item
            &&& p.orders.last().order.side == "sell"@
            &&& p.orders.last().order.unit_price == t.price
            &&& p.orders.last().order.qty_remaining == qty
            &&& stock(p.warehouse, stock_key(t.market, t.character, t.item), "available"@) == 0
            &&& forall|other: StockKey|
                other.item != t.item ==> #[trigger] stock(p.warehouse, other, "available"@) == stock(
                    s.warehouse,
                    other,
                    "available"@,
                )
        }),
{
    let key = stock_key(t.market, t.character, t.item);
    let begun = DbView {
        commands: claimed(s.commands, Seq::empty(), t.character, t.now),
        ..s
    };
    assert(begun == s);
    lemma_sides_differ();
    lemma_states_differ();
    lemma_count_le(s.orders, is_open_order(t.market, t.character));
    lemma_free_listing(house, cfg, qty * t.price);
    lemma_purse_bound(s.characters, t.character);
    lemma_lock_qty(s.warehouse, key, qty);
    lemma_locked(s.warehouse, key, qty, ids.slot, key, "available"@);
    lemma_best(s.orders, s.orders.len() as int, t);
    let e = escrowed(s, t, qty, house, ids.slot);
    assert(e.qty == qty);
    let w = listed(e, t, house);
    assert(w.db == e.db);
    assert(best(w.db.orders, w.db.orders.len() as int, t) is None);
    lemma_still(w, t, house, ids.fills);
    let p = placed(s, t, qty, house, Seq::empty(), ids).db;
    assert(p.orders == s.orders.push(resting(w, t, ids.order)));
    assert(p.orders.drop_last() =~= s.orders);
    assert forall|other: StockKey| other.item != t.item implies #[trigger] stock(p.warehouse, other, "available"@)
        == stock(s.warehouse, other, "available"@) by {
        lemma_locked(s.warehouse, key, qty, ids.slot, other, "available"@);
    }
}

/// What clearing the standing orders keeps: every other order, and what the standing ones held together with what their
/// owner has.
proof fn lemma_cleared_keeps(
    s: DbView,
    market: Seq<char>,
    npc: Seq<char>,
    item: Seq<char>,
    b: ProvisionerBounds,
    ids: Seq<Seq<char>>,
    f: spec_fn(OrderRecordView) -> int,
)
    requires
        market_sound(s),
        has_character(s.characters, npc),
        forall|i: int|
            0 <= i < s.orders.len() && is_standing(market, npc, item)(#[trigger] s.orders[i]) && s.orders[i].order.side
                == "buy"@ ==> s.orders[i].order.unit_price == b.floor,
    ensures
        ({
            let t = cleared(s, market, npc, item, ids);
            let p = is_standing(market, npc, item);
            let key = stock_key(market, npc, item);
            &&& market_sound(t)
            &&& has_character(t.characters, npc)
            &&& t.commands == s.commands
            &&& t.orders.len() <= s.orders.len()
            &&& forall|i: int| 0 <= i < t.orders.len() ==> s.orders.contains(#[trigger] t.orders[i])
            &&& sum(t.orders, only(not(p), f)) == sum(s.orders, only(not(p), f))
            &&& gold_of(t.characters, npc) + b.floor * standing_qty(t.orders, market, npc, item, "buy"@) == gold_of(
                s.characters,
                npc,
            ) + b.floor * standing_qty(s.orders, market, npc, item, "buy"@)
            &&& stock(t.warehouse, key, "available"@) + standing_qty(t.orders, market, npc, item, "sell"@) == stock(
                s.warehouse,
                key,
                "available"@,
            ) + standing_qty(s.orders, market, npc, item, "sell"@)
        }),
    decreases ids.len(),
{
    let p = is_standing(market, npc, item);
    if ids.len() == 0 {
        assert forall|i: int| 0 <= i < s.orders.len() implies s.orders.contains(#[trigger] s.orders[i]) by {}
    } else {
        let before = cleared(s, market, npc, item, ids.drop_last());
        lemma_cleared_keeps(s, market, npc, item, b, ids.drop_last(), f);
        let k = find(before.orders, p);
        lemma_find(before.orders, p);
        if k < before.orders.len() {
            let t = order_released(before, k, ids.last());
            let o = before.orders[k].order;
            assert(s.orders.contains(before.orders[k]));
            let j = choose|j: int| 0 <= j < s.orders.len() && s.orders[j] == before.orders[k];
            assert(order_ok(before.characters, before.orders[k]));
            lemma_sides_differ();
            law_release_returns_the_escrow(before, k, ids.last());
            lemma_sum_remove(before.orders, only(not(p), f), k);
            lemma_sum_remove(before.orders, only(p, side_left("buy"@)), k);
            lemma_sum_remove(before.orders, only(p, side_left("sell"@)), k);
            lemma_paid(before.characters, npc, o.qty_remaining * o.unit_price);
            let q0 = standing_qty(before.orders, market, npc, item, "buy"@);
            if o.side == "buy"@ {
                assert(is_standing(market, npc, item)(s.orders[j]));
                assert(o.unit_price == b.floor);
                let q = o.qty_remaining;
                assert(b.floor * (q0 - q) + q * b.floor == b.floor * q0) by (nonlinear_arith);
            }
            assert forall|i: int| 0 <= i < t.orders.len() implies s.orders.contains(#[trigger] t.orders[i]) by {
                let m = if i < k {
                    i
                } else {
                    i + 1
                };
                assert(t.orders[i] == before.orders[m]);
            }
        }
    }
}

/// Where none of the provisioner's orders rests, nothing of its own rests.
proof fn lemma_none_standing(orders: Seq<OrderRecordView>, p: spec_fn(OrderRecordView) -> bool, f: spec_fn(
    OrderRecordView,
) -> int)
    requires
        find(orders, p) == orders.len(),
    ensures
        sum(orders, only(p, f)) == 0,
        sum(orders, only(not(p), f)) == sum(orders, f),
{
    lemma_find(orders, p);
    let zero = |o: OrderRecordView| 0int;
    assert forall|i: int| 0 <= i < orders.len() implies only(p, f)(#[trigger] orders[i]) == zero(orders[i]) && only(
        not(p),
        f,
    )(orders[i]) == f(orders[i]) by {
        assert(!p(orders[i]));
    }
    lemma_sum_same(orders, only(p, f), zero);
    lemma_sum_same(orders, only(not(p), f), f);
    lemma_sum_zero_fn(orders);
}

proof fn lemma_sum_zero_fn(orders: Seq<OrderRecordView>)
    ensures
        sum(orders, |o: OrderRecordView| 0int) == 0,
    decreases orders.len(),
{
    if orders.len() > 0 {
        lemma_sum_zero_fn(orders.drop_last());
    }
}

/// A sum over all orders is that over the standing ones and that over the others.
proof fn lemma_sum_parts(orders: Seq<OrderRecordView>, p: spec_fn(OrderRecordView) -> bool, f: spec_fn(
    OrderRecordView,
) -> int)
    ensures
        sum(orders, f) == sum(orders, only(p, f)) + sum(orders, only(not(p), f)),
    decreases orders.len(),
{
    if orders.len() > 0 {
        lemma_sum_parts(orders.drop_last(), p, f);
    }
}

/// What the standing orders add to a level of the book.
proof fn lemma_standing_level(
    s: DbView,
    market: Seq<char>,
    npc: Seq<char>,
    item: Seq<char>,
    b: ProvisionerBounds,
    now: int,
    m: Seq<char>,
    i: Seq<char>,
    side: Seq<char>,
    price: int,
)
    requires
        market_sound(s),
        stands(s, market, npc, item, b, now),
    ensures
        sum(s.orders, only(is_standing(market, npc, item), level_qty(m, i, side, price))) == if m == market && i == item
            && side == "buy"@ && price == b.floor {
            standing_qty(s.orders, market, npc, item, "buy"@)
        } else if m == market && i == item && side == "sell"@ && price == b.ceiling {
            standing_qty(s.orders, market, npc, item, "sell"@)
        } else {
            0
        },
{
    let p = is_standing(market, npc, item);
    let f = only(p, level_qty(m, i, side, price));
    lemma_sides_differ();
    assert forall|k: int| 0 <= k < s.orders.len() implies ({
        let o = #[trigger] s.orders[k];
        &&& f(o) == if m == market && i == item && side == "buy"@ && price == b.floor {
            only(p, side_left("buy"@))(o)
        } else if m == market && i == item && side == "sell"@ && price == b.ceiling {
            only(p, side_left("sell"@))(o)
        } else {
            0
        }
    }) by {
        assert(order_ok(s.characters, s.orders[k]));
    }
    if m == market && i == item && side == "buy"@ && price == b.floor {
        lemma_sum_same(s.orders, f, only(p, side_left("buy"@)));
    } else if m == market && i == item && side == "sell"@ && price == b.ceiling {
        lemma_sum_same(s.orders, f, only(p, side_left("sell"@)));
    } else {
        lemma_sum_same(s.orders, f, |o: OrderRecordView| 0int);
        lemma_sum_zero_fn(s.orders);
    }
}

/// Refreshing is idempotent: where the provisioner's orders stand as it posts them, another refresh leaves every level
/// of every book as deep as it was, mints nothing, and leaves the provisioner's purse as it was.
pub proof fn law_refreshing_again_leaves_the_same_book(
    s: DbView,
    market: Seq<char>,
    npc: Seq<char>,
    item: Seq<char>,
    b: ProvisionerBounds,
    house: MarketConfig,
    cfg: MarketConfig,
    then: int,
    now: int,
    ids: RefreshIds,
    m: Seq<char>,
    i: Seq<char>,
    side: Seq<char>,
    price: int,
)
    requires
        market_sound(s),
        is_house_tuning(house, cfg),
        fair(house),
        postable(item, b),
        has_character(s.characters, npc),
        s.orders.len() < i64::MAX,
        stands(s, market, npc, item, b, then),
        refresh_complete(s, market, npc, item, b, house, now, ids),
    ensures
        ({
            let t = refreshed(s, market, npc, item, b, house, now, ids);
            &&& depth(t.orders, m, i, side, price) == depth(s.orders, m, i, side, price)
            &&& refresh_minted(s, market, npc, item, b, now, ids) == 0
            &&& gold_of(t.characters, npc) == gold_of(s.characters, npc)
            &&& stands(t, market, npc, item, b, now)
        }),
{
    let p = is_standing(market, npc, item);
    let np = not(p);
    let key = stock_key(market, npc, item);
    let lv = level_qty(m, i, side, price);
    let off = cleared(s, market, npc, item, ids.cleared);
    let bid_t = bid_terms(market, npc, item, b, now);
    let ask_t = ask_terms(market, npc, item, b, now);
    lemma_sides_differ();
    assert(seeded(s, market, npc, item, b, now, ids.seed) == s);
    lemma_cleared_keeps(s, market, npc, item, b, ids.cleared, lv);
    lemma_none_standing(off.orders, p, lv);
    lemma_none_standing(off.orders, p, side_left("buy"@));
    lemma_none_standing(off.orders, p, side_left("sell"@));
    lemma_sum_parts(s.orders, p, lv);
    lemma_standing_level(s, market, npc, item, b, then, m, i, side, price);
    let asked = standing_qty(s.orders, market, npc, item, "sell"@);
    assert(b.floor * 0 == 0);
    assert(b.floor * bid_size(b) == b.floor * b.bid_qty) by {
        if b.floor == 0 {
            assert(0 * b.bid_qty == 0);
        }
    }
    lemma_purse_bound(s.characters, npc);
    assert(gold_of(off.characters, npc) == gold_of(s.characters, npc) + b.floor * b.bid_qty);
    assert(shortfall(off, npc, b) == 0);
    let ready = readied(s, market, npc, item, b, now, ids);
    assert(ready == off);
    assert forall|k: int| 0 <= k < off.orders.len() implies !crosses(#[trigger] off.orders[k], bid_t) && !crosses(
        off.orders[k],
        ask_t,
    ) by {
        assert(s.orders.contains(off.orders[k]));
        let j = choose|j: int| 0 <= j < s.orders.len() && s.orders[j] == off.orders[k];
        assert(!crosses(s.orders[j], bid_terms(market, npc, item, b, then)));
        assert(!crosses(s.orders[j], ask_terms(market, npc, item, b, then)));
    }
    lemma_quiet_bid(off, bid_t, b.bid_qty as int, house, cfg, ids.bid);
    let bid = bid_posted(s, market, npc, item, b, house, now, ids);
    law_placing_conserves(off, bid_t, b.bid_qty as int, house, Seq::empty(), ids.bid);
    lemma_placing_frame(off, bid_t, b.bid_qty as int, house, Seq::empty(), ids.bid);
    let goods = stock(bid.warehouse, key, "available"@);
    assert(goods == asked);
    lemma_stock_prefix(bid.warehouse, key, "available"@, bid.warehouse.len() as int);
    assert(bid.warehouse.take(bid.warehouse.len() as int) =~= bid.warehouse);
    let t = refreshed(s, market, npc, item, b, house, now, ids);
    assert(off.orders.len() <= s.orders.len());
    let rests = b.floor > 0 && b.bid_qty > 0;
    if rests {
        assert(bid.orders =~= off.orders.push(bid.orders.last()));
        lemma_sum_push(off.orders, lv, bid.orders.last());
    }
    assert forall|k: int| 0 <= k < bid.orders.len() implies !crosses(#[trigger] bid.orders[k], bid_t) && !crosses(
        bid.orders[k],
        ask_t,
    ) by {
        if k < off.orders.len() {
            assert(bid.orders[k] == off.orders[k]) by {
                if rests {
                    assert(bid.orders.drop_last()[k] == off.orders[k]);
                }
            }
        } else {
            assert(bid.orders[k] == bid.orders.last());
        }
    }
    if goods > 0 {
        assert(bid.orders.len() < i64::MAX) by {
            if rests {
                lemma_room_for_one(s, off, market, npc, item, b, ids);
            }
        }
        lemma_quiet_ask(bid, ask_t, goods, house, cfg, ids.ask);
        assert(t.orders =~= bid.orders.push(t.orders.last()));
        lemma_sum_push(bid.orders, lv, t.orders.last());
    }
    lemma_stands_again(s, off, bid, t, market, npc, item, b, now, asked);
}

/// Clearing a bid that stands makes room for one.
proof fn lemma_room_for_one(
    s: DbView,
    off: DbView,
    market: Seq<char>,
    npc: Seq<char>,
    item: Seq<char>,
    b: ProvisionerBounds,
    ids: RefreshIds,
)
    requires
        s.orders.len() < i64::MAX,
        off == cleared(s, market, npc, item, ids.cleared),
        find(off.orders, is_standing(market, npc, item)) == off.orders.len(),
        standing_qty(s.orders, market, npc, item, "buy"@) > 0,
    ensures
        off.orders.len() < s.orders.len(),
{
    let p = is_standing(market, npc, item);
    lemma_cleared_shrinks(s, market, npc, item, ids.cleared);
    if off.orders.len() == s.orders.len() {
        lemma_none_standing(off.orders, p, side_left("buy"@));
    }
}

proof fn lemma_cleared_shrinks(s: DbView, market: Seq<char>, npc: Seq<char>, item: Seq<char>, ids: Seq<Seq<char>>)
    ensures
        cleared(s, market, npc, item, ids).orders.len() <= s.orders.len(),
        cleared(s, market, npc, item, ids).orders.len() == s.orders.len() ==> cleared(s, market, npc, item, ids).orders
            == s.orders,
    decreases ids.len(),
{
    if ids.len() > 0 {
        lemma_cleared_shrinks(s, market, npc, item, ids.drop_last());
        let before = cleared(s, market, npc, item, ids.drop_last());
        lemma_find(before.orders, is_standing(market, npc, item));
    }
}

/// The refreshed orders stand.
proof fn lemma_stands_again(
    s: DbView,
    off: DbView,
    bid: DbView,
    t: DbView,
    market: Seq<char>,
    npc: Seq<char>,
    item: Seq<char>,
    b: ProvisionerBounds,
    now: int,
    asked: int,
)
    requires
        find(off.orders, is_standing(market, npc, item)) == off.orders.len(),
        b.seed_stock > 0 ==> !fresh_command(s.commands, seed_command(market, item)),
        t.commands == s.commands,
        b.bid_qty >= 0,
        b.floor >= 0,
        ({
            let o = bid.orders.last().order;
            if b.floor > 0 && b.bid_qty > 0 {
                &&& bid.orders == off.orders.push(bid.orders.last())
                &&& o.market_id == market && o.character_id == npc && o.item_id == item
                &&& o.side == "buy"@ && o.unit_price == b.floor && o.qty_remaining == b.bid_qty
            } else {
                bid.orders == off.orders
            }
        }),
        ({
            let o = t.orders.last().order;
            if asked > 0 {
                &&& t.orders == bid.orders.push(t.orders.last())
                &&& o.market_id == market && o.character_id == npc && o.item_id == item
                &&& o.side == "sell"@ && o.unit_price == b.ceiling
            } else {
                t.orders == bid.orders
            }
        }),
        stock(t.warehouse, stock_key(market, npc, item), "available"@) == 0,
        forall|k: int|
            0 <= k < bid.orders.len() ==> !crosses(#[trigger] bid.orders[k], bid_terms(market, npc, item, b, now))
                && !crosses(bid.orders[k], ask_terms(market, npc, item, b, now)),
    ensures
        stands(t, market, npc, item, b, now),
{
    let p = is_standing(market, npc, item);
    let f = only(p, side_left("buy"@));
    lemma_sides_differ();
    lemma_find(off.orders, p);
    lemma_none_standing(off.orders, p, side_left("buy"@));
    if b.floor > 0 && b.bid_qty > 0 {
        lemma_sum_push(off.orders, f, bid.orders.last());
    }
    if asked > 0 {
        lemma_sum_push(bid.orders, f, t.orders.last());
    }
    assert forall|k: int| 0 <= k < t.orders.len() && p(#[trigger] t.orders[k]) implies t.orders[k].order.unit_price
        == if t.orders[k].order.side == "buy"@ {
        b.floor as int
    } else {
        b.ceiling as int
    } by {
        if k < off.orders.len() {
            assert(t.orders[k] == off.orders[k]);
            assert(!p(off.orders[k]));
        }
    }
    assert forall|k: int| 0 <= k < t.orders.len() implies !crosses(
        #[trigger] t.orders[k],
        bid_terms(market, npc, item, b, now),
    ) && !crosses(t.orders[k], ask_terms(market, npc, item, b, now)) by {
        if k < bid.orders.len() {
            assert(t.orders[k] == bid.orders[k]);
        }
    }
}

/// A refresh that finds nobody to trade with leaves the provisioner's orders standing, so that one more leaves the same
/// book.
pub proof fn law_a_quiet_refresh_stands(
    s: DbView,
    market: Seq<char>,
    npc: Seq<char>,
    item: Seq<char>,
    b: ProvisionerBounds,
    house: MarketConfig,
    cfg: MarketConfig,
    now: int,
    ids: RefreshIds,
)
    requires
        market_sound(s),
        is_house_tuning(house, cfg),
        fair(house),
        postable(item, b),
        has_character(s.characters, npc),
        s.orders.len() + 1 < i64::MAX,
        total_stock(s.warehouse) + b.seed_stock <= i64::MAX,
        wealth(s) + b.floor * b.bid_qty <= i64::MAX,
        refresh_complete(s, market, npc, item, b, house, now, ids),
        forall|i: int|
            0 <= i < s.orders.len() ==> !crosses(#[trigger] s.orders[i], bid_terms(market, npc, item, b, now))
                && !crosses(s.orders[i], ask_terms(market, npc, item, b, now)),
    ensures
        stands(refreshed(s, market, npc, item, b, house, now, ids), market, npc, item, b, now),
{
    let p = is_standing(market, npc, item);
    let key = stock_key(market, npc, item);
    let bid_t = bid_terms(market, npc, item, b, now);
    let ask_t = ask_terms(market, npc, item, b, now);
    let s1 = seeded(s, market, npc, item, b, now, ids.seed);
    let off = cleared(s1, market, npc, item, ids.cleared);
    let ready = readied(s, market, npc, item, b, now, ids);
    lemma_sides_differ();
    lemma_seeded(s, market, npc, item, b, now, ids.seed);
    lemma_seed_is_claimed(s, market, npc, item, b, now, ids.seed);
    lemma_cleared(s1, market, npc, item, ids.cleared);
    lemma_cleared_within(s1, market, npc, item, ids.cleared);
    lemma_readied(s, market, npc, item, b, now, ids);
    lemma_paid(off.characters, npc, shortfall(off, npc, b));
    assert(gold_of(ready.characters, npc) >= b.floor * b.bid_qty);
    assert(ready.orders == off.orders);
    assert forall|k: int| 0 <= k < ready.orders.len() implies !crosses(#[trigger] ready.orders[k], bid_t) && !crosses(
        ready.orders[k],
        ask_t,
    ) by {
        assert(s.orders.contains(off.orders[k]));
        let j = choose|j: int| 0 <= j < s.orders.len() && s.orders[j] == off.orders[k];
        assert(!crosses(s.orders[j], bid_t));
    }
    lemma_quiet_bid(ready, bid_t, b.bid_qty as int, house, cfg, ids.bid);
    let bid = bid_posted(s, market, npc, item, b, house, now, ids);
    law_placing_conserves(ready, bid_t, b.bid_qty as int, house, Seq::empty(), ids.bid);
    lemma_placing_frame(ready, bid_t, b.bid_qty as int, house, Seq::empty(), ids.bid);
    let goods = stock(bid.warehouse, key, "available"@);
    lemma_stock_prefix(bid.warehouse, key, "available"@, bid.warehouse.len() as int);
    assert(bid.warehouse.take(bid.warehouse.len() as int) =~= bid.warehouse);
    let t = refreshed(s, market, npc, item, b, house, now, ids);
    let rests = b.floor > 0 && b.bid_qty > 0;
    if rests {
        assert(bid.orders =~= ready.orders.push(bid.orders.last()));
    }
    assert forall|k: int| 0 <= k < bid.orders.len() implies !crosses(#[trigger] bid.orders[k], bid_t) && !crosses(
        bid.orders[k],
        ask_t,
    ) by {
        if k < ready.orders.len() {
            assert(bid.orders[k] == ready.orders[k]) by {
                if rests {
                    assert(bid.orders.drop_last()[k] == ready.orders[k]);
                }
            }
        } else {
            assert(bid.orders[k] == bid.orders.last());
        }
    }
    if goods > 0 {
        lemma_quiet_ask(bid, ask_t, goods, house, cfg, ids.ask);
        assert(t.orders =~= bid.orders.push(t.orders.last()));
    }
    lemma_stands_again(s1, ready, bid, t, market, npc, item, b, now, goods);
}

/// Once the seed is granted, its command is spent.
pub proof fn lemma_seed_is_claimed(
    s: DbView,
    market: Seq<char>,
    npc: Seq<char>,
    item: Seq<char>,
    b: ProvisionerBounds,
    now: int,
    id: Seq<char>,
)
    ensures
        b.seed_stock > 0 ==> !fresh_command(
            seeded(s, market, npc, item, b, now, id).commands,
            seed_command(market, item),
        ),
{
    let command = seed_command(market, item);
    reveal_strlit("provisioner-seed:");
    assert(command.len() > 0);
    if b.seed_stock > 0 && fresh_command(s.commands, command) {
        let after = claimed(s.commands, command, npc, now);
        lemma_find(after, is_command(command));
        assert(is_command(command)(after[after.len() - 1]));
    }
}

pub proof fn lemma_cleared_within(s: DbView, market: Seq<char>, npc: Seq<char>, item: Seq<char>, ids: Seq<Seq<char>>)
    ensures
        cleared(s, market, npc, item, ids).orders.len() <= s.orders.len(),
        forall|i: int|
            0 <= i < cleared(s, market, npc, item, ids).orders.len() ==> s.orders.contains(
                #[trigger] cleared(s, market, npc, item, ids).orders[i],
            ),
    decreases ids.len(),
{
    if ids.len() > 0 {
        lemma_cleared_within(s, market, npc, item, ids.drop_last());
        let before = cleared(s, market, npc, item, ids.drop_last());
        let t = cleared(s, market, npc, item, ids);
        let k = find(before.orders, is_standing(market, npc, item));
        lemma_find(before.orders, is_standing(market, npc, item));
        assert forall|i: int| 0 <= i < t.orders.len() implies s.orders.contains(#[trigger] t.orders[i]) by {
            let m = if k >= before.orders.len() || i < k {
                i
            } else {
                i + 1
            };
            assert(t.orders[i] == before.orders[m]);
        }
    }
}

} // verus!
