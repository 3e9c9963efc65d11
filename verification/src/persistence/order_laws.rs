//! Who an order is matched with, what moves, and what is left of it.

use vstd::prelude::*;

use crate::market_config::{
    fair, law_fees_are_bounded, lemma_listing_fee_grows, listing_fee_of, sale_tax_of, MarketConfig,
};
use crate::persistence::db::DbView;
use crate::persistence::inventory::lemma_sum_constant;
use crate::persistence::market::{
    admitted, ahead, best, buy_size, buyer, buying, carried_through, concluded, crosses, escrowed,
    fill_best, is_open_order, lemma_best, lemma_buy_size, lemma_concluded_sound, lemma_fill_cover,
    lemma_granted, lemma_listed_sound, lemma_promise_nonneg, lemma_sides_differ, lemma_top_seq, listed,
    market_sound, min, order_filled, pending_goods, placed, promised, rest_qty, rested, seller, sweep_sound,
    swept, swept_out, tallied, top_seq, walk_down, would_cross, FillIds, PlaceIds, Sweep, Terms,
};
use crate::persistence::market_laws::{fill_qty, law_fills_add_up, law_sweep};
use crate::persistence::purse::{
    claimed, fresh_command, gold_of, granted, has_character, lemma_paid, lemma_purse_bound,
};
use crate::persistence::rows::{MarketTradeView, OrderRecordView, WarehouseItemView};
use crate::persistence::warehouse::{
    credited, draw_rows, is_slot, is_stock, lands, lemma_credited, lemma_draw_qty, lemma_drawn,
    lemma_lock_none, lemma_lock_qty, lemma_locked, lemma_slots_le_stock, lemma_states_differ, lock_rows,
    next_slot, slot_order, stock, stock_key, stock_qty, stocked, used_slots, StockKey,
};
use crate::table::{
    count, find, lemma_find, lemma_least, lemma_sum_nonneg, lemma_sum_push, lemma_sum_remove,
    lemma_sum_update, sum,
};
use crate::world::tools::is_tool;

verus! {

/// Whether an order is somebody else's, on the other side of the book that an order is for.
pub open spec fn rival(o: OrderRecordView, t: Terms) -> bool {
    &&& o.order.market_id == t.market
    &&& o.order.item_id == t.item
    &&& o.order.character_id != t.character
    &&& o.order.side == if t.side == "buy"@ {
        "sell"@
    } else {
        "buy"@
    }
}

/// Whether an order has no claim to be filled before another: its price is worse for who is matched with it, or it is the
/// same and the order is no older.
pub open spec fn behind(o: OrderRecordView, first: OrderRecordView, t: Terms) -> bool {
    ||| t.side == "buy"@ && o.order.unit_price > first.order.unit_price
    ||| t.side == "sell"@ && o.order.unit_price < first.order.unit_price
    ||| o.order.unit_price == first.order.unit_price && o.order.created_seq >= first.order.created_seq
}

/// Whether an order is another one, or what is left of it.
pub open spec fn same_order(o: OrderRecordView, was: OrderRecordView) -> bool {
    &&& o.order.id == was.order.id
    &&& o.order.market_id == was.order.market_id
    &&& o.order.item_id == was.order.item_id
    &&& o.order.character_id == was.order.character_id
    &&& o.order.side == was.order.side
    &&& o.order.unit_price == was.order.unit_price
    &&& o.order.created_seq == was.order.created_seq
    &&& o.order.qty_remaining <= was.order.qty_remaining
}

pub open spec fn among(o: OrderRecordView, orders: Seq<OrderRecordView>) -> bool {
    exists|a: int| 0 <= a < orders.len() && same_order(o, #[trigger] orders[a])
}

/// Whether a fill is of an order of the book, and every rival order that is left stands behind that order.
pub open spec fn filled_first(
    f: MarketTradeView,
    touched: (Seq<char>, Seq<char>, int),
    book: Seq<OrderRecordView>,
    left: Seq<OrderRecordView>,
    t: Terms,
) -> bool {
    exists|a: int|
        {
            &&& 0 <= a < book.len()
            &&& rival(#[trigger] book[a], t)
            &&& book[a].order.id == touched.0
            &&& book[a].order.character_id == touched.1
            &&& book[a].order.unit_price == f.unit_price
            &&& forall|k: int| 0 <= k < left.len() && rival(#[trigger] left[k], t) ==> behind(left[k], book[a], t)
        }
}

/// Whatever is left of a book after a fill was there before it.
proof fn lemma_filled_among(orders: Seq<OrderRecordView>, k: int, take: int)
    requires
        0 <= k < orders.len(),
        take >= 0,
    ensures
        forall|i: int| 0 <= i < order_filled(orders, k, take).len() ==> among(#[trigger] order_filled(orders, k, take)[i], orders),
{
    let after = order_filled(orders, k, take);
    assert forall|i: int| 0 <= i < after.len() implies among(#[trigger] after[i], orders) by {
        let j = if orders[k].order.qty_remaining - take > 0 || i < k {
            i
        } else {
            i + 1
        };
        assert(same_order(after[i], orders[j]));
    }
}

proof fn lemma_sweep_priority(start: Sweep, t: Terms, cfg: MarketConfig, ids: Seq<FillIds>)
    requires
        sweep_sound(start, t),
        fair(cfg),
        tallied(start, start, t),
        start.fills.len() == 0,
        start.touched.len() == 0,
    ensures
        ({
            let w = swept(start, t, cfg, ids);
            &&& w.touched.len() == w.fills.len()
            &&& forall|i: int| 0 <= i < w.db.orders.len() ==> among(#[trigger] w.db.orders[i], start.db.orders)
            &&& forall|i: int|
                0 <= i < w.fills.len() ==> filled_first(
                    #[trigger] w.fills[i],
                    w.touched[i],
                    start.db.orders,
                    w.db.orders,
                    t,
                )
            &&& forall|i: int, j: int|
                0 <= i < j < w.fills.len() ==> if t.side == "buy"@ {
                    (#[trigger] w.fills[i]).unit_price <= (#[trigger] w.fills[j]).unit_price
                } else {
                    w.fills[i].unit_price >= w.fills[j].unit_price
                }
        }),
    decreases ids.len(),
{
    lemma_sides_differ();
    let w = swept(start, t, cfg, ids);
    if ids.len() == 0 {
        assert forall|i: int| 0 <= i < w.db.orders.len() implies among(#[trigger] w.db.orders[i], start.db.orders) by {
            assert(same_order(w.db.orders[i], start.db.orders[i]));
        }
    } else {
        let before = ids.drop_last();
        lemma_sweep_priority(start, t, cfg, before);
        law_sweep(start, t, cfg, before);
        let v = swept(start, t, cfg, before);
        if !swept_out(v, t, cfg) {
            let n = v.db.orders.len() as int;
            lemma_best(v.db.orders, n, t);
            let k = best(v.db.orders, n, t)->0;
            lemma_fill_cover(v, t, k);
            let o = v.db.orders[k];
            let take = min(v.want, o.order.qty_remaining);
            assert(w.db.orders == order_filled(v.db.orders, k, take));
            lemma_filled_among(v.db.orders, k, take);
            assert forall|i: int| 0 <= i < w.db.orders.len() implies among(#[trigger] w.db.orders[i], start.db.orders) by {
                assert(among(w.db.orders[i], v.db.orders));
                let m = choose|m: int| 0 <= m < v.db.orders.len() && same_order(w.db.orders[i], #[trigger] v.db.orders[m]);
                assert(among(v.db.orders[m], start.db.orders));
                let a = choose|a: int|
                    0 <= a < start.db.orders.len() && same_order(v.db.orders[m], #[trigger] start.db.orders[a]);
                assert(same_order(w.db.orders[i], start.db.orders[a]));
            }
            let last = v.fills.len() as int;
            assert(among(o, start.db.orders));
            let a = choose|a: int| 0 <= a < start.db.orders.len() && same_order(o, #[trigger] start.db.orders[a]);
            assert(crosses(o, t));
            assert forall|i: int| 0 <= i < w.fills.len() implies filled_first(
                #[trigger] w.fills[i],
                w.touched[i],
                start.db.orders,
                w.db.orders,
                t,
            ) by {
                if i < last {
                    assert(w.fills[i] == v.fills[i] && w.touched[i] == v.touched[i]);
                    assert(filled_first(v.fills[i], v.touched[i], start.db.orders, v.db.orders, t));
                    let b = choose|b: int|
                        {
                            &&& 0 <= b < start.db.orders.len()
                            &&& rival(#[trigger] start.db.orders[b], t)
                            &&& start.db.orders[b].order.id == v.touched[i].0
                            &&& start.db.orders[b].order.character_id == v.touched[i].1
                            &&& start.db.orders[b].order.unit_price == v.fills[i].unit_price
                            &&& forall|m: int|
                                0 <= m < v.db.orders.len() && rival(#[trigger] v.db.orders[m], t) ==> behind(
                                    v.db.orders[m],
                                    start.db.orders[b],
                                    t,
                                )
                        };
                    assert forall|m: int| 0 <= m < w.db.orders.len() && rival(#[trigger] w.db.orders[m], t) implies behind(
                        w.db.orders[m],
                        start.db.orders[b],
                        t,
                    ) by {
                        assert(among(w.db.orders[m], v.db.orders));
                        let x = choose|x: int|
                            0 <= x < v.db.orders.len() && same_order(w.db.orders[m], #[trigger] v.db.orders[x]);
                        assert(rival(v.db.orders[x], t));
                    }
                } else {
                    assert forall|m: int| 0 <= m < w.db.orders.len() && rival(#[trigger] w.db.orders[m], t) implies behind(
                        w.db.orders[m],
                        start.db.orders[a],
                        t,
                    ) by {
                        assert(among(w.db.orders[m], v.db.orders));
                        let x = choose|x: int|
                            0 <= x < v.db.orders.len() && same_order(w.db.orders[m], #[trigger] v.db.orders[x]);
                        if crosses(v.db.orders[x], t) {
                            assert(behind(v.db.orders[x], o, t));
                        }
                    }
                    assert(rival(start.db.orders[a], t));
                }
            }
            assert forall|i: int, j: int| 0 <= i < j < w.fills.len() implies if t.side == "buy"@ {
                (#[trigger] w.fills[i]).unit_price <= (#[trigger] w.fills[j]).unit_price
            } else {
                w.fills[i].unit_price >= w.fills[j].unit_price
            } by {
                assert(w.fills[i] == v.fills[i]);
                if j < last {
                    assert(w.fills[j] == v.fills[j]);
                } else {
                    assert(filled_first(v.fills[i], v.touched[i], start.db.orders, v.db.orders, t));
                    assert(rival(v.db.orders[k], t));
                }
            }
        }
    }
}

/// Price, then age: each fill of an order is of a rival order at that order's price, and no rival order that is left on the
/// book has a better price than it, or the same and is older. So a buy fills at prices that never fall, and a sell at prices
/// that never rise.
pub proof fn law_price_then_age(
    s: DbView,
    t: Terms,
    qty: int,
    cfg: MarketConfig,
    command: Seq<char>,
    ids: PlaceIds,
)
    requires
        market_sound(s),
        fair(cfg),
        t.side == "buy"@ || t.side == "sell"@,
        t.side == "sell"@ ==> t.price >= 0,
        !is_tool(t.item),
        has_character(s.characters, t.character),
    ensures
        ({
            let p = placed(s, t, qty, cfg, command, ids);
            &&& p.out.touched.len() == p.out.fills.len()
            &&& forall|i: int|
                0 <= i < p.out.fills.len() ==> filled_first(
                    #[trigger] p.out.fills[i],
                    p.out.touched[i],
                    s.orders,
                    p.db.orders,
                    t,
                )
            &&& forall|i: int, j: int|
                0 <= i < j < p.out.fills.len() ==> if t.side == "buy"@ {
                    (#[trigger] p.out.fills[i]).unit_price <= (#[trigger] p.out.fills[j]).unit_price
                } else {
                    p.out.fills[i].unit_price >= p.out.fills[j].unit_price
                }
            &&& forall|i: int|
                0 <= i < p.out.fills.len() ==> if t.side == "buy"@ {
                    (#[trigger] p.out.fills[i]).unit_price <= t.price
                } else {
                    p.out.fills[i].unit_price >= t.price
                }
        }),
{
    let begun = DbView { commands: claimed(s.commands, command, t.character, t.now), ..s };
    let e = escrowed(begun, t, qty, cfg, ids.slot);
    let p = placed(s, t, qty, cfg, command, ids);
    assert(market_sound(begun));
    lemma_sides_differ();
    if admitted(s, t, cfg, command) && !e.unaffordable && e.qty > 0 {
        lemma_listed_sound(begun, t, qty, cfg, ids.slot);
        let start = listed(e, t, cfg);
        law_sweep(start, t, cfg, ids.fills);
        lemma_sweep_priority(start, t, cfg, ids.fills);
        let w = swept(start, t, cfg, ids.fills);
        lemma_concluded_sound(w, t, ids.order);
        assert forall|i: int| 0 <= i < p.out.fills.len() implies filled_first(
            #[trigger] p.out.fills[i],
            p.out.touched[i],
            s.orders,
            p.db.orders,
            t,
        ) by {
            assert(filled_first(w.fills[i], w.touched[i], start.db.orders, w.db.orders, t));
            let b = choose|b: int|
                {
                    &&& 0 <= b < start.db.orders.len()
                    &&& rival(#[trigger] start.db.orders[b], t)
                    &&& start.db.orders[b].order.id == w.touched[i].0
                    &&& start.db.orders[b].order.character_id == w.touched[i].1
                    &&& start.db.orders[b].order.unit_price == w.fills[i].unit_price
                    &&& forall|m: int|
                        0 <= m < w.db.orders.len() && rival(#[trigger] w.db.orders[m], t) ==> behind(
                            w.db.orders[m],
                            start.db.orders[b],
                            t,
                        )
                };
            assert(rival(s.orders[b], t));
            assert forall|m: int| 0 <= m < p.db.orders.len() && rival(#[trigger] p.db.orders[m], t) implies behind(
                p.db.orders[m],
                s.orders[b],
                t,
            ) by {
                if m < w.db.orders.len() {
                    assert(p.db.orders[m] == w.db.orders[m]);
                }
            }
        }
    }
}

/// What a fill brings a character who sold: its value less the tax on it.
pub open spec fn proceeds(x: Seq<char>) -> spec_fn(MarketTradeView) -> int {
    |f: MarketTradeView|
        if f.seller_id == x {
            f.qty * f.unit_price - f.sale_tax_gold
        } else {
            0
        }
}

/// How much a character bought in a fill.
pub open spec fn bought_by(x: Seq<char>) -> spec_fn(MarketTradeView) -> int {
    |f: MarketTradeView|
        if f.buyer_id == x {
            f.qty
        } else {
            0
        }
}

/// How much a character sold in a fill.
pub open spec fn sold_by(x: Seq<char>) -> spec_fn(MarketTradeView) -> int {
    |f: MarketTradeView|
        if f.seller_id == x {
            f.qty
        } else {
            0
        }
}

/// Whether a trade is made as an order has it: on its book, now, between its placer and another, taxed on its value.
pub open spec fn well_made(f: MarketTradeView, t: Terms, cfg: MarketConfig) -> bool {
    &&& f.market_id == t.market
    &&& f.item_id == t.item
    &&& f.created_at == t.now
    &&& f.qty > 0
    &&& f.sale_tax_gold == sale_tax_of(cfg, f.qty * f.unit_price)
    &&& f.listing_fee_gold == 0
    &&& f.seller_id != f.buyer_id
    &&& if t.side == "buy"@ {
        f.buyer_id == t.character
    } else {
        f.seller_id == t.character
    }
}

proof fn lemma_sweep_moves(start: Sweep, t: Terms, cfg: MarketConfig, ids: Seq<FillIds>, x: Seq<char>)
    requires
        sweep_sound(start, t),
        fair(cfg),
        tallied(start, start, t),
        start.fills.len() == 0,
    ensures
        ({
            let w = swept(start, t, cfg, ids);
            let key = stock_key(t.market, x, t.item);
            &&& w.db.trades == start.db.trades + w.fills
            &&& forall|i: int| 0 <= i < w.fills.len() ==> well_made(#[trigger] w.fills[i], t, cfg)
            &&& x != t.character ==> gold_of(w.db.characters, x) == gold_of(start.db.characters, x) + if t.side == "buy"@ {
                sum(w.fills, proceeds(x))
            } else {
                0
            }
            &&& stock(w.db.warehouse, key, "available"@) == stock(start.db.warehouse, key, "available"@) + sum(
                w.fills,
                bought_by(x),
            )
            &&& stock(w.db.warehouse, key, "locked"@) == stock(start.db.warehouse, key, "locked"@) - sum(
                w.fills,
                sold_by(x),
            )
        }),
    decreases ids.len(),
{
    lemma_sides_differ();
    lemma_states_differ();
    let w = swept(start, t, cfg, ids);
    if ids.len() == 0 {
        assert(w.db.trades =~= start.db.trades + w.fills);
    } else {
        let before = ids.drop_last();
        lemma_sweep_moves(start, t, cfg, before, x);
        law_sweep(start, t, cfg, before);
        let v = swept(start, t, cfg, before);
        if !swept_out(v, t, cfg) {
            let n = v.db.orders.len() as int;
            lemma_best(v.db.orders, n, t);
            let k = best(v.db.orders, n, t)->0;
            lemma_fill_cover(v, t, k);
            let o = v.db.orders[k];
            let take = min(v.want, o.order.qty_remaining);
            let f = w.fills.last();
            let value = take * o.order.unit_price;
            let tax = sale_tax_of(cfg, value);
            let key = stock_key(t.market, x, t.item);
            let to = stock_key(t.market, f.buyer_id, t.item);
            let from = stock_key(t.market, f.seller_id, t.item);
            assert(w.db.trades =~= start.db.trades + w.fills);
            lemma_sum_push(v.fills, proceeds(x), f);
            lemma_sum_push(v.fills, bought_by(x), f);
            lemma_sum_push(v.fills, sold_by(x), f);
            assert forall|i: int| 0 <= i < w.fills.len() implies well_made(#[trigger] w.fills[i], t, cfg) by {
                if i < v.fills.len() {
                    assert(w.fills[i] == v.fills[i]);
                }
            }
            law_fees_are_bounded(cfg, value);
            let c0 = v.db.characters;
            if buying(t) {
                let refund = take * (t.price - o.order.unit_price);
                assert(refund >= 0) by (nonlinear_arith)
                    requires
                        refund == take * (t.price - o.order.unit_price),
                        take >= 0,
                        o.order.unit_price <= t.price,
                ;
                lemma_granted(c0, t.character, refund);
                lemma_paid(c0, t.character, refund);
                let c1 = granted(c0, t.character, refund);
                lemma_granted(c1, o.order.character_id, value);
                lemma_paid(c1, o.order.character_id, value);
                let c2 = granted(c1, o.order.character_id, value);
                lemma_paid(c2, o.order.character_id, -tax);
            } else {
                lemma_granted(c0, t.character, value);
                lemma_paid(c0, t.character, value);
                lemma_paid(granted(c0, t.character, value), t.character, -tax);
            }
            let rows0 = v.db.warehouse;
            let rows1 = credited(rows0, to, take, cfg.warehouse_slots as int, ids.last().slot);
            lemma_credited(rows0, to, take, cfg.warehouse_slots as int, ids.last().slot, key, "available"@);
            lemma_credited(rows0, to, take, cfg.warehouse_slots as int, ids.last().slot, key, "locked"@);
            lemma_credited(rows0, to, take, cfg.warehouse_slots as int, ids.last().slot, from, "locked"@);
            lemma_draw_qty(rows1, from, "locked"@, take);
            lemma_drawn(rows1, from, "locked"@, take, key, "available"@);
            lemma_drawn(rows1, from, "locked"@, take, key, "locked"@);
        }
    }
}

/// What becomes of the goods and the gold that a sweep still holds.
proof fn lemma_concluded_moves(w: Sweep, t: Terms, id: Seq<char>, x: Seq<char>)
    requires
        sweep_sound(w, t),
    ensures
        ({
            let c = concluded(w, t, id);
            let key = stock_key(t.market, x, t.item);
            let back = if t.side == "sell"@ && x == t.character {
                w.want - rest_qty(w, t)
            } else {
                0
            };
            &&& c.trades == w.db.trades
            &&& x != t.character ==> gold_of(c.characters, x) == gold_of(w.db.characters, x)
            &&& stock(c.warehouse, key, "available"@) == stock(w.db.warehouse, key, "available"@) + back
            &&& stock(c.warehouse, key, "locked"@) == stock(w.db.warehouse, key, "locked"@) - back
        }),
{
    lemma_sides_differ();
    lemma_states_differ();
    if would_cross(w, t) {
        let r = rested(w, t, id);
        let o = r.orders[w.db.orders.len() as int].order;
        if buying(t) {
            lemma_paid(r.characters, t.character, w.want * t.price);
        } else {
            let own = stock_key(t.market, t.character, t.item);
            let key = stock_key(t.market, x, t.item);
            lemma_concluded_sound(w, t, id);
            assert(promised(w.db.orders, own) + pending_goods(w, t, own)
                <= stock(w.db.warehouse, own, "locked"@));
            lemma_promise_nonneg(w.db, own);
            let out = draw_rows(r.warehouse, own, "locked"@, w.want);
            lemma_draw_qty(r.warehouse, own, "locked"@, w.want);
            lemma_drawn(r.warehouse, own, "locked"@, w.want, key, "available"@);
            lemma_drawn(r.warehouse, own, "locked"@, w.want, key, "locked"@);
            lemma_slots_le_stock(out, own.market, own.character);
            assert(lands(out, own, w.want, i64::MAX as int));
            lemma_credited(out, own, w.want, i64::MAX as int, id, key, "available"@);
            lemma_credited(out, own, w.want, i64::MAX as int, id, key, "locked"@);
        }
    }
}

/// Goods and gold go where the fills say. Each fill is on the book of the order, between its placer and another, taxed on
/// its value, and the ledger of trades grows by exactly the fills. Whoever bought has that much more available; whoever sold
/// to a buy has that much less in escrow and the value of it, less the tax; a sell takes out of what its placer has available
/// exactly what filled and what rests, and puts into escrow exactly what rests. Nobody else's purse changes.
pub proof fn law_goods_and_gold_follow_the_fills(
    s: DbView,
    t: Terms,
    qty: int,
    cfg: MarketConfig,
    command: Seq<char>,
    ids: PlaceIds,
    x: Seq<char>,
)
    requires
        market_sound(s),
        fair(cfg),
        t.side == "buy"@ || t.side == "sell"@,
        t.side == "sell"@ ==> t.price >= 0,
        !is_tool(t.item),
        has_character(s.characters, t.character),
    ensures
        ({
            let p = placed(s, t, qty, cfg, command, ids);
            let key = stock_key(t.market, x, t.item);
            let sells = t.side == "sell"@ && x == t.character;
            &&& p.db.trades == s.trades + p.out.fills
            &&& forall|i: int| 0 <= i < p.out.fills.len() ==> well_made(#[trigger] p.out.fills[i], t, cfg)
            &&& x != t.character ==> gold_of(p.db.characters, x) == gold_of(s.characters, x) + if t.side == "buy"@ {
                sum(p.out.fills, proceeds(x))
            } else {
                0
            }
            &&& stock(p.db.warehouse, key, "available"@) == stock(s.warehouse, key, "available"@) + if sells {
                -(p.out.filled + p.out.resting_qty)
            } else {
                sum(p.out.fills, bought_by(x))
            }
            &&& stock(p.db.warehouse, key, "locked"@) == stock(s.warehouse, key, "locked"@) + if sells {
                p.out.resting_qty
            } else {
                -sum(p.out.fills, sold_by(x))
            }
        }),
{
    let begun = DbView { commands: claimed(s.commands, command, t.character, t.now), ..s };
    let e = escrowed(begun, t, qty, cfg, ids.slot);
    let p = placed(s, t, qty, cfg, command, ids);
    let key = stock_key(t.market, x, t.item);
    let own = stock_key(t.market, t.character, t.item);
    assert(market_sound(begun));
    lemma_sides_differ();
    lemma_states_differ();
    if t.side == "sell"@ {
        lemma_lock_none(s.warehouse, own, qty, ids.slot);
    }
    if admitted(s, t, cfg, command) && !e.unaffordable && e.qty > 0 {
        lemma_listed_sound(begun, t, qty, cfg, ids.slot);
        let start = listed(e, t, cfg);
        let fee = listing_fee_of(cfg, e.qty * t.price);
        lemma_paid(begun.characters, t.character, -(e.qty * t.price));
        lemma_paid(e.db.characters, t.character, -fee);
        lemma_locked(s.warehouse, own, qty, ids.slot, key, "available"@);
        lemma_locked(s.warehouse, own, qty, ids.slot, key, "locked"@);
        law_sweep(start, t, cfg, ids.fills);
        lemma_sweep_moves(start, t, cfg, ids.fills, x);
        let w = swept(start, t, cfg, ids.fills);
        lemma_concluded_moves(w, t, ids.order, x);
        law_fills_add_up(s, t, qty, cfg, command, ids);
        lemma_only_side(p.out.fills, t, cfg, x);
    } else {
        assert(p.db.trades =~= s.trades + p.out.fills);
    }
}

/// Who placed an order is on one side of all of its fills.
proof fn lemma_only_side(fills: Seq<MarketTradeView>, t: Terms, cfg: MarketConfig, x: Seq<char>)
    requires
        t.side == "buy"@ || t.side == "sell"@,
        forall|i: int| 0 <= i < fills.len() ==> well_made(#[trigger] fills[i], t, cfg),
    ensures
        t.side == "sell"@ && x == t.character ==> sum(fills, sold_by(x)) == sum(
            fills,
            fill_qty(),
        ) && sum(fills, bought_by(x)) == 0,
    decreases fills.len(),
{
    lemma_sides_differ();
    if fills.len() > 0 {
        let head = fills.drop_last();
        assert forall|i: int| 0 <= i < head.len() implies well_made(#[trigger] head[i], t, cfg) by {
            assert(head[i] == fills[i]);
        }
        lemma_only_side(head, t, cfg, x);
        assert(well_made(fills[fills.len() - 1], t, cfg));
    }
}

/// What rests of an order is one new order, behind every other in age: its placer's, on its side of its book, at its price,
/// for what is reported to rest, from now on and until it expires. Where nothing is reported to rest there is no new order.
pub proof fn law_what_rests_is_the_order(
    s: DbView,
    t: Terms,
    qty: int,
    cfg: MarketConfig,
    command: Seq<char>,
    ids: PlaceIds,
)
    requires
        market_sound(s),
        fair(cfg),
        t.side == "buy"@ || t.side == "sell"@,
        t.side == "sell"@ ==> t.price >= 0,
        !is_tool(t.item),
        has_character(s.characters, t.character),
    ensures
        ({
            let p = placed(s, t, qty, cfg, command, ids);
            let n = p.db.orders.len() - 1;
            let o = p.db.orders[n];
            &&& p.out.resting_qty >= 0
            &&& p.out.resting_order_id is Some <==> p.out.resting_qty > 0
            &&& p.out.resting_qty == 0 ==> forall|i: int|
                0 <= i < p.db.orders.len() ==> among(#[trigger] p.db.orders[i], s.orders)
            &&& p.out.resting_qty > 0 ==> {
                &&& n >= 0
                &&& Some(o.order.id) == p.out.resting_order_id
                &&& o.order.market_id == t.market
                &&& o.order.character_id == t.character
                &&& o.order.side == t.side
                &&& o.order.item_id == t.item
                &&& o.order.unit_price == t.price
                &&& o.order.qty_total == p.out.resting_qty
                &&& o.order.qty_remaining == p.out.resting_qty
                &&& o.order.created_at == t.now
                &&& o.expires_at == t.expires_at
                &&& forall|i: int|
                    0 <= i < n && rival(#[trigger] p.db.orders[i], t) ==> if t.side == "buy"@ {
                        p.db.orders[i].order.unit_price > t.price
                    } else {
                        p.db.orders[i].order.unit_price < t.price
                    }
                &&& forall|i: int|
                    0 <= i < n ==> among(#[trigger] p.db.orders[i], s.orders) && p.db.orders[i].order.created_seq
                        < o.order.created_seq
            }
        }),
{
    let begun = DbView { commands: claimed(s.commands, command, t.character, t.now), ..s };
    let e = escrowed(begun, t, qty, cfg, ids.slot);
    let p = placed(s, t, qty, cfg, command, ids);
    assert(market_sound(begun));
    lemma_sides_differ();
    if admitted(s, t, cfg, command) && !e.unaffordable && e.qty > 0 {
        lemma_listed_sound(begun, t, qty, cfg, ids.slot);
        let start = listed(e, t, cfg);
        law_sweep(start, t, cfg, ids.fills);
        lemma_sweep_priority(start, t, cfg, ids.fills);
        let w = swept(start, t, cfg, ids.fills);
        lemma_concluded_sound(w, t, ids.order);
        lemma_top_seq(w.db.orders);
        lemma_best(w.db.orders, w.db.orders.len() as int, t);
        assert forall|i: int| 0 <= i < w.db.orders.len() && p.out.resting_qty > 0 && rival(
            #[trigger] p.db.orders[i],
            t,
        ) implies if t.side == "buy"@ {
            p.db.orders[i].order.unit_price > t.price
        } else {
            p.db.orders[i].order.unit_price < t.price
        } by {
            assert(p.db.orders[i] == w.db.orders[i]);
            assert(!crosses(w.db.orders[i], t));
        }
        assert forall|i: int| 0 <= i < w.db.orders.len() implies among(#[trigger] p.db.orders[i], s.orders) && (
        p.db.orders[i].order.created_seq <= top_seq(w.db.orders)) by {
            assert(p.db.orders[i] == w.db.orders[i]);
            assert(among(w.db.orders[i], start.db.orders));
        }
    } else {
        assert forall|i: int| 0 <= i < p.db.orders.len() implies among(#[trigger] p.db.orders[i], s.orders) by {
            assert(same_order(p.db.orders[i], s.orders[i]));
        }
    }
}

/// One unit less is enough where a buy is short of less than its price.
proof fn lemma_walk_one(take: int, price: int, purse: int, cfg: MarketConfig)
    requires
        fair(cfg),
        price > 0,
        take * price + listing_fee_of(cfg, take * price) - purse < price,
    ensures
        walk_down(take, price, purse, cfg) >= take - 1,
{
    let short = take * price + listing_fee_of(cfg, take * price) - purse;
    if take > 0 && short > 0 {
        assert(short / price == 0) by (nonlinear_arith)
            requires
                0 < short < price,
        ;
        let next = take - 1;
        assert(next * price == take * price - price) by (nonlinear_arith)
            requires
                next == take - 1,
        ;
        assert(0 <= next * price) by (nonlinear_arith)
            requires
                next >= 0,
                price > 0,
        ;
        lemma_listing_fee_grows(cfg, next * price, take * price);
        assert(walk_down(take, price, purse, cfg) == walk_down(next, price, purse, cfg));
        assert(walk_down(next, price, purse, cfg) == next);
    }
}

/// A buy gives up no more of its size than its fee is worth, and two units.
proof fn lemma_walk_least(take: int, price: int, purse: int, cfg: MarketConfig)
    requires
        fair(cfg),
        price > 0,
        take > 0,
        take * price <= purse,
    ensures
        take * price + listing_fee_of(cfg, take * price) <= purse ==> walk_down(take, price, purse, cfg) == take,
        (take - walk_down(take, price, purse, cfg) - 2) * price <= listing_fee_of(cfg, take * price),
{
    let fee = listing_fee_of(cfg, take * price);
    let short = take * price + fee - purse;
    let w = walk_down(take, price, purse, cfg);
    law_fees_are_bounded(cfg, take * price);
    if short > 0 {
        let k = short / price;
        let step = if k > 1 {
            k
        } else {
            1
        };
        let next = take - step;
        assert(k * price <= short < k * price + price) by (nonlinear_arith)
            requires
                k == short / price,
                price > 0,
        ;
        assert(next * price == take * price - step * price) by (nonlinear_arith)
            requires
                next == take - step,
        ;
        assert(w == walk_down(next, price, purse, cfg));
        if next > 0 {
            assert(0 <= next * price <= take * price) by (nonlinear_arith)
                requires
                    0 <= next <= take,
                    price > 0,
            ;
            lemma_listing_fee_grows(cfg, next * price, take * price);
            assert(short - step * price < price) by (nonlinear_arith)
                requires
                    short < k * price + price,
                    k > 1 ==> step == k,
                    k <= 1 ==> step == 1,
                    price > 0,
            ;
            lemma_walk_one(next, price, purse, cfg);
        }
        assert(w >= next - 1);
        assert((take - w - 2) * price <= fee) by (nonlinear_arith)
            requires
                take - w - 2 <= step - 1,
                k > 1 ==> step == k,
                k <= 1 ==> step == 1,
                k * price <= short,
                short <= fee,
                fee >= 0,
                price > 0,
        ;
    } else {
        assert((take - w - 2) * price <= 0) by (nonlinear_arith)
            requires
                take == w,
                price > 0,
        ;
    }
}

/// Whether a character can receive goods at a market: there is a free slot, or some of them are available already.
pub open spec fn has_room(rows: Seq<WarehouseItemView>, market: Seq<char>, x: Seq<char>, item: Seq<char>, slots: int) -> bool {
    count(rows, |r: WarehouseItemView| r.market_id == market && r.character_id == x) < slots || stock(
        rows,
        stock_key(market, x, item),
        "available"@,
    ) > 0
}

proof fn lemma_used_is(rows: Seq<WarehouseItemView>, market: Seq<char>, x: Seq<char>)
    ensures
        count(rows, |r: WarehouseItemView| r.market_id == market && r.character_id == x) == used_slots(rows, market, x),
    decreases rows.len(),
{
    let p = |r: WarehouseItemView| r.market_id == market && r.character_id == x;
    let q = is_slot(market, x);
    if rows.len() > 0 {
        lemma_used_is(rows.drop_last(), market, x);
        assert(count(rows, p) == count(rows.drop_last(), p) + if p(rows.last()) {
            1int
        } else {
            0int
        });
        assert(count(rows, q) == count(rows.drop_last(), q) + if q(rows.last()) {
            1int
        } else {
            0int
        });
    }
}

proof fn lemma_used_credited(
    rows: Seq<WarehouseItemView>,
    key: StockKey,
    qty: int,
    slots: int,
    id: Seq<char>,
    market: Seq<char>,
    x: Seq<char>,
)
    requires
        x != key.character,
    ensures
        used_slots(credited(rows, key, qty, slots, id), market, x) == used_slots(rows, market, x),
{
    let p = is_slot(market, x);
    let one = |r: WarehouseItemView|
        if p(r) {
            1int
        } else {
            0int
        };
    let k = find(rows, is_stock(key, "available"@));
    lemma_find(rows, is_stock(key, "available"@));
    if lands(rows, key, qty, slots) {
        if k < rows.len() {
            lemma_sum_update(rows, one, k, WarehouseItemView { qty: rows[k].qty + qty, ..rows[k] });
        } else {
            lemma_sum_push(rows, one, credited(rows, key, qty, slots, id)[rows.len() as int]);
        }
    }
}

proof fn lemma_used_drawn(
    rows: Seq<WarehouseItemView>,
    key: StockKey,
    from: Seq<char>,
    want: int,
    market: Seq<char>,
    x: Seq<char>,
)
    ensures
        used_slots(draw_rows(rows, key, from, want), market, x) <= used_slots(rows, market, x),
    decreases rows.len(),
{
    let p = is_slot(market, x);
    let one = |r: WarehouseItemView|
        if p(r) {
            1int
        } else {
            0int
        };
    let k = next_slot(rows, key, from);
    lemma_least(rows, is_stock(key, from), slot_order());
    if want <= 0 || k >= rows.len() {
    } else if rows[k].qty <= want {
        lemma_sum_remove(rows, one, k);
        lemma_used_drawn(rows.remove(k), key, from, want - rows[k].qty, market, x);
    } else {
        lemma_sum_update(rows, one, k, WarehouseItemView { qty: rows[k].qty - want, ..rows[k] });
    }
}

/// Who had room before a sweep has room all through it.
proof fn lemma_sweep_room(start: Sweep, t: Terms, cfg: MarketConfig, ids: Seq<FillIds>, x: Seq<char>)
    requires
        sweep_sound(start, t),
        fair(cfg),
        tallied(start, start, t),
        start.fills.len() == 0,
        has_room(start.db.warehouse, t.market, x, t.item, cfg.warehouse_slots as int),
    ensures
        has_room(swept(start, t, cfg, ids).db.warehouse, t.market, x, t.item, cfg.warehouse_slots as int),
    decreases ids.len(),
{
    if ids.len() > 0 {
        let before = ids.drop_last();
        lemma_sweep_room(start, t, cfg, before, x);
        law_sweep(start, t, cfg, before);
        let v = swept(start, t, cfg, before);
        let w = swept(start, t, cfg, ids);
        if !swept_out(v, t, cfg) {
            lemma_states_differ();
            let n = v.db.orders.len() as int;
            lemma_best(v.db.orders, n, t);
            let k = best(v.db.orders, n, t)->0;
            lemma_fill_cover(v, t, k);
            let o = v.db.orders[k];
            let take = min(v.want, o.order.qty_remaining);
            let slots = cfg.warehouse_slots as int;
            let key = stock_key(t.market, x, t.item);
            let to = stock_key(t.market, buyer(t, o), t.item);
            let from = stock_key(t.market, seller(t, o), t.item);
            let rows0 = v.db.warehouse;
            let rows1 = credited(rows0, to, take, slots, ids.last().slot);
            lemma_credited(rows0, to, take, slots, ids.last().slot, key, "available"@);
            lemma_drawn(rows1, from, "locked"@, take, key, "available"@);
            lemma_used_is(rows0, t.market, x);
            lemma_used_is(w.db.warehouse, t.market, x);
            lemma_no_less(rows0, key);
            if to.character != x {
                lemma_used_credited(rows0, to, take, slots, ids.last().slot, t.market, x);
                lemma_used_drawn(rows1, from, "locked"@, take, t.market, x);
            }
        }
    }
}

proof fn lemma_no_less(rows: Seq<WarehouseItemView>, key: StockKey)
    requires
        stocked(rows),
    ensures
        stock(rows, key, "available"@) >= 0,
        stock(rows, key, "available"@) > 0 ==> find(rows, is_stock(key, "available"@)) < rows.len(),
{
    let f = stock_qty(key, "available"@);
    lemma_sum_nonneg(rows, f);
    lemma_find(rows, is_stock(key, "available"@));
    if find(rows, is_stock(key, "available"@)) >= rows.len() {
        assert forall|i: int| 0 <= i < rows.len() implies f(#[trigger] rows[i]) == 0 by {}
        lemma_sum_constant(rows, f, 0);
        assert(rows.len() * 0 == 0) by (nonlinear_arith);
    }
}

/// Where who is to receive the goods has room, a sweep does not stop before nothing is left to trade.
proof fn lemma_sweep_goes_on(start: Sweep, t: Terms, cfg: MarketConfig, ids: Seq<FillIds>)
    requires
        sweep_sound(start, t),
        fair(cfg),
        tallied(start, start, t),
        start.fills.len() == 0,
        start.touched.len() == 0,
        swept_out(swept(start, t, cfg, ids), t, cfg),
        receivers_have_room(start.db, t, cfg),
    ensures
        !would_cross(swept(start, t, cfg, ids), t),
{
    let w = swept(start, t, cfg, ids);
    lemma_sides_differ();
    if would_cross(w, t) {
        law_sweep(start, t, cfg, ids);
        lemma_sweep_priority(start, t, cfg, ids);
        let n = w.db.orders.len() as int;
        lemma_best(w.db.orders, n, t);
        let k = best(w.db.orders, n, t)->0;
        lemma_fill_cover(w, t, k);
        let o = w.db.orders[k];
        let x = buyer(t, o);
        assert(among(o, start.db.orders));
        let a = choose|a: int| 0 <= a < start.db.orders.len() && same_order(o, #[trigger] start.db.orders[a]);
        assert(rival(start.db.orders[a], t));
        assert(has_room(start.db.warehouse, t.market, x, t.item, cfg.warehouse_slots as int));
        lemma_sweep_room(start, t, cfg, ids, x);
        lemma_used_is(w.db.warehouse, t.market, x);
        lemma_no_less(w.db.warehouse, stock_key(t.market, x, t.item));
    }
}

/// Whether everybody who may receive goods from an order has room for them: the placer of a buy, and whoever bids against a
/// sell.
pub open spec fn receivers_have_room(s: DbView, t: Terms, cfg: MarketConfig) -> bool {
    if t.side == "buy"@ {
        has_room(s.warehouse, t.market, t.character, t.item, cfg.warehouse_slots as int)
    } else {
        forall|k: int|
            0 <= k < s.orders.len() && rival(#[trigger] s.orders[k], t) ==> has_room(
                s.warehouse,
                t.market,
                s.orders[k].order.character_id,
                t.item,
                cfg.warehouse_slots as int,
            )
    }
}

/// Locking the placer's own goods takes no room from anybody else.
proof fn lemma_lock_room(s: DbView, t: Terms, qty: int, cfg: MarketConfig, id: Seq<char>)
    requires
        receivers_have_room(s, t, cfg),
        t.side == "sell"@,
    ensures
        receivers_have_room(
            DbView { warehouse: lock_rows(s.warehouse, stock_key(t.market, t.character, t.item), qty, id), ..s },
            t,
            cfg,
        ),
{
    lemma_sides_differ();
    let own = stock_key(t.market, t.character, t.item);
    let after = lock_rows(s.warehouse, own, qty, id);
    assert forall|k: int| 0 <= k < s.orders.len() && rival(#[trigger] s.orders[k], t) implies has_room(
        after,
        t.market,
        s.orders[k].order.character_id,
        t.item,
        cfg.warehouse_slots as int,
    ) by {
        let x = s.orders[k].order.character_id;
        lemma_used_is(s.warehouse, t.market, x);
        lemma_used_is(after, t.market, x);
        lemma_used_locked(s.warehouse, own, qty, id, t.market, x);
        lemma_locked(s.warehouse, own, qty, id, stock_key(t.market, x, t.item), "available"@);
    }
}

proof fn lemma_used_locked(rows: Seq<WarehouseItemView>, key: StockKey, want: int, id: Seq<char>, market: Seq<char>, x: Seq<char>)
    requires
        x != key.character,
    ensures
        used_slots(lock_rows(rows, key, want, id), market, x) == used_slots(rows, market, x),
    decreases
        if want > 0 {
            want
        } else {
            0
        },
{
    let p = is_slot(market, x);
    let one = |r: WarehouseItemView|
        if p(r) {
            1int
        } else {
            0int
        };
    let k = next_slot(rows, key, "available"@);
    lemma_least(rows, is_stock(key, "available"@), slot_order());
    if want <= 0 || k >= rows.len() || rows[k].qty <= 0 {
    } else if rows[k].durability is Some || rows[k].qty <= want {
        let row = WarehouseItemView { state: "locked"@, ..rows[k] };
        lemma_sum_update(rows, one, k, row);
        lemma_used_locked(rows.update(k, row), key, want - rows[k].qty, id, market, x);
    } else {
        let row = WarehouseItemView { qty: rows[k].qty - want, ..rows[k] };
        lemma_sum_update(rows, one, k, row);
        lemma_sum_push(rows.update(k, row), one, lock_rows(rows, key, want, id)[rows.len() as int]);
    }
}

/// How much an order takes up, as long as nothing of it has to be handed back, because everybody who may receive its goods has
/// room for them or nobody is left to trade with: a sell takes up all it is asked to, as far as there is
/// stock, where its placer can pay the fee on that; a buy takes up all that the purse covers with the fee, and of what the
/// purse covers without it gives up no more than the fee is worth, and two units. The fee is that on what is taken up. A
/// command that was seen before, or a placer with as many orders as may rest, takes up nothing.
pub proof fn law_an_order_takes_up_what_it_can(
    s: DbView,
    t: Terms,
    qty: int,
    cfg: MarketConfig,
    command: Seq<char>,
    ids: PlaceIds,
)
    requires
        market_sound(s),
        fair(cfg),
        t.side == "buy"@ || t.side == "sell"@,
        t.side == "sell"@ ==> t.price >= 0,
        !is_tool(t.item),
        has_character(s.characters, t.character),
    ensures
        ({
            let p = placed(s, t, qty, cfg, command, ids);
            let purse = gold_of(s.characters, t.character);
            let held = stock(s.warehouse, stock_key(t.market, t.character, t.item), "available"@);
            let sell_size = if qty <= held {
                qty
            } else {
                held
            };
            let most = if qty * t.price <= purse {
                qty
            } else {
                purse / t.price
            };
            let own = count(
                s.orders,
                |o: OrderRecordView| o.order.market_id == t.market && o.order.character_id == t.character,
            );
            let runs = fresh_command(s.commands, command) && own < cfg.max_open_orders;
            let size = p.out.filled + p.out.resting_qty;
            let kept = p.db.orders;
            // nobody else's order is left that this one would trade with
            let met = forall|k: int|
                0 <= k < kept.len() && rival(#[trigger] kept[k], t) ==> if t.side == "buy"@ {
                    kept[k].order.unit_price > t.price
                } else {
                    kept[k].order.unit_price < t.price
                };
            let whole = met || carried_through(s, t, qty, cfg, command, ids) && receivers_have_room(s, t, cfg);
            &&& !runs ==> size == 0 && p.out.listing_fee == 0 && p.db.orders == s.orders && p.db.warehouse == s.warehouse
                && p.db.characters == s.characters
            &&& runs && t.side == "sell"@ && sell_size > 0 ==> {
                let fee = listing_fee_of(cfg, sell_size * t.price);
                &&& p.out.fee_unaffordable == (fee > purse)
                &&& fee > purse ==> size == 0 && p.out.listing_fee == 0
                &&& fee <= purse ==> p.out.listing_fee == fee && (whole ==> size == sell_size)
            }
            &&& runs && t.side == "buy"@ && t.price > 0 && qty > 0 && whole ==> {
                &&& most > 0 && most * t.price + listing_fee_of(cfg, most * t.price) <= purse ==> size == most
                &&& most > 0 ==> (most - size - 2) * t.price <= listing_fee_of(cfg, most * t.price)
                &&& p.out.listing_fee == listing_fee_of(cfg, size * t.price)
            }
            &&& t.side == "sell"@ && sell_size <= 0 || t.side == "buy"@ && (t.price <= 0 || qty <= 0) ==> size == 0
                && p.out.listing_fee == 0
        }),
{
    let begun = DbView { commands: claimed(s.commands, command, t.character, t.now), ..s };
    let e = escrowed(begun, t, qty, cfg, ids.slot);
    let p = placed(s, t, qty, cfg, command, ids);
    let purse = gold_of(s.characters, t.character);
    let key = stock_key(t.market, t.character, t.item);
    assert(market_sound(begun));
    lemma_sides_differ();
    lemma_purse_bound(s.characters, t.character);
    let is_own = |o: OrderRecordView| o.order.market_id == t.market && o.order.character_id == t.character;
    lemma_same_count(s.orders, is_own, is_open_order(t.market, t.character));
    if t.side == "sell"@ {
        lemma_lock_none(s.warehouse, key, qty, ids.slot);
        if qty >= 0 {
            lemma_lock_qty(s.warehouse, key, qty);
        } else {
            lemma_lock_qty(s.warehouse, key, 0);
        }
    } else {
        lemma_buy_size(qty, t.price, purse, cfg);
        if t.price > 0 && qty > 0 {
            let most = if qty * t.price <= purse {
                qty
            } else {
                purse / t.price
            };
            assert((purse / t.price) * t.price <= purse && purse < (purse / t.price + 1) * t.price) by (nonlinear_arith)
                requires
                    t.price > 0,
            ;
            assert(most == min(qty, purse / t.price) && most * t.price <= purse) by {
                if qty * t.price <= purse {
                    assert(qty <= purse / t.price) by (nonlinear_arith)
                        requires
                            qty * t.price <= purse,
                            purse < (purse / t.price + 1) * t.price,
                            t.price > 0,
                    ;
                } else {
                    assert(qty > purse / t.price) by (nonlinear_arith)
                        requires
                            qty * t.price > purse,
                            (purse / t.price) * t.price <= purse,
                            t.price > 0,
                    ;
                }
            }
            if most > 0 {
                lemma_walk_least(most, t.price, purse, cfg);
                assert((most - 0 - 2) * t.price <= (most - buy_size(qty, t.price, purse, cfg) - 2) * t.price || buy_size(
                    qty,
                    t.price,
                    purse,
                    cfg,
                ) >= 0) by (nonlinear_arith)
                    requires
                        t.price > 0,
                ;
            }
        }
    }
    assert(0 * t.price == 0) by (nonlinear_arith);
    if admitted(s, t, cfg, command) && !e.unaffordable && e.qty > 0 {
        lemma_listed_sound(begun, t, qty, cfg, ids.slot);
        let start = listed(e, t, cfg);
        law_sweep(start, t, cfg, ids.fills);
        let w = swept(start, t, cfg, ids.fills);
        lemma_concluded_sound(w, t, ids.order);
        lemma_best(w.db.orders, w.db.orders.len() as int, t);
        if carried_through(s, t, qty, cfg, command, ids) && receivers_have_room(s, t, cfg) {
            if t.side == "sell"@ {
                lemma_lock_room(begun, t, qty, cfg, ids.slot);
            }
            assert(receivers_have_room(start.db, t, cfg));
            lemma_sweep_goes_on(start, t, cfg, ids.fills);
        }
        if would_cross(w, t) {
            let k = best(w.db.orders, w.db.orders.len() as int, t)->0;
            assert(p.db.orders[k] == w.db.orders[k]);
            assert(rival(p.db.orders[k], t));
        }
    }
}

proof fn lemma_same_count(s: Seq<OrderRecordView>, p: spec_fn(OrderRecordView) -> bool, q: spec_fn(OrderRecordView) -> bool)
    requires
        forall|o: OrderRecordView| #[trigger] p(o) == q(o),
    ensures
        count(s, p) == count(s, q),
    decreases s.len(),
{
    if s.len() > 0 {
        lemma_same_count(s.drop_last(), p, q);
        assert(count(s, p) == count(s.drop_last(), p) + if p(s.last()) {
            1int
        } else {
            0int
        });
        assert(count(s, q) == count(s.drop_last(), q) + if q(s.last()) {
            1int
        } else {
            0int
        });
    }
}

/// At the moment of each fill, no order of somebody else's on the other side has a better price for who is matched with it,
/// and among those at its price none is older.
pub proof fn law_each_fill_is_the_best_there_is(w: Sweep, t: Terms, cfg: MarketConfig, ids: FillIds, k: int)
    requires
        t.side == "buy"@ || t.side == "sell"@,
        !swept_out(w, t, cfg),
        0 <= k < w.db.orders.len(),
        rival(w.db.orders[k], t),
    ensures
        ({
            let v = fill_best(w, t, cfg, ids);
            let f = v.fills.last();
            let o = w.db.orders[k].order;
            &&& v.fills.len() == w.fills.len() + 1
            &&& t.side == "sell"@ ==> o.unit_price <= f.unit_price && f.unit_price >= t.price
            &&& t.side == "buy"@ ==> o.unit_price >= f.unit_price && f.unit_price <= t.price
            &&& exists|a: int|
                0 <= a < w.db.orders.len() && rival(#[trigger] w.db.orders[a], t) && takes_from(
                    f,
                    v.touched.last(),
                    w.db.orders[a],
                ) && (o.unit_price == f.unit_price ==> w.db.orders[a].order.created_seq <= o.created_seq)
        }),
{
    let a = best(w.db.orders, w.db.orders.len() as int, t)->0;
    lemma_best(w.db.orders, w.db.orders.len() as int, t);
    lemma_sides_differ();
    let v = fill_best(w, t, cfg, ids);
    assert(rival(w.db.orders[a], t));
    assert(takes_from(v.fills.last(), v.touched.last(), w.db.orders[a]));
    if crosses(w.db.orders[k], t) {
        assert(!ahead(w.db.orders[k], w.db.orders[a], t));
    }
}

/// Whether a fill takes this much out of an order of a book and leaves the rest.
pub open spec fn takes_from(f: MarketTradeView, touched: (Seq<char>, Seq<char>, int), o: OrderRecordView) -> bool {
    &&& o.order.id == touched.0
    &&& o.order.character_id == touched.1
    &&& o.order.unit_price == f.unit_price
    &&& o.order.qty_remaining == f.qty + touched.2
}

pub open spec fn taken_from(f: MarketTradeView, touched: (Seq<char>, Seq<char>, int), book: Seq<OrderRecordView>) -> bool {
    exists|a: int| 0 <= a < book.len() && takes_from(f, touched, #[trigger] book[a])
}

/// Each fill takes a whole order off the book, but for the last, which may leave some of its order, and then leaves nothing
/// of the one that was placed. What is reported of each order is what is left of it.
pub proof fn law_orders_are_filled_whole(
    s: DbView,
    t: Terms,
    qty: int,
    cfg: MarketConfig,
    command: Seq<char>,
    ids: PlaceIds,
    i: int,
)
    ensures
        ({
            let p = placed(s, t, qty, cfg, command, ids);
            let n = p.out.fills.len();
            &&& p.out.touched.len() == n
            &&& 0 <= i < n ==> taken_from(p.out.fills[i], p.out.touched[i], s.orders)
            &&& 0 <= i < n - 1 ==> p.out.touched[i].2 == 0
            &&& 0 <= i < n ==> p.out.touched[i].2 >= 0
            &&& n > 0 && p.out.touched[n - 1].2 > 0 ==> p.out.resting_qty == 0
        }),
{
    let begun = DbView { commands: claimed(s.commands, command, t.character, t.now), ..s };
    let start = listed(escrowed(begun, t, qty, cfg, ids.slot), t, cfg);
    if start.want > 0 {
        lemma_filled_whole(start, t, cfg, ids.fills, i);
    }
}

proof fn lemma_filled_whole(start: Sweep, t: Terms, cfg: MarketConfig, ids: Seq<FillIds>, i: int)
    requires
        start.want > 0,
        start.fills.len() == 0,
        start.touched.len() == 0,
    ensures
        ({
            let w = swept(start, t, cfg, ids);
            let n = w.fills.len();
            &&& w.touched.len() == n
            &&& w.want >= 0
            &&& w.want > 0 ==> forall|k: int|
                0 <= k < w.db.orders.len() ==> start.db.orders.contains(#[trigger] w.db.orders[k])
            &&& 0 <= i < n ==> taken_from(w.fills[i], w.touched[i], start.db.orders)
            &&& 0 <= i < n - 1 ==> w.touched[i].2 == 0
            &&& 0 <= i < n ==> w.touched[i].2 >= 0
            &&& n > 0 && w.touched[n - 1].2 > 0 ==> w.want == 0
        }),
    decreases ids.len(),
{
    if ids.len() > 0 {
        let head = ids.drop_last();
        let u = swept(start, t, cfg, head);
        lemma_filled_whole(start, t, cfg, head, i);
        if u.fills.len() > 0 {
            lemma_filled_whole(start, t, cfg, head, u.fills.len() - 1);
        }
        let w = swept(start, t, cfg, ids);
        if !swept_out(u, t, cfg) {
            let k = best(u.db.orders, u.db.orders.len() as int, t)->0;
            lemma_best(u.db.orders, u.db.orders.len() as int, t);
            let o = u.db.orders[k];
            assert(start.db.orders.contains(o));
            let a = choose|a: int| 0 <= a < start.db.orders.len() && start.db.orders[a] == o;
            let n = u.fills.len() as int;
            assert(takes_from(w.fills[n], w.touched[n], start.db.orders[a]));
            if w.want > 0 {
                assert forall|j: int| 0 <= j < w.db.orders.len() implies start.db.orders.contains(
                    #[trigger] w.db.orders[j],
                ) by {
                    let at = if j < k {
                        j
                    } else {
                        j + 1
                    };
                    assert(w.db.orders[j] == u.db.orders[at]);
                }
            }
        }
    }
}

} // verus!
