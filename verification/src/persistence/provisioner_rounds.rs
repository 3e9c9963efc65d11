//! What holds of whole rounds of the provisioner's orders, and of trading with it.

use vstd::prelude::*;

use crate::market_config::{fair, MarketConfig, ProvisionerBounds};
use crate::persistence::book::on_book;
use crate::persistence::db::DbView;
use crate::persistence::market::{buying, crosses, lemma_sides_differ, market_sound, placed, PlaceIds, Terms};
use crate::persistence::market_laws::{
    counterparty, fill_qty, fill_value, fills_one_of, law_a_buy_costs_what_it_reports,
    law_a_sell_earns_what_it_reports, law_fills_add_up, law_placing_conserves, lemma_placing_adds_one,
    lemma_placing_frame, rests_among, rests_as,
};
use crate::persistence::provisioner::{
    ask_terms, bid_need, bid_posted, bid_terms, cleared, is_house_tuning, is_standing,
    law_refreshing_is_ledgered, lemma_cleared, lemma_needs, lemma_readied, lemma_seeded, minted_all,
    postable, readied, refresh_complete, refreshed, refreshed_all, refreshes_complete, seed_command,
    seed_need, seeded, shortfall, RefreshIds,
};
use crate::persistence::provisioner_laws::{
    at_bounds, depth, law_a_quiet_refresh_stands, law_refreshing_again_leaves_the_same_book,
    lemma_cleared_within, lemma_quiet_ask, lemma_quiet_bid, only, side_left, standing_qty, stands,
};
use crate::persistence::purse::{
    claimed, fresh_command, gold_of, has_character, is_command, lemma_paid, wealth,
};
use crate::persistence::rows::{CommandRecordView, MarketTradeView, OrderRecordView};
use crate::persistence::warehouse::{
    draw_qty, draw_rows, lands, lemma_credited, lemma_drawn, stock, stock_key, total_stock, StockKey,
};
use crate::table::{find, lemma_find, lemma_sum_push, lemma_sum_remove, lemma_sum_same, not, sum};
use crate::world::tools::is_tool;

verus! {

/// Whatever it had on the book before, a refresh leaves the provisioner bidding at the floor and asking for the ceiling,
/// and at no other price.
pub proof fn law_refreshing_posts_at_the_bounds(
    s: DbView,
    market: Seq<char>,
    npc: Seq<char>,
    item: Seq<char>,
    b: ProvisionerBounds,
    house: MarketConfig,
    now: int,
    ids: RefreshIds,
)
    requires
        market_sound(s),
        postable(item, b),
        fair(house),
        has_character(s.characters, npc),
        total_stock(s.warehouse) + b.seed_stock <= i64::MAX,
        wealth(s) + b.floor * b.bid_qty <= i64::MAX,
        refresh_complete(s, market, npc, item, b, house, now, ids),
    ensures
        at_bounds(refreshed(s, market, npc, item, b, house, now, ids).orders, market, npc, item, b),
{
    let p = is_standing(market, npc, item);
    let off = cleared(seeded(s, market, npc, item, b, now, ids.seed), market, npc, item, ids.cleared);
    let ready = readied(s, market, npc, item, b, now, ids);
    let bid_t = bid_terms(market, npc, item, b, now);
    let ask_t = ask_terms(market, npc, item, b, now);
    lemma_sides_differ();
    lemma_readied(s, market, npc, item, b, now, ids);
    lemma_find(off.orders, p);
    assert(ready.orders == off.orders);
    assert(has_character(ready.characters, npc));
    lemma_placing_adds_one(ready, bid_t, b.bid_qty as int, house, Seq::empty(), ids.bid);
    law_placing_conserves(ready, bid_t, b.bid_qty as int, house, Seq::empty(), ids.bid);
    lemma_placing_frame(ready, bid_t, b.bid_qty as int, house, Seq::empty(), ids.bid);
    let bid = bid_posted(s, market, npc, item, b, house, now, ids);
    assert(has_character(bid.characters, npc));
    assert forall|i: int| 0 <= i < bid.orders.len() && p(#[trigger] bid.orders[i]) implies {
        &&& bid.orders[i].order.side == "buy"@
        &&& bid.orders[i].order.unit_price == b.floor
    } by {
        if rests_among(bid.orders[i], ready.orders) {
            let a = choose|a: int| 0 <= a < ready.orders.len() && rests_as(bid.orders[i], #[trigger] ready.orders[a]);
            assert(p(off.orders[a]));
        }
    }
    let goods = stock(bid.warehouse, stock_key(market, npc, item), "available"@);
    let t = refreshed(s, market, npc, item, b, house, now, ids);
    if goods > 0 {
        lemma_placing_adds_one(bid, ask_t, goods, house, Seq::empty(), ids.ask);
        assert forall|i: int| 0 <= i < t.orders.len() && p(#[trigger] t.orders[i]) implies t.orders[i].order.unit_price
            == if t.orders[i].order.side == "buy"@ {
            b.floor as int
        } else {
            b.ceiling as int
        } by {
            if rests_among(t.orders[i], bid.orders) {
                let a = choose|a: int| 0 <= a < bid.orders.len() && rests_as(t.orders[i], #[trigger] bid.orders[a]);
                assert(p(bid.orders[a]));
            }
        }
    }
}

/// What fills at one price are worth.
proof fn lemma_value_at(fills: Seq<MarketTradeView>, price: int)
    requires
        forall|i: int| 0 <= i < fills.len() ==> (#[trigger] fills[i]).unit_price == price,
    ensures
        sum(fills, fill_value()) == price * sum(fills, fill_qty()),
    decreases fills.len(),
{
    if fills.len() > 0 {
        let head = fills.drop_last();
        assert forall|i: int| 0 <= i < head.len() implies (#[trigger] head[i]).unit_price == price by {
            assert(head[i] == fills[i]);
        }
        lemma_value_at(head, price);
        let last = fills[fills.len() - 1];
        let q = sum(head, fill_qty());
        assert(last.unit_price == price);
        assert(price * (q + last.qty) == price * q + last.qty * price) by (nonlinear_arith);
    } else {
        assert(price * 0 == 0) by (nonlinear_arith);
    }
}

/// What is traded with the provisioner is traded at its bounds.
proof fn lemma_traded_at_bounds(
    s: DbView,
    t: Terms,
    qty: int,
    cfg: MarketConfig,
    command: Seq<char>,
    ids: PlaceIds,
    npc: Seq<char>,
    b: ProvisionerBounds,
)
    requires
        market_sound(s),
        fair(cfg),
        t.side == "buy"@ || t.side == "sell"@,
        t.side == "sell"@ ==> t.price >= 0,
        !is_tool(t.item),
        has_character(s.characters, t.character),
        at_bounds(s.orders, t.market, npc, t.item, b),
        ({
            let fills = placed(s, t, qty, cfg, command, ids).out.fills;
            forall|i: int| 0 <= i < fills.len() ==> counterparty(#[trigger] fills[i], t) == npc
        }),
    ensures
        ({
            let out = placed(s, t, qty, cfg, command, ids).out;
            let price = if buying(t) {
                b.ceiling
            } else {
                b.floor
            };
            &&& out.spent + out.earned == price * out.filled
            &&& buying(t) ==> out.earned == 0
            &&& !buying(t) ==> out.spent == 0
            &&& out.sale_tax >= 0 && out.listing_fee >= 0
        }),
{
    let out = placed(s, t, qty, cfg, command, ids).out;
    let price = if buying(t) {
        b.ceiling as int
    } else {
        b.floor as int
    };
    lemma_sides_differ();
    law_fills_add_up(s, t, qty, cfg, command, ids);
    assert forall|i: int| 0 <= i < out.fills.len() implies (#[trigger] out.fills[i]).unit_price == price by {
        let f = out.fills[i];
        assert(fills_one_of(f, t, s.orders));
        let a = choose|a: int|
            {
                &&& 0 <= a < s.orders.len()
                &&& on_book(#[trigger] s.orders[a], t.market, t.item, if buying(t) {
                    "sell"@
                } else {
                    "buy"@
                })
                &&& s.orders[a].order.character_id == counterparty(f, t)
                &&& s.orders[a].order.unit_price == f.unit_price
            };
        assert(is_standing(t.market, npc, t.item)(s.orders[a]));
    }
    lemma_value_at(out.fills, price);
}

/// A round trip through the provisioner loses gold: who buys from it and sells it back as much has less gold than before,
/// with what still rests of the buy counted in, as long as it bids less than it asks for. In between, whatever else
/// happens may not touch the purse.
pub proof fn law_a_round_trip_through_the_provisioner_loses_gold(
    s: DbView,
    buy: Terms,
    buy_qty: int,
    buy_command: Seq<char>,
    buy_ids: PlaceIds,
    between: DbView,
    sell: Terms,
    sell_qty: int,
    sell_command: Seq<char>,
    sell_ids: PlaceIds,
    cfg: MarketConfig,
    npc: Seq<char>,
    b: ProvisionerBounds,
)
    requires
        market_sound(s),
        market_sound(between),
        fair(cfg),
        b.floor < b.ceiling,
        buying(buy),
        sell.side == "sell"@,
        sell.price >= 0,
        sell.market == buy.market && sell.item == buy.item && sell.character == buy.character,
        !is_tool(buy.item),
        has_character(s.characters, buy.character),
        has_character(between.characters, buy.character),
        at_bounds(s.orders, buy.market, npc, buy.item, b),
        at_bounds(between.orders, buy.market, npc, buy.item, b),
        ({
            let bought = placed(s, buy, buy_qty, cfg, buy_command, buy_ids);
            let sold = placed(between, sell, sell_qty, cfg, sell_command, sell_ids);
            &&& bought.out.filled == sold.out.filled
            &&& bought.out.filled > 0
            &&& forall|i: int| 0 <= i < bought.out.fills.len() ==> (#[trigger] bought.out.fills[i]).seller_id == npc
            &&& forall|i: int| 0 <= i < sold.out.fills.len() ==> (#[trigger] sold.out.fills[i]).buyer_id == npc
            &&& gold_of(between.characters, buy.character) == gold_of(bought.db.characters, buy.character)
        }),
    ensures
        ({
            let bought = placed(s, buy, buy_qty, cfg, buy_command, buy_ids);
            let sold = placed(between, sell, sell_qty, cfg, sell_command, sell_ids);
            gold_of(sold.db.characters, buy.character) + buy.price * bought.out.resting_qty < gold_of(
                s.characters,
                buy.character,
            )
        }),
{
    let bought = placed(s, buy, buy_qty, cfg, buy_command, buy_ids);
    let sold = placed(between, sell, sell_qty, cfg, sell_command, sell_ids);
    lemma_sides_differ();
    assert forall|i: int| 0 <= i < bought.out.fills.len() implies counterparty(#[trigger] bought.out.fills[i], buy)
        == npc by {}
    assert forall|i: int| 0 <= i < sold.out.fills.len() implies counterparty(#[trigger] sold.out.fills[i], sell)
        == npc by {}
    lemma_traded_at_bounds(s, buy, buy_qty, cfg, buy_command, buy_ids, npc, b);
    lemma_traded_at_bounds(between, sell, sell_qty, cfg, sell_command, sell_ids, npc, b);
    law_a_buy_costs_what_it_reports(s, buy, buy_qty, cfg, buy_command, buy_ids);
    law_a_sell_earns_what_it_reports(between, sell, sell_qty, cfg, sell_command, sell_ids);
    let q = bought.out.filled;
    assert(b.floor * q < b.ceiling * q) by (nonlinear_arith)
        requires
            b.floor < b.ceiling,
            q > 0,
    ;
}

/// Clearing one commodity's orders leaves the orders and the stock of every other.
proof fn lemma_cleared_frame(
    s: DbView,
    market: Seq<char>,
    npc: Seq<char>,
    item: Seq<char>,
    ids: Seq<Seq<char>>,
    f: spec_fn(OrderRecordView) -> int,
    other: StockKey,
)
    requires
        other.item != item,
    ensures
        ({
            let t = cleared(s, market, npc, item, ids);
            let p = is_standing(market, npc, item);
            &&& sum(t.orders, only(not(p), f)) == sum(s.orders, only(not(p), f))
            &&& stock(t.warehouse, other, "available"@) == stock(s.warehouse, other, "available"@)
        }),
    decreases ids.len(),
{
    if ids.len() > 0 {
        let p = is_standing(market, npc, item);
        let before = cleared(s, market, npc, item, ids.drop_last());
        lemma_cleared_frame(s, market, npc, item, ids.drop_last(), f, other);
        let k = find(before.orders, p);
        lemma_find(before.orders, p);
        if k < before.orders.len() {
            let o = before.orders[k].order;
            let key = stock_key(o.market_id, o.character_id, o.item_id);
            lemma_sum_remove(before.orders, only(not(p), f), k);
            let out = draw_rows(before.warehouse, key, "locked"@, o.qty_remaining);
            let back = draw_qty(before.warehouse, key, "locked"@, o.qty_remaining);
            lemma_drawn(before.warehouse, key, "locked"@, o.qty_remaining, other, "available"@);
            if lands(out, key, back, i64::MAX as int) {
                lemma_credited(out, key, back, i64::MAX as int, ids.last(), other, "available"@);
            }
        }
    }
}

/// A command that was claimed stays claimed.
proof fn lemma_still_claimed(commands: Seq<CommandRecordView>, id: Seq<char>, character: Seq<char>, now: int, c: Seq<char>)
    requires
        !fresh_command(commands, c),
    ensures
        !fresh_command(claimed(commands, id, character, now), c),
{
    let after = claimed(commands, id, character, now);
    lemma_find(commands, is_command(c));
    lemma_find(after, is_command(c));
    let k = find(commands, is_command(c));
    assert(after[k] == commands[k]);
    if find(after, is_command(c)) == after.len() {
        assert(!is_command(c)(after[k]));
    }
}

/// What refreshing one commodity leaves of the others, and what it adds to the book.
pub open spec fn refresh_frame(s: DbView, t: DbView, market: Seq<char>, npc: Seq<char>, item: Seq<char>) -> bool {
    &&& forall|c: Seq<char>| !fresh_command(s.commands, c) ==> !#[trigger] fresh_command(t.commands, c)
    &&& t.orders.len() <= s.orders.len() + 2
    &&& forall|k: int|
        0 <= k < t.orders.len() ==> s.orders.contains(#[trigger] t.orders[k]) || (t.orders[k].order.character_id == npc
            && t.orders[k].order.item_id == item)
    &&& forall|y: Seq<char>|
        y != item ==> #[trigger] standing_qty(t.orders, market, npc, y, "buy"@) == standing_qty(
            s.orders,
            market,
            npc,
            y,
            "buy"@,
        )
    &&& forall|other: StockKey|
        other.item != item ==> #[trigger] stock(t.warehouse, other, "available"@) == stock(
            s.warehouse,
            other,
            "available"@,
        )
}

/// Whether nobody's order crosses what the provisioner posts for a commodity.
pub open spec fn quiet(
    orders: Seq<OrderRecordView>,
    market: Seq<char>,
    npc: Seq<char>,
    item: Seq<char>,
    b: ProvisionerBounds,
    now: int,
) -> bool {
    forall|i: int|
        0 <= i < orders.len() ==> !crosses(#[trigger] orders[i], bid_terms(market, npc, item, b, now)) && !crosses(
            orders[i],
            ask_terms(market, npc, item, b, now),
        )
}

/// A quiet refresh of one commodity touches no other.
proof fn lemma_quiet_frame(
    s: DbView,
    market: Seq<char>,
    npc: Seq<char>,
    item: Seq<char>,
    b: ProvisionerBounds,
    house: MarketConfig,
    cfg: MarketConfig,
    now: int,
    ids: RefreshIds,
)
    requires
        market_sound(s),
        is_house_tuning(house, cfg),
        fair(house),
        postable(item, b),
        has_character(s.characters, npc),
        s.orders.len() + 1 < i64::MAX,
        total_stock(s.warehouse) + b.seed_stock <= i64::MAX,
        wealth(s) + b.floor * b.bid_qty <= i64::MAX,
        refresh_complete(s, market, npc, item, b, house, now, ids),
        quiet(s.orders, market, npc, item, b, now),
    ensures
        refresh_frame(s, refreshed(s, market, npc, item, b, house, now, ids), market, npc, item),
{
    let p = is_standing(market, npc, item);
    let key = stock_key(market, npc, item);
    let bid_t = bid_terms(market, npc, item, b, now);
    let ask_t = ask_terms(market, npc, item, b, now);
    let s1 = seeded(s, market, npc, item, b, now, ids.seed);
    let off = cleared(s1, market, npc, item, ids.cleared);
    let ready = readied(s, market, npc, item, b, now, ids);
    lemma_sides_differ();
    lemma_seeded(s, market, npc, item, b, now, ids.seed);
    lemma_cleared(s1, market, npc, item, ids.cleared);
    lemma_cleared_within(s1, market, npc, item, ids.cleared);
    lemma_readied(s, market, npc, item, b, now, ids);
    lemma_paid(off.characters, npc, shortfall(off, npc, b));
    assert(gold_of(ready.characters, npc) >= b.floor * b.bid_qty);
    assert(ready.orders == off.orders);
    assert forall|k: int| 0 <= k < ready.orders.len() implies !crosses(#[trigger] ready.orders[k], bid_t) && !crosses(
        ready.orders[k],
        ask_t,
    ) && s.orders.contains(ready.orders[k]) by {
        assert(s.orders.contains(off.orders[k]));
        let j = choose|j: int| 0 <= j < s.orders.len() && s.orders[j] == off.orders[k];
        assert(!crosses(s.orders[j], bid_t));
    }
    lemma_quiet_bid(ready, bid_t, b.bid_qty as int, house, cfg, ids.bid);
    let bid = bid_posted(s, market, npc, item, b, house, now, ids);
    law_placing_conserves(ready, bid_t, b.bid_qty as int, house, Seq::empty(), ids.bid);
    lemma_placing_frame(ready, bid_t, b.bid_qty as int, house, Seq::empty(), ids.bid);
    let goods = stock(bid.warehouse, key, "available"@);
    let t = refreshed(s, market, npc, item, b, house, now, ids);
    let rests = b.floor > 0 && b.bid_qty > 0;
    if rests {
        assert(bid.orders =~= ready.orders.push(bid.orders.last()));
    }
    assert forall|k: int| 0 <= k < bid.orders.len() implies !crosses(#[trigger] bid.orders[k], ask_t) && (
    s.orders.contains(bid.orders[k]) || (bid.orders[k].order.character_id == npc && bid.orders[k].order.item_id
        == item)) by {
        if k < ready.orders.len() {
            assert(bid.orders[k] == ready.orders[k]) by {
                if rests {
                    assert(bid.orders.drop_last()[k] == ready.orders[k]);
                }
            }
        } else {
            assert(bid.orders[k] == bid.orders.last());
        }
    }
    if goods > 0 {
        lemma_quiet_ask(bid, ask_t, goods, house, cfg, ids.ask);
        assert(t.orders =~= bid.orders.push(t.orders.last()));
    }
    assert forall|k: int| 0 <= k < t.orders.len() implies s.orders.contains(#[trigger] t.orders[k]) || (
    t.orders[k].order.character_id == npc && t.orders[k].order.item_id == item) by {
        if k < bid.orders.len() {
            assert(t.orders[k] == bid.orders[k]);
        }
    }
    assert forall|c: Seq<char>| !fresh_command(s.commands, c) implies !#[trigger] fresh_command(t.commands, c) by {
        lemma_still_claimed(s.commands, seed_command(market, item), npc, now, c);
    }
    assert forall|other: StockKey| other.item != item implies #[trigger] stock(t.warehouse, other, "available"@) == stock(
        s.warehouse,
        other,
        "available"@,
    ) by {
        if lands(s.warehouse, key, b.seed_stock as int, i64::MAX as int) {
            lemma_credited(s.warehouse, key, b.seed_stock as int, i64::MAX as int, ids.seed, other, "available"@);
        }
        lemma_cleared_frame(s1, market, npc, item, ids.cleared, side_left("buy"@), other);
        assert(stock(bid.warehouse, other, "available"@) == stock(s.warehouse, other, "available"@));
    }
    assert forall|y: Seq<char>| y != item implies #[trigger] standing_qty(t.orders, market, npc, y, "buy"@)
        == standing_qty(s.orders, market, npc, y, "buy"@) by {
        let f = only(is_standing(market, npc, y), side_left("buy"@));
        lemma_cleared_frame(s1, market, npc, item, ids.cleared, f, StockKey { item: y, ..key });
        lemma_sum_same(off.orders, only(not(p), f), f);
        lemma_sum_same(s.orders, only(not(p), f), f);
        if rests {
            lemma_sum_push(ready.orders, f, bid.orders.last());
        }
        if goods > 0 {
            lemma_sum_push(bid.orders, f, t.orders.last());
        }
    }
}

/// The orders of one commodity stand through the refresh of another.
proof fn lemma_stands_through(
    s: DbView,
    t: DbView,
    market: Seq<char>,
    npc: Seq<char>,
    item: Seq<char>,
    y: Seq<char>,
    b: ProvisionerBounds,
    then: int,
    now: int,
)
    requires
        refresh_frame(s, t, market, npc, item),
        y != item,
        stands(s, market, npc, y, b, then),
    ensures
        stands(t, market, npc, y, b, now),
{
    let p = is_standing(market, npc, y);
    assert forall|k: int| 0 <= k < t.orders.len() && p(#[trigger] t.orders[k]) implies t.orders[k].order.unit_price
        == if t.orders[k].order.side == "buy"@ {
        b.floor as int
    } else {
        b.ceiling as int
    } by {
        assert(s.orders.contains(t.orders[k]));
        let j = choose|j: int| 0 <= j < s.orders.len() && s.orders[j] == t.orders[k];
        assert(p(s.orders[j]));
    }
    assert(standing_qty(t.orders, market, npc, y, "buy"@) == standing_qty(s.orders, market, npc, y, "buy"@));
    assert(stock(t.warehouse, stock_key(market, npc, y), "available"@) == stock(
        s.warehouse,
        stock_key(market, npc, y),
        "available"@,
    ));
    assert forall|k: int| 0 <= k < t.orders.len() implies !crosses(
        #[trigger] t.orders[k],
        bid_terms(market, npc, y, b, now),
    ) && !crosses(t.orders[k], ask_terms(market, npc, y, b, now)) by {
        if s.orders.contains(t.orders[k]) {
            let j = choose|j: int| 0 <= j < s.orders.len() && s.orders[j] == t.orders[k];
            assert(!crosses(s.orders[j], bid_terms(market, npc, y, b, then)));
            assert(!crosses(s.orders[j], ask_terms(market, npc, y, b, then)));
        }
    }
}

/// Whether no commodity is named twice.
pub open spec fn named_once(goods: Seq<(String, ProvisionerBounds)>) -> bool {
    forall|i: int, j: int| 0 <= i < j < goods.len() ==> (#[trigger] goods[i]).0@ != (#[trigger] goods[j]).0@
}

/// Whether a round of refreshing can be counted: gold, goods and orders.
pub open spec fn round_counts(s: DbView, goods: Seq<(String, ProvisionerBounds)>) -> bool {
    &&& forall|i: int| 0 <= i < goods.len() ==> postable((#[trigger] goods[i]).0@, goods[i].1)
    &&& wealth(s) + bid_need(goods) <= i64::MAX
    &&& total_stock(s.warehouse) + seed_need(goods) <= i64::MAX
    &&& s.orders.len() + 2 * goods.len() + 1 < i64::MAX
}

/// Whether the orders of every commodity stand.
pub open spec fn all_stand(
    s: DbView,
    market: Seq<char>,
    npc: Seq<char>,
    goods: Seq<(String, ProvisionerBounds)>,
    now: int,
) -> bool {
    forall|i: int| 0 <= i < goods.len() ==> stands(s, market, npc, (#[trigger] goods[i]).0@, goods[i].1, now)
}

/// Whether nobody's order crosses what the provisioner posts for any commodity.
pub open spec fn all_quiet(
    orders: Seq<OrderRecordView>,
    market: Seq<char>,
    npc: Seq<char>,
    goods: Seq<(String, ProvisionerBounds)>,
    now: int,
) -> bool {
    forall|i: int| 0 <= i < goods.len() ==> quiet(orders, market, npc, (#[trigger] goods[i]).0@, goods[i].1, now)
}

/// A round over all commodities that finds nobody to trade with leaves all of the provisioner's orders standing.
pub proof fn law_a_quiet_round_stands(
    s: DbView,
    market: Seq<char>,
    npc: Seq<char>,
    goods: Seq<(String, ProvisionerBounds)>,
    house: MarketConfig,
    cfg: MarketConfig,
    now: int,
    ids: Seq<RefreshIds>,
)
    requires
        market_sound(s),
        is_house_tuning(house, cfg),
        fair(house),
        has_character(s.characters, npc),
        named_once(goods),
        round_counts(s, goods),
        ids.len() == goods.len(),
        refreshes_complete(s, market, npc, goods, house, now, ids),
        all_quiet(s.orders, market, npc, goods, now),
    ensures
        ({
            let t = refreshed_all(s, market, npc, goods, house, now, ids);
            &&& all_stand(t, market, npc, goods, now)
            &&& market_sound(t)
            &&& has_character(t.characters, npc)
            &&& wealth(t) <= wealth(s) + bid_need(goods)
            &&& total_stock(t.warehouse) <= total_stock(s.warehouse) + seed_need(goods)
            &&& t.orders.len() <= s.orders.len() + 2 * goods.len()
            &&& forall|k: int|
                0 <= k < t.orders.len() ==> s.orders.contains(#[trigger] t.orders[k]) || t.orders[k].order.character_id
                    == npc
        }),
    decreases goods.len(),
{
    if goods.len() == 0 {
        assert forall|k: int| 0 <= k < s.orders.len() implies s.orders.contains(#[trigger] s.orders[k]) by {}
    } else {
        let n = goods.len() - 1;
        let head = goods.drop_last();
        let item = goods[n].0@;
        let b = goods[n].1;
        lemma_needs(goods, n);
        lemma_needs(goods, n + 1);
        assert(goods.take(n) =~= head);
        assert(goods.take(n + 1) =~= goods);
        assert forall|i: int, j: int| 0 <= i < j < head.len() implies (#[trigger] head[i]).0@ != (#[trigger] head[j]).0@ by {
            assert(head[i] == goods[i] && head[j] == goods[j]);
        }
        assert forall|i: int| 0 <= i < head.len() implies postable((#[trigger] head[i]).0@, head[i].1) && quiet(
            s.orders,
            market,
            npc,
            head[i].0@,
            head[i].1,
            now,
        ) by {
            assert(head[i] == goods[i]);
        }
        law_a_quiet_round_stands(s, market, npc, head, house, cfg, now, ids.take(n));
        let v = refreshed_all(s, market, npc, head, house, now, ids.take(n));
        assert(quiet(s.orders, market, npc, item, b, now));
        assert(postable(item, b));
        assert forall|k: int| 0 <= k < v.orders.len() implies !crosses(
            #[trigger] v.orders[k],
            bid_terms(market, npc, item, b, now),
        ) && !crosses(v.orders[k], ask_terms(market, npc, item, b, now)) by {
            if s.orders.contains(v.orders[k]) {
                let j = choose|j: int| 0 <= j < s.orders.len() && s.orders[j] == v.orders[k];
                assert(!crosses(s.orders[j], bid_terms(market, npc, item, b, now)));
            }
        }
        lemma_one_more(s, v, market, npc, goods, house, cfg, now, ids, n);
        let t = refreshed_all(s, market, npc, goods, house, now, ids);
        assert forall|k: int| 0 <= k < t.orders.len() implies s.orders.contains(#[trigger] t.orders[k])
            || t.orders[k].order.character_id == npc by {
            if v.orders.contains(t.orders[k]) {
                let j = choose|j: int| 0 <= j < v.orders.len() && v.orders[j] == t.orders[k];
                assert(s.orders.contains(v.orders[j]) || v.orders[j].order.character_id == npc);
            }
        }
    }
}

/// Refreshing one more commodity leaves it standing as well, and those before it as they stood.
proof fn lemma_one_more(
    s: DbView,
    v: DbView,
    market: Seq<char>,
    npc: Seq<char>,
    goods: Seq<(String, ProvisionerBounds)>,
    house: MarketConfig,
    cfg: MarketConfig,
    now: int,
    ids: Seq<RefreshIds>,
    n: int,
)
    requires
        0 <= n == goods.len() - 1,
        v == refreshed_all(s, market, npc, goods.drop_last(), house, now, ids.take(n)),
        market_sound(v),
        is_house_tuning(house, cfg),
        fair(house),
        has_character(v.characters, npc),
        named_once(goods),
        postable(goods[n].0@, goods[n].1),
        v.orders.len() + 1 < i64::MAX,
        wealth(v) + goods[n].1.floor * goods[n].1.bid_qty <= i64::MAX,
        total_stock(v.warehouse) + goods[n].1.seed_stock <= i64::MAX,
        refreshes_complete(s, market, npc, goods, house, now, ids),
        quiet(v.orders, market, npc, goods[n].0@, goods[n].1, now),
        all_stand(v, market, npc, goods.drop_last(), now),
    ensures
        ({
            let t = refreshed_all(s, market, npc, goods, house, now, ids);
            &&& all_stand(t, market, npc, goods, now)
            &&& market_sound(t)
            &&& has_character(t.characters, npc)
            &&& wealth(t) <= wealth(v) + goods[n].1.floor * goods[n].1.bid_qty
            &&& total_stock(t.warehouse) <= total_stock(v.warehouse) + goods[n].1.seed_stock
            &&& refresh_frame(v, t, market, npc, goods[n].0@)
        }),
{
    let head = goods.drop_last();
    let item = goods[n].0@;
    let b = goods[n].1;
    let t = refreshed_all(s, market, npc, goods, house, now, ids);
    assert(t == refreshed(v, market, npc, item, b, house, now, ids[n]));
    lemma_quiet_frame(v, market, npc, item, b, house, cfg, now, ids[n]);
    law_a_quiet_refresh_stands(v, market, npc, item, b, house, cfg, now, ids[n]);
    law_refreshing_is_ledgered(v, market, npc, item, b, house, now, ids[n]);
    assert(has_character(t.characters, npc));
    assert forall|i: int| 0 <= i < goods.len() implies stands(
        t,
        market,
        npc,
        (#[trigger] goods[i]).0@,
        goods[i].1,
        now,
    ) by {
        if i < n {
            assert(head[i] == goods[i]);
            assert(goods[i].0@ != goods[n].0@);
            lemma_stands_through(v, t, market, npc, item, goods[i].0@, goods[i].1, now, now);
        }
    }
}

/// Whether orders stand does not depend on the time.
proof fn lemma_stands_any_time(
    s: DbView,
    market: Seq<char>,
    npc: Seq<char>,
    item: Seq<char>,
    b: ProvisionerBounds,
    then: int,
    now: int,
)
    requires
        stands(s, market, npc, item, b, then),
    ensures
        stands(s, market, npc, item, b, now),
        quiet(s.orders, market, npc, item, b, now),
{
    assert forall|k: int| 0 <= k < s.orders.len() implies !crosses(
        #[trigger] s.orders[k],
        bid_terms(market, npc, item, b, now),
    ) && !crosses(s.orders[k], ask_terms(market, npc, item, b, now)) by {
        assert(!crosses(s.orders[k], bid_terms(market, npc, item, b, then)));
        assert(!crosses(s.orders[k], ask_terms(market, npc, item, b, then)));
    }
}

/// Refreshing the first `n` of commodities that all stand.
proof fn lemma_round_again(
    s: DbView,
    market: Seq<char>,
    npc: Seq<char>,
    goods: Seq<(String, ProvisionerBounds)>,
    house: MarketConfig,
    cfg: MarketConfig,
    now: int,
    ids: Seq<RefreshIds>,
    n: int,
    m: Seq<char>,
    i: Seq<char>,
    side: Seq<char>,
    price: int,
)
    requires
        market_sound(s),
        is_house_tuning(house, cfg),
        fair(house),
        has_character(s.characters, npc),
        named_once(goods),
        round_counts(s, goods),
        ids.len() == goods.len(),
        0 <= n <= goods.len(),
        refreshes_complete(s, market, npc, goods.take(n), house, now, ids.take(n)),
        all_stand(s, market, npc, goods, now),
    ensures
        ({
            let t = refreshed_all(s, market, npc, goods.take(n), house, now, ids.take(n));
            &&& all_stand(t, market, npc, goods, now)
            &&& depth(t.orders, m, i, side, price) == depth(s.orders, m, i, side, price)
            &&& minted_all(s, market, npc, goods.take(n), house, now, ids.take(n)) == 0
            &&& gold_of(t.characters, npc) == gold_of(s.characters, npc)
            &&& market_sound(t)
            &&& has_character(t.characters, npc)
            &&& wealth(t) <= wealth(s) + bid_need(goods.take(n))
            &&& total_stock(t.warehouse) <= total_stock(s.warehouse) + seed_need(goods.take(n))
            &&& t.orders.len() <= s.orders.len() + 2 * n
        }),
    decreases n,
{
    if n > 0 {
        let k = n - 1;
        let part = goods.take(n);
        let head = goods.take(k);
        let item = goods[k].0@;
        let b = goods[k].1;
        assert(part.drop_last() =~= head);
        assert(part[k] == goods[k]);
        assert(ids.take(n).take(k) =~= ids.take(k));
        lemma_needs(goods, n);
        lemma_needs(goods, k);
        lemma_round_again(s, market, npc, goods, house, cfg, now, ids, k, m, i, side, price);
        let v = refreshed_all(s, market, npc, head, house, now, ids.take(k));
        let t = refreshed_all(s, market, npc, part, house, now, ids.take(n));
        assert(t == refreshed(v, market, npc, item, b, house, now, ids[k]));
        assert(postable(item, b));
        assert(stands(v, market, npc, goods[k].0@, goods[k].1, now));
        lemma_stands_any_time(v, market, npc, item, b, now, now);
        lemma_quiet_frame(v, market, npc, item, b, house, cfg, now, ids[k]);
        law_refreshing_again_leaves_the_same_book(
            v,
            market,
            npc,
            item,
            b,
            house,
            cfg,
            now,
            now,
            ids[k],
            m,
            i,
            side,
            price,
        );
        law_refreshing_is_ledgered(v, market, npc, item, b, house, now, ids[k]);
        assert(has_character(t.characters, npc));
        assert forall|j: int| 0 <= j < goods.len() implies stands(
            t,
            market,
            npc,
            (#[trigger] goods[j]).0@,
            goods[j].1,
            now,
        ) by {
            if j != k {
                assert(stands(v, market, npc, goods[j].0@, goods[j].1, now));
                assert(goods[j].0@ != goods[k].0@) by {
                    if j < k {
                        assert(goods[j].0@ != goods[k].0@);
                    } else {
                        assert(goods[k].0@ != goods[j].0@);
                    }
                }
                lemma_stands_through(v, t, market, npc, item, goods[j].0@, goods[j].1, now, now);
            }
        }
    }
}

/// Refreshing all commodities is idempotent: where all of the provisioner's orders stand as it posts them, another round
/// leaves every level of every book as deep as it was, mints nothing, leaves the provisioner's purse as it was, and
/// leaves all of its orders standing.
pub proof fn law_another_round_leaves_the_same_book(
    s: DbView,
    market: Seq<char>,
    npc: Seq<char>,
    goods: Seq<(String, ProvisionerBounds)>,
    house: MarketConfig,
    cfg: MarketConfig,
    then: int,
    now: int,
    ids: Seq<RefreshIds>,
    m: Seq<char>,
    i: Seq<char>,
    side: Seq<char>,
    price: int,
)
    requires
        market_sound(s),
        is_house_tuning(house, cfg),
        fair(house),
        has_character(s.characters, npc),
        named_once(goods),
        round_counts(s, goods),
        ids.len() == goods.len(),
        refreshes_complete(s, market, npc, goods, house, now, ids),
        all_stand(s, market, npc, goods, then),
    ensures
        ({
            let t = refreshed_all(s, market, npc, goods, house, now, ids);
            &&& depth(t.orders, m, i, side, price) == depth(s.orders, m, i, side, price)
            &&& minted_all(s, market, npc, goods, house, now, ids) == 0
            &&& gold_of(t.characters, npc) == gold_of(s.characters, npc)
            &&& all_stand(t, market, npc, goods, now)
        }),
{
    let n = goods.len() as int;
    assert(goods.take(n) =~= goods);
    assert(ids.take(n) =~= ids);
    assert forall|j: int| 0 <= j < goods.len() implies stands(
        s,
        market,
        npc,
        (#[trigger] goods[j]).0@,
        goods[j].1,
        now,
    ) by {
        lemma_stands_any_time(s, market, npc, goods[j].0@, goods[j].1, then, now);
    }
    lemma_round_again(s, market, npc, goods, house, cfg, now, ids, n, m, i, side, price);
}

/// Running the refresh twice in a row leaves the same book as running it once, as long as the first finds nobody to trade
/// with, and the second mints nothing.
pub proof fn law_refreshing_twice_leaves_the_same_book(
    s: DbView,
    market: Seq<char>,
    npc: Seq<char>,
    goods: Seq<(String, ProvisionerBounds)>,
    house: MarketConfig,
    cfg: MarketConfig,
    now: int,
    ids: Seq<RefreshIds>,
    again: int,
    again_ids: Seq<RefreshIds>,
    m: Seq<char>,
    i: Seq<char>,
    side: Seq<char>,
    price: int,
)
    requires
        market_sound(s),
        is_house_tuning(house, cfg),
        fair(house),
        has_character(s.characters, npc),
        named_once(goods),
        round_counts(s, goods),
        wealth(s) + 2 * bid_need(goods) <= i64::MAX,
        total_stock(s.warehouse) + 2 * seed_need(goods) <= i64::MAX,
        s.orders.len() + 4 * goods.len() + 1 < i64::MAX,
        ids.len() == goods.len(),
        again_ids.len() == goods.len(),
        all_quiet(s.orders, market, npc, goods, now),
        refreshes_complete(s, market, npc, goods, house, now, ids),
        refreshes_complete(
            refreshed_all(s, market, npc, goods, house, now, ids),
            market,
            npc,
            goods,
            house,
            again,
            again_ids,
        ),
    ensures
        ({
            let once = refreshed_all(s, market, npc, goods, house, now, ids);
            let twice = refreshed_all(once, market, npc, goods, house, again, again_ids);
            &&& depth(twice.orders, m, i, side, price) == depth(once.orders, m, i, side, price)
            &&& minted_all(once, market, npc, goods, house, again, again_ids) == 0
            &&& gold_of(twice.characters, npc) == gold_of(once.characters, npc)
        }),
{
    let once = refreshed_all(s, market, npc, goods, house, now, ids);
    law_a_quiet_round_stands(s, market, npc, goods, house, cfg, now, ids);
    assert(round_counts(once, goods));
    law_another_round_leaves_the_same_book(
        once,
        market,
        npc,
        goods,
        house,
        cfg,
        now,
        again,
        again_ids,
        m,
        i,
        side,
        price,
    );
}

} // verus!
