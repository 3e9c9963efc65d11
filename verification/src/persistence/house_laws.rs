//! What the provisioner is granted for its orders, and which trades it notices.

use vstd::prelude::*;

use crate::market_config::ProvisionerBounds;
use crate::persistence::book_laws::{gold_held, goods_held, law_an_order_gives_back_what_it_holds};
use crate::persistence::db::DbView;
use crate::persistence::market::market_sound;
use crate::persistence::provisioner::{
    ask_terms, bid_terms, cleared, is_outlier, is_standing, lemma_cleared, lemma_seeded, outliers,
    outliers_of, postable, readied, refresh_minted, seed_command, seeded, RefreshIds,
};
use crate::persistence::provisioner_laws::lemma_seed_is_claimed;
use crate::persistence::purse::{fresh_command, gold_of, has_character, lemma_paid};
use crate::persistence::rows::MarketTradeView;
use crate::persistence::warehouse::{
    lands, lemma_credited, lemma_slots_le_stock, lemma_states_differ, stock, stock_key, total_stock,
    StockKey,
};
use crate::table::{find, lemma_find};

verus! {

/// The seed of a commodity is granted once: the first time as much is added to the provisioner's stock as the seed says, and
/// never again. Nothing else of anyone's stock changes.
pub proof fn law_the_seed_is_granted_once(
    s: DbView,
    market: Seq<char>,
    npc: Seq<char>,
    item: Seq<char>,
    b: ProvisionerBounds,
    now: int,
    id: Seq<char>,
    again: int,
    again_id: Seq<char>,
    other: StockKey,
)
    requires
        market_sound(s),
        postable(item, b),
        total_stock(s.warehouse) + b.seed_stock <= i64::MAX,
    ensures
        ({
            let t = seeded(s, market, npc, item, b, now, id);
            let given = if b.seed_stock > 0 && fresh_command(s.commands, seed_command(market, item)) {
                b.seed_stock as int
            } else {
                0
            };
            &&& stock(t.warehouse, other, "available"@) == stock(s.warehouse, other, "available"@) + if other == stock_key(
                market,
                npc,
                item,
            ) {
                given
            } else {
                0
            }
            &&& stock(t.warehouse, other, "locked"@) == stock(s.warehouse, other, "locked"@)
            &&& seeded(t, market, npc, item, b, again, again_id) == t
        }),
{
    let key = stock_key(market, npc, item);
    lemma_states_differ();
    lemma_seed_is_claimed(s, market, npc, item, b, now, id);
    if b.seed_stock > 0 && fresh_command(s.commands, seed_command(market, item)) {
        lemma_slots_le_stock(s.warehouse, market, npc);
        assert(lands(s.warehouse, key, b.seed_stock as int, i64::MAX as int));
        lemma_credited(s.warehouse, key, b.seed_stock as int, i64::MAX as int, id, other, "available"@);
        lemma_credited(s.warehouse, key, b.seed_stock as int, i64::MAX as int, id, other, "locked"@);
    }
}

/// Clearing the provisioner's orders gives back exactly what they hold, and moves nobody else's gold or goods.
pub proof fn law_clearing_gives_back_what_is_held(
    s: DbView,
    market: Seq<char>,
    npc: Seq<char>,
    item: Seq<char>,
    ids: Seq<Seq<char>>,
    who: Seq<char>,
    key: StockKey,
)
    requires
        market_sound(s),
    ensures
        ({
            let t = cleared(s, market, npc, item, ids);
            &&& gold_of(t.characters, who) + gold_held(t.orders, who) == gold_of(s.characters, who) + gold_held(s.orders, who)
            &&& stock(t.warehouse, key, "available"@) + goods_held(t.orders, key) == stock(s.warehouse, key, "available"@)
                + goods_held(s.orders, key)
        }),
    decreases ids.len(),
{
    if ids.len() > 0 {
        let head = ids.drop_last();
        law_clearing_gives_back_what_is_held(s, market, npc, item, head, who, key);
        lemma_cleared(s, market, npc, item, head);
        let before = cleared(s, market, npc, item, head);
        let k = find(before.orders, is_standing(market, npc, item));
        lemma_find(before.orders, is_standing(market, npc, item));
        if k < before.orders.len() {
            law_an_order_gives_back_what_it_holds(before, k, ids.last(), who, key);
        }
    }
}

/// Before the provisioner bids, its purse is filled up to what the bid costs, at the floor, and no further. What is made for
/// that is what the purse lacked, and nobody else's purse changes.
pub proof fn law_the_purse_is_filled_for_the_bid(
    s: DbView,
    market: Seq<char>,
    npc: Seq<char>,
    item: Seq<char>,
    b: ProvisionerBounds,
    now: int,
    ids: RefreshIds,
    who: Seq<char>,
)
    requires
        market_sound(s),
        postable(item, b),
        has_character(s.characters, npc),
        total_stock(s.warehouse) + b.seed_stock <= i64::MAX,
    ensures
        ({
            let off = cleared(seeded(s, market, npc, item, b, now, ids.seed), market, npc, item, ids.cleared);
            let t = readied(s, market, npc, item, b, now, ids);
            let cost = b.floor * b.bid_qty;
            let had = gold_of(off.characters, npc);
            let has = gold_of(t.characters, npc);
            &&& had >= cost ==> has == had
            &&& had < cost ==> has == cost
            &&& refresh_minted(s, market, npc, item, b, now, ids) == has - had
            &&& who != npc ==> gold_of(t.characters, who) == gold_of(off.characters, who)
            &&& had + gold_held(off.orders, npc) == gold_of(s.characters, npc) + gold_held(s.orders, npc)
        }),
{
    let seed = seeded(s, market, npc, item, b, now, ids.seed);
    let off = cleared(seed, market, npc, item, ids.cleared);
    lemma_seeded(s, market, npc, item, b, now, ids.seed);
    lemma_cleared(seed, market, npc, item, ids.cleared);
    law_clearing_gives_back_what_is_held(seed, market, npc, item, ids.cleared, npc, stock_key(market, npc, item));
    assert(has_character(off.characters, npc));
    lemma_paid(off.characters, npc, refresh_minted(s, market, npc, item, b, now, ids));
}

/// The provisioner buys at the floor and sells at the ceiling, in its own name, with no end.
pub proof fn law_the_provisioner_quotes_its_bounds(
    market: Seq<char>,
    npc: Seq<char>,
    item: Seq<char>,
    b: ProvisionerBounds,
    now: int,
)
    ensures
        ({
            let bid = bid_terms(market, npc, item, b, now);
            let ask = ask_terms(market, npc, item, b, now);
            &&& bid.side == "buy"@ && bid.price == b.floor
            &&& ask.side == "sell"@ && ask.price == b.ceiling
            &&& bid.market == market && bid.item == item && bid.character == npc && bid.expires_at == 0
            &&& ask.market == market && ask.item == item && ask.character == npc && ask.expires_at == 0
        }),
{
}

/// A trade is noticed exactly when it is of a commodity of the provisioner's at the market, not too old, and priced below the
/// floor or above the ceiling of that commodity.
pub proof fn law_trades_outside_the_bounds_are_noticed(
    trades: Seq<MarketTradeView>,
    market: Seq<char>,
    goods: Seq<(String, ProvisionerBounds)>,
    since: int,
    line: (Seq<char>, int, int, int),
)
    ensures
        outliers(trades, market, goods, since).contains(line) <==> exists|g: int, k: int| #[trigger]
            noticed(trades, market, goods, since, line, g, k),
    decreases goods.len(),
{
    let out = outliers(trades, market, goods, since);
    if goods.len() > 0 {
        let z = goods.len() - 1;
        let head = goods.drop_last();
        let before = outliers(trades, market, head, since);
        let last = outliers_of(trades, market, goods[z].0@, goods[z].1, since);
        law_trades_outside_the_bounds_are_noticed(trades, market, head, since, line);
        lemma_outliers_of(trades, market, goods[z].0@, goods[z].1, since, line);
        if out.contains(line) {
            let i = choose|i: int| 0 <= i < out.len() && out[i] == line;
            if i < before.len() {
                assert(before[i] == line);
                let (g, k) = choose|g: int, k: int| #[trigger] noticed(trades, market, head, since, line, g, k);
                assert(noticed(trades, market, goods, since, line, g, k));
            } else {
                assert(last[i - before.len()] == line);
                let k = choose|k: int|
                    0 <= k < trades.len() && is_outlier(#[trigger] trades[k], market, goods[z].0@, goods[z].1, since) && line
                        == (goods[z].0@, trades[k].unit_price, goods[z].1.floor as int, goods[z].1.ceiling as int);
                assert(noticed(trades, market, goods, since, line, z, k));
            }
        }
        if exists|g: int, k: int| #[trigger] noticed(trades, market, goods, since, line, g, k) {
            let (g, k) = choose|g: int, k: int| #[trigger] noticed(trades, market, goods, since, line, g, k);
            if g < z {
                assert(noticed(trades, market, head, since, line, g, k));
                let i = choose|i: int| 0 <= i < before.len() && before[i] == line;
                assert(out[i] == line);
            } else {
                assert(is_outlier(trades[k], market, goods[z].0@, goods[z].1, since));
                let i = choose|i: int| 0 <= i < last.len() && last[i] == line;
                assert(out[before.len() + i] == line);
            }
        }
    }
}

/// Whether a line tells of trade `k` of commodity `g`, outside that commodity's bounds.
pub open spec fn noticed(
    trades: Seq<MarketTradeView>,
    market: Seq<char>,
    goods: Seq<(String, ProvisionerBounds)>,
    since: int,
    line: (Seq<char>, int, int, int),
    g: int,
    k: int,
) -> bool {
    &&& 0 <= g < goods.len()
    &&& 0 <= k < trades.len()
    &&& trades[k].market_id == market
    &&& trades[k].item_id == goods[g].0@
    &&& trades[k].created_at >= since
    &&& trades[k].unit_price < goods[g].1.floor || trades[k].unit_price > goods[g].1.ceiling
    &&& line == (goods[g].0@, trades[k].unit_price, goods[g].1.floor as int, goods[g].1.ceiling as int)
}

proof fn lemma_outliers_of(
    trades: Seq<MarketTradeView>,
    market: Seq<char>,
    item: Seq<char>,
    b: ProvisionerBounds,
    since: int,
    line: (Seq<char>, int, int, int),
)
    ensures
        outliers_of(trades, market, item, b, since).contains(line) <==> exists|k: int|
            0 <= k < trades.len() && is_outlier(#[trigger] trades[k], market, item, b, since) && line == (
                item,
                trades[k].unit_price,
                b.floor as int,
                b.ceiling as int,
            ),
    decreases trades.len(),
{
    let out = outliers_of(trades, market, item, b, since);
    if trades.len() > 0 {
        let z = trades.len() - 1;
        let head = trades.drop_last();
        let before = outliers_of(head, market, item, b, since);
        lemma_outliers_of(head, market, item, b, since, line);
        if out.contains(line) {
            let i = choose|i: int| 0 <= i < out.len() && out[i] == line;
            if i < before.len() {
                assert(before[i] == line);
                let k = choose|k: int|
                    0 <= k < head.len() && is_outlier(#[trigger] head[k], market, item, b, since) && line == (
                        item,
                        head[k].unit_price,
                        b.floor as int,
                        b.ceiling as int,
                    );
                assert(trades[k] == head[k]);
            } else {
                assert(is_outlier(trades[z], market, item, b, since));
            }
        }
        if exists|k: int|
            0 <= k < trades.len() && is_outlier(#[trigger] trades[k], market, item, b, since) && line == (
                item,
                trades[k].unit_price,
                b.floor as int,
                b.ceiling as int,
            ) {
            let k = choose|k: int|
                0 <= k < trades.len() && is_outlier(#[trigger] trades[k], market, item, b, since) && line == (
                    item,
                    trades[k].unit_price,
                    b.floor as int,
                    b.ceiling as int,
                );
            if k < z {
                assert(head[k] == trades[k]);
                let i = choose|i: int| 0 <= i < before.len() && before[i] == line;
                assert(out[i] == line);
            } else {
                assert(out[out.len() - 1] == line);
            }
        }
    }
}

} // verus!
