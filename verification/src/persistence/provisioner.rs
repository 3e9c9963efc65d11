//! The provisioner: a system character that keeps a standing bid and ask for a commodity.

use vstd::prelude::*;

use crate::market_config::{fair, MarketConfig, ProvisionerBounds};
use crate::persistence::accounts::{
    has_email, is_character_of, law_opening_is_ledgered, opened, opening, STARTING_GOLD,
};
use crate::persistence::book::{law_release_returns_the_escrow, order_released};
use crate::persistence::db::{Db, DbView};
use crate::persistence::ids::new_id;
use crate::persistence::market::{
    carried_through, lemma_escrow_nonneg, lemma_promise_nonneg, lemma_top_seq, lemma_top_seq_le,
    market_sound, min, order_ok, order_terms, placed, promise_qty, promised, top_seq, PlaceIds, Placed,
    Terms,
};
use crate::persistence::market_laws::{law_placing_conserves, lemma_placing_frame};
use crate::persistence::purse::{
    claimed, fresh_command, gold_of, has_character, is_character, law_minting_is_ledgered, lemma_paid,
    lemma_purse_bound, minted, supply_gap, wealth,
};
use crate::persistence::rows::{MarketTradeView, OrderRecord, OrderRecordView};
use crate::persistence::warehouse::{
    credited, draw_rows, lands, lemma_credited, lemma_draw_qty, lemma_drawn, lemma_headroom,
    lemma_slots_le_stock, lemma_states_differ, lemma_stock_prefix, stock, stock_key, total_stock,
    warehouse_credit_in_tx, StockKey,
};
use crate::table::{find, lemma_find, lemma_sum_nonneg, lemma_sum_prefix, sum};
use crate::text::same;
use crate::world::tools::is_tool;

verus! {

/// The email of the provisioner's account.
pub open spec fn provisioner_email() -> Seq<char> {
    "provisioner@system.invalid"@
}

/// The command under which the starting stock of a commodity at a market is granted, once.
pub open spec fn seed_command(market: Seq<char>, item: Seq<char>) -> Seq<char> {
    "provisioner-seed:"@ + market + ":"@ + item
}

fn seed_command_text(market_id: &str, item_id: &str) -> (t: String)
    ensures
        t@ == seed_command(market_id@, item_id@),
{
    let mut t = "provisioner-seed:".to_string();
    t.append(market_id);
    t.append(":");
    t.append(item_id);
    t
}

/// Whether a tuning is the market's own, but for free listing and no limit on open orders.
pub open spec fn is_house_tuning(house: MarketConfig, cfg: MarketConfig) -> bool {
    &&& house.max_open_orders == i64::MAX
    &&& house.warehouse_slots == cfg.warehouse_slots
    &&& house.listing_fee_min_gold == 0
    &&& house.listing_fee_num == 0
    &&& house.listing_fee_den == cfg.listing_fee_den
    &&& house.sale_tax_num == cfg.sale_tax_num
    &&& house.sale_tax_den == cfg.sale_tax_den
}

fn house_tuning(cfg: &MarketConfig) -> (house: MarketConfig)
    requires
        fair(*cfg),
    ensures
        is_house_tuning(house, *cfg),
        fair(house),
{
    MarketConfig {
        max_open_orders: i64::MAX,
        warehouse_slots: cfg.warehouse_slots,
        listing_fee_min_gold: 0,
        listing_fee_num: 0,
        listing_fee_den: cfg.listing_fee_den,
        sale_tax_num: cfg.sale_tax_num,
        sale_tax_den: cfg.sale_tax_den,
        storage_fee_per_slot_per_day: cfg.storage_fee_per_slot_per_day,
        storage_arrears_cap_days: cfg.storage_arrears_cap_days,
        candle_interval_secs: cfg.candle_interval_secs,
        provisioner: Vec::new(),
    }
}

/// Whether an order is the provisioner's own for this commodity at this market.
pub open spec fn is_standing(market: Seq<char>, npc: Seq<char>, item: Seq<char>) -> spec_fn(OrderRecordView) -> bool {
    |o: OrderRecordView| o.order.market_id == market && o.order.character_id == npc && o.order.item_id == item
}

/// The state after the starting stock is granted, if it has not been.
pub open spec fn seeded(
    s: DbView,
    market: Seq<char>,
    npc: Seq<char>,
    item: Seq<char>,
    b: ProvisionerBounds,
    now: int,
    id: Seq<char>,
) -> DbView {
    let command = seed_command(market, item);
    if b.seed_stock > 0 && fresh_command(s.commands, command) {
        DbView {
            commands: claimed(s.commands, command, npc, now),
            warehouse: credited(
                s.warehouse,
                stock_key(market, npc, item),
                b.seed_stock as int,
                i64::MAX as int,
                id,
            ),
            ..s
        }
    } else {
        s
    }
}

/// The state after one of the provisioner's standing orders is taken off the book for each id, or fewer
/// once none is left.
pub open spec fn cleared(
    s: DbView,
    market: Seq<char>,
    npc: Seq<char>,
    item: Seq<char>,
    ids: Seq<Seq<char>>,
) -> DbView
    decreases ids.len(),
{
    if ids.len() == 0 {
        s
    } else {
        let before = cleared(s, market, npc, item, ids.drop_last());
        let k = find(before.orders, is_standing(market, npc, item));
        if k < before.orders.len() {
            order_released(before, k, ids.last())
        } else {
            before
        }
    }
}

/// How much gold the standing bid is short of.
pub open spec fn shortfall(s: DbView, npc: Seq<char>, b: ProvisionerBounds) -> int {
    let short = b.floor * b.bid_qty - gold_of(s.characters, npc);
    if short > 0 {
        short
    } else {
        0
    }
}

/// The ids that refreshing one commodity uses.
pub struct RefreshIds {
    pub seed: Seq<char>,
    pub cleared: Seq<Seq<char>>,
    pub bid: PlaceIds,
    pub ask: PlaceIds,
}

pub open spec fn bid_terms(market: Seq<char>, npc: Seq<char>, item: Seq<char>, b: ProvisionerBounds, now: int) -> Terms {
    order_terms(market, npc, "buy"@, item, b.floor as int, 0, now)
}

pub open spec fn ask_terms(market: Seq<char>, npc: Seq<char>, item: Seq<char>, b: ProvisionerBounds, now: int) -> Terms {
    order_terms(market, npc, "sell"@, item, b.ceiling as int, 0, now)
}

/// The state in which the standing bid is posted: seeded, cleared of old orders, and funded.
pub open spec fn readied(
    s: DbView,
    market: Seq<char>,
    npc: Seq<char>,
    item: Seq<char>,
    b: ProvisionerBounds,
    now: int,
    ids: RefreshIds,
) -> DbView {
    let off = cleared(seeded(s, market, npc, item, b, now, ids.seed), market, npc, item, ids.cleared);
    minted(off, npc, shortfall(off, npc, b), "provisioner"@, now)
}

/// The state after the standing bid is posted.
pub open spec fn bid_posted(
    s: DbView,
    market: Seq<char>,
    npc: Seq<char>,
    item: Seq<char>,
    b: ProvisionerBounds,
    house: MarketConfig,
    now: int,
    ids: RefreshIds,
) -> DbView {
    placed(
        readied(s, market, npc, item, b, now, ids),
        bid_terms(market, npc, item, b, now),
        b.bid_qty as int,
        house,
        Seq::empty(),
        ids.bid,
    ).db
}

/// The state after one commodity is refreshed: the old orders are gone, the bid stands at the floor,
/// funded by minting what is short, and whatever stock is available is asked for at the ceiling.
pub open spec fn refreshed(
    s: DbView,
    market: Seq<char>,
    npc: Seq<char>,
    item: Seq<char>,
    b: ProvisionerBounds,
    house: MarketConfig,
    now: int,
    ids: RefreshIds,
) -> DbView {
    let bid = bid_posted(s, market, npc, item, b, house, now, ids);
    let goods = stock(bid.warehouse, stock_key(market, npc, item), "available"@);
    if goods > 0 {
        placed(bid, ask_terms(market, npc, item, b, now), goods, house, Seq::empty(), ids.ask).db
    } else {
        bid
    }
}

/// Whether every old order is off the book and both new ones have been swept as far as they go.
pub open spec fn refresh_complete(
    s: DbView,
    market: Seq<char>,
    npc: Seq<char>,
    item: Seq<char>,
    b: ProvisionerBounds,
    house: MarketConfig,
    now: int,
    ids: RefreshIds,
) -> bool {
    let off = cleared(seeded(s, market, npc, item, b, now, ids.seed), market, npc, item, ids.cleared);
    let ready = readied(s, market, npc, item, b, now, ids);
    let bid = bid_posted(s, market, npc, item, b, house, now, ids);
    let goods = stock(bid.warehouse, stock_key(market, npc, item), "available"@);
    &&& find(off.orders, is_standing(market, npc, item)) == off.orders.len()
    &&& carried_through(
        ready,
        bid_terms(market, npc, item, b, now),
        b.bid_qty as int,
        house,
        Seq::empty(),
        ids.bid,
    )
    &&& goods > 0 ==> carried_through(
        bid,
        ask_terms(market, npc, item, b, now),
        goods,
        house,
        Seq::empty(),
        ids.ask,
    )
}

/// Whether each commodity in turn was refreshed completely.
pub open spec fn refreshes_complete(
    s: DbView,
    market: Seq<char>,
    npc: Seq<char>,
    goods: Seq<(String, ProvisionerBounds)>,
    house: MarketConfig,
    now: int,
    ids: Seq<RefreshIds>,
) -> bool
    decreases goods.len(),
{
    goods.len() == 0 || {
        let n = goods.len() - 1;
        &&& refreshes_complete(s, market, npc, goods.drop_last(), house, now, ids.take(n))
        &&& refresh_complete(
            refreshed_all(s, market, npc, goods.drop_last(), house, now, ids.take(n)),
            market,
            npc,
            goods[n].0@,
            goods[n].1,
            house,
            now,
            ids[n],
        )
    }
}

/// How much gold refreshing one commodity mints.
pub open spec fn refresh_minted(
    s: DbView,
    market: Seq<char>,
    npc: Seq<char>,
    item: Seq<char>,
    b: ProvisionerBounds,
    now: int,
    ids: RefreshIds,
) -> int {
    let off = cleared(seeded(s, market, npc, item, b, now, ids.seed), market, npc, item, ids.cleared);
    shortfall(off, npc, b)
}

/// Bounds that can be posted for a commodity: prices and sizes that are not negative, of goods that
/// stack.
pub open spec fn postable(item: Seq<char>, b: ProvisionerBounds) -> bool {
    &&& b.floor >= 0
    &&& b.ceiling >= 0
    &&& b.bid_qty >= 0
    &&& b.seed_stock >= 0
    &&& b.floor * b.bid_qty <= i64::MAX
    &&& !is_tool(item)
}

/// Seeding keeps the market sound, and touches no gold and no order.
pub proof fn lemma_seeded(
    s: DbView,
    market: Seq<char>,
    npc: Seq<char>,
    item: Seq<char>,
    b: ProvisionerBounds,
    now: int,
    id: Seq<char>,
)
    requires
        market_sound(s),
        postable(item, b),
        total_stock(s.warehouse) + b.seed_stock <= i64::MAX,
    ensures
        ({
            let t = seeded(s, market, npc, item, b, now, id);
            &&& market_sound(t)
            &&& t.characters == s.characters && t.orders == s.orders && t.ledger == s.ledger
            &&& total_stock(s.warehouse) <= total_stock(t.warehouse) <= total_stock(s.warehouse) + b.seed_stock
        }),
{
    let t = seeded(s, market, npc, item, b, now, id);
    let key = stock_key(market, npc, item);
    lemma_states_differ();
    if b.seed_stock > 0 && fresh_command(s.commands, seed_command(market, item)) {
        lemma_slots_le_stock(s.warehouse, market, npc);
        if lands(s.warehouse, key, b.seed_stock as int, i64::MAX as int) {
            lemma_credited(s.warehouse, key, b.seed_stock as int, i64::MAX as int, id, key, "locked"@);
            assert forall|other: StockKey| #[trigger]
                promised(t.orders, other) <= stock(t.warehouse, other, "locked"@) by {
                lemma_credited(s.warehouse, key, b.seed_stock as int, i64::MAX as int, id, other, "locked"@);
                assert(promised(s.orders, other) <= stock(s.warehouse, other, "locked"@));
            }
        }
    }
}

/// Clearing standing orders keeps the market sound and all gold and goods accounted for.
pub proof fn lemma_cleared(s: DbView, market: Seq<char>, npc: Seq<char>, item: Seq<char>, ids: Seq<Seq<char>>)
    requires
        market_sound(s),
    ensures
        ({
            let t = cleared(s, market, npc, item, ids);
            &&& market_sound(t)
            &&& supply_gap(t) == supply_gap(s)
            &&& wealth(t) == wealth(s)
            &&& total_stock(t.warehouse) == total_stock(s.warehouse)
            &&& top_seq(t.orders) <= top_seq(s.orders)
            &&& forall|x: Seq<char>|
                #![trigger has_character(t.characters, x)]
                has_character(t.characters, x) == has_character(s.characters, x)
            &&& t.commands == s.commands
        }),
    decreases ids.len(),
{
    if ids.len() > 0 {
        lemma_cleared(s, market, npc, item, ids.drop_last());
        let before = cleared(s, market, npc, item, ids.drop_last());
        let k = find(before.orders, is_standing(market, npc, item));
        lemma_find(before.orders, is_standing(market, npc, item));
        if k < before.orders.len() {
            lemma_release(before, k, ids.last());
        }
    }
}

/// What releasing an order keeps, beyond the escrow that it returns.
proof fn lemma_release(s: DbView, k: int, id: Seq<char>)
    requires
        market_sound(s),
        0 <= k < s.orders.len(),
    ensures
        ({
            let t = order_released(s, k, id);
            &&& market_sound(t)
            &&& supply_gap(t) == supply_gap(s)
            &&& wealth(t) == wealth(s)
            &&& total_stock(t.warehouse) == total_stock(s.warehouse)
            &&& top_seq(t.orders) <= top_seq(s.orders)
            &&& forall|x: Seq<char>|
                #![trigger has_character(t.characters, x)]
                has_character(t.characters, x) == has_character(s.characters, x)
            &&& t.commands == s.commands
        }),
{
    let t = order_released(s, k, id);
    let o = s.orders[k].order;
    law_release_returns_the_escrow(s, k, id);
    assert(order_ok(s.characters, s.orders[k]));
    let key = stock_key(o.market_id, o.character_id, o.item_id);
    if o.side == "sell"@ {
        lemma_promise_nonneg(s, key);
        assert(promise_qty(key)(s.orders[k]) == o.qty_remaining);
        assert(promised(s.orders, key) <= stock(s.warehouse, key, "locked"@));
        let rows1 = draw_rows(s.warehouse, key, "locked"@, o.qty_remaining);
        lemma_draw_qty(s.warehouse, key, "locked"@, o.qty_remaining);
        lemma_drawn(s.warehouse, key, "locked"@, o.qty_remaining, key, "locked"@);
        lemma_slots_le_stock(rows1, key.market, key.character);
        lemma_credited(rows1, key, o.qty_remaining, i64::MAX as int, id, key, "locked"@);
    } else {
        lemma_paid(s.characters, o.character_id, o.qty_remaining * o.unit_price);
    }
    lemma_top_seq(s.orders);
    assert forall|i: int| 0 <= i < t.orders.len() implies (#[trigger] t.orders[i]).order.created_seq <= top_seq(
        s.orders,
    ) by {
        let j = if i < k {
            i
        } else {
            i + 1
        };
        assert(t.orders[i] == s.orders[j]);
    }
    lemma_top_seq_le(t.orders, top_seq(s.orders));
}

/// What placing an order keeps, beyond what the order itself moves.
proof fn lemma_placing(s: DbView, t: Terms, qty: int, cfg: MarketConfig, ids: PlaceIds)
    requires
        market_sound(s),
        fair(cfg),
        t.side == "buy"@ || t.side == "sell"@,
        t.side == "sell"@ ==> t.price >= 0,
        !is_tool(t.item),
        has_character(s.characters, t.character),
    ensures
        ({
            let p = placed(s, t, qty, cfg, Seq::empty(), ids).db;
            &&& market_sound(p)
            &&& supply_gap(p) == supply_gap(s)
            &&& wealth(p) <= wealth(s)
            &&& total_stock(p.warehouse) == total_stock(s.warehouse)
            &&& top_seq(p.orders) <= top_seq(s.orders) + 1
            &&& forall|x: Seq<char>|
                #![trigger has_character(p.characters, x)]
                has_character(p.characters, x) == has_character(s.characters, x)
        }),
{
    law_placing_conserves(s, t, qty, cfg, Seq::empty(), ids);
    lemma_placing_frame(s, t, qty, cfg, Seq::empty(), ids);
}

/// Refreshing a commodity creates exactly the gold that it mints, and keeps the market sound.
pub proof fn law_refreshing_is_ledgered(
    s: DbView,
    market: Seq<char>,
    npc: Seq<char>,
    item: Seq<char>,
    b: ProvisionerBounds,
    house: MarketConfig,
    now: int,
    ids: RefreshIds,
)
    requires
        market_sound(s),
        postable(item, b),
        fair(house),
        has_character(s.characters, npc),
        total_stock(s.warehouse) + b.seed_stock <= i64::MAX,
        wealth(s) + b.floor * b.bid_qty <= i64::MAX,
    ensures
        ({
            let t = refreshed(s, market, npc, item, b, house, now, ids);
            &&& market_sound(t)
            &&& supply_gap(t) == supply_gap(s)
            &&& wealth(t) <= wealth(s) + b.floor * b.bid_qty
            &&& total_stock(t.warehouse) <= total_stock(s.warehouse) + b.seed_stock
            &&& top_seq(t.orders) <= top_seq(s.orders) + 2
            &&& 0 <= refresh_minted(s, market, npc, item, b, now, ids) <= b.floor * b.bid_qty
            &&& forall|x: Seq<char>|
                #![trigger has_character(t.characters, x)]
                has_character(t.characters, x) == has_character(s.characters, x)
        }),
{
    lemma_readied(s, market, npc, item, b, now, ids);
    let r = readied(s, market, npc, item, b, now, ids);
    lemma_placing(r, bid_terms(market, npc, item, b, now), b.bid_qty as int, house, ids.bid);
    let bid = bid_posted(s, market, npc, item, b, house, now, ids);
    let goods = stock(bid.warehouse, stock_key(market, npc, item), "available"@);
    assert(has_character(r.characters, npc));
    assert(has_character(bid.characters, npc));
    lemma_placing(bid, ask_terms(market, npc, item, b, now), goods, house, ids.ask);
    let t = refreshed(s, market, npc, item, b, house, now, ids);
    assert forall|x: Seq<char>|
        #![trigger has_character(t.characters, x)]
        has_character(t.characters, x) == has_character(s.characters, x) by {
        assert(has_character(bid.characters, x) == has_character(r.characters, x));
    }
}

/// Readying the bid keeps the market sound; the gold that it mints is on the ledger.
pub proof fn lemma_readied(
    s: DbView,
    market: Seq<char>,
    npc: Seq<char>,
    item: Seq<char>,
    b: ProvisionerBounds,
    now: int,
    ids: RefreshIds,
)
    requires
        market_sound(s),
        postable(item, b),
        has_character(s.characters, npc),
        total_stock(s.warehouse) + b.seed_stock <= i64::MAX,
        wealth(s) + b.floor * b.bid_qty <= i64::MAX,
    ensures
        ({
            let t = readied(s, market, npc, item, b, now, ids);
            &&& market_sound(t)
            &&& supply_gap(t) == supply_gap(s)
            &&& wealth(t) <= wealth(s) + b.floor * b.bid_qty
            &&& total_stock(t.warehouse) <= total_stock(s.warehouse) + b.seed_stock
            &&& top_seq(t.orders) <= top_seq(s.orders)
            &&& 0 <= refresh_minted(s, market, npc, item, b, now, ids) <= b.floor * b.bid_qty
            &&& forall|x: Seq<char>|
                #![trigger has_character(t.characters, x)]
                has_character(t.characters, x) == has_character(s.characters, x)
        }),
{
    let s1 = seeded(s, market, npc, item, b, now, ids.seed);
    lemma_seeded(s, market, npc, item, b, now, ids.seed);
    lemma_cleared(s1, market, npc, item, ids.cleared);
    let off = cleared(s1, market, npc, item, ids.cleared);
    let short = shortfall(off, npc, b);
    let t = readied(s, market, npc, item, b, now, ids);
    assert(b.floor * b.bid_qty >= 0) by (nonlinear_arith)
        requires
            b.floor >= 0,
            b.bid_qty >= 0,
    ;
    assert(has_character(off.characters, npc));
    lemma_purse_bound(off.characters, npc);
    law_minting_is_ledgered(off, npc, short, "provisioner"@, now);
    lemma_paid(off.characters, npc, short);
    assert forall|i: int| 0 <= i < t.orders.len() implies order_ok(t.characters, #[trigger] t.orders[i]) by {
        assert(order_ok(off.characters, off.orders[i]));
    }
    assert forall|key: StockKey| #[trigger] promised(t.orders, key) <= stock(t.warehouse, key, "locked"@) by {
        assert(promised(off.orders, key) <= stock(off.warehouse, key, "locked"@));
    }
    assert(wealth(s1) == wealth(s));
    assert(supply_gap(s1) == supply_gap(s));
}

/// The state after commodities are refreshed, one after the other.
pub open spec fn refreshed_all(
    s: DbView,
    market: Seq<char>,
    npc: Seq<char>,
    goods: Seq<(String, ProvisionerBounds)>,
    house: MarketConfig,
    now: int,
    ids: Seq<RefreshIds>,
) -> DbView
    decreases goods.len(),
{
    if goods.len() == 0 {
        s
    } else {
        let n = goods.len() - 1;
        refreshed(
            refreshed_all(s, market, npc, goods.drop_last(), house, now, ids.take(n)),
            market,
            npc,
            goods[n].0@,
            goods[n].1,
            house,
            now,
            ids[n],
        )
    }
}

/// How much gold refreshing commodities mints.
pub open spec fn minted_all(
    s: DbView,
    market: Seq<char>,
    npc: Seq<char>,
    goods: Seq<(String, ProvisionerBounds)>,
    house: MarketConfig,
    now: int,
    ids: Seq<RefreshIds>,
) -> int
    decreases goods.len(),
{
    if goods.len() == 0 {
        0
    } else {
        let n = goods.len() - 1;
        minted_all(s, market, npc, goods.drop_last(), house, now, ids.take(n)) + refresh_minted(
            refreshed_all(s, market, npc, goods.drop_last(), house, now, ids.take(n)),
            market,
            npc,
            goods[n].0@,
            goods[n].1,
            now,
            ids[n],
        )
    }
}

/// The gold that the bids may need.
pub open spec fn bid_need(goods: Seq<(String, ProvisionerBounds)>) -> int {
    sum(goods, |g: (String, ProvisionerBounds)| g.1.floor * g.1.bid_qty)
}

/// The stock that may be granted at the start.
pub open spec fn seed_need(goods: Seq<(String, ProvisionerBounds)>) -> int {
    sum(goods, |g: (String, ProvisionerBounds)| g.1.seed_stock as int)
}

/// Whether commodities can be refreshed without losing count of gold, goods or orders.
pub open spec fn provisionable(s: DbView, goods: Seq<(String, ProvisionerBounds)>) -> bool {
    &&& forall|i: int| 0 <= i < goods.len() ==> postable((#[trigger] goods[i]).0@, goods[i].1)
    &&& wealth(s) + STARTING_GOLD + bid_need(goods) <= i64::MAX
    &&& total_stock(s.warehouse) + seed_need(goods) <= i64::MAX
    &&& forall|i: int|
        0 <= i < goods.len() ==> (total_stock(s.warehouse) + seed_need(goods)) * (#[trigger] goods[i]).1.ceiling
            <= i64::MAX
    &&& top_seq(s.orders) + 2 * goods.len() < i64::MAX
}

/// The provisioner's character, and the state in which it exists.
pub open spec fn provisioner_of(s: DbView) -> Option<Seq<char>> {
    let a = find(s.accounts, has_email(provisioner_email()));
    let c = find(s.characters, is_character_of(s.accounts[a].account.id));
    if a < s.accounts.len() && c < s.characters.len() {
        Some(s.characters[c].character.id)
    } else {
        None
    }
}

/// The state after the provisioner's character is there, opening its account if it is not.
pub open spec fn with_provisioner(s: DbView, t: DbView, npc: Seq<char>) -> bool {
    match provisioner_of(s) {
        Some(id) => t == s && npc == id,
        None => exists|account: Seq<char>, now: int|
            t == #[trigger] opened(
                s,
                opening(provisioner_email(), "!no-login!"@, "player"@, "Provisioner"@, 0, 0, 100),
                account,
                npc,
                now,
            ),
    }
}

impl Db {
    /// The system character that owns the provisioner's orders, created on first use.
    pub fn ensure_provisioner(&mut self) -> (npc: String)
        ensures
            with_provisioner(old(self)@, final(self)@, npc@),
            has_character(final(self)@.characters, npc@),
            market_sound(old(self)@) && wealth(old(self)@) + STARTING_GOLD <= i64::MAX ==> market_sound(final(self)@),
            supply_gap(final(self)@) == supply_gap(old(self)@),
            wealth(old(self)@) <= wealth(final(self)@) <= wealth(old(self)@) + STARTING_GOLD,
            final(self)@.warehouse == old(self)@.warehouse,
            final(self)@.orders == old(self)@.orders,
    {
        let ghost s = self@;
        let found = self.find_account_by_email("provisioner@system.invalid");
        if let Some(account) = found {
            let owned = self.character_for_account(account.id.as_str());
            if let Some(c) = owned {
                proof {
                    let k = find(s.characters, is_character_of(account.id@));
                    lemma_find(s.characters, is_character_of(account.id@));
                    lemma_find(s.characters, is_character(c.id@));
                    if find(s.characters, is_character(c.id@)) == s.characters.len() {
                        assert(!is_character(c.id@)(s.characters[k]));
                    }
                }
                return c.id;
            }
        }
        let made = self.create_account_with_character(
            "provisioner@system.invalid",
            "!no-login!",
            "Provisioner",
            0,
            0,
            100,
        );
        proof {
            let o = opening(provisioner_email(), "!no-login!"@, "player"@, "Provisioner"@, 0, 0, 100);
            let now = choose|now: int| self@ == #[trigger] opened(s, o, made.0@.id, made.1@.id, now);
            law_opening_is_ledgered(s, o, made.0@.id, made.1@.id, now);
        }
        made.1.id
    }

    /// Take every standing order of the provisioner for a commodity off the book.
    fn clear_standing(&mut self, market_id: &str, npc: &str, item_id: &str) -> (ids: Ghost<Seq<Seq<char>>>)
        requires
            market_sound(old(self)@),
        ensures
            final(self)@ == cleared(old(self)@, market_id@, npc@, item_id@, ids@),
            find(final(self)@.orders, is_standing(market_id@, npc@, item_id@)) == final(self)@.orders.len(),
            market_sound(final(self)@),
    {
        let ghost s = self@;
        let ghost mut ids = Seq::<Seq<char>>::empty();
        let mut k: usize = self.find_standing(market_id, npc, item_id);
        while k < self.orders.len()
            invariant
                market_sound(self@),
                self@ == cleared(s, market_id@, npc@, item_id@, ids),
                k == find(self@.orders, is_standing(market_id@, npc@, item_id@)),
                k <= self@.orders.len(),
            decreases self@.orders.len(),
        {
            let id = new_id();
            proof {
                assert(ids.push(id@).drop_last() =~= ids);
                ids = ids.push(id@);
            }
            self.release_order_in_tx(k, id);
            k = self.find_standing(market_id, npc, item_id);
        }
        Ghost(ids)
    }

    fn find_standing(&self, market_id: &str, npc: &str, item_id: &str) -> (k: usize)
        ensures
            k == find(self@.orders, is_standing(market_id@, npc@, item_id@)),
            k <= self@.orders.len(),
    {
        let f = |o: &OrderRecord| -> (b: bool)
            ensures
                b == is_standing(market_id@, npc@, item_id@)(o@),
            {
                same(o.order.market_id.as_str(), market_id) && same(o.order.character_id.as_str(), npc) && same(
                    o.order.item_id.as_str(),
                    item_id,
                )
            };
        self.orders.find(f, Ghost(is_standing(market_id@, npc@, item_id@)))
    }

    /// Refresh one commodity. Returns how much gold was minted.
    fn refresh_commodity(
        &mut self,
        market_id: &str,
        npc: &str,
        item_id: &str,
        b: &ProvisionerBounds,
        house: &MarketConfig,
        now: i64,
    ) -> (out: (i64, Ghost<RefreshIds>))
        requires
            market_sound(old(self)@),
            fair(*house),
            house.max_open_orders == i64::MAX,
            postable(item_id@, *b),
            has_character(old(self)@.characters, npc@),
            total_stock(old(self)@.warehouse) + b.seed_stock <= i64::MAX,
            (total_stock(old(self)@.warehouse) + b.seed_stock) * b.ceiling <= i64::MAX,
            wealth(old(self)@) + b.floor * b.bid_qty <= i64::MAX,
            top_seq(old(self)@.orders) + 2 < i64::MAX,
        ensures
            final(self)@ == refreshed(
                old(self)@,
                market_id@,
                npc@,
                item_id@,
                *b,
                *house,
                now as int,
                out.1@,
            ),
            refresh_complete(old(self)@, market_id@, npc@, item_id@, *b, *house, now as int, out.1@),
            out.0 == refresh_minted(old(self)@, market_id@, npc@, item_id@, *b, now as int, out.1@),
    {
        let ghost s = self@;
        let ghost key = stock_key(market_id@, npc@, item_id@);
        let seed_id = new_id();
        let ghost seed = seed_id@;
        proof {
            lemma_seeded(s, market_id@, npc@, item_id@, *b, now as int, seed);
        }
        if b.seed_stock > 0 {
            let command = seed_command_text(market_id, item_id);
            if self.claim_command_in_tx(command.as_str(), npc, now) {
                proof {
                    lemma_headroom(s.warehouse, key, b.seed_stock as int);
                }
                warehouse_credit_in_tx(
                    &mut self.warehouse,
                    market_id,
                    npc,
                    item_id,
                    b.seed_stock,
                    i64::MAX,
                    seed_id,
                );
            }
        }
        let ghost s1 = self@;
        assert(s1 == seeded(s, market_id@, npc@, item_id@, *b, now as int, seed));
        let gone = self.clear_standing(market_id, npc, item_id);
        let ghost off = self@;
        proof {
            lemma_cleared(s1, market_id@, npc@, item_id@, gone@);
            lemma_purse_bound(off.characters, npc@);
            assert(has_character(off.characters, npc@));
            assert(b.floor * b.bid_qty >= 0) by (nonlinear_arith)
                requires
                    b.floor >= 0,
                    b.bid_qty >= 0,
            ;
            lemma_escrow_nonneg(off);
        }
        let want: i64 = b.floor * b.bid_qty;
        let purse: i64 = self.character_gold(npc);
        let mut short: i64 = 0;
        if want > purse {
            short = want - purse;
            self.mint_gold_in_tx(npc, short, "provisioner", now);
        }
        let ghost ready = self@;
        let ghost ids0 = RefreshIds {
            seed,
            cleared: gone@,
            bid: PlaceIds { slot: seed, order: seed, fills: Seq::empty() },
            ask: PlaceIds { slot: seed, order: seed, fills: Seq::empty() },
        };
        proof {
            assert(ready == readied(s, market_id@, npc@, item_id@, *b, now as int, ids0));
            lemma_readied(s, market_id@, npc@, item_id@, *b, now as int, ids0);
            assert(has_character(ready.characters, npc@));
            let goods = stock(ready.warehouse, key, "available"@);
            assert(min(b.bid_qty as int, goods) * b.floor <= b.bid_qty * b.floor) by (nonlinear_arith)
                requires
                    min(b.bid_qty as int, goods) <= b.bid_qty,
                    b.floor >= 0,
            ;
            assert(b.bid_qty * b.floor == b.floor * b.bid_qty) by (nonlinear_arith);
        }
        let placed_bid = self.place_order(
            market_id,
            npc,
            "buy",
            item_id,
            b.floor,
            b.bid_qty,
            0,
            house,
            "",
            now,
        );
        let ghost bid = self@;
        let ghost empty = Seq::<char>::empty();
        let ghost bt = bid_terms(market_id@, npc@, item_id@, *b, now as int);
        let ghost bid_ids = choose|ids: PlaceIds|
            #[trigger] placed(ready, bt, b.bid_qty as int, *house, ""@, ids) == (Placed {
                db: bid,
                out: placed_bid->Ok_0@,
            }) && carried_through(ready, bt, b.bid_qty as int, *house, ""@, ids);
        let ghost ids1 = RefreshIds { bid: bid_ids, ..ids0 };
        proof {
            reveal_strlit("");
            assert(""@ =~= empty);
            assert(bid == bid_posted(s, market_id@, npc@, item_id@, *b, *house, now as int, ids1));
            lemma_placing(ready, bt, b.bid_qty as int, *house, bid_ids);
        }
        let goods: i64 = self.available_stock(market_id, npc, item_id);
        if goods > 0 {
            proof {
                let total = total_stock(s.warehouse) + b.seed_stock;
                lemma_stock_prefix(
                    bid.warehouse,
                    key,
                    "available"@,
                    bid.warehouse.len() as int,
                );
                assert(bid.warehouse.take(bid.warehouse.len() as int) =~= bid.warehouse);
                assert(goods * b.ceiling <= total * b.ceiling) by (nonlinear_arith)
                    requires
                        goods <= total,
                        b.ceiling >= 0,
                ;
                assert(has_character(bid.characters, npc@));
            }
            let placed_ask = self.place_order(
                market_id,
                npc,
                "sell",
                item_id,
                b.ceiling,
                goods,
                0,
                house,
                "",
                now,
            );
            let ghost at = ask_terms(market_id@, npc@, item_id@, *b, now as int);
            let ghost ask_ids = choose|ids: PlaceIds|
                #[trigger] placed(bid, at, goods as int, *house, ""@, ids) == (Placed {
                    db: self@,
                    out: placed_ask->Ok_0@,
                }) && carried_through(bid, at, goods as int, *house, ""@, ids);
            return (short, Ghost(RefreshIds { ask: ask_ids, ..ids1 }));
        }
        (short, Ghost(ids1))
    }

    /// Post the provisioner's standing orders at a market afresh: for each commodity the old ones come
    /// off the book, the bid goes up at the floor, with the gold that it is short of minted, and what
    /// stock there is goes up at the ceiling. Returns how much gold was minted.
    pub fn refresh_provisioner(&mut self, market_id: &str, cfg: &MarketConfig, now: i64) -> (minted: i64)
        requires
            market_sound(old(self)@),
            fair(*cfg),
            cfg.provisioner@.len() > 0 ==> provisionable(old(self)@, cfg.provisioner@),
        ensures
            market_sound(final(self)@),
            supply_gap(final(self)@) == supply_gap(old(self)@),
            cfg.provisioner@.len() == 0 ==> minted == 0 && final(self)@ == old(self)@,
            cfg.provisioner@.len() > 0 ==> exists|
                house: MarketConfig,
                begun: DbView,
                npc: Seq<char>,
                ids: Seq<RefreshIds>,
            |
                {
                    &&& is_house_tuning(house, *cfg)
                    &&& with_provisioner(old(self)@, begun, npc)
                    &&& ids.len() == cfg.provisioner@.len()
                    &&& final(self)@ == #[trigger] refreshed_all(
                        begun,
                        market_id@,
                        npc,
                        cfg.provisioner@,
                        house,
                        now as int,
                        ids,
                    )
                    &&& refreshes_complete(begun, market_id@, npc, cfg.provisioner@, house, now as int, ids)
                    &&& minted == minted_all(begun, market_id@, npc, cfg.provisioner@, house, now as int, ids)
                },
    {
        if cfg.provisioner.len() == 0 {
            return 0;
        }
        let ghost s = self@;
        let ghost all = cfg.provisioner@;
        proof {
            lemma_needs(all, all.len() as int);
            lemma_purse_bound(s.characters, Seq::empty());
            lemma_escrow_nonneg(s);
        }
        let npc = self.ensure_provisioner();
        let house = house_tuning(cfg);
        let ghost begun = self@;
        let ghost mut ids = Seq::<RefreshIds>::empty();
        let mut minted: i64 = 0;
        let mut i: usize = 0;
        proof {
            assert(all.take(0) =~= Seq::empty());
        }
        while i < cfg.provisioner.len()
            invariant
                i <= cfg.provisioner.len(),
                all == cfg.provisioner@,
                provisionable(s, all),
                wealth(s) >= 0,
                fair(house),
                house.max_open_orders == i64::MAX,
                market_sound(self@),
                supply_gap(self@) == supply_gap(s),
                has_character(self@.characters, npc@),
                ids.len() == i,
                self@ == refreshed_all(begun, market_id@, npc@, all.take(i as int), house, now as int, ids),
                refreshes_complete(begun, market_id@, npc@, all.take(i as int), house, now as int, ids),
                minted == minted_all(begun, market_id@, npc@, all.take(i as int), house, now as int, ids),
                0 <= minted <= bid_need(all.take(i as int)),
                wealth(self@) <= wealth(s) + STARTING_GOLD + bid_need(all.take(i as int)),
                total_stock(self@.warehouse) <= total_stock(s.warehouse) + seed_need(all.take(i as int)),
                top_seq(self@.orders) <= top_seq(s.orders) + 2 * i,
            decreases cfg.provisioner.len() - i,
        {
            let entry = &cfg.provisioner[i];
            let item = entry.0.as_str();
            let b = &entry.1;
            let ghost before = self@;
            let ghost part = all.take(i as int);
            let ghost next = all.take(i + 1);
            proof {
                assert(next.drop_last() =~= part);
                assert(next[i as int] == all[i as int]);
                assert(postable(all[i as int].0@, all[i as int].1));
                lemma_needs(all, i as int);
                lemma_needs(all, i + 1);
                let total = total_stock(s.warehouse) + seed_need(all);
                let here = total_stock(before.warehouse) + b.seed_stock;
                assert(here * b.ceiling <= total * b.ceiling) by (nonlinear_arith)
                    requires
                        here <= total,
                        b.ceiling >= 0,
                ;
                assert((total_stock(s.warehouse) + seed_need(all)) * all[i as int].1.ceiling <= i64::MAX);
            }
            let (more, made) = self.refresh_commodity(market_id, npc.as_str(), item, b, &house, now);
            proof {
                law_refreshing_is_ledgered(before, market_id@, npc@, item@, *b, house, now as int, made@);
                assert(has_character(self@.characters, npc@));
                assert(ids.push(made@).take(i as int) =~= ids);
                ids = ids.push(made@);
            }
            minted = minted + more;
            i = i + 1;
        }
        assert(all.take(i as int) =~= all);
        minted
    }

    /// Trades at a market since a moment that were made outside the provisioner's bounds, as the item,
    /// the price and the two bounds.
    pub fn trades_outside_bounds(&self, market_id: &str, cfg: &MarketConfig, since: i64) -> (out: Vec<
        (String, i64, i64, i64),
    >)
        ensures
            outliers_view(out@) == outliers(self@.trades, market_id@, cfg.provisioner@, since as int),
    {
        let ghost all = cfg.provisioner@;
        let mut out: Vec<(String, i64, i64, i64)> = Vec::new();
        let mut i: usize = 0;
        proof {
            assert(all.take(0) =~= Seq::empty());
            assert(outliers_view(out@) =~= Seq::empty());
        }
        while i < cfg.provisioner.len()
            invariant
                i <= cfg.provisioner.len(),
                all == cfg.provisioner@,
                outliers_view(out@) == outliers(self@.trades, market_id@, all.take(i as int), since as int),
            decreases cfg.provisioner.len() - i,
        {
            let entry = &cfg.provisioner[i];
            let b = &entry.1;
            let ghost part = all.take(i as int);
            let ghost next = all.take(i + 1);
            let ghost start = outliers_view(out@);
            let ghost item = entry.0@;
            proof {
                assert(next.drop_last() =~= part);
                assert(next.last() == all[i as int]);
                assert(self@.trades.take(0) =~= Seq::empty());
                assert(start + outliers_of(self@.trades.take(0), market_id@, item, *b, since as int) =~= start);
            }
            let mut k: usize = 0;
            while k < self.trades.len()
                invariant
                    k <= self@.trades.len(),
                    item == entry.0@,
                    b == entry.1,
                    outliers_view(out@) == start + outliers_of(
                        self@.trades.take(k as int),
                        market_id@,
                        item,
                        *b,
                        since as int,
                    ),
                decreases self@.trades.len() - k,
            {
                let t = self.trades.get(k);
                proof {
                    assert(self@.trades.take(k + 1).drop_last() =~= self@.trades.take(k as int));
                }
                let ghost was = out@;
                if same(t.market_id.as_str(), market_id) && same(t.item_id.as_str(), entry.0.as_str()) && t.created_at
                    >= since && (t.unit_price < b.floor || t.unit_price > b.ceiling) {
                    let name = entry.0.clone();
                    out.push((name, t.unit_price, b.floor, b.ceiling));
                    proof {
                        assert(outliers_view(out@) =~= outliers_view(was).push(
                            (item, t.unit_price as int, b.floor as int, b.ceiling as int),
                        ));
                        assert(outliers_view(out@) =~= start + outliers_of(
                            self@.trades.take(k + 1),
                            market_id@,
                            item,
                            *b,
                            since as int,
                        ));
                    }
                }
                k = k + 1;
            }
            assert(self@.trades.take(k as int) =~= self@.trades);
            i = i + 1;
        }
        assert(all.take(i as int) =~= all);
        out
    }
}

pub proof fn lemma_needs(goods: Seq<(String, ProvisionerBounds)>, i: int)
    requires
        0 <= i <= goods.len(),
        forall|j: int| 0 <= j < goods.len() ==> postable((#[trigger] goods[j]).0@, goods[j].1),
    ensures
        0 <= bid_need(goods.take(i)) <= bid_need(goods),
        0 <= seed_need(goods.take(i)) <= seed_need(goods),
{
    let f = |g: (String, ProvisionerBounds)| g.1.floor * g.1.bid_qty;
    let h = |g: (String, ProvisionerBounds)| g.1.seed_stock as int;
    assert forall|j: int| 0 <= j < goods.len() implies f(#[trigger] goods[j]) >= 0 by {
        assert(postable(goods[j].0@, goods[j].1));
        let b = goods[j].1;
        assert(b.floor * b.bid_qty >= 0) by (nonlinear_arith)
            requires
                b.floor >= 0,
                b.bid_qty >= 0,
        ;
    }
    assert forall|j: int| 0 <= j < goods.len() implies h(#[trigger] goods[j]) >= 0 by {
        assert(postable(goods[j].0@, goods[j].1));
    }
    lemma_sum_prefix(goods, f, i);
    lemma_sum_prefix(goods, h, i);
    assert forall|j: int| 0 <= j < goods.take(i).len() implies f(#[trigger] goods.take(i)[j]) >= 0 by {
        assert(goods.take(i)[j] == goods[j]);
    }
    assert forall|j: int| 0 <= j < goods.take(i).len() implies h(#[trigger] goods.take(i)[j]) >= 0 by {
        assert(goods.take(i)[j] == goods[j]);
    }
    lemma_sum_nonneg(goods.take(i), f);
    lemma_sum_nonneg(goods.take(i), h);
}

pub open spec fn outliers_view(v: Seq<(String, i64, i64, i64)>) -> Seq<(Seq<char>, int, int, int)> {
    Seq::new(v.len(), |i: int| (v[i].0@, v[i].1 as int, v[i].2 as int, v[i].3 as int))
}

/// Whether a trade of a commodity at a market was made since a moment, outside its bounds.
pub open spec fn is_outlier(
    t: MarketTradeView,
    market: Seq<char>,
    item: Seq<char>,
    b: ProvisionerBounds,
    since: int,
) -> bool {
    &&& t.market_id == market
    &&& t.item_id == item
    &&& t.created_at >= since
    &&& t.unit_price < b.floor || t.unit_price > b.ceiling
}

/// The trades of one commodity outside its bounds, in the order in which they were made.
pub open spec fn outliers_of(
    trades: Seq<MarketTradeView>,
    market: Seq<char>,
    item: Seq<char>,
    b: ProvisionerBounds,
    since: int,
) -> Seq<(Seq<char>, int, int, int)>
    decreases trades.len(),
{
    if trades.len() == 0 {
        Seq::empty()
    } else {
        let before = outliers_of(trades.drop_last(), market, item, b, since);
        if is_outlier(trades.last(), market, item, b, since) {
            before.push((item, trades.last().unit_price, b.floor as int, b.ceiling as int))
        } else {
            before
        }
    }
}

/// The trades outside the bounds of each commodity in turn.
pub open spec fn outliers(
    trades: Seq<MarketTradeView>,
    market: Seq<char>,
    goods: Seq<(String, ProvisionerBounds)>,
    since: int,
) -> Seq<(Seq<char>, int, int, int)>
    decreases goods.len(),
{
    if goods.len() == 0 {
        Seq::empty()
    } else {
        outliers(trades, market, goods.drop_last(), since) + outliers_of(
            trades,
            market,
            goods.last().0@,
            goods.last().1,
            since,
        )
    }
}

} // verus!
