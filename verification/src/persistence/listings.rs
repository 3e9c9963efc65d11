//! The listing board: unique items, each sold on its own.

use vstd::prelude::*;

use crate::market_config::{fair, law_fees_are_bounded, listing_fee_of, sale_tax_of, MarketConfig};
use crate::persistence::db::{Db, DbView};
use crate::persistence::ids::new_id;
use crate::persistence::inventory::lemma_sum_constant;
use crate::persistence::market::{
    lemma_escrow_nonneg, lemma_granted, market_sound, order_ok, orders_ok, promise_qty, promised, DbError,
};
use crate::persistence::purse::{
    burned, claimed, escrow, find_character, fresh_command, gold_of, grant_gold_in_tx, granted,
    has_character, law_burning_is_ledgered, lemma_paid, lemma_purse_bound, paid, pay_in_tx, solvent,
    supply_gap,
};
use crate::persistence::rows::{
    MarketListing, MarketListingView, MarketTrade, MarketTradeView, WarehouseItem, WarehouseItemView,
};
use crate::persistence::soundness::law_other_business_keeps_the_market_sound;
use crate::persistence::warehouse::{
    below, item_qty, item_stock, row_qty, slots_used, stock, stock_qty, stocked, total_stock, used_slots,
    StockKey,
};
use crate::table::{
    find, least, lemma_find, lemma_find_is, lemma_sum_nonneg, lemma_sum_update, limit_rows, limited,
    order_rows, ordered, rows_view, Row,
};
use crate::text::{before, opt_str, same, text_before};
use crate::world::tools::{is_tool, tool_max_durability};

verus! {

/// Why a listing was not bought.
#[derive(Debug, Clone, Copy, PartialEq, Eq)]
pub enum ListingReject {
    /// Bought, cancelled or expired in the meantime.
    Gone,
    /// The ask is not what the buyer was shown.
    PriceChanged,
    /// Not enough gold for the ask.
    NoFunds,
    /// No room in the buyer's warehouse to receive it.
    NoRoom,
    /// The buyer's own listing.
    OwnListing,
}

impl ListingReject {
    pub open spec fn spec_code(self) -> Seq<char> {
        match self {
            ListingReject::Gone => "listing_gone"@,
            ListingReject::PriceChanged => "price_changed"@,
            ListingReject::NoFunds => "no_funds"@,
            ListingReject::NoRoom => "warehouse_full"@,
            ListingReject::OwnListing => "own_listing"@,
        }
    }

    pub open spec fn spec_detail(self) -> Seq<char> {
        match self {
            ListingReject::Gone => "someone else took it first"@,
            ListingReject::PriceChanged => "the asking price changed — take another look"@,
            ListingReject::NoFunds => "not enough gold"@,
            ListingReject::NoRoom => "no room in your warehouse here to receive it"@,
            ListingReject::OwnListing => "that's your own listing"@,
        }
    }

    /// A stable code.
    pub fn code(self) -> (text: &'static str)
        ensures
            text@ == self.spec_code(),
    {
        match self {
            ListingReject::Gone => "listing_gone",
            ListingReject::PriceChanged => "price_changed",
            ListingReject::NoFunds => "no_funds",
            ListingReject::NoRoom => "warehouse_full",
            ListingReject::OwnListing => "own_listing",
        }
    }

    /// What to tell the player.
    pub fn detail(self) -> (text: &'static str)
        ensures
            text@ == self.spec_detail(),
    {
        match self {
            ListingReject::Gone => "someone else took it first",
            ListingReject::PriceChanged => "the asking price changed — take another look",
            ListingReject::NoFunds => "not enough gold",
            ListingReject::NoRoom => "no room in your warehouse here to receive it",
            ListingReject::OwnListing => "that's your own listing",
        }
    }
}

/// Whether a slot holds this instance, free to be listed by this seller at this market.
pub open spec fn is_listable(id: Seq<char>, market: Seq<char>, seller: Seq<char>) -> spec_fn(WarehouseItemView) -> bool {
    |r: WarehouseItemView|
        {
            &&& r.id == id
            &&& r.market_id == market
            &&& r.character_id == seller
            &&& r.state == "available"@
        }
}

/// Whether a slot holds the instance that a listing has in escrow: it goes by its id.
pub open spec fn is_escrow_of(l: MarketListingView) -> spec_fn(WarehouseItemView) -> bool {
    |r: WarehouseItemView| r.id == l.warehouse_item_id
}

pub open spec fn is_listing(id: Seq<char>) -> spec_fn(MarketListingView) -> bool {
    |l: MarketListingView| l.id == id
}

pub open spec fn is_own_listing(seller: Seq<char>, id: Seq<char>) -> spec_fn(MarketListingView) -> bool {
    |l: MarketListingView| l.id == id && l.seller_id == seller
}

pub open spec fn is_listing_due(now: int) -> spec_fn(MarketListingView) -> bool {
    |l: MarketListingView| 0 < l.expires_at <= now
}

/// The listing that an accepted offer makes.
pub open spec fn new_listing(
    row: WarehouseItemView,
    market: Seq<char>,
    seller: Seq<char>,
    ask: int,
    expires_at: int,
    now: int,
    id: Seq<char>,
) -> MarketListingView {
    MarketListingView {
        id,
        market_id: market,
        seller_id: seller,
        warehouse_item_id: row.id,
        item_id: row.item_id,
        durability: row.durability,
        ask_price: ask,
        created_at: now,
        expires_at,
    }
}

/// Whether an offer whose command may run is accepted: the instance is the seller's and available,
/// it is a unique item, and the purse covers the fee.
pub open spec fn offer_accepted(
    s: DbView,
    market: Seq<char>,
    seller: Seq<char>,
    item: Seq<char>,
    ask: int,
    cfg: MarketConfig,
) -> bool {
    let k = find(s.warehouse, is_listable(item, market, seller));
    &&& k < s.warehouse.len()
    &&& is_tool(s.warehouse[k].item_id)
    &&& listing_fee_of(cfg, ask) <= gold_of(s.characters, seller)
}

/// Whether the seller of an offer is looked up at all.
pub open spec fn offer_reaches_purse(s: DbView, market: Seq<char>, seller: Seq<char>, item: Seq<char>) -> bool {
    let k = find(s.warehouse, is_listable(item, market, seller));
    k < s.warehouse.len() && is_tool(s.warehouse[k].item_id)
}

/// The state after an accepted offer: the instance is locked, the fee burned, the listing posted.
pub open spec fn offered(
    s: DbView,
    market: Seq<char>,
    seller: Seq<char>,
    item: Seq<char>,
    ask: int,
    expires_at: int,
    cfg: MarketConfig,
    now: int,
    id: Seq<char>,
) -> DbView {
    let k = find(s.warehouse, is_listable(item, market, seller));
    let row = s.warehouse[k];
    let locked = DbView {
        warehouse: s.warehouse.update(k, WarehouseItemView { state: "locked"@, ..row }),
        listings: s.listings.push(new_listing(row, market, seller, ask, expires_at, now, id)),
        ..s
    };
    burned(locked, market, seller, "listing"@, listing_fee_of(cfg, ask), None, now)
}

/// The warehouse after the instance that a listing has in escrow goes to someone, available.
pub open spec fn handed_over(rows: Seq<WarehouseItemView>, l: MarketListingView, to: Seq<char>) -> Seq<
    WarehouseItemView,
> {
    let k = find(rows, is_escrow_of(l));
    if k < rows.len() {
        rows.update(k, WarehouseItemView { character_id: to, state: "available"@, ..rows[k] })
    } else {
        rows
    }
}

/// The warehouse after the instance that a listing has in escrow is available again to whose it is.
pub open spec fn set_free(rows: Seq<WarehouseItemView>, l: MarketListingView) -> Seq<WarehouseItemView> {
    let k = find(rows, is_escrow_of(l));
    if k < rows.len() {
        rows.update(k, WarehouseItemView { state: "available"@, ..rows[k] })
    } else {
        rows
    }
}

/// Why a purchase whose command may run is refused, if it is.
pub open spec fn purchase_refused(
    s: DbView,
    buyer: Seq<char>,
    listing: Seq<char>,
    expected: int,
    cfg: MarketConfig,
) -> Option<ListingReject> {
    let k = find(s.listings, is_listing(listing));
    let l = s.listings[k];
    if k >= s.listings.len() {
        Some(ListingReject::Gone)
    } else if l.seller_id == buyer {
        Some(ListingReject::OwnListing)
    } else if l.ask_price != expected {
        Some(ListingReject::PriceChanged)
    } else if gold_of(s.characters, buyer) < l.ask_price {
        Some(ListingReject::NoFunds)
    } else if used_slots(s.warehouse, l.market_id, buyer) >= cfg.warehouse_slots {
        Some(ListingReject::NoRoom)
    } else {
        None
    }
}

/// Whether the purse of a buyer is looked up at all.
pub open spec fn purchase_reaches_purse(s: DbView, buyer: Seq<char>, listing: Seq<char>, expected: int) -> bool {
    let k = find(s.listings, is_listing(listing));
    k < s.listings.len() && s.listings[k].seller_id != buyer && s.listings[k].ask_price == expected
}

/// The state after a listing is bought: it leaves the board, the very instance goes to the buyer, the
/// buyer pays the ask, and the seller gets it less the tax, which is burned.
pub open spec fn bought(
    s: DbView,
    buyer: Seq<char>,
    k: int,
    cfg: MarketConfig,
    now: int,
    trade: Seq<char>,
) -> DbView {
    let l = s.listings[k];
    let tax = sale_tax_of(cfg, l.ask_price);
    burned(
        DbView {
            listings: s.listings.remove(k),
            warehouse: handed_over(s.warehouse, l, buyer),
            characters: granted(paid(s.characters, buyer, -l.ask_price), l.seller_id, l.ask_price),
            trades: s.trades.push(
                MarketTradeView {
                    id: trade,
                    market_id: l.market_id,
                    item_id: l.item_id,
                    unit_price: l.ask_price,
                    qty: 1,
                    seller_id: l.seller_id,
                    buyer_id: buyer,
                    sale_tax_gold: tax,
                    listing_fee_gold: 0,
                    created_at: now,
                },
            ),
            ..s
        },
        l.market_id,
        l.seller_id,
        "sale_tax"@,
        tax,
        Some(trade),
        now,
    )
}

/// The state after listing `k` is withdrawn: the instance is the seller's again, available.
pub open spec fn delisted(s: DbView, k: int) -> DbView {
    let l = s.listings[k];
    DbView {
        listings: s.listings.remove(k),
        warehouse: set_free(s.warehouse, l),
        ..s
    }
}

/// Listings expire in the order of their ids.
pub open spec fn delisting_order() -> spec_fn(MarketListingView, MarketListingView) -> bool {
    |a: MarketListingView, b: MarketListingView| text_before(a.id, b.id)
}

/// The state after every listing that has expired is withdrawn.
pub open spec fn listings_expired(s: DbView, now: int) -> DbView
    decreases s.listings.len(),
{
    let k = least(s.listings, is_listing_due(now), delisting_order());
    if k < 0 || k >= s.listings.len() {
        s
    } else {
        listings_expired(delisted(s, k), now)
    }
}

/// Whether what is kept under an id is a tool.
pub open spec fn tool_under(rows: Seq<WarehouseItemView>, id: Seq<char>) -> bool {
    forall|k: int| 0 <= k < rows.len() && (#[trigger] rows[k]).id == id ==> is_tool(rows[k].item_id)
}

/// Whether a listing is of a tool, by someone, at a price, and has a tool in escrow.
pub open spec fn listing_ok(s: DbView, l: MarketListingView) -> bool {
    &&& l.ask_price > 0
    &&& has_character(s.characters, l.seller_id)
    &&& is_tool(l.item_id)
    &&& tool_under(s.warehouse, l.warehouse_item_id)
}

/// Every listing is in order.
pub open spec fn board_sound(s: DbView) -> bool {
    forall|i: int| 0 <= i < s.listings.len() ==> listing_ok(s, #[trigger] s.listings[i])
}

/// Whether no other slot has the id of this one.
pub open spec fn own_id(rows: Seq<WarehouseItemView>, k: int) -> bool {
    forall|j: int| 0 <= j < rows.len() && j != k ==> (#[trigger] rows[j]).id != rows[k].id
}

/// Handing an instance over, or setting it free, keeps what is under each id.
proof fn lemma_under_kept(rows: Seq<WarehouseItemView>, after: Seq<WarehouseItemView>, id: Seq<char>)
    requires
        after.len() == rows.len(),
        forall|k: int|
            0 <= k < rows.len() ==> (#[trigger] after[k]).id == rows[k].id && after[k].item_id == rows[k].item_id,
        tool_under(rows, id),
    ensures
        tool_under(after, id),
{
    assert forall|k: int| 0 <= k < after.len() && (#[trigger] after[k]).id == id implies is_tool(after[k].item_id) by {
        assert(rows[k].id == id);
    }
}

/// Handing over an instance touches no stack, so no promise: the warehouse stays in order and
/// nothing is made or lost.
pub proof fn lemma_handed_over(rows: Seq<WarehouseItemView>, l: MarketListingView, to: Seq<char>, key: StockKey)
    requires
        stocked(rows),
        tool_under(rows, l.warehouse_item_id),
    ensures
        stocked(handed_over(rows, l, to)),
        total_stock(handed_over(rows, l, to)) == total_stock(rows),
        item_stock(handed_over(rows, l, to), key.item) == item_stock(rows, key.item),
        !is_tool(key.item) ==> stock(handed_over(rows, l, to), key, "locked"@) == stock(rows, key, "locked"@),
        stocked(set_free(rows, l)),
        total_stock(set_free(rows, l)) == total_stock(rows),
        !is_tool(key.item) ==> stock(set_free(rows, l), key, "locked"@) == stock(rows, key, "locked"@),
        find(rows, is_escrow_of(l)) < rows.len() ==> ({
            let k = find(rows, is_escrow_of(l));
            let row = handed_over(rows, l, to)[k];
            row.id == l.warehouse_item_id && row.durability == rows[k].durability && row.character_id == to
                && row.state == "available"@
        }),
{
    let k = find(rows, is_escrow_of(l));
    lemma_find(rows, is_escrow_of(l));
    if k < rows.len() {
        let row = WarehouseItemView { character_id: to, state: "available"@, ..rows[k] };
        lemma_sum_update(rows, row_qty(), k, row);
        lemma_sum_update(rows, item_qty(key.item), k, row);
        lemma_sum_update(rows, stock_qty(key, "locked"@), k, row);
        let freed = WarehouseItemView { state: "available"@, ..rows[k] };
        lemma_sum_update(rows, row_qty(), k, freed);
        lemma_sum_update(rows, stock_qty(key, "locked"@), k, freed);
        assert(is_tool(rows[k].item_id));
    }
}

/// Whether every promise stays covered when only tools changed hands or state.
proof fn lemma_promises_kept(s: DbView, t: DbView)
    requires
        market_sound(s),
        t.orders == s.orders,
        forall|key: StockKey|
            !is_tool(key.item) ==> #[trigger] stock(t.warehouse, key, "locked"@) == stock(s.warehouse, key, "locked"@),
        stocked(t.warehouse),
    ensures
        forall|key: StockKey| #[trigger] promised(t.orders, key) <= stock(t.warehouse, key, "locked"@),
{
    assert forall|key: StockKey| #[trigger] promised(t.orders, key) <= stock(t.warehouse, key, "locked"@) by {
        if is_tool(key.item) {
            assert forall|i: int| 0 <= i < s.orders.len() implies promise_qty(key)(#[trigger] s.orders[i]) == 0 by {
                assert(order_ok(s.characters, s.orders[i]));
            }
            lemma_sum_constant(s.orders, promise_qty(key), 0);
            assert(s.orders.len() * 0 == 0) by (nonlinear_arith);
            lemma_sum_nonneg(t.warehouse, stock_qty(key, "locked"@));
        } else {
            assert(promised(s.orders, key) <= stock(s.warehouse, key, "locked"@));
            assert(stock(t.warehouse, key, "locked"@) == stock(s.warehouse, key, "locked"@));
        }
    }
}

/// An accepted offer costs its fee and nothing else, and keeps the market sound.
pub proof fn law_offering_costs_the_fee(
    s: DbView,
    market: Seq<char>,
    seller: Seq<char>,
    item: Seq<char>,
    ask: int,
    expires_at: int,
    cfg: MarketConfig,
    now: int,
    id: Seq<char>,
)
    requires
        market_sound(s),
        fair(cfg),
        ask > 0,
        has_character(s.characters, seller),
        offer_accepted(s, market, seller, item, ask, cfg),
    ensures
        ({
            let t = offered(s, market, seller, item, ask, expires_at, cfg, now, id);
            &&& market_sound(t)
            &&& board_sound(s) && own_id(s.warehouse, find(s.warehouse, is_listable(item, market, seller)))
                ==> board_sound(t)
            &&& supply_gap(t) == supply_gap(s)
            &&& gold_of(t.characters, seller) == gold_of(s.characters, seller) - listing_fee_of(cfg, ask)
            &&& total_stock(t.warehouse) == total_stock(s.warehouse)
        }),
{
    let p = is_listable(item, market, seller);
    let k = find(s.warehouse, p);
    let row = s.warehouse[k];
    let fee = listing_fee_of(cfg, ask);
    let t = offered(s, market, seller, item, ask, expires_at, cfg, now, id);
    let locked = WarehouseItemView { state: "locked"@, ..row };
    lemma_find(s.warehouse, p);
    law_fees_are_bounded(cfg, ask);
    let mid = DbView {
        warehouse: s.warehouse.update(k, locked),
        listings: s.listings.push(new_listing(row, market, seller, ask, expires_at, now, id)),
        ..s
    };
    law_burning_is_ledgered(mid, market, seller, "listing"@, fee, None, now);
    lemma_paid(s.characters, seller, -fee);
    lemma_sum_update(s.warehouse, row_qty(), k, locked);
    assert forall|key: StockKey| !is_tool(key.item) implies #[trigger] stock(t.warehouse, key, "locked"@) == stock(
        s.warehouse,
        key,
        "locked"@,
    ) by {
        lemma_sum_update(s.warehouse, stock_qty(key, "locked"@), k, locked);
    }
    lemma_promises_kept(s, t);
    assert forall|i: int| 0 <= i < t.orders.len() implies order_ok(t.characters, #[trigger] t.orders[i]) by {
        assert(order_ok(s.characters, s.orders[i]));
    }
    if board_sound(s) && own_id(s.warehouse, k) {
        assert forall|i: int| 0 <= i < t.listings.len() implies listing_ok(t, #[trigger] t.listings[i]) by {
            if i < s.listings.len() {
                assert(t.listings[i] == s.listings[i]);
                assert(listing_ok(s, s.listings[i]));
                lemma_under_kept(s.warehouse, t.warehouse, s.listings[i].warehouse_item_id);
            } else {
                assert forall|j: int| 0 <= j < t.warehouse.len() && (#[trigger] t.warehouse[j]).id == row.id implies is_tool(
                    t.warehouse[j].item_id,
                ) by {
                    if j != k {
                        assert(s.warehouse[j].id != s.warehouse[k].id);
                    }
                }
            }
        }
    }
}

/// A purchase moves the ask from the buyer to the seller, burns the tax out of it, makes and loses no
/// gold beyond that, and gives the buyer the very instance that was advertised.
pub proof fn law_a_purchase_moves_the_ask(
    s: DbView,
    buyer: Seq<char>,
    k: int,
    cfg: MarketConfig,
    now: int,
    trade: Seq<char>,
)
    requires
        market_sound(s),
        board_sound(s),
        fair(cfg),
        0 <= k < s.listings.len(),
        s.listings[k].seller_id != buyer,
        has_character(s.characters, buyer),
        gold_of(s.characters, buyer) >= s.listings[k].ask_price,
    ensures
        ({
            let l = s.listings[k];
            let t = bought(s, buyer, k, cfg, now, trade);
            let tax = sale_tax_of(cfg, l.ask_price);
            &&& market_sound(t)
            &&& board_sound(t)
            &&& supply_gap(t) == supply_gap(s)
            &&& gold_of(t.characters, buyer) == gold_of(s.characters, buyer) - l.ask_price
            &&& gold_of(t.characters, l.seller_id) == gold_of(s.characters, l.seller_id) + l.ask_price - tax
            &&& total_stock(t.warehouse) == total_stock(s.warehouse)
            &&& find(s.warehouse, is_escrow_of(l)) < s.warehouse.len() ==> {
                let at = find(s.warehouse, is_escrow_of(l));
                &&& t.warehouse[at].id == l.warehouse_item_id
                &&& t.warehouse[at].durability == s.warehouse[at].durability
                &&& t.warehouse[at].character_id == buyer
            }
        }),
{
    let l = s.listings[k];
    let t = bought(s, buyer, k, cfg, now, trade);
    let tax = sale_tax_of(cfg, l.ask_price);
    assert(listing_ok(s, l));
    lemma_find(s.warehouse, is_escrow_of(l));
    law_fees_are_bounded(cfg, l.ask_price);
    lemma_paid(s.characters, buyer, -l.ask_price);
    let c1 = paid(s.characters, buyer, -l.ask_price);
    lemma_granted(c1, l.seller_id, l.ask_price);
    lemma_paid(c1, l.seller_id, l.ask_price);
    let c2 = granted(c1, l.seller_id, l.ask_price);
    let mid = DbView {
        listings: s.listings.remove(k),
        warehouse: handed_over(s.warehouse, l, buyer),
        characters: c2,
        trades: t.trades,
        ..s
    };
    law_burning_is_ledgered(mid, l.market_id, l.seller_id, "sale_tax"@, tax, Some(trade), now);
    lemma_paid(c2, l.seller_id, -tax);
    lemma_purse_bound(c1, l.seller_id);
    assert(gold_of(c2, buyer) == gold_of(c1, buyer));
    lemma_handed_over(
        s.warehouse,
        l,
        buyer,
        StockKey { market: l.market_id, character: buyer, item: l.item_id },
    );
    assert forall|key: StockKey| !is_tool(key.item) implies #[trigger] stock(t.warehouse, key, "locked"@) == stock(
        s.warehouse,
        key,
        "locked"@,
    ) by {
        lemma_handed_over(s.warehouse, l, buyer, key);
    }
    lemma_promises_kept(s, t);
    assert forall|i: int| 0 <= i < t.orders.len() implies order_ok(t.characters, #[trigger] t.orders[i]) by {
        assert(order_ok(s.characters, s.orders[i]));
    }
    assert forall|i: int| 0 <= i < t.listings.len() implies listing_ok(t, #[trigger] t.listings[i]) by {
        let j = if i < k {
            i
        } else {
            i + 1
        };
        assert(t.listings[i] == s.listings[j]);
        assert(listing_ok(s, s.listings[j]));
        lemma_under_kept(s.warehouse, t.warehouse, s.listings[j].warehouse_item_id);
    }
}

/// Taking a listing off the board gives the seller the instance back intact, moves no gold, and
/// keeps everything sound.
pub proof fn law_delisting_returns_the_instance(s: DbView, k: int)
    requires
        market_sound(s),
        board_sound(s),
        0 <= k < s.listings.len(),
    ensures
        ({
            let l = s.listings[k];
            let t = delisted(s, k);
            &&& market_sound(t)
            &&& board_sound(t)
            &&& t.characters == s.characters && t.ledger == s.ledger && t.orders == s.orders
            &&& total_stock(t.warehouse) == total_stock(s.warehouse)
            &&& find(s.warehouse, is_escrow_of(l)) < s.warehouse.len() ==> {
                let at = find(s.warehouse, is_escrow_of(l));
                t.warehouse[at] == (WarehouseItemView { state: "available"@, ..s.warehouse[at] })
            }
        }),
{
    let l = s.listings[k];
    let t = delisted(s, k);
    assert(listing_ok(s, l));
    lemma_find(s.warehouse, is_escrow_of(l));
    lemma_handed_over(
        s.warehouse,
        l,
        l.seller_id,
        StockKey { market: l.market_id, character: l.seller_id, item: l.item_id },
    );
    assert forall|key: StockKey| !is_tool(key.item) implies #[trigger] stock(t.warehouse, key, "locked"@) == stock(
        s.warehouse,
        key,
        "locked"@,
    ) by {
        lemma_handed_over(s.warehouse, l, l.seller_id, key);
    }
    lemma_promises_kept(s, t);
    assert forall|i: int| 0 <= i < t.orders.len() implies order_ok(t.characters, #[trigger] t.orders[i]) by {
        assert(order_ok(s.characters, s.orders[i]));
    }
    assert forall|i: int| 0 <= i < t.listings.len() implies listing_ok(t, #[trigger] t.listings[i]) by {
        let j = if i < k {
            i
        } else {
            i + 1
        };
        assert(t.listings[i] == s.listings[j]);
        assert(listing_ok(s, s.listings[j]));
        lemma_under_kept(s.warehouse, t.warehouse, s.listings[j].warehouse_item_id);
    }
}

/// Once bought or withdrawn, a listing whose id is its own is gone: the next buyer is told so.
pub proof fn law_a_listing_is_sold_once(
    s: DbView,
    buyer: Seq<char>,
    k: int,
    cfg: MarketConfig,
    now: int,
    trade: Seq<char>,
    next: Seq<char>,
    expected: int,
)
    requires
        0 <= k < s.listings.len(),
        forall|i: int| 0 <= i < s.listings.len() && i != k ==> (#[trigger] s.listings[i]).id != s.listings[k].id,
    ensures
        purchase_refused(bought(s, buyer, k, cfg, now, trade), next, s.listings[k].id, expected, cfg) == Some(
            ListingReject::Gone,
        ),
        purchase_refused(delisted(s, k), next, s.listings[k].id, expected, cfg) == Some(ListingReject::Gone),
{
    let id = s.listings[k].id;
    let left = s.listings.remove(k);
    assert forall|i: int| 0 <= i < left.len() implies !is_listing(id)(#[trigger] left[i]) by {
        let j = if i < k {
            i
        } else {
            i + 1
        };
        assert(left[i] == s.listings[j]);
    }
    lemma_find_is(left, is_listing(id), left.len() as int);
}

/// The board is read cheapest first, then oldest first.
pub open spec fn listed_before() -> spec_fn(MarketListingView, MarketListingView) -> bool {
    |a: MarketListingView, b: MarketListingView|
        if a.ask_price != b.ask_price {
            a.ask_price < b.ask_price
        } else {
            a.created_at < b.created_at
        }
}

/// Whether a listing is at this market and passes every filter that is set. A listing without a
/// durability counts as worn out.
pub open spec fn passes(
    market: Seq<char>,
    item: Option<Seq<char>>,
    min_durability: Option<i64>,
    max_price: Option<i64>,
) -> spec_fn(MarketListingView) -> bool {
    |l: MarketListingView|
        {
            &&& l.market_id == market
            &&& item matches Some(i) ==> l.item_id == i
            &&& min_durability matches Some(d) ==> (match l.durability {
                Some(n) => n,
                None => 0,
            }) >= d
            &&& max_price matches Some(p) ==> l.ask_price <= p
        }
}

fn listing_passes(
    l: &MarketListing,
    market_id: &str,
    item_id: Option<&str>,
    min_durability: Option<i64>,
    max_price: Option<i64>,
) -> (b: bool)
    ensures
        b == passes(market_id@, opt_str(item_id), min_durability, max_price)(l@),
{
    let item_ok: bool = match item_id {
        Some(i) => same(l.item_id.as_str(), i),
        None => true,
    };
    let wear: i64 = match l.durability {
        Some(n) => n,
        None => 0,
    };
    let wear_ok: bool = match min_durability {
        Some(d) => wear >= d,
        None => true,
    };
    let price_ok: bool = match max_price {
        Some(p) => l.ask_price <= p,
        None => true,
    };
    same(l.market_id.as_str(), market_id) && item_ok && wear_ok && price_ok
}

impl Db {
    /// Offer a unique item for sale at a fixed ask. The instance must be available in the seller's
    /// warehouse at this market; listing it locks it and burns the listing fee. `None` when the ask
    /// is not positive, the command was seen before, the instance is not the seller's or not
    /// available, it is not a unique item, or the purse does not cover the fee.
    pub fn place_listing(
        &mut self,
        market_id: &str,
        seller_id: &str,
        warehouse_item_id: &str,
        ask_price: i64,
        expires_at: i64,
        cfg: &MarketConfig,
        command_id: &str,
        now: i64,
    ) -> (out: Result<Option<MarketListing>, DbError>)
        requires
            fair(*cfg),
            solvent(old(self)@.characters),
        ensures
            market_sound(old(self)@) ==> market_sound(final(self)@),
            board_sound(old(self)@) && own_id(
                old(self)@.warehouse,
                find(old(self)@.warehouse, is_listable(warehouse_item_id@, market_id@, seller_id@)),
            ) && market_sound(old(self)@) ==> board_sound(final(self)@),
            ({
                let s = old(self)@;
                let begun = DbView { commands: claimed(s.commands, command_id@, seller_id@, now as int), ..s };
                let runs = ask_price > 0 && fresh_command(s.commands, command_id@);
                let taken = offer_accepted(s, market_id@, seller_id@, warehouse_item_id@, ask_price as int, *cfg);
                let at = find(s.warehouse, is_listable(warehouse_item_id@, market_id@, seller_id@));
                &&& out is Err == (runs && offer_reaches_purse(s, market_id@, seller_id@, warehouse_item_id@)
                    && !has_character(s.characters, seller_id@))
                &&& out matches Err(e) ==> e is RowNotFound && final(self)@ == s
                &&& out matches Ok(None) ==> !(runs && taken) && final(self)@ == if runs {
                    begun
                } else {
                    s
                }
                &&& out matches Ok(Some(l)) ==> runs && taken && l@ == new_listing(
                    s.warehouse[at],
                    market_id@,
                    seller_id@,
                    ask_price as int,
                    expires_at as int,
                    now as int,
                    l@.id,
                ) && final(self)@ == offered(
                    begun,
                    market_id@,
                    seller_id@,
                    warehouse_item_id@,
                    ask_price as int,
                    expires_at as int,
                    *cfg,
                    now as int,
                    l@.id,
                )
            }),
    {
        let ghost s = self@;
        let ghost begun = DbView { commands: claimed(s.commands, command_id@, seller_id@, now as int), ..s };
        proof {
            if market_sound(s) {
                law_other_business_keeps_the_market_sound(s, begun);
            }
        }
        if ask_price <= 0 {
            return Ok(None);
        }
        if !self.is_fresh_command(command_id) {
            return Ok(None);
        }
        let f = |r: &WarehouseItem| -> (b: bool)
            ensures
                b == is_listable(warehouse_item_id@, market_id@, seller_id@)(r@),
            {
                same(r.id.as_str(), warehouse_item_id) && same(r.market_id.as_str(), market_id) && same(
                    r.character_id.as_str(),
                    seller_id,
                ) && same(r.state.as_str(), "available")
            };
        let k: usize = self.warehouse.find(f, Ghost(is_listable(warehouse_item_id@, market_id@, seller_id@)));
        if k >= self.warehouse.len() {
            self.claim_command_in_tx(command_id, seller_id, now);
            return Ok(None);
        }
        let row = self.warehouse.get(k).copy();
        if tool_max_durability(row.item_id.as_str()).is_none() {
            self.claim_command_in_tx(command_id, seller_id, now);
            return Ok(None);
        }
        let at: usize = find_character(&self.characters, seller_id);
        if at >= self.characters.len() {
            return Err(DbError::RowNotFound);
        }
        let purse: i64 = self.characters.get(at).gold;
        let fee: i64 = cfg.listing_fee(ask_price);
        self.claim_command_in_tx(command_id, seller_id, now);
        if fee > purse {
            return Ok(None);
        }
        let slot = self.warehouse.get_mut(k);
        slot.state = "locked".to_string();
        let listing = MarketListing {
            id: new_id(),
            market_id: market_id.to_string(),
            seller_id: seller_id.to_string(),
            warehouse_item_id: row.id.clone(),
            item_id: row.item_id.clone(),
            durability: row.durability,
            ask_price,
            created_at: now,
            expires_at,
        };
        self.listings.push(listing.copy());
        proof {
            lemma_purse_bound(self@.characters, seller_id@);
            if market_sound(s) {
                law_offering_costs_the_fee(
                    begun,
                    market_id@,
                    seller_id@,
                    warehouse_item_id@,
                    ask_price as int,
                    expires_at as int,
                    *cfg,
                    now as int,
                    listing@.id,
                );
            }
        }
        self.burn_fee_in_tx(market_id, seller_id, "listing", fee, None, now);
        Ok(Some(listing))
    }

    /// Buy a listing outright, first come first served. `expected_price` must match the ask. The
    /// instance goes to the buyer as it is. Returns the listing and the tax on it, or why not.
    pub fn buy_listing(
        &mut self,
        buyer_id: &str,
        listing_id: &str,
        expected_price: i64,
        cfg: &MarketConfig,
        command_id: &str,
        now: i64,
    ) -> (out: Result<Result<(MarketListing, i64), ListingReject>, DbError>)
        requires
            fair(*cfg),
            market_sound(old(self)@),
            board_sound(old(self)@),
        ensures
            market_sound(final(self)@),
            board_sound(final(self)@),
            ({
                let s = old(self)@;
                let begun = DbView { commands: claimed(s.commands, command_id@, buyer_id@, now as int), ..s };
                let runs = fresh_command(s.commands, command_id@);
                let refused = purchase_refused(s, buyer_id@, listing_id@, expected_price as int, *cfg);
                let k = find(s.listings, is_listing(listing_id@));
                &&& out is Err == (runs && purchase_reaches_purse(
                    s,
                    buyer_id@,
                    listing_id@,
                    expected_price as int,
                ) && !has_character(s.characters, buyer_id@))
                &&& out matches Err(e) ==> e is RowNotFound && final(self)@ == s
                &&& out matches Ok(Err(why)) ==> if runs {
                    refused == Some(why) && final(self)@ == begun
                } else {
                    why is Gone && final(self)@ == s
                }
                &&& out matches Ok(Ok(sale)) ==> {
                    &&& runs
                    &&& refused is None
                    &&& sale.0@ == s.listings[k]
                    &&& sale.1 == sale_tax_of(*cfg, s.listings[k].ask_price)
                    &&& exists|trade: Seq<char>|
                        final(self)@ == #[trigger] bought(begun, buyer_id@, k, *cfg, now as int, trade)
                }
            }),
    {
        if !self.is_fresh_command(command_id) {
            return Ok(Err(ListingReject::Gone));
        }
        let ghost s = self@;
        let f = |l: &MarketListing| -> (b: bool)
            ensures
                b == is_listing(listing_id@)(l@),
            { same(l.id.as_str(), listing_id) };
        let k: usize = self.listings.find(f, Ghost(is_listing(listing_id@)));
        if k >= self.listings.len() {
            self.claim_command_in_tx(command_id, buyer_id, now);
            return Ok(Err(ListingReject::Gone));
        }
        let listing = self.listings.get(k).copy();
        if same(listing.seller_id.as_str(), buyer_id) {
            self.claim_command_in_tx(command_id, buyer_id, now);
            return Ok(Err(ListingReject::OwnListing));
        }
        if listing.ask_price != expected_price {
            self.claim_command_in_tx(command_id, buyer_id, now);
            return Ok(Err(ListingReject::PriceChanged));
        }
        let at: usize = find_character(&self.characters, buyer_id);
        if at >= self.characters.len() {
            return Err(DbError::RowNotFound);
        }
        let purse: i64 = self.characters.get(at).gold;
        self.claim_command_in_tx(command_id, buyer_id, now);
        if purse < listing.ask_price {
            return Ok(Err(ListingReject::NoFunds));
        }
        let used: usize = slots_used(&self.warehouse, listing.market_id.as_str(), buyer_id);
        if !below(used, cfg.warehouse_slots) {
            return Ok(Err(ListingReject::NoRoom));
        }
        let trade_id = new_id();
        let ghost begun = self@;
        let ghost trade = trade_id@;
        proof {
            assert(market_sound(begun));
            assert(board_sound(begun));
            law_a_purchase_moves_the_ask(begun, buyer_id@, k as int, *cfg, now as int, trade);
            law_fees_are_bounded(*cfg, listing.ask_price as int);
            assert(has_character(begun.characters, listing.seller_id@));
        }
        let gone = self.listings.remove(k);
        self.hand_over(&listing, buyer_id);
        let tax: i64 = cfg.sale_tax(listing.ask_price);
        let ghost c0 = self@.characters;
        proof {
            lemma_paid(c0, buyer_id@, -(listing.ask_price as int));
            let c1 = paid(c0, buyer_id@, -(listing.ask_price as int));
            lemma_purse_bound(c1, listing.seller_id@);
            lemma_purse_bound(c0, buyer_id@);
            lemma_granted(c1, listing.seller_id@, listing.ask_price as int);
            lemma_purse_bound(granted(c1, listing.seller_id@, listing.ask_price as int), listing.seller_id@);
            lemma_order_escrow_nonneg(begun);
        }
        pay_in_tx(&mut self.characters, buyer_id, -listing.ask_price);
        grant_gold_in_tx(&mut self.characters, listing.seller_id.as_str(), listing.ask_price);
        self.trades.push(
            MarketTrade {
                id: trade_id.clone(),
                market_id: listing.market_id.clone(),
                item_id: listing.item_id.clone(),
                unit_price: listing.ask_price,
                qty: 1,
                seller_id: listing.seller_id.clone(),
                buyer_id: buyer_id.to_string(),
                sale_tax_gold: tax,
                listing_fee_gold: 0,
                created_at: now,
            },
        );
        self.burn_fee_in_tx(
            listing.market_id.as_str(),
            listing.seller_id.as_str(),
            "sale_tax",
            tax,
            Some(trade_id.as_str()),
            now,
        );
        assert(self@ == bought(begun, buyer_id@, k as int, *cfg, now as int, trade));
        Ok(Ok((listing, tax)))
    }

    /// Give the instance that a listing has in escrow to someone, available.
    fn hand_over(&mut self, l: &MarketListing, to: &str)
        ensures
            final(self)@ == (DbView { warehouse: handed_over(old(self)@.warehouse, l@, to@), ..old(self)@ }),
    {
        let f = |r: &WarehouseItem| -> (b: bool)
            ensures
                b == is_escrow_of(l@)(r@),
            { same(r.id.as_str(), l.warehouse_item_id.as_str()) };
        let k: usize = self.warehouse.find(f, Ghost(is_escrow_of(l@)));
        if k < self.warehouse.len() {
            let row = self.warehouse.get_mut(k);
            row.character_id = to.to_string();
            row.state = "available".to_string();
        }
    }

    /// Make the instance that a listing has in escrow available again to whose it is.
    fn set_free(&mut self, l: &MarketListing)
        ensures
            final(self)@ == (DbView { warehouse: set_free(old(self)@.warehouse, l@), ..old(self)@ }),
    {
        let f = |r: &WarehouseItem| -> (b: bool)
            ensures
                b == is_escrow_of(l@)(r@),
            { same(r.id.as_str(), l.warehouse_item_id.as_str()) };
        let k: usize = self.warehouse.find(f, Ghost(is_escrow_of(l@)));
        if k < self.warehouse.len() {
            let row = self.warehouse.get_mut(k);
            row.state = "available".to_string();
        }
    }

    /// Withdraw a listing: the instance is the seller's again, intact. The fee stays spent. Only the
    /// seller can; anyone else, or an unknown listing, gets `None`.
    pub fn cancel_listing(&mut self, seller_id: &str, listing_id: &str) -> (out: Option<MarketListing>)
        ensures
            market_sound(old(self)@) && board_sound(old(self)@) ==> market_sound(final(self)@) && board_sound(
                final(self)@,
            ),
            ({
                let s = old(self)@;
                let k = find(s.listings, is_own_listing(seller_id@, listing_id@));
                match out {
                    None => k == s.listings.len() && final(self)@ == s,
                    Some(l) => k < s.listings.len() && l@ == s.listings[k] && final(self)@ == delisted(s, k),
                }
            }),
    {
        let ghost s = self@;
        let f = |l: &MarketListing| -> (b: bool)
            ensures
                b == is_own_listing(seller_id@, listing_id@)(l@),
            { same(l.id.as_str(), listing_id) && same(l.seller_id.as_str(), seller_id) };
        let k: usize = self.listings.find(f, Ghost(is_own_listing(seller_id@, listing_id@)));
        if k >= self.listings.len() {
            return None;
        }
        let l = self.listings.remove(k);
        self.set_free(&l);
        proof {
            if market_sound(s) && board_sound(s) {
                law_delisting_returns_the_instance(s, k as int);
            }
        }
        Some(l)
    }

    /// The first listing that has expired, or the number of listings.
    fn first_listing_due(&self, now: i64) -> (k: usize)
        ensures
            k == least(self@.listings, is_listing_due(now as int), delisting_order()),
            k <= self@.listings.len(),
    {
        let f = |l: &MarketListing| -> (b: bool)
            ensures
                b == is_listing_due(now as int)(l@),
            { 0 < l.expires_at && l.expires_at <= now };
        let g = |a: &MarketListing, b: &MarketListing| -> (r: bool)
            ensures
                r == delisting_order()(a@, b@),
            { before(a.id.as_str(), b.id.as_str()) };
        self.listings.least(f, g, Ghost(is_listing_due(now as int)), Ghost(delisting_order()))
    }

    /// Withdraw every listing whose expiry has passed, exactly as a cancel would, and return them.
    pub fn expire_listings(&mut self, now: i64) -> (due: Vec<MarketListing>)
        ensures
            final(self)@ == listings_expired(old(self)@, now as int),
            rows_view(due@) == ordered(old(self)@.listings.filter(is_listing_due(now as int)), delisting_order()),
            market_sound(old(self)@) && board_sound(old(self)@) ==> market_sound(final(self)@) && board_sound(
                final(self)@,
            ),
    {
        let ghost s = self@;
        let ghost p = is_listing_due(now as int);
        let f = |l: &MarketListing| -> (b: bool)
            ensures
                b == is_listing_due(now as int)(l@),
            { 0 < l.expires_at && l.expires_at <= now };
        let g = |a: &MarketListing, b: &MarketListing| -> (r: bool)
            ensures
                r == delisting_order()(a@, b@),
            { before(a.id.as_str(), b.id.as_str()) };
        let due = order_rows(self.listings.select(f, Ghost(p)), g, Ghost(delisting_order()));
        let mut k: usize = self.first_listing_due(now);
        while k < self.listings.len()
            invariant
                market_sound(s) && board_sound(s) ==> market_sound(self@) && board_sound(self@),
                listings_expired(s, now as int) == listings_expired(self@, now as int),
                k == least(self@.listings, is_listing_due(now as int), delisting_order()),
                k <= self@.listings.len(),
            decreases self@.listings.len(),
        {
            let ghost was = self@;
            let l = self.listings.remove(k);
            self.set_free(&l);
            proof {
                assert(self@ == delisted(was, k as int));
                if market_sound(was) && board_sound(was) {
                    law_delisting_returns_the_instance(was, k as int);
                }
            }
            k = self.first_listing_due(now);
        }
        due
    }

    /// A market's listings that pass every filter that is set, cheapest first.
    pub fn listings_for_market(
        &self,
        market_id: &str,
        item_id: Option<&str>,
        min_durability: Option<i64>,
        max_price: Option<i64>,
        limit: i64,
    ) -> (out: Vec<MarketListing>)
        ensures
            rows_view(out@) == limited(
                ordered(
                    self@.listings.filter(passes(market_id@, opt_str(item_id), min_durability, max_price)),
                    listed_before(),
                ),
                limit as int,
            ),
    {
        let f = |l: &MarketListing| -> (b: bool)
            ensures
                b == passes(market_id@, opt_str(item_id), min_durability, max_price)(l@),
            { listing_passes(l, market_id, item_id, min_durability, max_price) };
        let rows = self.listings.select(
            f,
            Ghost(passes(market_id@, opt_str(item_id), min_durability, max_price)),
        );
        let g = |a: &MarketListing, b: &MarketListing| -> (r: bool)
            ensures
                r == listed_before()(a@, b@),
            {
                if a.ask_price != b.ask_price {
                    a.ask_price < b.ask_price
                } else {
                    a.created_at < b.created_at
                }
            };
        let sorted = order_rows(rows, g, Ghost(listed_before()));
        limit_rows(sorted, limit)
    }

    /// A listing by id.
    pub fn listing_by_id(&self, id: &str) -> (out: Option<MarketListing>)
        ensures
            ({
                let k = find(self@.listings, is_listing(id@));
                match out {
                    None => k == self@.listings.len(),
                    Some(l) => k < self@.listings.len() && l@ == self@.listings[k],
                }
            }),
    {
        let f = |l: &MarketListing| -> (b: bool)
            ensures
                b == is_listing(id@)(l@),
            { same(l.id.as_str(), id) };
        let k: usize = self.listings.find(f, Ghost(is_listing(id@)));
        if k < self.listings.len() {
            Some(self.listings.get(k).copy())
        } else {
            None
        }
    }
}

proof fn lemma_order_escrow_nonneg(s: DbView)
    requires
        orders_ok(s),
    ensures
        escrow(s) >= 0,
{
    lemma_escrow_nonneg(s);
}

} // verus!
