//! What listing, buying and delisting an instance need and do.

use vstd::prelude::*;

use crate::market_config::{fair, law_fees_are_bounded, listing_fee_of, sale_tax_of, MarketConfig};
use crate::persistence::db::DbView;
use crate::persistence::fee_laws::lemma_slots;
use crate::persistence::home_laws::{lemma_not_before, lemma_shown};
use crate::persistence::listings::{
    bought, delisted, delisting_order, is_escrow_of, is_listable, is_listing, is_listing_due,
    is_own_listing, listed_before, listings_expired, offer_accepted, offered, passes, purchase_refused,
    ListingReject,
};
use crate::persistence::purse::{gold_of, has_character, lemma_paid, paid};
use crate::persistence::rows::{FeeRecordView, MarketListingView, MarketTradeView, WarehouseItemView};
use crate::table::{
    find, law_page, least, lemma_filter_contains, lemma_find, lemma_find_is, lemma_least, limited, ordered,
};
use crate::text::lemma_text_before;

verus! {

/// When an instance can be listed: it lies available at the market, is the seller's, is a tool or a weapon, and the seller's
/// purse covers the fee.
pub proof fn law_when_an_instance_is_listed(
    s: DbView,
    market: Seq<char>,
    seller: Seq<char>,
    item: Seq<char>,
    ask: int,
    cfg: MarketConfig,
    k: int,
)
    requires
        0 <= k < s.warehouse.len(),
        s.warehouse[k].id == item,
        forall|j: int| 0 <= j < s.warehouse.len() && j != k ==> (#[trigger] s.warehouse[j]).id != item,
    ensures
        offer_accepted(s, market, seller, item, ask, cfg) <==> {
            let r = s.warehouse[k];
            &&& r.market_id == market && r.character_id == seller && r.state == "available"@
            &&& r.item_id == "pickaxe"@ || r.item_id == "axe"@ || r.item_id == "sword"@
            &&& gold_of(s.characters, seller) >= listing_fee_of(cfg, ask)
        },
{
    lemma_listable(s, market, seller, item, k);
}

proof fn lemma_listable(s: DbView, market: Seq<char>, seller: Seq<char>, item: Seq<char>, k: int)
    requires
        0 <= k < s.warehouse.len(),
        s.warehouse[k].id == item,
        forall|j: int| 0 <= j < s.warehouse.len() && j != k ==> (#[trigger] s.warehouse[j]).id != item,
    ensures
        find(s.warehouse, is_listable(item, market, seller)) == if is_listable(item, market, seller)(s.warehouse[k]) {
            k
        } else {
            s.warehouse.len() as int
        },
{
    let p = is_listable(item, market, seller);
    let m = if p(s.warehouse[k]) {
        k
    } else {
        s.warehouse.len() as int
    };
    assert forall|j: int| 0 <= j < m implies !p(#[trigger] s.warehouse[j]) by {}
    lemma_find_is(s.warehouse, p, m);
}

/// What listing an instance does: that instance is locked and no other changes, it is on the board at its ask with its own
/// wear, and the seller's purse falls by the fee, which is recorded. Nobody else pays.
pub proof fn law_what_listing_does(
    s: DbView,
    market: Seq<char>,
    seller: Seq<char>,
    item: Seq<char>,
    ask: int,
    expires_at: int,
    cfg: MarketConfig,
    now: int,
    id: Seq<char>,
    k: int,
    i: int,
    who: Seq<char>,
)
    requires
        fair(cfg),
        ask > 0,
        has_character(s.characters, seller),
        offer_accepted(s, market, seller, item, ask, cfg),
        0 <= k < s.warehouse.len(),
        s.warehouse[k].id == item,
        forall|j: int| 0 <= j < s.warehouse.len() && j != k ==> (#[trigger] s.warehouse[j]).id != item,
        0 <= i < s.warehouse.len(),
    ensures
        ({
            let t = offered(s, market, seller, item, ask, expires_at, cfg, now, id);
            let fee = listing_fee_of(cfg, ask);
            &&& t.warehouse.len() == s.warehouse.len()
            &&& t.warehouse[k] == (WarehouseItemView { state: "locked"@, ..s.warehouse[k] })
            &&& i != k ==> t.warehouse[i] == s.warehouse[i]
            &&& t.listings.len() == s.listings.len() + 1
            &&& t.listings.take(s.listings.len() as int) == s.listings
            &&& t.listings.last() == (MarketListingView {
                id,
                market_id: market,
                seller_id: seller,
                warehouse_item_id: item,
                item_id: s.warehouse[k].item_id,
                durability: s.warehouse[k].durability,
                ask_price: ask,
                created_at: now,
                expires_at,
            })
            &&& gold_of(t.characters, who) == gold_of(s.characters, who) - if who == seller {
                fee
            } else {
                0
            }
            &&& fee > 0 ==> t.fees == s.fees.push(
                FeeRecordView {
                    market_id: market,
                    character_id: seller,
                    kind: "listing"@,
                    gold: fee,
                    trade_id: None,
                    created_at: now,
                },
            )
        }),
{
    lemma_listable(s, market, seller, item, k);
    let t = offered(s, market, seller, item, ask, expires_at, cfg, now, id);
    law_fees_are_bounded(cfg, ask);
    lemma_paid(s.characters, seller, -listing_fee_of(cfg, ask));
    assert(t.listings.take(s.listings.len() as int) =~= s.listings);
}

/// When a purchase is refused, and why: the listing is gone, it is the buyer's own, its ask is not the one expected, the
/// purse does not cover the ask, or the buyer has no free slot at the market. The first that holds is the reason.
pub proof fn law_when_a_purchase_is_refused(
    s: DbView,
    buyer: Seq<char>,
    listing: Seq<char>,
    expected: int,
    cfg: MarketConfig,
    k: int,
)
    ensures
        ({
            let why = purchase_refused(s, buyer, listing, expected, cfg);
            let l = s.listings[k];
            let slots = s.warehouse.filter(
                |r: WarehouseItemView| r.market_id == l.market_id && r.character_id == buyer,
            ).len();
            &&& (forall|j: int| 0 <= j < s.listings.len() ==> (#[trigger] s.listings[j]).id != listing) ==> why == Some(
                ListingReject::Gone,
            )
            &&& 0 <= k < s.listings.len() && l.id == listing && (forall|j: int|
                0 <= j < s.listings.len() && j != k ==> (#[trigger] s.listings[j]).id != listing) ==> if l.seller_id == buyer {
                why == Some(ListingReject::OwnListing)
            } else if l.ask_price != expected {
                why == Some(ListingReject::PriceChanged)
            } else if gold_of(s.characters, buyer) < l.ask_price {
                why == Some(ListingReject::NoFunds)
            } else if slots >= cfg.warehouse_slots {
                why == Some(ListingReject::NoRoom)
            } else {
                why is None
            }
        }),
{
    let p = is_listing(listing);
    lemma_find(s.listings, p);
    if 0 <= k < s.listings.len() && s.listings[k].id == listing && (forall|j: int|
        0 <= j < s.listings.len() && j != k ==> (#[trigger] s.listings[j]).id != listing) {
        lemma_find_is(s.listings, p, k);
        lemma_slots(s.warehouse, s.listings[k].market_id, buyer);
    }
}

/// What a purchase does: the ask leaves the buyer's purse and reaches the seller's less the tax, which is recorded; the
/// instance is the buyer's, available where it was and as worn as it was; the listing is gone and the sale is a trade of one.
/// Nobody else pays or is paid, and no other instance changes.
pub proof fn law_what_a_purchase_does(
    s: DbView,
    buyer: Seq<char>,
    k: int,
    cfg: MarketConfig,
    now: int,
    trade: Seq<char>,
    who: Seq<char>,
    i: int,
)
    requires
        fair(cfg),
        0 <= k < s.listings.len(),
        s.listings[k].ask_price > 0,
        s.listings[k].seller_id != buyer,
        has_character(s.characters, buyer),
        has_character(s.characters, s.listings[k].seller_id),
    ensures
        ({
            let l = s.listings[k];
            let t = bought(s, buyer, k, cfg, now, trade);
            let tax = sale_tax_of(cfg, l.ask_price);
            let at = find(s.warehouse, is_escrow_of(l));
            &&& t.listings == s.listings.remove(k)
            &&& gold_of(t.characters, who) == gold_of(s.characters, who) + if who == buyer {
                -l.ask_price
            } else if who == l.seller_id {
                l.ask_price - tax
            } else {
                0
            }
            &&& t.trades == s.trades.push(
                MarketTradeView {
                    id: trade,
                    market_id: l.market_id,
                    item_id: l.item_id,
                    unit_price: l.ask_price,
                    qty: 1,
                    seller_id: l.seller_id,
                    buyer_id: buyer,
                    sale_tax_gold: tax,
                    listing_fee_gold: 0,
                    created_at: now,
                },
            )
            &&& tax > 0 ==> t.fees == s.fees.push(
                FeeRecordView {
                    market_id: l.market_id,
                    character_id: l.seller_id,
                    kind: "sale_tax"@,
                    gold: tax,
                    trade_id: Some(trade),
                    created_at: now,
                },
            )
            &&& t.warehouse.len() == s.warehouse.len()
            &&& at < s.warehouse.len() ==> s.warehouse[at].id == l.warehouse_item_id && t.warehouse[at] == (WarehouseItemView {
                character_id: buyer,
                state: "available"@,
                ..s.warehouse[at]
            })
            &&& 0 <= i < s.warehouse.len() && i != at ==> t.warehouse[i] == s.warehouse[i]
        }),
{
    let l = s.listings[k];
    law_fees_are_bounded(cfg, l.ask_price);
    lemma_find(s.warehouse, is_escrow_of(l));
    lemma_paid(s.characters, buyer, -l.ask_price);
    let one = paid(s.characters, buyer, -l.ask_price);
    lemma_paid(one, l.seller_id, l.ask_price);
    let two = paid(one, l.seller_id, l.ask_price);
    lemma_paid(two, l.seller_id, -sale_tax_of(cfg, l.ask_price));
    assert(has_character(one, l.seller_id) && has_character(two, l.seller_id));
}

/// Whoever listed an instance, and nobody else, can take it off the board, and it is then available again.
pub proof fn law_only_the_seller_delists(s: DbView, seller: Seq<char>, listing: Seq<char>, k: int, i: int)
    requires
        0 <= k < s.listings.len(),
        s.listings[k].id == listing,
        forall|j: int| 0 <= j < s.listings.len() && j != k ==> (#[trigger] s.listings[j]).id != listing,
    ensures
        ({
            let found = find(s.listings, is_own_listing(seller, listing));
            let l = s.listings[k];
            let t = delisted(s, k);
            let at = find(s.warehouse, is_escrow_of(l));
            &&& s.listings[k].seller_id == seller ==> found == k
            &&& s.listings[k].seller_id != seller ==> found == s.listings.len()
            &&& t.listings == s.listings.remove(k)
            &&& t.warehouse.len() == s.warehouse.len()
            &&& at < s.warehouse.len() ==> s.warehouse[at].id == l.warehouse_item_id && t.warehouse[at] == (WarehouseItemView {
                state: "available"@,
                ..s.warehouse[at]
            })
            &&& 0 <= i < s.warehouse.len() && i != at ==> t.warehouse[i] == s.warehouse[i]
        }),
{
    let p = is_own_listing(seller, listing);
    lemma_find(s.warehouse, is_escrow_of(s.listings[k]));
    let m = if s.listings[k].seller_id == seller {
        k
    } else {
        s.listings.len() as int
    };
    assert forall|j: int| 0 <= j < m implies !p(#[trigger] s.listings[j]) by {}
    lemma_find_is(s.listings, p, m);
}

/// When listings expire, those with a time that has come leave the board and all others stay, in their order. Nothing else
/// changes but the state of instances, which come free.
pub proof fn law_listings_expire_when_due(s: DbView, now: int, i: int)
    ensures
        ({
            let t = listings_expired(s, now);
            &&& t.listings == s.listings.filter(|l: MarketListingView| l.expires_at <= 0 || l.expires_at > now)
            &&& t == (DbView { listings: t.listings, warehouse: t.warehouse, ..s })
            &&& t.warehouse.len() == s.warehouse.len()
            &&& 0 <= i < s.warehouse.len() ==> t.warehouse[i] == s.warehouse[i] || t.warehouse[i] == (WarehouseItemView {
                state: "available"@,
                ..s.warehouse[i]
            })
        }),
    decreases s.listings.len(),
{
    let due = is_listing_due(now);
    let keep = |l: MarketListingView| l.expires_at <= 0 || l.expires_at > now;
    let k = least(s.listings, due, delisting_order());
    lemma_least(s.listings, due, delisting_order());
    if k < s.listings.len() {
        let u = delisted(s, k);
        lemma_find(s.warehouse, is_escrow_of(s.listings[k]));
        law_listings_expire_when_due(u, now, i);
        lemma_filter_removed(s.listings, keep, k);
    } else {
        lemma_filter_keeps_all(s.listings, keep);
    }
}

/// The instance of every listing that expires comes free.
pub proof fn law_expired_instances_come_free(s: DbView, now: int, l: MarketListingView, i: int)
    requires
        s.listings.contains(l),
        0 < l.expires_at <= now,
        0 <= i < s.warehouse.len(),
        s.warehouse[i].id == l.warehouse_item_id,
        forall|j: int| 0 <= j < s.warehouse.len() && j != i ==> (#[trigger] s.warehouse[j]).id != l.warehouse_item_id,
    ensures
        listings_expired(s, now).warehouse[i] == (WarehouseItemView { state: "available"@, ..s.warehouse[i] }),
    decreases s.listings.len(),
{
    let due = is_listing_due(now);
    let k = least(s.listings, due, delisting_order());
    lemma_least(s.listings, due, delisting_order());
    let at = choose|at: int| 0 <= at < s.listings.len() && s.listings[at] == l;
    assert(due(s.listings[at]));
    let u = delisted(s, k);
    lemma_find(s.warehouse, is_escrow_of(s.listings[k]));
    if s.listings[k] == l {
        lemma_find_is(s.warehouse, is_escrow_of(l), i);
        law_listings_expire_when_due(u, now, i);
    } else {
        assert(u.listings[if at < k {
            at
        } else {
            at - 1
        }] == l);
        assert forall|j: int| 0 <= j < u.warehouse.len() && j != i implies (#[trigger] u.warehouse[j]).id
            != l.warehouse_item_id by {
            assert(s.warehouse[j].id != l.warehouse_item_id);
        }
        law_expired_instances_come_free(u, now, l, i);
    }
}

/// What is reported as expired is exactly what was due.
pub proof fn law_expired_listings_are_reported(s: DbView, now: int, x: MarketListingView)
    ensures
        ordered(s.listings.filter(is_listing_due(now)), delisting_order()).contains(x) <==> s.listings.contains(x) && 0
            < x.expires_at <= now,
{
    let before = delisting_order();
    assert forall|a: MarketListingView, b: MarketListingView| #[trigger] before(a, b) implies !before(b, a) by {
        lemma_text_before(a.id, b.id, a.id);
    }
    assert forall|a: MarketListingView, b: MarketListingView, c: MarketListingView|
        !(#[trigger] before(a, b)) && !(#[trigger] before(b, c)) implies !before(a, c) by {
        lemma_not_before(a.id, b.id, c.id);
    }
    lemma_shown(s.listings, is_listing_due(now), before, x);
}

pub proof fn lemma_filter_keeps_all<A>(s: Seq<A>, p: spec_fn(A) -> bool)
    requires
        forall|i: int| 0 <= i < s.len() ==> p(#[trigger] s[i]),
    ensures
        s.filter(p) == s,
    decreases s.len(),
{
    reveal(Seq::filter);
    if s.len() > 0 {
        assert forall|i: int| 0 <= i < s.drop_last().len() implies p(#[trigger] s.drop_last()[i]) by {
            assert(s.drop_last()[i] == s[i]);
        }
        lemma_filter_keeps_all(s.drop_last(), p);
        assert(s.drop_last().push(s.last()) =~= s);
    } else {
        assert(s.filter(p) =~= s);
    }
}

pub proof fn lemma_filter_removed<A>(s: Seq<A>, p: spec_fn(A) -> bool, k: int)
    requires
        0 <= k < s.len(),
        !p(s[k]),
    ensures
        s.remove(k).filter(p) == s.filter(p),
    decreases s.len(),
{
    reveal(Seq::filter);
    if k < s.len() - 1 {
        lemma_filter_removed(s.drop_last(), p, k);
        assert(s.remove(k).drop_last() =~= s.drop_last().remove(k));
    } else {
        assert(s.remove(k) =~= s.drop_last());
    }
}

/// What the board shows: only listings at the market that pass every filter given, the cheapest first and the older first
/// among equals, and a listing that passes is left out only by a full page of listings no dearer.
pub proof fn law_the_board_shows_the_cheapest(
    s: DbView,
    market: Seq<char>,
    item: Option<Seq<char>>,
    min_durability: Option<i64>,
    max_price: Option<i64>,
    limit: int,
    i: int,
    j: int,
    x: MarketListingView,
)
    ensures
        ({
            let out = limited(ordered(s.listings.filter(passes(market, item, min_durability, max_price)), listed_before()), limit);
            let fits = |l: MarketListingView|
                {
                    &&& l.market_id == market
                    &&& item is Some ==> l.item_id == item->0
                    &&& min_durability is Some ==> (l.durability is Some && l.durability->0 >= min_durability->0) || (
                    l.durability is None && 0 >= min_durability->0)
                    &&& max_price is Some ==> l.ask_price <= max_price->0
                };
            &&& limit >= 0 ==> out.len() <= limit
            &&& 0 <= i < out.len() ==> s.listings.contains(out[i]) && fits(out[i])
            &&& 0 <= i < j < out.len() ==> out[i].ask_price <= out[j].ask_price
            &&& 0 <= i < j < out.len() && out[i].ask_price == out[j].ask_price ==> out[i].created_at <= out[j].created_at
            &&& s.listings.contains(x) && fits(x) && !out.contains(x) ==> out.len() == limit
            &&& s.listings.contains(x) && fits(x) && !out.contains(x) && 0 <= i < out.len() ==> out[i].ask_price <= x.ask_price
        }),
{
    let p = passes(market, item, min_durability, max_price);
    let f = s.listings.filter(p);
    let out = limited(ordered(f, listed_before()), limit);
    law_page(f, listed_before(), limit, x);
    lemma_filter_contains(s.listings, p, x);
    if 0 <= i < out.len() {
        lemma_filter_contains(s.listings, p, out[i]);
        assert(f.contains(out[i]));
    }
    if 0 <= i < j < out.len() {
        assert(!listed_before()(out[j], out[i]));
    }
}

} // verus!
