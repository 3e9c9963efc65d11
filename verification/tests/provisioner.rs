use ideal_city::market_config::{MarketConfig, ProvisionerBounds};
use ideal_city::persistence::db::Db;
use ideal_city::persistence::inventory::MAX_CARRY;
use ideal_city::persistence::market::BuyOutcome;

fn a_character(db: &mut Db) -> String {
    let email = format!("c_{}@t.test", db.accounts.len());
    let (_a, c) = db.create_account_with_character(&email, "h", "Hero", 0, 0, 100);
    c.id
}

fn a_market(db: &mut Db) -> String {
    db.insert_build_order("civic", "market", r#"{"wood":1}"#, "completed", 0, None, 0, None, None)
        .id
}

const NO_EXPIRY: i64 = i64::MAX;

fn test_cfg() -> MarketConfig {
    MarketConfig { max_open_orders: 1000, ..MarketConfig::default() }
}

fn sell(db: &mut Db, m: &str, who: &str, item: &str, price: i64, qty: i64) -> BuyOutcome {
    db.place_order(m, who, "sell", item, price, qty, NO_EXPIRY, &test_cfg(), "", 0)
        .unwrap()
}

fn buy(db: &mut Db, m: &str, who: &str, item: &str, price: i64, qty: i64) -> BuyOutcome {
    db.place_order(m, who, "buy", item, price, qty, NO_EXPIRY, &test_cfg(), "", 0)
        .unwrap()
}

/// A seller stocked at a market, ready to rest orders.
fn a_seller(db: &mut Db, market: &str, item: &str, qty: i64) -> String {
    let cid = a_character(db);
    db.add_to_inventory(&cid, item, qty);
    db.warehouse_deposit(market, &cid, item, qty, 60);
    cid
}

/// A config with the provisioner switched on for wood. Floor well under
/// ceiling: it should be the worst counterparty available and still better
/// than nobody.
fn provisioned_cfg() -> MarketConfig {
    let mut c = test_cfg();
    c.provisioner.push((
        "wood".to_string(),
        ProvisionerBounds { floor: 2, ceiling: 20, bid_qty: 100, seed_stock: 50 },
    ));
    c
}

/// The bootstrapping problem, which is live right now: on a fresh server
/// nobody has listed anything, so the first player to reach the market sees
/// an empty book and the feature looks broken at the moment it makes its
/// first impression. With the provisioner on, they can sell and buy
/// immediately.
#[test]
fn a_fresh_market_is_tradable_the_moment_it_opens() {
    let mut db = Db::new();
    let m = a_market(&mut db);
    let cfg = provisioned_cfg();
    assert!(db.book_for(&m, "wood", "buy").is_empty(), "dead book");

    db.refresh_provisioner(&m, &cfg, 0);

    // There is now a bid to sell into and an ask to buy from.
    let bids = db.book_for(&m, "wood", "buy");
    let asks = db.book_for(&m, "wood", "sell");
    assert_eq!(bids[0].unit_price, 2, "the floor should be standing");
    assert_eq!(bids[0].qty, 100);
    assert_eq!(asks[0].unit_price, 20, "the ceiling should be standing");
    assert_eq!(asks[0].qty, 50, "the ceiling sells the seeded stock");

    // A brand-new player can immediately turn goods into gold...
    let who = a_seller(&mut db, &m, "wood", 10);
    let before = db.character_gold(&who);
    let out = db.place_order(&m, &who, "sell", "wood", 2, 10, NO_EXPIRY, &cfg, "", 0)
        .unwrap();
    assert_eq!(out.filled, 10, "the floor should have absorbed it");
    assert!(db.character_gold(&who) > before);

    // ...and gold into goods.
    let buyer = a_character(&mut db);
    let out = db.place_order(&m, &buyer, "buy", "wood", 20, 5, NO_EXPIRY, &cfg, "", 0)
        .unwrap();
    assert_eq!(out.filled, 5, "the ceiling should have supplied it");
}

#[test]
fn the_floor_holds_under_a_dump_and_every_coin_is_ledgered() {
    let mut db = Db::new();
    let m = a_market(&mut db);
    let mut cfg = provisioned_cfg();
    cfg.provisioner[0].1.bid_qty = 500;

    let minted = db.refresh_provisioner(&m, &cfg, 0);
    assert!(minted > 0, "funding a standing bid should have minted gold");
    assert_eq!(db.gold_supply_gap(), 0, "minting must be ledgered");

    // A whale dumps 400 wood — far more than any player could have paid for.
    // Stocked in trips, because `MAX_CARRY` caps what one player can hold at
    // once; the warehouse is what accumulates.
    let whale = a_character(&mut db);
    for _ in 0..8 {
        db.add_to_inventory(&whale, "wood", 50);
        db.warehouse_deposit(&m, &whale, "wood", 50, 60);
    }
    let before = db.character_gold(&whale);
    let out = db.place_order(&m, &whale, "sell", "wood", 2, 400, NO_EXPIRY, &cfg, "", 0)
        .unwrap();
    assert_eq!(out.filled, 400, "the floor buckled under a dump");
    assert_eq!(db.character_gold(&whale), before + 800 - out.sale_tax - out.listing_fee);
    assert_eq!(db.gold_supply_gap(), 0, "the dump broke the supply identity");

    // And the provisioner now holds the goods, which become its ceiling
    // stock on the next refresh — it is a conduit, not a black hole.
    db.refresh_provisioner(&m, &cfg, 1);
    let asks = db.book_for(&m, "wood", "sell");
    assert_eq!(asks[0].qty, 450, "bought stock should be re-offered at the ceiling");
}

/// The ceiling sells from STOCK ONLY. Unbounded selling would be an
/// infinite item faucet — worse than an uncapped price, because it would
/// destroy scarcity itself.
#[test]
fn the_ceiling_is_bounded_by_stock_and_never_goes_negative() {
    let mut db = Db::new();
    let m = a_market(&mut db);
    let mut cfg = provisioned_cfg();
    cfg.provisioner[0].1.seed_stock = 10;
    db.refresh_provisioner(&m, &cfg, 0);

    // Try to buy far more than it holds.
    let buyer = a_character(&mut db);
    let out = db.place_order(&m, &buyer, "buy", "wood", 20, 25, NO_EXPIRY, &cfg, "", 0)
        .unwrap();
    assert_eq!(out.filled, 10, "it sold more than it had");

    // Sold out: no ask at all, rather than an ask it cannot honour.
    db.refresh_provisioner(&m, &cfg, 1);
    assert!(
        db.book_for(&m, "wood", "sell").is_empty(),
        "a sold-out provisioner must not advertise stock it doesn't have"
    );
    let npc = db.ensure_provisioner();
    let held: i64 = db.warehouse_for_character(&m, &npc)
        .iter()
        .filter(|r| r.item_id == "wood")
        .map(|r| r.qty)
        .sum();
    assert!(held >= 0, "negative stock");
}

/// Round-tripping through the provisioner must LOSE money. This is the
/// property that makes it a safety net rather than a farm: if buying at the
/// ceiling and selling back at the floor were profitable, it would be an
/// infinite gold fountain limited only by clicking speed.
#[test]
fn round_tripping_through_the_provisioner_loses_money() {
    let mut db = Db::new();
    let m = a_market(&mut db);
    let cfg = provisioned_cfg();
    db.refresh_provisioner(&m, &cfg, 0);

    let farmer = a_character(&mut db);
    let start = db.character_gold(&farmer);
    // Buy 10 at the ceiling...
    let out = db.place_order(&m, &farmer, "buy", "wood", 20, 10, NO_EXPIRY, &cfg, "", 0)
        .unwrap();
    assert_eq!(out.filled, 10);
    // ...and sell the same 10 straight back at the floor.
    let out = db.place_order(&m, &farmer, "sell", "wood", 2, 10, NO_EXPIRY, &cfg, "", 0)
        .unwrap();
    assert_eq!(out.filled, 10);
    assert!(
        db.character_gold(&farmer) < start,
        "the provisioner is a money printer — round-tripping through it turned a profit"
    );
}

/// Refreshing is idempotent: it re-posts, it does not accumulate. A job on a
/// timer that doubled the book every tick would be a slow-motion outage.
#[test]
fn refreshing_the_provisioner_is_idempotent() {
    let mut db = Db::new();
    let m = a_market(&mut db);
    let cfg = provisioned_cfg();

    db.refresh_provisioner(&m, &cfg, 0);
    let bids = db.book_for(&m, "wood", "buy");
    let asks = db.book_for(&m, "wood", "sell");

    for t in 1..4 {
        db.refresh_provisioner(&m, &cfg, t);
    }
    assert_eq!(db.book_for(&m, "wood", "buy"), bids, "the bid multiplied");
    assert_eq!(db.book_for(&m, "wood", "sell"), asks, "the ask multiplied");

    // The seed is granted ONCE, however many times the job runs.
    let npc = db.ensure_provisioner();
    let held: i64 = db.warehouse_for_character(&m, &npc)
        .iter()
        .filter(|r| r.item_id == "wood")
        .map(|r| r.qty)
        .sum();
    assert_eq!(held, 50, "seed stock was granted more than once");
    assert_eq!(db.gold_supply_gap(), 0);
}

/// Opt-in, and only for real commodities. Adding an item to the registry
/// must never silently create a gold faucet for it.
#[test]
fn a_commodity_without_bounds_gets_no_provisioner_orders() {
    let mut db = Db::new();
    let m = a_market(&mut db);

    // Nothing configured at all: no orders, no minting, no system character
    // conjured for nothing.
    assert_eq!(db.refresh_provisioner(&m, &test_cfg(), 0), 0);
    assert!(db.book_for(&m, "wood", "buy").is_empty());
    assert_eq!(db.gold_supply(), 0, "an unconfigured provisioner minted gold");

    // Wood configured, stone not: stone stays untouched.
    let cfg = provisioned_cfg();
    db.refresh_provisioner(&m, &cfg, 0);
    assert!(!db.book_for(&m, "wood", "buy").is_empty());
    assert!(
        db.book_for(&m, "stone", "buy").is_empty(),
        "an unconfigured commodity got a floor anyway"
    );
}

/// The provisioner never trades with itself. Its own bid at the floor and
/// ask at the ceiling coexist in one book, and self-match prevention plus a
/// validated spread both have to hold for that to be safe.
#[test]
fn the_provisioner_never_matches_its_own_orders() {
    let mut db = Db::new();
    let m = a_market(&mut db);
    let cfg = provisioned_cfg();
    db.refresh_provisioner(&m, &cfg, 0);
    db.refresh_provisioner(&m, &cfg, 1);

    assert!(db.recent_trades(&m, "wood", 10).is_empty(), "it traded with itself");
    assert!(db.book_health().is_empty(), "the provisioner broke a book invariant");
    assert_eq!(db.gold_supply_gap(), 0);
}

/// The §7 balance telemetry: a trade outside the bounds means either the
/// refresh job is lagging or the bounds are wrong for the economy that grew
/// around them. Both are worth knowing, and both are otherwise invisible.
#[test]
fn trades_outside_the_bounds_are_reported() {
    let mut db = Db::new();
    let m = a_market(&mut db);
    let cfg = provisioned_cfg();

    // A trade well inside the bounds: nothing to report.
    let s = a_seller(&mut db, &m, "wood", 20);
    sell(&mut db, &m, &s, "wood", 9, 5);
    let b = a_character(&mut db);
    buy(&mut db, &m, &b, "wood", 9, 5);
    assert!(db.trades_outside_bounds(&m, &cfg, 0).is_empty());

    // A trade above the ceiling — only possible with the provisioner absent
    // or lagging, which is exactly the condition worth surfacing.
    let s2 = a_seller(&mut db, &m, "wood", 20);
    sell(&mut db, &m, &s2, "wood", 50, 5);
    let b2 = a_character(&mut db);
    buy(&mut db, &m, &b2, "wood", 50, 5);
    let flagged = db.trades_outside_bounds(&m, &cfg, 0);
    assert_eq!(flagged.len(), 1, "an out-of-bounds trade went unreported: {flagged:?}");
    assert_eq!(flagged[0], ("wood".to_string(), 50, 2, 20));
}
