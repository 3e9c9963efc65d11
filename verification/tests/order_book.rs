use ideal_city::market_config::MarketConfig;
use ideal_city::persistence::book::BookLevel;
use ideal_city::persistence::db::Db;
use ideal_city::persistence::market::BuyOutcome;
use ideal_city::persistence::rows::MarketTrade;
use ideal_city::util::now_secs;

fn a_character(db: &mut Db) -> String {
    let email = format!("c_{}@t.test", db.accounts.len());
    let (_a, c) = db.create_account_with_character(&email, "h", "Hero", 0, 0, 100);
    c.id
}

fn a_market(db: &mut Db) -> String {
    db.insert_build_order("civic", "market", r#"{"wood":1}"#, "completed", 0, None, 0, None, None)
        .id
}

const NO_EXPIRY: i64 = i64::MAX;

fn test_cfg() -> MarketConfig {
    MarketConfig { max_open_orders: 1000, ..MarketConfig::default() }
}

fn sell(db: &mut Db, m: &str, who: &str, item: &str, price: i64, qty: i64) -> BuyOutcome {
    db.place_order(m, who, "sell", item, price, qty, NO_EXPIRY, &test_cfg(), "", 0)
        .unwrap()
}

fn buy(db: &mut Db, m: &str, who: &str, item: &str, price: i64, qty: i64) -> BuyOutcome {
    db.place_order(m, who, "buy", item, price, qty, NO_EXPIRY, &test_cfg(), "", 0)
        .unwrap()
}

/// A seller stocked at a market, ready to rest orders.
fn a_seller(db: &mut Db, market: &str, item: &str, qty: i64) -> String {
    let cid = a_character(db);
    db.add_to_inventory(&cid, item, qty);
    db.warehouse_deposit(market, &cid, item, qty, 60);
    cid
}

/// Write a trade straight onto the ledger. The rollup only reads
/// `market_trade`, so a fixture doesn't need the whole matching engine to
/// exercise it — and driving it directly is what lets a test pin exact
/// timestamps and orderings.
fn a_trade(db: &mut Db, market: &str, item: &str, price: i64, qty: i64, at: i64) {
    let id = format!("t{}", db.trades.len());
    db.trades.push(MarketTrade {
        id,
        market_id: market.to_string(),
        item_id: item.to_string(),
        unit_price: price,
        qty,
        seller_id: "s".to_string(),
        buyer_id: "b".to_string(),
        sale_tax_gold: 0,
        listing_fee_gold: 0,
        created_at: at,
    });
}

fn set_gold(db: &mut Db, id: &str, gold: i64) {
    for c in db.characters.rows.iter_mut() {
        if c.character.id == id {
            c.gold = gold;
        }
    }
}

fn place(db: &mut Db, m: &str, who: &str, side: &str, price: i64, qty: i64, cmd: &str) -> BuyOutcome {
    db.place_order(m, who, side, "wood", price, qty, NO_EXPIRY, &test_cfg(), cmd, 0).unwrap()
}

#[test]
fn a_buy_sweeps_cheapest_first_and_pays_the_resting_price() {
    let mut db = Db::new();
    let m = a_market(&mut db);
    // Two sellers, three price levels — deliberately placed out of price
    // order so "cheapest first" can't pass by accident of insertion order.
    let s1 = a_seller(&mut db, &m, "wood", 30);
    let s2 = a_seller(&mut db, &m, "wood", 30);
    sell(&mut db, &m, &s1, "wood", 9, 5);
    sell(&mut db, &m, &s2, "wood", 7, 4);
    sell(&mut db, &m, &s1, "wood", 8, 6);

    let buyer = a_character(&mut db);
    let buyer_start = db.character_gold(&buyer);
    let s1_start = db.character_gold(&s1);
    let s2_start = db.character_gold(&s2);

    // Bid 10 for 12: sweeps 4@7, then 6@8, then 2@9 — paying each RESTING
    // price, never the 10 bid.
    let out = buy(&mut db, &m, &buyer, "wood", 10, 12);
    assert_eq!(out.filled, 12);
    let expected = 4 * 7 + 6 * 8 + 2 * 9;
    assert_eq!(out.spent, expected, "each fill at the resting price, not the 10 bid");
    assert!(out.spent < 12 * 10, "the aggressor keeps the price improvement");
    assert_eq!(out.listing_fee, test_cfg().listing_fee(12 * 10));
    assert_eq!(
        db.character_gold(&buyer),
        buyer_start - expected - out.listing_fee
    );
    // Sellers are paid immediately, each for their own fills — net of the
    // sale tax on each fill. (Their listing fees were charged before these
    // balances were captured.)
    assert_eq!(
        db.character_gold(&s2),
        s2_start + (4 * 7 - test_cfg().sale_tax(4 * 7)),
        "seller receives the fill minus sale tax"
    );
    assert_eq!(
        db.character_gold(&s1),
        s1_start + (6 * 8 - test_cfg().sale_tax(6 * 8)) + (2 * 9 - test_cfg().sale_tax(2 * 9)),
        "taxed per fill, not once on the total"
    );

    // The 9-level order is partially filled and still resting; the others
    // are gone. The book only ever holds live orders.
    let asks = db.book_for(&m, "wood", "sell");
    assert_eq!(asks, vec![BookLevel { unit_price: 9, qty: 3 }]);

    // Goods landed in the BUYER's warehouse at this market.
    let held: i64 = db.warehouse_for_character(&m, &buyer)
        .iter().filter(|r| r.item_id == "wood" && r.state == "available").map(|r| r.qty).sum();
    assert_eq!(held, 12);

    let trades = db.recent_trades(&m, "wood", 10);
    assert_eq!(trades.len(), 3);
    let mut prices: Vec<i64> = trades.iter().map(|t| t.unit_price).collect();
    prices.sort();
    assert_eq!(prices, vec![7, 8, 9]);
    for t in &trades {
        assert_eq!(
            t.sale_tax_gold, test_cfg().sale_tax(t.unit_price * t.qty),
            "each ledger row records its own tax, so fee revenue reconciles"
        );
    }
}

#[test]
fn a_buy_below_the_ask_rests_and_escrows_instead_of_filling() {
    let mut db = Db::new();
    let m = a_market(&mut db);
    let seller = a_seller(&mut db, &m, "wood", 40);
    sell(&mut db, &m, &seller, "wood", 5, 10);
    sell(&mut db, &m, &seller, "wood", 50, 10);

    let buyer = a_character(&mut db);
    let start = db.character_gold(&buyer);
    let out = buy(&mut db, &m, &buyer, "wood", 4, 10);
    assert_eq!((out.filled, out.spent), (0, 0), "nothing crossed");
    assert_eq!(out.resting_qty, 10);
    let fee = test_cfg().listing_fee(10 * 4);
    assert_eq!(out.listing_fee, fee);
    assert_eq!(
        db.character_gold(&buyer), start - 40 - fee,
        "escrowed 10 x 4, plus the listing fee"
    );
    assert_eq!(db.book_for(&m, "wood", "buy"), vec![BookLevel { unit_price: 4, qty: 10 }]);

    let mine = db.open_orders_for_character(&m, &buyer);
    db.cancel_order(&buyer, &mine[0].id);
    assert_eq!(
        db.character_gold(&buyer), start - fee,
        "escrow returned, listing fee kept"
    );

    // A bid crossing only the cheap level takes that level and rests the
    // rest of its size at its own price.
    let out = buy(&mut db, &m, &buyer, "wood", 5, 15);
    assert_eq!((out.filled, out.spent), (10, 50));
    assert_eq!(out.resting_qty, 5, "the uncrossed remainder rests");

    // Gold bounds the ESCROW, so an order is sized to what can be afforded.
    db.cancel_order(&buyer, &db.open_orders_for_character(&m, &buyer)[0].id);
    let purse = db.character_gold(&buyer);
    let out = buy(&mut db, &m, &buyer, "wood", 50, 100);
    assert_eq!(out.filled + out.resting_qty, purse / 50, "sized by the purse, not the ask");
}

#[test]
fn you_cannot_trade_with_your_own_resting_order() {
    let mut db = Db::new();
    let m = a_market(&mut db);
    let cid = a_seller(&mut db, &m, "wood", 20);
    sell(&mut db, &m, &cid, "wood", 5, 10);
    let gold = db.character_gold(&cid);

    // Crossing your own ask matches nothing — and the ask SURVIVES, rather
    // than being cancelled out from under you.
    let out = buy(&mut db, &m, &cid, "wood", 99, 10);
    assert_eq!((out.filled, out.spent), (0, 0), "self-match is skipped, not executed");
    assert_eq!(db.book_for(&m, "wood", "sell").len(), 1, "the ask survives");

    assert!(out.resting_qty > 0, "the unmatched buy rests");
    let mine = db.open_orders_for_character(&m, &cid);
    let buy_order = mine.iter().find(|o| o.side == "buy").unwrap();
    db.cancel_order(&cid, &buy_order.id);
    assert_eq!(
        db.character_gold(&cid), gold - out.listing_fee,
        "no wash trade: escrow came back, only the listing fee was spent"
    );
}

#[test]
fn a_resting_buy_is_filled_by_a_later_seller_at_the_bid() {
    let mut db = Db::new();
    let m = a_market(&mut db);

    // A buyer rests a bid at 9 with nothing to cross.
    let buyer = a_character(&mut db);
    let buyer_start = db.character_gold(&buyer);
    let out = buy(&mut db, &m, &buyer, "wood", 9, 10);
    assert_eq!(out.resting_qty, 10);
    let bid_fee = out.listing_fee;
    assert_eq!(db.character_gold(&buyer), buyer_start - 90 - bid_fee);

    // A seller arrives asking 6 — below the bid, so it crosses. The RESTING
    // order's price wins, so the seller is paid 9, not their own 6.
    let seller = a_seller(&mut db, &m, "wood", 20);
    let seller_start = db.character_gold(&seller);
    let out = sell(&mut db, &m, &seller, "wood", 6, 4);
    assert_eq!(out.filled, 4);
    assert_eq!(out.earned, 36, "4 x the resting bid of 9, not the 6 asked");
    // Net of the sale tax on that fill, and of what they paid to list.
    assert_eq!(
        db.character_gold(&seller),
        seller_start + 36 - test_cfg().sale_tax(36) - out.listing_fee
    );

    assert_eq!(db.character_gold(&buyer), buyer_start - 90 - bid_fee);
    let held: i64 = db.warehouse_for_character(&m, &buyer)
        .iter().filter(|r| r.item_id == "wood").map(|r| r.qty).sum();
    assert_eq!(held, 4, "goods landed with the resting buyer");
    assert_eq!(db.book_for(&m, "wood", "buy"), vec![BookLevel { unit_price: 9, qty: 6 }]);
}

#[test]
fn the_book_never_crosses_and_sweeps_in_price_time_order() {
    let mut db = Db::new();
    let m = a_market(&mut db);
    let s1 = a_seller(&mut db, &m, "wood", 30);
    let s2 = a_seller(&mut db, &m, "wood", 30);

    // Two asks at the SAME price; s1's is older, so it must fill first.
    sell(&mut db, &m, &s1, "wood", 7, 5);
    sell(&mut db, &m, &s2, "wood", 7, 5);
    let s1_gold = db.character_gold(&s1);
    let s2_gold = db.character_gold(&s2);

    let buyer = a_character(&mut db);
    buy(&mut db, &m, &buyer, "wood", 7, 5);
    assert_eq!(
        db.character_gold(&s1), s1_gold + 35 - test_cfg().sale_tax(35),
        "oldest at the level fills first"
    );
    assert_eq!(db.character_gold(&s2), s2_gold, "the newer one is untouched");

    // After every command the book must not cross between different
    // owners: a resting order can only survive because nothing on the
    // other side was both crossable AND someone else's. (`book_health`
    // encodes exactly that, including the same-owner exemption that
    // self-match prevention deliberately creates.)
    for _ in 0..5 {
        buy(&mut db, &m, &buyer, "wood", 6, 3);
        sell(&mut db, &m, &s1, "wood", 8, 3);
        let bids = db.book_for(&m, "wood", "buy");
        let asks = db.book_for(&m, "wood", "sell");
        if let (Some(b), Some(a)) = (bids.first(), asks.first()) {
            assert!(b.unit_price < a.unit_price, "book crossed: bid {} >= ask {}", b.unit_price, a.unit_price);
        }
        assert!(db.book_health().is_empty(), "invariants hold");
    }

    // And the exemption is real: one player holding both sides of a cross
    // is CORRECT, not a fault — they simply can't trade with themselves.
    let solo = a_seller(&mut db, &m, "wood", 10);
    sell(&mut db, &m, &solo, "wood", 4, 5);
    buy(&mut db, &m, &solo, "wood", 20, 5);
    assert!(
        db.book_health().is_empty(),
        "a self-crossed book is what self-match prevention leaves behind, not corruption"
    );
}

#[test]
fn expiry_releases_escrow_exactly_like_a_cancel() {
    let mut db = Db::new();
    let m = a_market(&mut db);
    let seller = a_seller(&mut db, &m, "wood", 20);
    let buyer = a_character(&mut db);
    let buyer_start = db.character_gold(&buyer);

    // One of each side, both expiring at t=100.
    db.place_order(&m, &seller, "sell", "wood", 9, 20, 100, &test_cfg(), "", 0).unwrap();
    let bid = db.place_order(&m, &buyer, "buy", "wood", 4, 10, 100, &test_cfg(), "", 0).unwrap();
    let bid_fee = bid.listing_fee;
    assert_eq!(db.character_gold(&buyer), buyer_start - 40 - bid_fee);

    // Not due yet: nothing moves.
    assert!(db.expire_orders(99).is_empty());
    assert_eq!(db.character_gold(&buyer), buyer_start - 40 - bid_fee);

    let expired = db.expire_orders(100);
    assert_eq!(expired.len(), 2);
    assert_eq!(
        db.character_gold(&buyer), buyer_start - bid_fee,
        "escrowed gold returned; expiry refunds no more than a cancel does"
    );
    let held = db.warehouse_for_character(&m, &seller);
    assert!(held.iter().all(|r| r.state == "available"), "goods un-escrowed");
    assert_eq!(held.iter().map(|r| r.qty).sum::<i64>(), 20);
    assert!(db.book_for(&m, "wood", "sell").is_empty());

    db.place_order(&m, &seller, "sell", "wood", 9, 5, 0, &test_cfg(), "", 0).unwrap();
    assert!(db.expire_orders(i64::MAX).is_empty(), "0 means no expiry, not long past");
}

#[test]
fn the_open_order_cap_is_enforced() {
    let mut db = Db::new();
    let m = a_market(&mut db);
    let cid = a_seller(&mut db, &m, "wood", 30);
    // A cap of 3, not the shipped 40 — the point is the boundary, and this
    // is also the one test that must NOT use the shared `test_cfg()`, whose
    // cap is deliberately raised out of the way of deep-book tests.
    let capped = MarketConfig { max_open_orders: 3, ..test_cfg() };
    for i in 0..3 {
        let out = db.place_order(&m, &cid, "sell", "wood", 5 + i, 2, NO_EXPIRY, &capped, "", 0)
            .unwrap();
        assert!(out.resting_order_id.is_some(), "order {i} should rest");
    }
    // At the cap: refused outright, and nothing is escrowed for it.
    let held_before: i64 = db.warehouse_for_character(&m, &cid)
        .iter().filter(|r| r.state == "locked").map(|r| r.qty).sum();
    let out = db.place_order(&m, &cid, "sell", "wood", 9, 2, NO_EXPIRY, &capped, "", 0).unwrap();
    assert!(out.resting_order_id.is_none());
    assert_eq!(out.filled, 0);
    let held_after: i64 = db.warehouse_for_character(&m, &cid)
        .iter().filter(|r| r.state == "locked").map(|r| r.qty).sum();
    assert_eq!(held_before, held_after, "a refused order escrows nothing");
}

#[test]
fn spoofing_the_book_bleeds_gold() {
    let mut db = Db::new();
    let m = a_market(&mut db);
    let spoofer = a_seller(&mut db, &m, "wood", 40);
    let start = db.character_gold(&spoofer);

    // Post and pull, ten times over, on both sides. Nothing ever trades.
    for i in 0..10 {
        let s = sell(&mut db, &m, &spoofer, "wood", 20 + i, 4);
        let b = buy(&mut db, &m, &spoofer, "wood", 2, 4);
        for id in [s.resting_order_id, b.resting_order_id].into_iter().flatten() {
            db.cancel_order(&spoofer, &id);
        }
    }
    let end = db.character_gold(&spoofer);
    assert!(end < start, "spoofing must cost something (was {start}, now {end})");
    assert_eq!(
        db.recent_trades(&m, "wood", 10).len(), 0,
        "and it never actually traded"
    );
    // Everything lost went to the sink, nowhere else.
    assert_eq!(start - end, db.total_fees_burned());

    // Stock is untouched — only gold was spent.
    let held: i64 = db.warehouse_for_character(&m, &spoofer)
        .iter().filter(|r| r.item_id == "wood").map(|r| r.qty).sum();
    assert_eq!(held, 40, "the goods came back every time");
}

#[test]
fn an_order_you_cannot_pay_the_fee_on_is_refused_outright() {
    let mut db = Db::new();
    let m = a_market(&mut db);
    let cid = a_seller(&mut db, &m, "wood", 20);

    // Drain the purse to nothing, so even the 1-gold floor is out of reach.
    let purse = db.character_gold(&cid);
    set_gold(&mut db, &cid, 0);
    assert!(purse > 0);

    let out = sell(&mut db, &m, &cid, "wood", 5, 20);
    assert!(out.fee_unaffordable, "should refuse for want of the fee, not silently");
    assert!(out.resting_order_id.is_none());
    // And critically: nothing was escrowed against an order that was never
    // placed — the goods are all still available.
    let available: i64 = db.warehouse_for_character(&m, &cid)
        .iter().filter(|r| r.state == "available").map(|r| r.qty).sum();
    assert_eq!(available, 20, "no goods stranded in escrow");
    assert!(db.book_for(&m, "wood", "sell").is_empty());
    assert_eq!(db.total_fees_burned(), 0, "and nothing was charged");
}

#[test]
fn the_fee_ledger_accounts_for_every_burn_by_kind() {
    let mut db = Db::new();
    let m = a_market(&mut db);
    let seller = a_seller(&mut db, &m, "wood", 20);
    let buyer = a_character(&mut db);
    sell(&mut db, &m, &seller, "wood", 8, 10);
    buy(&mut db, &m, &buyer, "wood", 8, 10);

    let by_kind = db.fees_by_kind(&m);
    let listing: i64 = by_kind.iter().filter(|(k, _)| k == "listing").map(|(_, g)| g).sum();
    let tax: i64 = by_kind.iter().filter(|(k, _)| k == "sale_tax").map(|(_, g)| g).sum();
    assert_eq!(listing, test_cfg().listing_fee(80) * 2, "both sides paid to list");
    assert_eq!(tax, test_cfg().sale_tax(80), "the seller paid tax on the fill");
    assert_eq!(listing + tax, db.total_fees_burned());
}

#[test]
fn pruning_history_never_touches_the_trade_ledger() {
    let mut db = Db::new();
    let m = "mkt";
    const H: i64 = 3600;
    const DAY: i64 = 86_400;
    a_trade(&mut db, m, "wood", 10, 1, 0);
    a_trade(&mut db, m, "wood", 20, 1, 40 * DAY);
    db.roll_up_candles(H, 0, 41 * DAY);
    assert_eq!(db.candles(m, "wood", H, 0, 41 * DAY).len(), 2);

    // Prune everything before day 30.
    let pruned = db.prune_candles(30 * DAY);
    assert_eq!(pruned, 1, "only the out-of-window candle went");
    let left = db.candles(m, "wood", H, 0, 41 * DAY);
    assert_eq!(left.len(), 1);
    assert_eq!(left[0].close, 20);

    // The LEDGER is untouched — which is why pruned history is recoverable.
    let ledger: i64 = db.trades.len() as i64;
    assert_eq!(ledger, 2, "the append-only ledger must never be pruned");
    db.rebuild_all_candles(H);
    assert_eq!(
        db.candles(m, "wood", H, 0, 41 * DAY).len(), 2,
        "and so pruned candles can be rebuilt from it"
    );
}

#[test]
fn real_trades_produce_history() {
    let mut db = Db::new();
    let m = a_market(&mut db);
    let seller = a_seller(&mut db, &m, "wood", 30);
    let buyer = a_character(&mut db);
    sell(&mut db, &m, &seller, "wood", 8, 10);
    buy(&mut db, &m, &buyer, "wood", 8, 6);

    let now = now_secs();
    db.roll_up_candles(test_cfg().candle_interval_secs, 0, now + 1);
    let c = db.candles(&m, "wood", test_cfg().candle_interval_secs, 0, now + 1);
    assert_eq!(c.len(), 1);
    assert_eq!((c[0].open, c[0].close, c[0].volume), (8, 8, 6));
}

#[test]
fn matching_is_deterministic() {
    fn run() -> String {
        let mut db = Db::new();
        let m = a_market(&mut db);
        let s = a_seller(&mut db, &m, "wood", 40);
        let b = a_character(&mut db);
        for (side, price, qty) in [
            ("sell", 9, 5), ("sell", 7, 6), ("sell", 8, 4),
            ("buy", 8, 7), ("buy", 12, 6), ("sell", 6, 3), ("buy", 5, 4),
        ] {
            let who = if side == "sell" { &s } else { &b };
            db.place_order(&m, who, side, "wood", price, qty, NO_EXPIRY, &test_cfg(), "", 0)
                .unwrap();
        }
        // The ledger, minus the ids/timestamps that are meant to differ.
        db.recent_trades(&m, "wood", 100)
            .iter()
            .map(|t| format!("{}@{}x{}", t.item_id, t.unit_price, t.qty))
            .collect::<Vec<_>>()
            .join(",")
    }
    let first = run();
    assert!(!first.is_empty(), "the fixture should actually trade");
    assert_eq!(first, run(), "same commands, same trade log");
}

#[test]
fn a_sell_order_escrows_only_what_the_seller_actually_holds() {
    let mut db = Db::new();
    let m = a_market(&mut db);
    let cid = a_seller(&mut db, &m, "wood", 20);

    // Offering 50 while holding 20 rests an order for 20 — never a promise
    // the seller can't keep.
    let order = sell(&mut db, &m, &cid, "wood", 5, 50);
    assert_eq!(order.resting_qty, 20);
    assert!(order.resting_order_id.is_some());
    let held = db.warehouse_for_character(&m, &cid);
    assert!(held.iter().all(|r| r.state == "locked"), "all of it is escrowed");

    // With nothing left available, a second order rests nothing at all.
    let nothing = sell(&mut db, &m, &cid, "wood", 5, 5);
    assert_eq!((nothing.resting_qty, nothing.filled), (0, 0));
    assert!(nothing.resting_order_id.is_none());
}

#[test]
fn cancelling_a_sell_order_returns_the_unsold_escrow() {
    let mut db = Db::new();
    let m = a_market(&mut db);
    let seller = a_seller(&mut db, &m, "wood", 20);
    let order_id = sell(&mut db, &m, &seller, "wood", 5, 20).resting_order_id.unwrap();

    // Sell half of it first, so the cancel has to return the REMAINDER.
    let buyer = a_character(&mut db);
    buy(&mut db, &m, &buyer, "wood", 5, 8);

    // Someone else can't cancel it.
    assert!(db.cancel_order(&buyer, &order_id).is_none());

    assert!(db.cancel_order(&seller, &order_id).is_some());
    let held = db.warehouse_for_character(&m, &seller);
    let available: i64 = held.iter().filter(|r| r.state == "available").map(|r| r.qty).sum();
    let locked: i64 = held.iter().filter(|r| r.state == "locked").map(|r| r.qty).sum();
    assert_eq!((available, locked), (12, 0), "the 12 unsold come back, the 8 sold are gone");
    assert!(db.book_for(&m, "wood", "sell").is_empty());
}

#[test]
fn a_repeated_command_id_never_places_or_buys_twice() {
    let mut db = Db::new();
    let m = a_market(&mut db);
    let seller = a_seller(&mut db, &m, "wood", 30);

    assert!(place(&mut db, &m, &seller, "sell", 5, 10, "cmd-1").resting_order_id.is_some());
    let resent = place(&mut db, &m, &seller, "sell", 5, 10, "cmd-1");
    assert!(resent.resting_order_id.is_none(), "a resent placement is a no-op, not a second order");
    assert_eq!(resent.filled, 0);
    assert_eq!(
        db.book_for(&m, "wood", "sell"),
        vec![BookLevel { unit_price: 5, qty: 10 }],
        "still exactly one order's worth on the book"
    );

    let buyer = a_character(&mut db);
    let purse = db.character_gold(&buyer);
    assert_eq!(place(&mut db, &m, &buyer, "buy", 5, 4, "cmd-2").filled, 4);
    let charged = db.character_gold(&buyer);
    let second = place(&mut db, &m, &buyer, "buy", 5, 4, "cmd-2");
    assert_eq!((second.filled, second.spent), (0, 0), "a resent buy doesn't double-charge");
    assert_eq!(db.character_gold(&buyer), charged, "and escrows nothing either");
    assert!(charged < purse);
    assert_eq!(db.recent_trades(&m, "wood", 10).len(), 1);
}
