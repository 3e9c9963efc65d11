use ideal_city::persistence::db::Db;
use ideal_city::persistence::rows::{Candle, MarketTrade};

/// Write a trade straight onto the ledger. The rollup only reads
/// `market_trade`, so a fixture doesn't need the whole matching engine to
/// exercise it — and driving it directly is what lets a test pin exact
/// timestamps and orderings.
fn a_trade(db: &mut Db, market: &str, item: &str, price: i64, qty: i64, at: i64) {
    let id = format!("t{}", db.trades.len());
    db.trades.push(MarketTrade {
        id,
        market_id: market.to_string(),
        item_id: item.to_string(),
        unit_price: price,
        qty,
        seller_id: "s".to_string(),
        buyer_id: "b".to_string(),
        sale_tax_gold: 0,
        listing_fee_gold: 0,
        created_at: at,
    });
}

#[test]
fn candles_roll_up_ohlcv_and_leave_quiet_hours_as_gaps() {
    let mut db = Db::new();
    let m = "mkt";
    const H: i64 = 3600;

    // Hour 0: four trades. Open 10, high 14, low 8, close 12, volume 10.
    a_trade(&mut db, m, "wood", 10, 1, 0);
    a_trade(&mut db, m, "wood", 14, 2, 100);
    a_trade(&mut db, m, "wood", 8, 3, 200);
    a_trade(&mut db, m, "wood", 12, 4, 3599);
    // Hour 1: nothing at all.
    // Hour 2: one trade.
    a_trade(&mut db, m, "wood", 20, 5, 2 * H + 10);

    db.roll_up_candles(H, 0, 3 * H);
    let c = db.candles(m, "wood", H, 0, 3 * H);
    assert_eq!(c.len(), 2, "the quiet hour is a GAP, not a fabricated flat candle");
    assert_eq!(
        c[0],
        Candle { bucket_start: 0, open: 10, high: 14, low: 8, close: 12, volume: 10, trades: 4 }
    );
    assert_eq!(
        c[1],
        Candle { bucket_start: 2 * H, open: 20, high: 20, low: 20, close: 20, volume: 5, trades: 1 }
    );

    // Open/close follow LEDGER order, not price order — a later cheaper
    // trade still closes the candle.
    assert!(c[0].close < c[0].open || c[0].close != c[0].high);
}

#[test]
fn a_trade_on_an_interval_boundary_lands_in_exactly_one_candle() {
    let mut db = Db::new();
    let m = "mkt";
    const H: i64 = 3600;

    // One second before the boundary, exactly on it, and one after.
    a_trade(&mut db, m, "wood", 5, 1, H - 1);
    a_trade(&mut db, m, "wood", 6, 1, H);
    a_trade(&mut db, m, "wood", 7, 1, H + 1);
    db.roll_up_candles(H, 0, 3 * H);
    let c = db.candles(m, "wood", H, 0, 3 * H);

    assert_eq!(c.len(), 2);
    assert_eq!((c[0].bucket_start, c[0].trades), (0, 1), "the earlier hour keeps only its own");
    assert_eq!(
        (c[1].bucket_start, c[1].trades, c[1].open, c[1].close), (H, 2, 6, 7),
        "a trade exactly on the boundary OPENS the new hour"
    );
    let total: i64 = c.iter().map(|x| x.trades).sum();
    assert_eq!(total, 3, "every trade counted exactly once");
}

#[test]
fn candles_are_per_market_and_per_commodity() {
    let mut db = Db::new();
    const H: i64 = 3600;
    a_trade(&mut db, "m1", "wood", 10, 1, 10);
    a_trade(&mut db, "m1", "stone", 99, 1, 20);
    a_trade(&mut db, "m2", "wood", 50, 1, 30);
    db.roll_up_candles(H, 0, H);

    assert_eq!(db.candles("m1", "wood", H, 0, H)[0].close, 10);
    assert_eq!(db.candles("m1", "stone", H, 0, H)[0].close, 99);
    assert_eq!(db.candles("m2", "wood", H, 0, H)[0].close, 50,
        "the same commodity at another market has its own price");
}

#[test]
fn rebuilding_candles_from_scratch_reproduces_them_identically() {
    let mut db = Db::new();
    let m = "mkt";
    const H: i64 = 3600;
    let mut seed: u64 = 0xc0ffee;
    let mut next = move || {
        seed = seed.wrapping_mul(6364136223846793005).wrapping_add(1442695040888963407);
        (seed >> 33) as i64
    };
    for i in 0..60 {
        let at = i * 400 + next() % 300;
        let item = if next() % 2 == 0 { "wood" } else { "stone" };
        a_trade(&mut db, m, item, 1 + next() % 40, 1 + next() % 6, at);
    }

    // Incremental: roll up hour by hour, as the background job does.
    for h in 0..8 {
        db.roll_up_candles(H, h * H, (h + 1) * H);
    }
    let incremental = (
        db.candles(m, "wood", H, 0, 10 * H),
        db.candles(m, "stone", H, 0, 10 * H),
    );
    assert!(!incremental.0.is_empty() && !incremental.1.is_empty(), "the fixture should produce candles");

    // From scratch: wipe and recompute everything at once.
    db.rebuild_all_candles(H);
    let rebuilt = (
        db.candles(m, "wood", H, 0, 10 * H),
        db.candles(m, "stone", H, 0, 10 * H),
    );
    assert_eq!(incremental, rebuilt, "a rebuild must reproduce the cache exactly");

    // And re-running the same range is idempotent, not additive.
    db.roll_up_candles(H, 0, 10 * H);
    assert_eq!(
        db.candles(m, "wood", H, 0, 10 * H), rebuilt.0,
        "rolling up twice must not double-count"
    );
}
