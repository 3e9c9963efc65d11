use ideal_city::market_config::MarketConfig;
use ideal_city::persistence::db::Db;
use ideal_city::persistence::inventory::MAX_CARRY;
use ideal_city::persistence::market::BuyOutcome;
use ideal_city::persistence::rows::{InventoryItem, MarketOrder, OrderRecord};
use ideal_city::util::now_secs;

fn a_character(db: &mut Db) -> String {
    let email = format!("c_{}@t.test", db.accounts.len());
    let (_a, c) = db.create_account_with_character(&email, "h", "Hero", 0, 0, 100);
    c.id
}

fn qty_of(items: &[InventoryItem], item: &str) -> i64 {
    items.iter().filter(|i| i.item_id == item).map(|i| i.qty).sum()
}

fn a_market(db: &mut Db) -> String {
    db.insert_build_order("civic", "market", r#"{"wood":1}"#, "completed", 0, None, 0, None, None)
        .id
}

fn another_market(db: &mut Db) -> String {
    db.insert_build_order("market", "market_east", r#"{"wood":1}"#, "completed", 0, None, 0, None, None)
        .id
}

const NO_EXPIRY: i64 = i64::MAX;

fn test_cfg() -> MarketConfig {
    MarketConfig { max_open_orders: 1000, ..MarketConfig::default() }
}

fn sell(db: &mut Db, m: &str, who: &str, item: &str, price: i64, qty: i64) -> BuyOutcome {
    db.place_order(m, who, "sell", item, price, qty, NO_EXPIRY, &test_cfg(), "", 0)
        .unwrap()
}

fn buy(db: &mut Db, m: &str, who: &str, item: &str, price: i64, qty: i64) -> BuyOutcome {
    db.place_order(m, who, "buy", item, price, qty, NO_EXPIRY, &test_cfg(), "", 0)
        .unwrap()
}

/// A seller stocked at a market, ready to rest orders.
fn a_seller(db: &mut Db, market: &str, item: &str, qty: i64) -> String {
    let cid = a_character(db);
    db.add_to_inventory(&cid, item, qty);
    db.warehouse_deposit(market, &cid, item, qty, 60);
    cid
}

/// The identity the whole ledger exists for: everything ever minted, minus
/// everything ever burned, equals what is in purses plus what is escrowed.
///
/// Driven through every path that touches gold — creating characters,
/// earning wages, trading, paying fees, resting and cancelling orders, and
/// paying rent — because a ledger that only balances on the paths someone
/// remembered to wire up is worth nothing.
#[test]
fn gold_is_conserved_against_the_ledger() {
    let mut db = Db::new();
    assert_eq!(db.gold_supply(), 0, "an empty world has no money");
    assert_eq!(db.gold_supply_gap(), 0);

    let m = a_market(&mut db);
    let seller = a_seller(&mut db, &m, "wood", 40);
    let buyer = a_character(&mut db);
    assert_eq!(
        db.gold_supply(),
        db.character_gold(&seller) + db.character_gold(&buyer),
        "creating characters is the game's oldest faucet and must be recorded"
    );
    assert_eq!(db.gold_supply_gap(), 0);

    // Wages: a genuine mint, so the supply GROWS.
    let before = db.gold_supply();
    let order = db.insert_build_order("civic", "town_well", r#"{"wood":20}"#, "open", 0, None, 0, None, None);
    db.add_to_inventory(&seller, "wood", 20);
    let res = db.contribute(&seller, &order.id, "wood", 20, 1);
    assert!(res.wages > 0, "the city should have paid something");
    assert_eq!(
        db.gold_supply(),
        before + res.wages,
        "wages must show up as newly created gold"
    );
    assert_eq!(db.gold_supply_gap(), 0);

    // Trading moves gold and burns fees; it must never MINT any.
    let after_wages = db.gold_supply();
    sell(&mut db, &m, &seller, "wood", 9, 10);
    buy(&mut db, &m, &buyer, "wood", 12, 10);
    buy(&mut db, &m, &buyer, "wood", 3, 5);
    assert_eq!(db.gold_supply_gap(), 0, "escrowed gold went missing");
    let burned = db.total_fees_burned();
    assert!(burned > 0);
    assert_eq!(
        db.gold_supply(),
        after_wages - burned,
        "trading created gold — only fees should have moved the supply, downward"
    );

    let supply = db.gold_supply();
    let open = db.open_orders_for_character(&m, &buyer);
    for o in open.iter().filter(|o| o.side == "buy") {
        db.cancel_order(&buyer, &o.id);
    }
    assert_eq!(db.gold_supply(), supply, "a refund is not a mint");
    assert_eq!(db.gold_supply_gap(), 0);

    // Rent destroys gold, and the ledger has to see that too or the
    // faucets would look unopposed.
    db.insert_unowned_plot("suburbs", 0, 0, 80, 80, 0);
    let plot = db.claim_plot(&buyer, "suburbs", 3600, 0).unwrap();
    let supply = db.gold_supply();
    assert!(db.pay_rent_with_gold(&buyer, &plot.id, 25, 3600, 100).unwrap().is_some());
    assert_eq!(
        db.gold_supply(),
        supply - 25,
        "rent paid to the city is gold destroyed, and must be recorded as such"
    );
    assert_eq!(db.gold_supply_gap(), 0);
}

#[test]
fn fee_ledgers_agree() {
    let mut db = Db::new();
    let m = a_market(&mut db);
    let seller = a_seller(&mut db, &m, "wood", 40);
    let buyer = a_character(&mut db);
    sell(&mut db, &m, &seller, "wood", 9, 20);
    buy(&mut db, &m, &buyer, "wood", 12, 20);

    let by_reason = db.gold_by_reason();
    let ledger_fees: i64 = by_reason
        .iter()
        .filter(|(r, _)| r == "market_fee")
        .map(|(_, g)| *g)
        .sum();
    assert!(ledger_fees < 0, "burns are negative on the supply ledger");
    assert_eq!(
        -ledger_fees,
        db.total_fees_burned(),
        "the fee table and the supply ledger disagree about what was burned"
    );
}

#[test]
fn the_ledger_names_every_faucet() {
    let mut db = Db::new();
    let m = a_market(&mut db);
    let who = a_seller(&mut db, &m, "wood", 40);
    let order = db.insert_build_order("civic", "town_well", r#"{"wood":20}"#, "open", 0, None, 0, None, None);
    db.add_to_inventory(&who, "wood", 20);
    db.contribute(&who, &order.id, "wood", 20, 1);
    sell(&mut db, &m, &who, "wood", 9, 10);

    let reasons: Vec<String> =
        db.gold_by_reason().into_iter().map(|(r, _)| r).collect();
    assert!(reasons.contains(&"character_start".to_string()), "{reasons:?}");
    assert!(reasons.contains(&"build_wage".to_string()), "{reasons:?}");
    assert!(reasons.contains(&"market_fee".to_string()), "{reasons:?}");
}

#[test]
fn two_markets_keep_separate_books() {
    let mut db = Db::new();
    let a = a_market(&mut db);
    let b = another_market(&mut db);
    assert_ne!(a, b);

    // A seller stocked and resting at A only.
    let sa = a_seller(&mut db, &a, "wood", 30);
    sell(&mut db, &a, &sa, "wood", 9, 10);
    let sa_gold = db.character_gold(&sa);

    // A's book has depth; B's is empty. If any query fetched "the" book
    // rather than this market's, B would be showing A's asks.
    assert_eq!(db.book_for(&a, "wood", "sell").len(), 1);
    assert!(
        db.book_for(&b, "wood", "sell").is_empty(),
        "market B is showing market A's asks"
    );

    // A buy at B that WOULD cross A's ask must not match it — it rests,
    // because there is nothing here to trade with.
    let buyer = a_character(&mut db);
    let out = buy(&mut db, &b, &buyer, "wood", 20, 10);
    assert_eq!(out.filled, 0, "a bid at B matched an ask at A");
    assert!(out.resting_order_id.is_some(), "it should rest at B instead");
    assert_eq!(
        db.book_for(&a, "wood", "sell")[0].qty, 10,
        "A's ask was consumed by a trade at B"
    );
    assert_eq!(
        db.character_gold(&sa), sa_gold,
        "A's seller was paid for a trade that happened at B"
    );

    // The same bid at A does cross, so the setup was genuinely tradable.
    let out = buy(&mut db, &a, &buyer, "wood", 20, 10);
    assert_eq!(out.filled, 10, "the same bid at A should sweep A's ask");
}

#[test]
fn warehouse_stock_does_not_follow_a_player_between_markets() {
    let mut db = Db::new();
    let a = a_market(&mut db);
    let b = another_market(&mut db);
    let who = a_character(&mut db);

    db.add_to_inventory(&who, "wood", 20);
    db.warehouse_deposit(&a, &who, "wood", 20, 60);

    assert_eq!(
        db.warehouse_for_character(&a, &who).iter().map(|r| r.qty).sum::<i64>(),
        20
    );
    assert!(
        db.warehouse_for_character(&b, &who).is_empty(),
        "stock deposited at A is visible at B — the haul would be meaningless"
    );

    let out = sell(&mut db, &b, &who, "wood", 9, 20);
    assert_eq!(out.resting_order_id, None, "sold stock that is held at another market");

    // The full haul: withdraw at A, carry, deposit at B — and now it sells.
    assert_eq!(db.warehouse_withdraw(&a, &who, "wood", 20), 20);
    assert_eq!(qty_of(&db.inventory_for_character(&who), "wood"), 20);
    db.warehouse_deposit(&b, &who, "wood", 20, 60);
    let out = sell(&mut db, &b, &who, "wood", 9, 20);
    assert!(out.resting_order_id.is_some(), "the hauled goods should be sellable at B");
    assert!(
        db.warehouse_for_character(&a, &who).is_empty(),
        "the goods should have LEFT A"
    );
}

#[test]
fn a_bid_at_one_market_above_an_ask_at_another_is_not_a_crossed_book() {
    let mut db = Db::new();
    let a = a_market(&mut db);
    let b = another_market(&mut db);

    let seller = a_seller(&mut db, &b, "wood", 20);
    sell(&mut db, &b, &seller, "wood", 5, 10);
    let buyer = a_character(&mut db);
    buy(&mut db, &a, &buyer, "wood", 12, 10);

    let problems = db.book_health();
    assert!(
        problems.is_empty(),
        "cross-market price divergence reported as a fault: {problems:?}"
    );

    // Negative control: the check must not have simply stopped looking. A
    // genuine same-market cross CANNOT be produced through `place_order` —
    // the engine would match it on the spot — which is the whole reason the
    // invariant exists: it catches corruption, not normal operation. So the
    // corruption is injected directly, the way a real bug would leave it.
    let s2 = a_seller(&mut db, &a, "wood", 20);
    db.orders.push(OrderRecord {
        order: MarketOrder {
            id: "injected".to_string(),
            market_id: a.clone(),
            character_id: s2.clone(),
            side: "sell".to_string(),
            item_id: "wood".to_string(),
            unit_price: 5,
            qty_total: 10,
            qty_remaining: 10,
            created_seq: 9999,
            created_at: 0,
        },
        expires_at: 0,
    });
    let problems = db.book_health();
    assert!(
        problems.iter().any(|p| p.contains("crossed book")),
        "a genuine same-market cross should still be caught: {problems:?}"
    );
}

/// A trade at one market must not show up in another's price history.
/// Candles are what a player reads a market's prices off, so leakage would
/// paint the capital's prices onto the remote market's chart and destroy the
/// very signal that makes hauling a decision worth making.
#[test]
fn candles_and_trades_do_not_leak_between_markets() {
    let mut db = Db::new();
    let a = a_market(&mut db);
    let b = another_market(&mut db);
    let interval = test_cfg().candle_interval_secs;

    // One fill at each market, at deliberately different prices.
    let sa = a_seller(&mut db, &a, "wood", 10);
    sell(&mut db, &a, &sa, "wood", 12, 5);
    let ba = a_character(&mut db);
    buy(&mut db, &a, &ba, "wood", 12, 5);

    let sb = a_seller(&mut db, &b, "wood", 10);
    sell(&mut db, &b, &sb, "wood", 4, 5);
    let bb = a_character(&mut db);
    buy(&mut db, &b, &bb, "wood", 4, 5);

    let now = now_secs();
    db.roll_up_candles(interval, 0, now + 1);

    let ca = db.candles(&a, "wood", interval, 0, now + interval);
    let cb = db.candles(&b, "wood", interval, 0, now + interval);
    assert_eq!(ca.len(), 1, "capital should have exactly its own candle");
    assert_eq!(cb.len(), 1, "the remote market should have exactly its own candle");
    assert_eq!((ca[0].close, ca[0].volume), (12, 5), "capital's candle");
    assert_eq!((cb[0].close, cb[0].volume), (4, 5), "remote market's candle");

    // And the trade ledger reads are likewise scoped.
    let ta = db.recent_trades(&a, "wood", 10);
    let tb = db.recent_trades(&b, "wood", 10);
    assert_eq!(ta.len(), 1);
    assert_eq!(tb.len(), 1);
    assert_eq!(ta[0].unit_price, 12);
    assert_eq!(tb[0].unit_price, 4);
}

/// The open-order cap counts `market_id = ? AND character_id = ?`, so a
/// second market genuinely doubles a player's resting capacity. That IS the
/// intent — the cap exists to bound one book's size, not a player's total
/// ambition — but it only becomes true once a second market exists, so it's
/// worth pinning deliberately rather than discovering later.
#[test]
fn the_open_order_cap_is_per_market_not_global() {
    let mut db = Db::new();
    let a = a_market(&mut db);
    let b = another_market(&mut db);
    let who = a_character(&mut db);
    db.add_to_inventory(&who, "wood", 40);
    db.warehouse_deposit(&a, &who, "wood", 20, 60);
    db.warehouse_deposit(&b, &who, "wood", 20, 60);
    let capped = MarketConfig { max_open_orders: 2, ..test_cfg() };

    for i in 0..2 {
        let o = db.place_order(&a, &who, "sell", "wood", 5 + i, 2, NO_EXPIRY, &capped, "", 0)
            .unwrap();
        assert!(o.resting_order_id.is_some(), "order {i} should rest at A");
    }
    let o = db.place_order(&a, &who, "sell", "wood", 9, 2, NO_EXPIRY, &capped, "", 0)
        .unwrap();
    assert!(o.resting_order_id.is_none(), "the cap should bind at A");
    let o = db.place_order(&b, &who, "sell", "wood", 9, 2, NO_EXPIRY, &capped, "", 0)
        .unwrap();
    assert!(o.resting_order_id.is_some(), "the cap must not be global");
}

#[test]
fn two_markets_conserve_goods_and_gold_between_them() {
    let mut db = Db::new();
    let a = a_market(&mut db);
    let b = another_market(&mut db);

    let hauler = a_character(&mut db);
    db.add_to_inventory(&hauler, "wood", 40);
    let buyer_a = a_character(&mut db);
    let buyer_b = a_character(&mut db);
    let who = [hauler.as_str(), buyer_a.as_str(), buyer_b.as_str()];

    let total_wood = 40i64;
    let total_gold: i64 = {
        let mut g = 0;
        for w in who {
            g += db.character_gold(w);
        }
        g
    };

    fn wood_everywhere(db: &Db, markets: &[&str], who: &[&str]) -> i64 {
        let mut n = 0i64;
        for w in who {
            n += qty_of(&db.inventory_for_character(w), "wood");
            for m in markets {
                n += db.warehouse_for_character(m, w)
                    .iter()
                    .filter(|r| r.item_id == "wood")
                    .map(|r| r.qty)
                    .sum::<i64>();
            }
        }
        n
    }

    fn gold_everywhere(db: &Db, who: &[&str]) -> i64 {
        let mut g = 0i64;
        for w in who {
            g += db.character_gold(w);
        }
        g
    }

    /// Escrowed gold is simply absent from purses, with the open buy book
    /// as its only record — so the books of BOTH markets are part of the
    /// accounting, not outside it.
    fn escrow_everywhere(db: &Db, markets: &[&str], who: &[&str]) -> i64 {
        let mut g = 0i64;
        for m in markets {
            for w in who {
                g += db.open_orders_for_character(m, w)
                    .iter()
                    .filter(|o| o.side == "buy")
                    .map(|o| o.unit_price * o.qty_remaining)
                    .sum::<i64>();
            }
        }
        g
    }

    // Split the stock across both markets, trade at both, and haul between.
    db.warehouse_deposit(&a, &hauler, "wood", 20, 60);
    db.warehouse_deposit(&b, &hauler, "wood", 20, 60);
    sell(&mut db, &a, &hauler, "wood", 10, 10);
    sell(&mut db, &b, &hauler, "wood", 4, 10);
    buy(&mut db, &a, &buyer_a, "wood", 10, 6);
    buy(&mut db, &b, &buyer_b, "wood", 4, 10);
    db.warehouse_withdraw(&b, &buyer_b, "wood", 5);
    db.warehouse_deposit(&a, &buyer_b, "wood", 5, 60);
    sell(&mut db, &a, &buyer_b, "wood", 11, 5);

    let markets = [a.as_str(), b.as_str()];
    assert_eq!(
        wood_everywhere(&db, &markets, &who),
        total_wood,
        "wood was created or destroyed across the two markets"
    );
    assert_eq!(
        gold_everywhere(&db, &who)
            + escrow_everywhere(&db, &markets, &who)
            + db.total_fees_burned(),
        total_gold,
        "gold was created or destroyed across the two markets"
    );
    assert!(db.book_health().is_empty(), "both books stay healthy");
}

/// is the test that matters most — duplication kills economies.
#[test]
fn trading_conserves_goods_and_gold() {
    let mut db = Db::new();
    let m = a_market(&mut db);
    let s = a_seller(&mut db, &m, "wood", 50);
    let b = a_character(&mut db);
    db.add_to_inventory(&b, "wood", 10);
    db.warehouse_deposit(&m, &b, "wood", 10, 60);

    let total_wood = 60;
    let total_gold = db.character_gold(&s) + db.character_gold(&b);

    fn wood_now(db: &Db, m: &str, who: &[&str]) -> i64 {
        let mut n = 0i64;
        for w in who {
            n += qty_of(&db.inventory_for_character(w), "wood");
            n += db.warehouse_for_character(m, w)
                .iter().filter(|r| r.item_id == "wood").map(|r| r.qty).sum::<i64>();
        }
        n
    }

    let mut seed: u64 = 0xfeed;
    let mut next = move || {
        seed = seed.wrapping_mul(6364136223846793005).wrapping_add(1442695040888963407);
        (seed >> 33) as i64
    };
    for step in 0..50 {
        match next() % 4 {
            0 => { sell(&mut db, &m, &s, "wood", 1 + next() % 9, 1 + next() % 7); }
            1 => { sell(&mut db, &m, &b, "wood", 1 + next() % 9, 1 + next() % 5); }
            2 => {
                let who = if next() % 2 == 0 { s.clone() } else { b.clone() };
                buy(&mut db, &m, &who, "wood", 1 + next() % 12, 1 + next() % 7);
            }
            _ => {
                let who = if next() % 2 == 0 { s.clone() } else { b.clone() };
                if let Some(o) = db.open_orders_for_character(&m, &who).first() {
                    db.cancel_order(&who, &o.id);
                }
            }
        }
        assert_eq!(
            wood_now(&db, &m, &[&s, &b]), total_wood,
            "wood conserved at step {step}"
        );
        let escrowed: i64 = db.open_orders_for_character(&m, &s)
            .iter()
            .chain(db.open_orders_for_character(&m, &b).iter())
            .filter(|o| o.side == "buy")
            .map(|o| o.unit_price * o.qty_remaining)
            .sum();
        assert_eq!(
            db.character_gold(&s)
                + db.character_gold(&b)
                + escrowed
                + db.total_fees_burned(),
            total_gold,
            "gold conserved at step {step}"
        );
        assert!(db.book_health().is_empty(), "book invariants hold at step {step}");
    }
}

#[test]
fn escrow_reconciles_against_the_open_book() {
    let mut db = Db::new();
    let m = a_market(&mut db);
    let s = a_seller(&mut db, &m, "wood", 30);
    sell(&mut db, &m, &s, "wood", 5, 12);
    sell(&mut db, &m, &s, "wood", 6, 8);

    for (item, book_qty, locked_qty) in db.escrow_reconciliation(&m) {
        assert_eq!(book_qty, locked_qty, "{item}: book says {book_qty}, escrow holds {locked_qty}");
    }

    // Still true after a partial fill and a cancel.
    let buyer = a_character(&mut db);
    buy(&mut db, &m, &buyer, "wood", 5, 7);
    let mine = db.open_orders_for_character(&m, &s);
    db.cancel_order(&s, &mine[0].id);
    for (item, book_qty, locked_qty) in db.escrow_reconciliation(&m) {
        assert_eq!(book_qty, locked_qty, "{item} after fill+cancel");
    }
}

#[test]
fn warehouse_deposit_and_withdraw_round_trip_and_respect_carry_capacity() {
    let mut db = Db::new();
    let m = a_market(&mut db);
    let cid = a_character(&mut db);
    db.add_to_inventory(&cid, "wood", 30);

    // Deposit moves carried -> available.
    assert_eq!(db.warehouse_deposit(&m, &cid, "wood", 20, 60), 20);
    let held = db.warehouse_for_character(&m, &cid);
    assert_eq!(held.len(), 1, "one stack, one slot");
    assert_eq!((held[0].qty, held[0].state.as_str()), (20, "available"));
    assert_eq!(qty_of(&db.inventory_for_character(&cid), "wood"), 10);

    // A second deposit of the same item merges into the existing stack
    // rather than eating another slot.
    assert_eq!(db.warehouse_deposit(&m, &cid, "wood", 10, 60), 10);
    let held = db.warehouse_for_character(&m, &cid);
    assert_eq!((held.len(), held[0].qty), (1, 30));

    // Withdraw is bounded by remaining carry capacity (MAX_CARRY = 50).
    db.add_to_inventory(&cid, "stone", 45);
    assert_eq!(db.warehouse_withdraw(&m, &cid, "wood", 30), 5, "only 5 carry slots left");
    assert_eq!(db.warehouse_for_character(&m, &cid)[0].qty, 25);

    // Depositing an item you don't carry moves nothing.
    assert_eq!(db.warehouse_deposit(&m, &cid, "plank", 5, 60), 0);
}

#[test]
fn warehouse_locked_stock_is_not_withdrawable() {
    let mut db = Db::new();
    let m = a_market(&mut db);
    let cid = a_character(&mut db);
    db.add_to_inventory(&cid, "wood", 30);
    db.warehouse_deposit(&m, &cid, "wood", 30, 60);

    // Lock 10 against a (future) sell order: the stack splits.
    assert_eq!(db.warehouse_lock(&m, &cid, "wood", 10), 10);
    let held = db.warehouse_for_character(&m, &cid);
    let available: i64 = held.iter().filter(|r| r.state == "available").map(|r| r.qty).sum();
    let locked: i64 = held.iter().filter(|r| r.state == "locked").map(|r| r.qty).sum();
    assert_eq!((available, locked), (20, 10));

    // Withdrawing "everything" only takes the available part — escrowed
    // stock isn't the player's to take back until the order is cancelled.
    assert_eq!(db.warehouse_withdraw(&m, &cid, "wood", 999), 20);
    let held = db.warehouse_for_character(&m, &cid);
    assert_eq!(held.len(), 1);
    assert_eq!((held[0].qty, held[0].state.as_str()), (10, "locked"));
    assert_eq!(db.warehouse_withdraw(&m, &cid, "wood", 10), 0, "locked stays put");
}

#[test]
fn warehouse_capacity_is_slots_and_a_full_warehouse_refuses_outright() {
    let mut db = Db::new();
    let m = a_market(&mut db);
    let cid = a_character(&mut db);
    // Two slots only. Fill both with different items.
    db.add_to_inventory(&cid, "wood", 5);
    db.add_to_inventory(&cid, "stone", 5);
    db.add_to_inventory(&cid, "plank", 5);
    assert_eq!(db.warehouse_deposit(&m, &cid, "wood", 5, 2), 5);
    assert_eq!(db.warehouse_deposit(&m, &cid, "stone", 5, 2), 5);

    // A third distinct item needs a third slot: refused OUTRIGHT, with
    // nothing moved — a half-landed deposit is what players report as
    // lost goods.
    assert_eq!(db.warehouse_deposit(&m, &cid, "plank", 5, 2), 0);
    assert_eq!(qty_of(&db.inventory_for_character(&cid), "plank"), 5, "nothing taken");
    assert_eq!(db.warehouse_for_character(&m, &cid).len(), 2);

    // Topping up an item already stored consumes no new slot, so it's
    // still allowed at capacity.
    db.add_to_inventory(&cid, "wood", 5);
    assert_eq!(db.warehouse_deposit(&m, &cid, "wood", 5, 2), 5);
}
