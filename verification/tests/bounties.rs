use ideal_city::market_config::{BountyConfig, MarketConfig};
use ideal_city::persistence::db::Db;
use ideal_city::persistence::market::BuyOutcome;

fn a_character(db: &mut Db) -> String {
    let email = format!("c_{}@t.test", db.accounts.len());
    let (_a, c) = db.create_account_with_character(&email, "h", "Hero", 0, 0, 100);
    c.id
}

fn a_market(db: &mut Db) -> String {
    db.insert_build_order("civic", "market", r#"{"wood":1}"#, "completed", 0, None, 0, None, None)
        .id
}

const NO_EXPIRY: i64 = i64::MAX;

fn test_cfg() -> MarketConfig {
    MarketConfig { max_open_orders: 1000, ..MarketConfig::default() }
}

fn sell(db: &mut Db, m: &str, who: &str, item: &str, price: i64, qty: i64) -> BuyOutcome {
    db.place_order(m, who, "sell", item, price, qty, NO_EXPIRY, &test_cfg(), "", 0)
        .unwrap()
}

fn bounty_cfg() -> BountyConfig {
    BountyConfig::default()
}

fn a_hunter_with(db: &mut Db, pelts: i64) -> String {
    let cid = a_character(db);
    db.add_to_inventory(&cid, "dog_pelt", pelts);
    cid
}

#[test]
fn deposit_depletion_is_remembered_and_forgotten() {
    let mut db = Db::new();
    assert!(db.depleted_deposits().is_empty(), "a fresh mine is full");

    db.mark_deposit_depleted("clay_01", 1_000);
    db.mark_deposit_depleted("iron_04", 2_000);
    assert_eq!(
        db.depleted_deposits(),
        vec![("clay_01".to_string(), 1_000), ("iron_04".to_string(), 2_000)]
    );

    // Working out an already-empty seam updates the timestamp rather than
    // duplicating it — this is live state, not a ledger of every depletion.
    db.mark_deposit_depleted("clay_01", 5_000);
    let rows = db.depleted_deposits();
    assert_eq!(rows.len(), 2, "a second depletion added a row: {rows:?}");
    assert_eq!(rows[0], ("clay_01".to_string(), 5_000));

    // Coming back forgets it, so a later restart can't resurrect a
    // depletion that has already been served.
    db.clear_deposit_depleted("clay_01");
    assert_eq!(
        db.depleted_deposits(),
        vec![("iron_04".to_string(), 2_000)]
    );
    // Clearing something already full is a no-op, not an error.
    db.clear_deposit_depleted("clay_01");
}

/// The loop: trophies in, gold out, trophies gone — and repeatable.
#[test]
fn the_bounty_pays_and_repeats() {
    let mut db = Db::new();
    let cfg = bounty_cfg();
    let cid = a_hunter_with(&mut db, cfg.required * 3);
    let purse = db.character_gold(&cid);

    for turn in 1..=3 {
        let (paid, held) = db.turn_in_bounty(&cid, &cfg, &format!("b{turn}"), 0);
        assert_eq!(paid, cfg.gold, "turn {turn} paid {paid}");
        assert_eq!(held, cfg.required * (3 - turn), "turn {turn} left {held}");
    }
    assert_eq!(db.character_gold(&cid), purse + cfg.gold * 3);
    assert_eq!(db.inventory_qty(&cid, "dog_pelt"), 0);

    // Out of trophies: refused, and nothing is taken.
    let (paid, held) = db.turn_in_bounty(&cid, &cfg, "b4", 0);
    assert_eq!((paid, held), (0, 0));
}

/// A partial hand-in is refused WHOLE. Part-paying would be the worst
/// outcome available: the player loses goods and gains no bounty.
#[test]
fn a_partial_hand_in_is_refused_and_consumes_nothing() {
    let mut db = Db::new();
    let cfg = bounty_cfg();
    let short = cfg.required - 1;
    let cid = a_hunter_with(&mut db, short);
    let purse = db.character_gold(&cid);

    let (paid, held) = db.turn_in_bounty(&cid, &cfg, "short", 0);
    assert_eq!(paid, 0, "a short hand-in must pay nothing");
    assert_eq!(held, short, "and it must report what they actually hold");
    assert_eq!(
        db.inventory_qty(&cid, "dog_pelt"),
        short,
        "a refused turn-in ate the trophies"
    );
    assert_eq!(db.character_gold(&cid), purse);
    assert_eq!(db.gold_supply_gap(), 0);
}

/// A resent frame pays ONCE. This is a faucet, so a replayable one isn't a
/// repeated action — it's a duplication bug that prints money.
#[test]
fn a_replayed_turn_in_pays_once() {
    let mut db = Db::new();
    let cfg = bounty_cfg();
    let cid = a_hunter_with(&mut db, cfg.required * 2);
    let purse = db.character_gold(&cid);

    let (first, _) = db.turn_in_bounty(&cid, &cfg, "same-id", 0);
    assert_eq!(first, cfg.gold);
    for _ in 0..4 {
        let (again, held) = db.turn_in_bounty(&cid, &cfg, "same-id", 0);
        assert_eq!(again, 0, "a resent command minted a second bounty");
        assert_eq!(held, cfg.required, "and it should still report the truth");
    }
    assert_eq!(db.character_gold(&cid), purse + cfg.gold);
    assert_eq!(
        db.inventory_qty(&cid, "dog_pelt"),
        cfg.required,
        "the replay consumed a second batch of trophies"
    );
}

/// Every coin is on the supply ledger under its own reason, so the largest
/// faucet in the game is measurable next to the others rather than showing
/// up as an unexplained rise in the money supply.
#[test]
fn the_bounty_is_ledgered_as_its_own_faucet() {
    let mut db = Db::new();
    let cfg = bounty_cfg();
    let cid = a_hunter_with(&mut db, cfg.required * 2);

    let before = db.gold_supply();
    db.turn_in_bounty(&cid, &cfg, "led1", 0);
    db.turn_in_bounty(&cid, &cfg, "led2", 0);

    assert_eq!(
        db.gold_supply(),
        before + cfg.gold * 2,
        "bounty gold must show up as newly created"
    );
    let by_reason = db.gold_by_reason();
    let bounty: i64 =
        by_reason.iter().filter(|(r, _)| r == "bounty").map(|(_, g)| *g).sum();
    assert_eq!(bounty, cfg.gold * 2, "not attributed to the bounty: {by_reason:?}");
    assert_eq!(
        db.gold_supply_gap(),
        0,
        "the bounty broke the supply identity"
    );
}

#[test]
fn bought_trophies_are_as_good_as_killed_ones() {
    let mut db = Db::new();
    let cfg = bounty_cfg();
    let m = a_market(&mut db);
    let seller = a_character(&mut db);
    db.add_to_inventory(&seller, "dog_pelt", cfg.required);
    db.warehouse_deposit(&m, &seller, "dog_pelt", cfg.required, 60);
    sell(&mut db, &m, &seller, "dog_pelt", 2, cfg.required);

    let buyer = a_character(&mut db);
    let out = db.place_order(&m, &buyer, "buy", "dog_pelt", 2, cfg.required, NO_EXPIRY, &test_cfg(), "", 0)
        .unwrap();
    assert_eq!(out.filled, cfg.required, "the pelts should have traded");
    db.warehouse_withdraw(&m, &buyer, "dog_pelt", cfg.required);

    let (paid, _) = db.turn_in_bounty(&buyer, &cfg, "bought", 0);
    assert_eq!(paid, cfg.gold, "a bought pelt should claim the bounty just the same");
}
