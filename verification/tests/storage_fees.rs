use ideal_city::market_config::MarketConfig;
use ideal_city::persistence::db::Db;
use ideal_city::persistence::market::BuyOutcome;

fn a_character(db: &mut Db) -> String {
    let email = format!("c_{}@t.test", db.accounts.len());
    let (_a, c) = db.create_account_with_character(&email, "h", "Hero", 0, 0, 100);
    c.id
}

fn a_market(db: &mut Db) -> String {
    db.insert_build_order("civic", "market", r#"{"wood":1}"#, "completed", 0, None, 0, None, None)
        .id
}

fn another_market(db: &mut Db) -> String {
    db.insert_build_order("market", "market_east", r#"{"wood":1}"#, "completed", 0, None, 0, None, None)
        .id
}

const NO_EXPIRY: i64 = i64::MAX;

fn test_cfg() -> MarketConfig {
    MarketConfig { max_open_orders: 1000, ..MarketConfig::default() }
}

fn sell(db: &mut Db, m: &str, who: &str, item: &str, price: i64, qty: i64) -> BuyOutcome {
    db.place_order(m, who, "sell", item, price, qty, NO_EXPIRY, &test_cfg(), "", 0)
        .unwrap()
}

/// A seller stocked at a market, ready to rest orders.
fn a_seller(db: &mut Db, market: &str, item: &str, qty: i64) -> String {
    let cid = a_character(db);
    db.add_to_inventory(&cid, item, qty);
    db.warehouse_deposit(market, &cid, item, qty, 60);
    cid
}

const DAY: i64 = 86_400;

/// A config with storage billing switched on. The shipped one has it OFF —
/// see `storage_is_off_by_default`.
fn charged_cfg(per_slot: i64) -> MarketConfig {
    MarketConfig {
        storage_fee_per_slot_per_day: per_slot,
        storage_arrears_cap_days: 3,
        ..test_cfg()
    }
}

/// Mark a character as having been active at `when`, which is what makes
/// them billable — see `offline_days_are_free`.
fn seen_at(db: &mut Db, cid: &str, when: i64) {
    for c in db.characters.rows.iter_mut() {
        if c.character.id == cid {
            c.last_seen = when;
        }
    }
}

fn set_gold(db: &mut Db, id: &str, gold: i64) {
    for c in db.characters.rows.iter_mut() {
        if c.character.id == id {
            c.gold = gold;
        }
    }
}

#[test]
fn storage_is_off_by_default() {
    assert_eq!(MarketConfig::default().storage_fee_per_slot_per_day, 0);

    let mut db = Db::new();
    let m = a_market(&mut db);
    let who = a_seller(&mut db, &m, "wood", 30);
    seen_at(&mut db, &who, DAY * 10);
    let before = db.character_gold(&who);

    for day in 1..5 {
        assert_eq!(db.charge_storage(&m, &test_cfg(), DAY * day), (0, 0));
    }
    assert_eq!(db.character_gold(&who), before, "free storage charged rent");
    assert_eq!(db.warehouse_arrears(&m, &who), 0);
    assert_eq!(db.total_fees_burned(), 0, "a disabled fee wrote a ledger row");
}

/// Charged per OCCUPIED SLOT, counting locked stock as well as available.
/// Per slot because the slot is the scarce resource — charging per item
/// would punish stacking, the opposite of the intent. Locked stock counts
/// because otherwise "list it at an absurd price" would be free storage.
#[test]
fn storage_is_charged_per_occupied_slot_including_locked() {
    let mut db = Db::new();
    let m = a_market(&mut db);
    let cfg = charged_cfg(2);
    let who = a_character(&mut db);
    db.add_to_inventory(&who, "wood", 40);
    db.warehouse_deposit(&m, &who, "wood", 40, 60);
    db.add_to_inventory(&who, "stone", 10);
    db.warehouse_deposit(&m, &who, "stone", 10, 60);
    sell(&mut db, &m, &who, "wood", 9, 40);
    let rows = db.warehouse_for_character(&m, &who);
    assert!(rows.iter().any(|r| r.state == "locked"), "precondition: something is escrowed");
    let slots = rows.len() as i64;

    seen_at(&mut db, &who, 1);
    // First run only starts the clock — it must not bill for however long
    // the goods happened to have been sitting there already.
    assert_eq!(db.charge_storage(&m, &cfg, DAY), (0, 0));
    let before = db.character_gold(&who);

    seen_at(&mut db, &who, DAY + 1);
    // Measured as a DELTA: resting the sell above burned a listing fee too,
    // so the running total isn't the storage charge.
    let burned_before = db.total_fees_burned();
    let (charged, arrears) = db.charge_storage(&m, &cfg, DAY * 2);
    assert_eq!(charged, slots * 2, "should be per slot, locked rows included");
    assert_eq!(arrears, 0);
    assert_eq!(db.character_gold(&who), before - slots * 2);
    assert_eq!(
        db.total_fees_burned() - burned_before,
        slots * 2,
        "storage should be burned"
    );
    assert_eq!(db.gold_supply_gap(), 0, "the burn broke the supply identity");
}

/// Idempotent within a day. The job wakes far more often than daily, and a
/// restart loop must not bill anyone twice.
#[test]
fn charging_twice_in_one_day_charges_once() {
    let mut db = Db::new();
    let m = a_market(&mut db);
    let cfg = charged_cfg(5);
    let who = a_seller(&mut db, &m, "wood", 20);
    seen_at(&mut db, &who, 1);
    db.charge_storage(&m, &cfg, DAY);

    seen_at(&mut db, &who, DAY + 1);
    let (first, _) = db.charge_storage(&m, &cfg, DAY * 2);
    assert!(first > 0);
    for _ in 0..5 {
        assert_eq!(
            db.charge_storage(&m, &cfg, DAY * 2 + 60),
            (0, 0),
            "billed twice in the same day"
        );
    }
}

/// A player who wasn't there isn't billed. Charging for days someone was
/// offline turns a holding cost into a punishment for having a job.
#[test]
fn offline_days_are_free() {
    let mut db = Db::new();
    let m = a_market(&mut db);
    let cfg = charged_cfg(5);
    let who = a_seller(&mut db, &m, "wood", 20);
    seen_at(&mut db, &who, 1);
    db.charge_storage(&m, &cfg, DAY);
    let before = db.character_gold(&who);

    // A month passes with no logins at all.
    for day in 2..32 {
        assert_eq!(db.charge_storage(&m, &cfg, DAY * day), (0, 0));
    }
    assert_eq!(db.character_gold(&who), before, "billed while away");
    assert_eq!(db.warehouse_arrears(&m, &who), 0, "debt accrued while away");

    // They come back: ONE day's charge, not a month of them.
    seen_at(&mut db, &who, DAY * 32);
    let (charged, _) = db.charge_storage(&m, &cfg, DAY * 33);
    assert_eq!(charged, 5, "a returning player owes a day, not the whole absence");
}

/// **Goods are never confiscated.** An empty purse produces capped arrears
/// and a locked warehouse, and the stock is untouched — deleting someone's
/// stored items to settle a debt is an unrecoverable loss caused by not
/// logging in, and the fastest way to make players distrust the warehouse.
#[test]
fn an_empty_purse_never_costs_you_your_goods() {
    let mut db = Db::new();
    let m = a_market(&mut db);
    let cfg = charged_cfg(10);
    let who = a_seller(&mut db, &m, "wood", 30);
    // Spend every coin.
    set_gold(&mut db, &who, 0);
    let held: i64 =
        db.warehouse_for_character(&m, &who).iter().map(|r| r.qty).sum();
    assert!(held > 0);

    seen_at(&mut db, &who, 1);
    db.charge_storage(&m, &cfg, DAY);
    for day in 2..10 {
        seen_at(&mut db, &who, DAY * day - 1);
        db.charge_storage(&m, &cfg, DAY * day);
    }

    let still_held: i64 =
        db.warehouse_for_character(&m, &who).iter().map(|r| r.qty).sum();
    assert_eq!(still_held, held, "goods were confiscated to settle a debt");
    assert!(db.character_gold(&who) >= 0, "purse went negative");

    // The debt is capped, so it stays payable however long they were away.
    let owed = db.warehouse_arrears(&m, &who);
    assert!(owed > 0, "nothing accrued at all");
    assert_eq!(
        owed,
        cfg.storage_arrears_cap_days * cfg.storage_fee_per_slot_per_day,
        "arrears must stop at the cap — an unpayable bill is the same as losing the goods"
    );
}

/// Arrears lock the warehouse and paying clears the lock, with the payment
/// burned like any other fee.
#[test]
fn paying_arrears_unlocks_the_warehouse() {
    let mut db = Db::new();
    let m = a_market(&mut db);
    let cfg = charged_cfg(10);
    let who = a_seller(&mut db, &m, "wood", 30);
    set_gold(&mut db, &who, 0);
    seen_at(&mut db, &who, 1);
    db.charge_storage(&m, &cfg, DAY);
    seen_at(&mut db, &who, DAY + 1);
    db.charge_storage(&m, &cfg, DAY * 2);
    let owed = db.warehouse_arrears(&m, &who);
    assert!(owed > 0, "precondition: they owe something");

    // Broke: settling changes nothing and they stay locked.
    assert_eq!(db.settle_warehouse_arrears(&m, &who, DAY * 2).unwrap(), owed);

    // Partially able to pay: the debt shrinks, the lock stays.
    set_gold(&mut db, &who, owed - 1);
    assert_eq!(db.settle_warehouse_arrears(&m, &who, DAY * 2).unwrap(), 1);
    assert_eq!(db.character_gold(&who), 0);

    // Paid in full: unlocked, and the payment was burned.
    let burned_before = db.total_fees_burned();
    set_gold(&mut db, &who, 50);
    // This test pokes gold directly to set up a broke player, which is
    // itself an unledgered change — so the supply identity is checked as a
    // DELTA across the settle rather than absolutely. That still catches a
    // settle that creates or destroys gold without recording it.
    let gap_before = db.gold_supply_gap();
    assert_eq!(db.settle_warehouse_arrears(&m, &who, DAY * 2).unwrap(), 0);
    assert_eq!(db.warehouse_arrears(&m, &who), 0);
    assert_eq!(db.character_gold(&who), 49);
    assert_eq!(db.total_fees_burned(), burned_before + 1);
    assert_eq!(
        db.gold_supply_gap(),
        gap_before,
        "settling arrears moved gold without telling the ledger"
    );
}

#[test]
fn storage_rates_are_per_market() {
    let mut db = Db::new();
    let a = a_market(&mut db);
    let b = another_market(&mut db);
    let dear = charged_cfg(10);
    let cheap = charged_cfg(1);

    let who = a_character(&mut db);
    db.add_to_inventory(&who, "wood", 20);
    db.warehouse_deposit(&a, &who, "wood", 20, 60);
    db.add_to_inventory(&who, "wood", 20);
    db.warehouse_deposit(&b, &who, "wood", 20, 60);

    seen_at(&mut db, &who, 1);
    db.charge_storage(&a, &dear, DAY);
    db.charge_storage(&b, &cheap, DAY);
    seen_at(&mut db, &who, DAY + 1);

    let (dear_charged, _) = db.charge_storage(&a, &dear, DAY * 2);
    let (cheap_charged, _) = db.charge_storage(&b, &cheap, DAY * 2);
    assert_eq!(dear_charged, 10, "the capital's rate");
    assert_eq!(cheap_charged, 1, "the remote market's rate");
    assert_eq!(db.gold_supply_gap(), 0);
}

/// Storage lands on the existing fee ledger with its own kind, so the
/// holding cost is measurable next to the listing fee and the sale tax
/// rather than in a parallel universe.
#[test]
fn storage_fees_join_the_existing_fee_ledger() {
    let mut db = Db::new();
    let m = a_market(&mut db);
    let cfg = charged_cfg(4);
    let who = a_seller(&mut db, &m, "wood", 30);
    sell(&mut db, &m, &who, "wood", 9, 10);
    seen_at(&mut db, &who, 1);
    db.charge_storage(&m, &cfg, DAY);
    seen_at(&mut db, &who, DAY + 1);
    db.charge_storage(&m, &cfg, DAY * 2);

    let kinds = db.fees_by_kind(&m);
    let storage: i64 =
        kinds.iter().filter(|(k, _)| k == "storage").map(|(_, g)| *g).sum();
    assert!(storage > 0, "storage should appear as its own fee kind: {kinds:?}");
    assert!(kinds.iter().any(|(k, _)| k == "listing"), "and alongside the others: {kinds:?}");
}
