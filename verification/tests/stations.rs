use ideal_city::crafting_config::{Ingredient, StationRecipe};
use ideal_city::persistence::db::Db;
use ideal_city::persistence::inventory::MAX_CARRY;
use ideal_city::persistence::job_rows::StationJobRow;
use ideal_city::persistence::rows::StationJob;
use ideal_city::persistence::stations::{CollectError, StartJobError};

fn a_character(db: &mut Db) -> String {
    let email = format!("c_{}@t.test", db.accounts.len());
    let (_a, c) = db.create_account_with_character(&email, "h", "Hero", 0, 0, 100);
    c.id
}

fn a_smelt_recipe() -> StationRecipe {
    StationRecipe {
        display_name: "Smelt Iron Ingot".into(),
        tags: vec!["smelting".into()],
        skill: "smelting".into(),
        required_level: 1,
        inputs: vec![Ingredient { item: "iron_ore".into(), qty: 2 }],
        output_item: "iron_ingot".into(),
        output_qty: 1,
        fuel_units: 2,
        duration_ms: 12_000,
        xp: 10,
    }
}

fn carrying(db: &mut Db, cid: &str, item: &str, qty: i64) {
    db.add_to_inventory(cid, item, qty);
}

fn held(db: &Db, cid: &str, item: &str) -> i64 {
    db.inventory_for_character(cid)
        .iter()
        .filter(|i| i.item_id == item)
        .map(|i| i.qty)
        .sum()
}

#[test]
fn a_job_consumes_its_inputs_and_fuel_at_start() {
    let mut db = Db::new();
    let cid = a_character(&mut db);
    carrying(&mut db, &cid, "iron_ore", 5);
    db.load_station_fuel("f1", &cid, "charcoal", 0, 2, 100);
    // Load fuel properly: the player needs the charcoal first.
    carrying(&mut db, &cid, "charcoal", 3);
    let total = db.load_station_fuel("f1", &cid, "charcoal", 3, 2, 100);
    assert_eq!(total, Some(6), "3 charcoal at 2 units each");
    assert_eq!(held(&db, &cid, "charcoal"), 0, "the charcoal went into the fire");

    let r = a_smelt_recipe();
    let job = db.start_station_job("f1", &cid, 0, "iron_ingot", &r, 2, 12_000, 1_000)
        .expect("should start");

    assert_eq!(held(&db, &cid, "iron_ore"), 3, "2 ore escrowed at start");
    assert_eq!(db.station_fuel("f1"), 4, "2 fuel units reserved at start");
    assert_eq!(job.inputs, vec![("iron_ore".to_string(), 2)]);
    assert_eq!(job.ready_at, 1_012, "12s job started at t=1000");
    assert_eq!(held(&db, &cid, "iron_ingot"), 0, "nothing produced yet");
}

#[test]
fn escrow_survives_a_restart_between_start_and_collect() {
    let mut db = Db::new();
    let cid = a_character(&mut db);
    carrying(&mut db, &cid, "iron_ore", 4);
    carrying(&mut db, &cid, "charcoal", 1);
    db.load_station_fuel("f1", &cid, "charcoal", 1, 2, 100);
    let r = a_smelt_recipe();
    let job = db.start_station_job("f1", &cid, 0, "iron_ingot", &r, 0, 12_000, 1_000)
        .unwrap();

    let stored: Vec<StationJobRow> = db.jobs.rows.iter().map(StationJobRow::of).collect();
    db.jobs.rows = stored.into_iter().map(StationJob::from_row).collect();
    let mut db2 = db;
    let jobs = db2.station_jobs("f1", &cid);
    assert_eq!(jobs.len(), 1, "the job outlived the process");
    assert_eq!(jobs[0].inputs, vec![("iron_ore".to_string(), 2)], "escrow intact");
    assert_eq!(held(&db2, &cid, "iron_ore"), 2, "not silently refunded either");

    let ripe = db2.ripen_station_jobs(1_020);
    assert_eq!(ripe.len(), 1);
    let got = db2.collect_station_job(&job.id, &cid, 0, 1_020).unwrap();
    assert_eq!(got.payout, vec![("iron_ingot".to_string(), 1)]);
    assert_eq!(held(&db2, &cid, "iron_ingot"), 1, "exactly one, not two");
}

/// Per-player slots are the whole point of a public station: one player
/// filling theirs must not touch anyone else's.
#[test]
fn one_players_full_slots_do_not_block_another() {
    let mut db = Db::new();
    let (a, b) = (a_character(&mut db), a_character(&mut db));
    for c in [&a, &b] {
        carrying(&mut db, c, "iron_ore", 10);
        carrying(&mut db, c, "charcoal", 5);
        db.load_station_fuel("f1", c, "charcoal", 5, 2, 100);
    }
    let r = a_smelt_recipe();
    // A fills both their slots.
    for slot in 0..2 {
        db.start_station_job("f1", &a, slot, "iron_ingot", &r, 0, 12_000, 1_000)
            .expect("A's own slots are free");
    }
    assert!(
        matches!(
            db.start_station_job("f1", &a, 0, "iron_ingot", &r, 0, 12_000, 1_000),
            Err(StartJobError::SlotBusy)
        ),
        "A's slot 0 is taken"
    );
    // B is unaffected — same station, same slot number, different player.
    db.start_station_job("f1", &b, 0, "iron_ingot", &r, 0, 12_000, 1_000)
        .expect("B's slot 0 is their own");
    assert_eq!(db.station_jobs("f1", &a).len(), 2);
    assert_eq!(db.station_jobs("f1", &b).len(), 1);
}

#[test]
fn every_refusal_leaves_the_player_exactly_as_they_were() {
    let mut db = Db::new();
    let cid = a_character(&mut db);
    let r = a_smelt_recipe();
    let gold0 = db.character_gold(&cid);

    // No ore, no fuel.
    let e = db.start_station_job("f1", &cid, 0, "iron_ingot", &r, 2, 12_000, 1);
    assert!(matches!(e, Err(StartJobError::MissingInput { .. })), "{e:?}");

    // Ore but still no fuel.
    carrying(&mut db, &cid, "iron_ore", 2);
    let e = db.start_station_job("f1", &cid, 0, "iron_ingot", &r, 2, 12_000, 1);
    assert!(matches!(e, Err(StartJobError::NotEnoughFuel { need: 2, have: 0 })), "{e:?}");

    // Fuel, but not enough gold for the fee.
    carrying(&mut db, &cid, "charcoal", 1);
    db.load_station_fuel("f1", &cid, "charcoal", 1, 2, 100);
    let e = db.start_station_job("f1", &cid, 0, "iron_ingot", &r, gold0 + 1, 12_000, 1);
    assert!(matches!(e, Err(StartJobError::NotEnoughGold { .. })), "{e:?}");

    // Nothing was taken by any of the three.
    assert_eq!(held(&db, &cid, "iron_ore"), 2, "ore untouched");
    assert_eq!(db.station_fuel("f1"), 2, "fuel untouched");
    assert_eq!(db.character_gold(&cid), gold0, "no fee charged");
    assert!(db.station_jobs("f1", &cid).is_empty(), "no job row");
}

#[test]
fn the_station_fee_is_burned_and_the_supply_still_balances() {
    let mut db = Db::new();
    let cid = a_character(&mut db);
    carrying(&mut db, &cid, "iron_ore", 2);
    carrying(&mut db, &cid, "charcoal", 1);
    db.load_station_fuel("f1", &cid, "charcoal", 1, 2, 100);
    let gold0 = db.character_gold(&cid);

    db.start_station_job("f1", &cid, 0, "iron_ingot", &a_smelt_recipe(), 2, 12_000, 1)
        .unwrap();

    assert_eq!(db.character_gold(&cid), gold0 - 2);
    let by_reason = db.gold_by_reason();
    assert_eq!(
        by_reason.iter().find(|(r, _)| r == "station_fee").map(|(_, a)| *a),
        Some(-2),
        "the burn is on the ledger under its own reason: {by_reason:?}"
    );
    assert_eq!(db.gold_supply_gap(), 0, "supply identity holds");
}

/// A recipe vanishing from `crafting.toml` between restarts fails the job
/// and refunds exactly what it escrowed — never a panic, and never the
/// recipe's current cost, which may itself have changed.
#[test]
fn a_vanished_recipe_fails_the_job_and_refunds_the_escrow() {
    let mut db = Db::new();
    let cid = a_character(&mut db);
    carrying(&mut db, &cid, "iron_ore", 2);
    carrying(&mut db, &cid, "charcoal", 1);
    db.load_station_fuel("f1", &cid, "charcoal", 1, 2, 100);
    let job = db.start_station_job("f1", &cid, 0, "iron_ingot", &a_smelt_recipe(), 0, 12_000, 1)
        .unwrap();
    assert_eq!(held(&db, &cid, "iron_ore"), 0);
    assert_eq!(db.station_fuel("f1"), 0);

    assert!(db.fail_station_job(&job.id, "recipe_gone"));
    let got = db.collect_station_job(&job.id, &cid, 0, 200).unwrap();

    assert!(got.failed);
    assert_eq!(got.fail_reason.as_deref(), Some("recipe_gone"));
    assert_eq!(got.payout, vec![("iron_ore".to_string(), 2)], "the ore comes back");
    assert_eq!(got.xp, 0, "a failed job teaches nothing");
    assert_eq!(held(&db, &cid, "iron_ore"), 2);
    assert_eq!(db.station_fuel("f1"), 2, "the fuel goes back to the fire");
    assert_eq!(held(&db, &cid, "iron_ingot"), 0, "and no ingot was made");
}

/// Collecting with a full pack holds the output in the slot and says so.
/// Destroying it would be the worst outcome — the player did the work and
/// paid the fee.
#[test]
fn a_full_pack_holds_the_output_rather_than_destroying_it() {
    let mut db = Db::new();
    let cid = a_character(&mut db);
    carrying(&mut db, &cid, "iron_ore", 2);
    carrying(&mut db, &cid, "charcoal", 1);
    db.load_station_fuel("f1", &cid, "charcoal", 1, 2, 100);
    let job = db.start_station_job("f1", &cid, 0, "iron_ingot", &a_smelt_recipe(), 0, 12_000, 1)
        .unwrap();
    db.ripen_station_jobs(100);

    // Fill the pack to the brim while the job runs.
    carrying(&mut db, &cid, "stone", MAX_CARRY);
    let e = db.collect_station_job(&job.id, &cid, 0, 200);
    assert!(matches!(e, Err(CollectError::NoRoom { .. })), "{e:?}");
    assert_eq!(
        db.station_jobs("f1", &cid).len(),
        1,
        "the job is still there holding the ingot"
    );

    // Make room; now it collects.
    db.remove_from_inventory(&cid, "stone", 5);
    let got = db.collect_station_job(&job.id, &cid, 0, 200).unwrap();
    assert_eq!(got.payout, vec![("iron_ingot".to_string(), 1)]);
    assert!(db.station_jobs("f1", &cid).is_empty(), "slot freed");
}

#[test]
fn collecting_the_same_job_twice_pays_out_once() {
    let mut db = Db::new();
    let cid = a_character(&mut db);
    carrying(&mut db, &cid, "iron_ore", 2);
    carrying(&mut db, &cid, "charcoal", 1);
    db.load_station_fuel("f1", &cid, "charcoal", 1, 2, 100);
    let job = db.start_station_job("f1", &cid, 0, "iron_ingot", &a_smelt_recipe(), 0, 12_000, 1)
        .unwrap();
    db.ripen_station_jobs(100);

    let first = db.collect_station_job(&job.id, &cid, 0, 200);
    let second = db.collect_station_job(&job.id, &cid, 0, 200);
    assert!(first.is_ok(), "{first:?}");
    assert!(matches!(second, Err(CollectError::NoSuchJob)), "{second:?}");
    assert_eq!(held(&db, &cid, "iron_ingot"), 1, "exactly one ingot");
}

/// A job can't be collected early, and ripening is what makes it collectable
/// — not the player asking nicely.
#[test]
fn a_running_job_refuses_to_be_collected_early() {
    let mut db = Db::new();
    let cid = a_character(&mut db);
    carrying(&mut db, &cid, "iron_ore", 2);
    carrying(&mut db, &cid, "charcoal", 1);
    db.load_station_fuel("f1", &cid, "charcoal", 1, 2, 100);
    let job = db.start_station_job("f1", &cid, 0, "iron_ingot", &a_smelt_recipe(), 0, 12_000, 1_000)
        .unwrap();

    let e = db.collect_station_job(&job.id, &cid, 0, 1_005);
    assert!(matches!(e, Err(CollectError::NotReady { ready_at: 1_012 })), "{e:?}");

    // Not yet due: ripening does nothing.
    assert!(db.ripen_station_jobs(1_005).is_empty());
    assert_eq!(db.ripen_station_jobs(1_012).len(), 1, "due on the second");
    assert!(db.collect_station_job(&job.id, &cid, 0, 1_012).is_ok());
}

/// Fuel is SHARED: one player can burn what another loaded. That is the
/// documented choice for a public furnace, and it deserves a test precisely
/// because it would otherwise look like a bug.
#[test]
fn fuel_is_shared_across_players_at_a_public_station() {
    let mut db = Db::new();
    let (a, b) = (a_character(&mut db), a_character(&mut db));
    carrying(&mut db, &a, "charcoal", 2);
    db.load_station_fuel("f1", &a, "charcoal", 2, 2, 100);
    assert_eq!(db.station_fuel("f1"), 4);

    carrying(&mut db, &b, "iron_ore", 2);
    db.start_station_job("f1", &b, 0, "iron_ingot", &a_smelt_recipe(), 0, 12_000, 1)
        .expect("B burns the fire A lit");
    assert_eq!(db.station_fuel("f1"), 2);
}

/// A levelled smelter's bonus output is applied at collect, and it is a
/// whole extra unit rather than a fraction — an ingot is not divisible.
#[test]
fn a_bonus_output_adds_a_whole_extra_unit() {
    let mut db = Db::new();
    let cid = a_character(&mut db);
    carrying(&mut db, &cid, "iron_ore", 2);
    carrying(&mut db, &cid, "charcoal", 1);
    db.load_station_fuel("f1", &cid, "charcoal", 1, 2, 100);
    let job = db.start_station_job("f1", &cid, 0, "iron_ingot", &a_smelt_recipe(), 0, 12_000, 1)
        .unwrap();
    db.ripen_station_jobs(100);

    let got = db.collect_station_job(&job.id, &cid, 1, 200).unwrap();
    assert_eq!(got.payout, vec![("iron_ingot".to_string(), 2)], "1 base + 1 bonus");
    assert_eq!(held(&db, &cid, "iron_ingot"), 2);
}

#[test]
fn a_job_holds_what_was_taken_and_gives_that_back() {
    let mut db = Db::new();
    let cid = a_character(&mut db);
    carrying(&mut db, &cid, "iron_ore", 3);
    let mut recipe = a_smelt_recipe();
    recipe.inputs = vec![
        Ingredient { item: "iron_ore".into(), qty: 2 },
        Ingredient { item: "iron_ore".into(), qty: 2 },
    ];
    recipe.fuel_units = 0;
    let job = db.start_station_job("f1", &cid, 0, "smelt", &recipe, 0, 1000, 0).unwrap();
    assert_eq!(job.inputs, vec![("iron_ore".to_string(), 2), ("iron_ore".to_string(), 1)]);
    assert_eq!(db.inventory_qty(&cid, "iron_ore"), 0);
    assert!(db.fail_station_job(&job.id, "the recipe is gone"));
    let back = db.collect_station_job(&job.id, &cid, 0, 5).unwrap();
    assert!(back.failed && back.xp == 0);
    assert_eq!(db.inventory_qty(&cid, "iron_ore"), 3, "no more and no less than was taken");
}
