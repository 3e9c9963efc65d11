use std::collections::HashSet;

use ideal_city::market_config::MarketConfig;
use ideal_city::persistence::building::ContributeResult;
use ideal_city::persistence::costs::{dump_cost, parse_cost};
use ideal_city::persistence::db::Db;
use ideal_city::persistence::job_rows::StationJobRow;
use ideal_city::persistence::listings::ListingReject;
use ideal_city::persistence::rows::{BuildPlacement, EditOp, StationJob, TerrainDelta};
use ideal_city::persistence::stations::StartJobError;
use ideal_city::util::{clock_secs, dist2, now_secs, random_heading};
use ideal_city::world::{
    candle_bucket, capital, creature_drop, equippable_slot, governing_skill, is_commodity, item,
    melee_damage, npc, npc_spawns, xp_with_falloff, District, OrderReject, PlotGrid, Rect, SPECIES_WILD_DOG,
    Safety,
};

fn a_character(db: &mut Db) -> String {
    let email = format!("c_{}@t.test", db.accounts.len());
    let (_a, c) = db.create_account_with_character(&email, "h", "Hero", 0, 0, 100);
    c.id
}

#[test]
fn distances_are_squared_and_the_same_both_ways() {
    assert_eq!(dist2(0, 0, 3, 4), 25);
    assert_eq!(dist2(3, 4, 0, 0), 25);
    assert_eq!(dist2(-100_000, 7, 100_000, 7), 40_000_000_000);
    assert_eq!(dist2(12, 12, 12, 12), 0);
    assert_eq!(dist2(2_000_000_000, 0, -1_000_000_000, 0), 9_000_000_000_000_000_000);
}

#[test]
fn the_clock_is_in_seconds_and_does_not_stand_at_zero() {
    let now = now_secs();
    assert!(now > 1_600_000_000, "{now}");
    assert!(now < 100_000_000_000, "{now}");
}

#[test]
fn a_clock_before_the_epoch_stands_at_zero() {
    assert_eq!(clock_secs(None), 0);
    assert_eq!(clock_secs(Some(1_700_000_000)), 1_700_000_000);
    assert_eq!(clock_secs(Some(i64::MAX as u64)), i64::MAX);
    assert_eq!(clock_secs(Some(i64::MAX as u64 + 1)), i64::MIN);
    assert_eq!(clock_secs(Some(u64::MAX)), -1);
}

#[test]
fn a_random_heading_is_one_of_eight_directions() {
    let mut seen = HashSet::new();
    for _ in 0..400 {
        let (dx, dy) = random_heading();
        assert!((-1..=1).contains(&dx) && (-1..=1).contains(&dy));
        assert!((dx, dy) != (0, 0), "never standing still");
        seen.insert((dx, dy));
    }
    assert_eq!(seen.len(), 8, "each direction comes up");
}

#[test]
fn new_rows_get_ids_of_their_own() {
    let mut db = Db::new();
    let mut seen = HashSet::new();
    for i in 0..50 {
        let o = db.insert_world_object("poison_tree", i, i, "editor:e1", 0);
        assert_eq!(o.id.len(), 36);
        assert!(seen.insert(o.id));
    }
}

#[test]
fn costs_are_read_member_by_member() {
    let c = parse_cost(r#"{"wood":20,"stone":10}"#);
    assert_eq!(c.entries, vec![("stone".to_string(), 10), ("wood".to_string(), 20)]);
    let c = parse_cost(r#"{"wood":2,"note":"soon","stone":1.5,"clay_lump":null,"iron_ore":-3}"#);
    assert_eq!(c.entries, vec![("iron_ore".to_string(), -3), ("wood".to_string(), 2)]);
    assert!(parse_cost("not json").entries.is_empty());
    assert!(parse_cost("[1,2]").entries.is_empty());
    assert!(parse_cost("{}").entries.is_empty());
    assert_eq!(c.get("wood"), Some(&2));
    assert_eq!(c.get("stone"), None);
}

#[test]
fn costs_are_written_in_the_order_of_their_names() {
    let c = parse_cost(r#"{"wood":20,"stone":10}"#);
    assert_eq!(dump_cost(&c), r#"{"stone":10,"wood":20}"#);
    assert_eq!(dump_cost(&parse_cost("{}")), "{}");
    assert_eq!(parse_cost(&dump_cost(&c)).entries, c.entries);
}

fn a_job() -> StationJob {
    StationJob {
        id: "j1".to_string(),
        station_id: "f1".to_string(),
        character_id: "c1".to_string(),
        slot: 0,
        recipe_id: "iron_ingot".to_string(),
        inputs: vec![("iron_ore".to_string(), 2), ("a \"quoted\" name".to_string(), -1)],
        fuel_units: 2,
        output_item: "iron_ingot".to_string(),
        output_qty: 1,
        xp: 10,
        skill: "smelting".to_string(),
        started_at: 1,
        ready_at: 13,
        state: "running".to_string(),
        fail_reason: None,
    }
}

#[test]
fn a_stored_job_comes_back_as_it_was() {
    let row = StationJobRow::of(&a_job());
    assert_eq!(row.inputs_json, r#"[["iron_ore",2],["a \"quoted\" name",-1]]"#);
    assert_eq!(StationJob::from_row(row), a_job());
}

#[test]
fn a_stored_job_whose_inputs_cannot_be_read_has_none() {
    let mut row = StationJobRow::of(&a_job());
    row.inputs_json = "garbage".to_string();
    let job = StationJob::from_row(row);
    assert!(job.inputs.is_empty());
    assert_eq!(job.id, "j1");
}

#[test]
fn candle_buckets_floor() {
    assert_eq!(candle_bucket(0, 3600), 0);
    assert_eq!(candle_bucket(3599, 3600), 0);
    assert_eq!(candle_bucket(3600, 3600), 3600);
    assert_eq!(candle_bucket(-1, 3600), -3600);
    assert_eq!(candle_bucket(-3600, 3600), -3600);
}

#[test]
fn rejections_have_codes_and_words() {
    let all = [
        (OrderReject::NotACommodity, "not_a_commodity"),
        (OrderReject::BadPrice, "bad_price"),
        (OrderReject::BadQty, "bad_qty"),
        (OrderReject::TooManyOrders, "too_many_orders"),
        (OrderReject::RateLimited, "rate_limited"),
        (OrderReject::CannotAffordFee, "cannot_afford_fee"),
    ];
    for (r, code) in all {
        assert_eq!(r.code(), code);
        assert!(!r.detail().is_empty());
    }
    assert_eq!(OrderReject::BadQty.detail(), "order size is out of bounds");

    let all = [
        (ListingReject::Gone, "listing_gone"),
        (ListingReject::PriceChanged, "price_changed"),
        (ListingReject::NoFunds, "no_funds"),
        (ListingReject::NoRoom, "warehouse_full"),
        (ListingReject::OwnListing, "own_listing"),
    ];
    for (r, code) in all {
        assert_eq!(r.code(), code);
        assert!(!r.detail().is_empty());
    }
    assert_eq!(ListingReject::Gone.detail(), "someone else took it first");

    assert_eq!(StartJobError::SlotBusy.code(), "slot_busy");
    assert_eq!(StartJobError::NotEnoughGold { need: 1, have: 0 }.code(), "not_enough_gold");
    assert_eq!(StartJobError::NotEnoughFuel { need: 1, have: 0 }.code(), "not_enough_fuel");
    assert_eq!(
        StartJobError::MissingInput { item: "wood".to_string(), need: 1, have: 0 }.code(),
        "missing_input"
    );
}

#[test]
fn what_stacks_is_a_commodity() {
    assert!(is_commodity("wood"));
    assert!(is_commodity("dog_pelt"));
    assert!(!is_commodity("pickaxe"));
    assert!(!is_commodity("sword"));
    assert!(!is_commodity("gold"));
    assert_eq!(item("iron_ore").unwrap().name, "Iron Ore");
    assert!(item("gold").is_none());
}

#[test]
fn awards_fade_by_equal_steps() {
    assert_eq!(xp_with_falloff(12, 0, 15), 12);
    assert_eq!(xp_with_falloff(12, 15, 15), 12);
    assert_eq!(xp_with_falloff(12, 20, 15), 8);
    assert_eq!(xp_with_falloff(12, 29, 15), 0);
    assert_eq!(xp_with_falloff(12, 30, 15), 0);
    assert_eq!(xp_with_falloff(12, 1000, 15), 0);
    assert_eq!(xp_with_falloff(12, 1000, 0), 12, "nothing is outgrown without a level to outgrow it at");
    assert_eq!(xp_with_falloff(-5, 3, 15), 0, "never negative");
    let mut last = 1000;
    for level in 0..40 {
        let xp = xp_with_falloff(100, level, 13);
        assert!(xp <= last);
        last = xp;
    }
}

#[test]
fn what_is_worn_and_what_it_does() {
    assert_eq!(equippable_slot("pickaxe"), Some("tool"));
    assert_eq!(equippable_slot("axe"), Some("tool"));
    assert_eq!(equippable_slot("sword"), Some("weapon"));
    assert_eq!(equippable_slot("wood"), None);
    assert_eq!(governing_skill("pick"), Some("mining"));
    assert_eq!(governing_skill("chop"), Some("woodcutting"));
    assert_eq!(governing_skill("heal"), None);
    assert_eq!(melee_damage(Some("sword")), 40);
    assert_eq!(melee_damage(Some("pickaxe")), 20);
    assert_eq!(melee_damage(None), 20);
    assert_eq!(creature_drop(SPECIES_WILD_DOG), Some("dog_pelt"));
    assert_eq!(creature_drop("mob"), None);
}

#[test]
fn everyone_can_be_looked_up() {
    for n in npc_spawns() {
        let found = npc(n.id).unwrap();
        assert_eq!((found.name, found.x, found.y), (n.name, n.x, n.y));
        assert!(item(n.grants_item.unwrap()).is_some());
        assert_eq!((n.lines_granted.len(), n.lines_repeat.len()), (2, 2));
    }
    assert_eq!(npc("npc_weapon_master").unwrap().name, "Bram");
    assert!(npc("npc_nobody").is_none());
}

#[test]
fn rectangles_are_half_open() {
    let r = Rect::new(-5, -5, 4, 4);
    assert!(r.contains(-5, -5) && r.contains(3, 3));
    assert!(!r.contains(4, 0) && !r.contains(0, 4) && !r.contains(-6, 0));
    assert_eq!(r.centre(), (0, 0));
    assert_eq!(Rect::new(-6, 0, 1, 5).centre(), (-2, 2));
    assert_eq!(r.area(), 81);
}

#[test]
fn a_grid_is_laid_out_row_by_row() {
    let grid = PlotGrid { cols: 2, rows: 2, margin: 10, plot_w: 8, plot_h: 6, gap: 2, tier: 3 };
    let d = District {
        id: "d",
        name: "D",
        region: Rect::new(100, 200, 1000, 1000),
        safety: Safety::Wilds,
        plot_grid: Some(grid),
    };
    let cells = d.plots();
    let places: Vec<(i32, i32, i32, i32)> = cells.iter().map(|c| (c.grid_x, c.grid_y, c.x, c.y)).collect();
    assert_eq!(places, vec![(0, 0, 110, 210), (1, 0, 120, 210), (0, 1, 110, 218), (1, 1, 120, 218)]);
    assert!(cells.iter().all(|c| c.tier == 3 && c.rect().area() == 48));
    let bare = District { plot_grid: None, ..d };
    assert!(bare.plots().is_empty());
}

#[test]
fn an_order_appears_only_where_it_says_what_and_where() {
    let mut db = Db::new();
    let at = BuildPlacement { structure_kind: "well".to_string(), x: 3, y: 4, x1: None, y1: Some(9) };
    let o = db.insert_build_order("civic", "town_well", "{}", "open", 7, None, 0, Some(at.clone()), Some("[]"));
    assert_eq!(o.placement(), Some(at));
    assert_eq!(o.path_json.as_deref(), Some("[]"));
    let o = db.insert_build_order("civic", "festival", "{}", "open", 5, None, 0, None, None);
    assert_eq!(o.placement(), None);
    let kinds: Vec<String> = db.build_orders_for_district("civic").into_iter().map(|o| o.kind).collect();
    assert_eq!(kinds, vec!["festival".to_string(), "town_well".to_string()], "by age");
    assert_eq!(db.count_open_build_orders(), 2);
}

#[test]
fn contributing_to_an_order_that_is_not_there_does_nothing() {
    let mut db = Db::new();
    let cid = a_character(&mut db);
    db.add_to_inventory(&cid, "wood", 5);
    assert_eq!(db.contribute(&cid, "nope", "wood", 5, 1), ContributeResult::default());
    assert_eq!(db.inventory_total(&cid), 5);
}

#[test]
fn progress_is_written_as_it_grows() {
    let mut db = Db::new();
    let cid = a_character(&mut db);
    db.add_to_inventory(&cid, "wood", 5);
    db.add_to_inventory(&cid, "stone", 5);
    let o = db.insert_build_order("civic", "well", r#"{"wood":9,"stone":2}"#, "open", 0, None, 0, None, None);
    let r = db.contribute(&cid, &o.id, "wood", 3, 2);
    assert_eq!((r.moved, r.wages, r.completed), (3, 6, false));
    assert_eq!(db.build_order_by_id(&o.id).unwrap().progress_json, r#"{"wood":3}"#);
    let r = db.contribute(&cid, &o.id, "stone", 50, 0);
    assert_eq!((r.moved, r.wages), (2, 0));
    assert_eq!(db.build_order_by_id(&o.id).unwrap().progress_json, r#"{"stone":2,"wood":3}"#);
    let r = db.contribute(&cid, &o.id, "clay_lump", 5, 2);
    assert_eq!(r.moved, 0, "the order does not need it");
    assert_eq!(db.gold_supply_gap(), 0, "wages are on the ledger");
}

fn a_delta(tx: i32, ty: i32) -> TerrainDelta {
    TerrainDelta {
        chunk_tx: tx,
        chunk_ty: ty,
        bake_hash: "test-bake-hash".to_string(),
        revision: 0,
        height_delta: Some(vec![1, 2, 3]),
        author: "editor:acct-e1".to_string(),
        edited_at: 1_700_000_000,
    }
}

#[test]
fn a_chunk_comes_back_with_its_revision() {
    let mut db = Db::new();
    assert!(db.load_terrain_delta(2, 7).is_none());
    assert_eq!(db.save_terrain_delta(&a_delta(2, 7)), 1);
    assert_eq!(db.load_terrain_delta(2, 7).unwrap(), TerrainDelta { revision: 1, ..a_delta(2, 7) });
    let mut bare = a_delta(2, 7);
    bare.height_delta = None;
    assert_eq!(db.save_terrain_delta(&bare), 2);
    assert_eq!(db.save_terrain_delta(&a_delta(7, 2)), 1, "each chunk counts for itself");
    let loaded = db.load_terrain_delta(2, 7).unwrap();
    assert_eq!((loaded.revision, loaded.height_delta), (2, None));
}

#[test]
fn an_edit_is_taken_back_once() {
    let mut db = Db::new();
    let blocks = vec![(0, 1, 5, None), (0, 1, 6, Some(vec![9u8, 8]))];
    db.log_terrain_edit_op("op1", "editor:e1", "raise", 100, &blocks);
    db.log_terrain_edit_op("op2", "editor:e1", "lower", 101, &[(3, 3, 0, None)]);
    assert_eq!(
        db.edit_ops.rows[0],
        EditOp {
            id: "op1".to_string(),
            author: "editor:e1".to_string(),
            brush: "raise".to_string(),
            created_at: 100,
            reverted: false,
        }
    );
    assert_eq!(db.take_revertable_edit_op("op1"), Some(blocks));
    assert_eq!(db.take_revertable_edit_op("op1"), None);
    assert_eq!(db.take_revertable_edit_op("nope"), None);
    assert_eq!(db.take_revertable_edit_op("op2"), Some(vec![(3, 3, 0, None)]));
}

#[test]
fn a_node_empties_and_comes_back() {
    let mut db = Db::new();
    let n = db.insert_resource_node("civic", "wood", 1, 2, 5);
    assert_eq!(db.deplete_resource_node(&n.id, 2, 500), 3);
    assert_eq!(db.resource_nodes_for_district("civic")[0].respawn_at, None);
    assert_eq!(db.deplete_resource_node(&n.id, 9, 500), 0);
    assert_eq!(db.resource_nodes_for_district("civic")[0].respawn_at, Some(500));
    assert_eq!(db.deplete_resource_node("nope", 9, 500), 0);
}

#[test]
fn the_mayor_is_seeded_once() {
    let mut db = Db::new();
    db.seed_mayor_account("mayor@t.test", "h", "Mayor", 3, 4, 100, 10);
    db.seed_mayor_account("mayor@t.test", "other", "Impostor", 5, 6, 100, 20);
    let account = db.find_account_by_email("mayor@t.test").unwrap();
    assert_eq!(account.pw_hash, "h");
    assert_eq!(db.role_for_account(&account.id).unwrap(), "mayor");
    assert!(db.role_for_account("nobody").is_err());
    let character = db.character_for_account(&account.id).unwrap();
    assert_eq!((character.x, character.y, character.name.as_str()), (3, 4, "Mayor"));
    assert_eq!(db.character_by_id(&character.id), Some(character));
    assert_eq!(db.accounts.len(), 1);
}

#[test]
fn a_character_is_saved_where_it_stands() {
    let mut db = Db::new();
    let hero = a_character(&mut db);
    let other = a_character(&mut db);
    db.save_character(&hero, 7, -8, 42, "market");
    let c = db.character_by_id(&hero).unwrap();
    assert_eq!((c.x, c.y, c.hp, c.district.as_str()), (7, -8, 42, "market"));
    let o = db.character_by_id(&other).unwrap();
    assert_eq!((o.x, o.y, o.hp), (0, 0, 100));
    db.touch_login(&c.account_id);
    let at = db.accounts.rows.iter().find(|a| a.account.id == c.account_id).unwrap().last_login;
    assert!(at > 1_600_000_000, "{at}");
}

#[test]
fn granted_goods_go_to_storage_and_stack() {
    let mut db = Db::new();
    let hero = a_character(&mut db);
    db.grant_storage(&hero, "wood", 5);
    db.grant_storage(&hero, "wood", 7);
    let stored = db.storage_for_character(&hero);
    assert_eq!(stored.len(), 1);
    assert_eq!((stored[0].item_id.as_str(), stored[0].qty), ("wood", 12));
}

#[test]
fn every_job_is_listed_whoever_owns_it() {
    let mut db = Db::new();
    let mut first = a_job();
    first.id = "j1".to_string();
    first.station_id = "s1".to_string();
    let mut second = a_job();
    second.id = "j2".to_string();
    second.station_id = "s2".to_string();
    second.character_id = "someone_else".to_string();
    db.jobs.rows.push(first);
    db.jobs.rows.push(second);
    let mut ids: Vec<String> = db.all_station_jobs().into_iter().map(|j| j.id).collect();
    ids.sort();
    assert_eq!(ids, vec!["j1", "j2"]);
}

#[test]
fn fees_are_shares_of_a_value() {
    let cfg = MarketConfig::default();
    assert!(cfg.is_fair());
    let mut greedy = MarketConfig::default();
    greedy.sale_tax_num = greedy.sale_tax_den + 1;
    assert!(!greedy.is_fair());
    let mut undefined = MarketConfig::default();
    undefined.listing_fee_den = 0;
    assert!(!undefined.is_fair());
}

#[test]
fn everyone_stands_in_one_district() {
    let city = capital();
    let total: usize = city.districts.iter().map(|d| city.npcs_in(d.region).len()).sum();
    assert_eq!(total, city.npcs.len());
}

#[test]
fn a_bid_that_offers_nothing_is_not_placed() {
    let mut db = Db::new();
    let hero = a_character(&mut db);
    let cfg = MarketConfig::default();
    let gold = db.character_gold(&hero);
    for (price, command) in [(0, "c0"), (-1, "c1"), (i64::MIN, "c2"), (i64::MAX, "c3")] {
        let out = db.place_order("m", &hero, "buy", "wood", price, 3, 100, &cfg, command, 1).unwrap();
        assert_eq!((out.filled, out.resting_qty, out.listing_fee), (0, 0, 0));
        assert!(!out.fee_unaffordable && !out.deduped);
    }
    assert_eq!(db.character_gold(&hero), gold);
    assert_eq!(db.orders.len(), 0);
}

#[test]
fn inputs_are_covered_together_or_nothing_is_made() {
    let mut db = Db::new();
    let hero = a_character(&mut db);
    db.add_to_inventory(&hero, "wood", 3);
    assert!(!db.craft(&hero, &[("wood", 2), ("wood", 2)], "plank", 1));
    assert_eq!((db.inventory_qty(&hero, "wood"), db.inventory_qty(&hero, "plank")), (3, 0));
    assert!(db.craft(&hero, &[("wood", 2), ("wood", 1)], "plank", 4));
    assert_eq!((db.inventory_qty(&hero, "wood"), db.inventory_qty(&hero, "plank")), (0, 4));
}
