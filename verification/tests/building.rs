use ideal_city::world;
use ideal_city::persistence::db::Db;
use ideal_city::persistence::rows::{BuildPlacement, InventoryItem, RoadCellSpec};

fn a_character(db: &mut Db) -> String {
    let email = format!("c_{}@t.test", db.accounts.len());
    let (_a, c) = db.create_account_with_character(&email, "h", "Hero", 0, 0, 100);
    c.id
}

fn qty_of(items: &[InventoryItem], item: &str) -> i64 {
    items.iter().filter(|i| i.item_id == item).map(|i| i.qty).sum()
}

fn a_market(db: &mut Db) -> String {
    db.insert_build_order("civic", "market", r#"{"wood":1}"#, "completed", 0, None, 0, None, None)
        .id
}

fn two_road_cells() -> Vec<RoadCellSpec> {
    vec![
        RoadCellSpec { x0: 100, y0: 100, x1: 105, y1: 100, required_json: r#"{"stone":2}"#.to_string() },
        RoadCellSpec { x0: 105, y0: 100, x1: 110, y1: 100, required_json: r#"{"stone":2}"#.to_string() },
    ]
}

#[test]
fn warehousing_a_tool_preserves_the_instance_and_its_wear() {
    let mut db = Db::new();
    let m = a_market(&mut db);
    let cid = a_character(&mut db);
    db.add_to_inventory(&cid, "pickaxe", 1);
    let inv = db.inventory_for_character(&cid);
    let pick = inv.iter().find(|i| i.item_id == "pickaxe").unwrap().clone();
    assert_eq!(pick.durability, world::tool_max_durability("pickaxe"));

    // Wear it, so "the same instance" is actually falsifiable.
    db.equip_instance(&cid, &pick.id);
    db.wear_equipped_tool(&cid, "tool", 7).unwrap();
    let worn = db.inventory_for_character(&cid)
        .into_iter().find(|i| i.item_id == "pickaxe").unwrap();
    assert_eq!(
        worn.durability,
        world::tool_max_durability("pickaxe").map(|m| m - 7)
    );

    assert_eq!(db.warehouse_deposit(&m, &cid, "pickaxe", 1, 60), 1);
    let held = db.warehouse_for_character(&m, &cid);
    assert_eq!(held.len(), 1);
    assert_eq!(held[0].id, worn.id, "the SAME instance, not a fresh tool");
    assert_eq!((held[0].durability, held[0].qty), (worn.durability, 1));
    assert!(db.inventory_for_character(&cid).iter().all(|i| i.item_id != "pickaxe"));
    assert!(db.equipped_tool(&cid, "tool").unwrap().is_none(), "deposited tool is unequipped");

    // Withdraw: still the same instance, still worn.
    assert_eq!(db.warehouse_withdraw(&m, &cid, "pickaxe", 1), 1);
    let back = db.inventory_for_character(&cid)
        .into_iter().find(|i| i.item_id == "pickaxe").unwrap();
    assert_eq!((back.id, back.durability), (worn.id.clone(), worn.durability));
    assert!(db.warehouse_for_character(&m, &cid).is_empty());
}

#[test]
fn warehouse_conserves_goods_across_a_random_command_stream() {
    let mut db = Db::new();
    let m = a_market(&mut db);
    let cid = a_character(&mut db);
    const TOTAL: i64 = 40;
    db.add_to_inventory(&cid, "wood", TOTAL);

    // Deterministic pseudo-random stream, so a failure is reproducible.
    let mut seed: u64 = 0x5eed;
    let mut next = move || {
        seed = seed.wrapping_mul(6364136223846793005).wrapping_add(1442695040888963407);
        (seed >> 33) as i64
    };
    for step in 0..60 {
        let qty = next() % 13;
        match next() % 3 {
            0 => { db.warehouse_deposit(&m, &cid, "wood", qty, 60); }
            1 => { db.warehouse_withdraw(&m, &cid, "wood", qty); }
            _ => { db.warehouse_lock(&m, &cid, "wood", qty); }
        }
        let carried = qty_of(&db.inventory_for_character(&cid), "wood");
        let held: i64 = db.warehouse_for_character(&m, &cid)
            .iter().filter(|r| r.item_id == "wood").map(|r| r.qty).sum();
        assert_eq!(carried + held, TOTAL, "wood conserved at step {step}");
    }
}

#[test]
fn build_wages_pay_on_moved_units_through_both_contribute_paths() {
    let mut db = Db::new();
    let cid = a_character(&mut db);
    let start = db.character_gold(&cid);
    assert_eq!(start, 500, "the migration's starting balance");
    db.add_to_inventory(&cid, "wood", 30);
    db.add_to_inventory(&cid, "stone", 30);

    // Pooled path. The order needs 20 wood; offer 30. Wages must follow
    // the 20 that MOVED, not the 30 offered — the two differ constantly,
    // since contributions are bounded by remaining need and carried stock.
    let well = db.insert_build_order("civic", "town_well", r#"{"wood":20,"stone":10}"#, "open", 0, None, 0, None, None);
    let r = db.contribute(&cid, &well.id, "wood", 30, 3);
    assert_eq!(r.moved, 20, "bounded by the order's need");
    assert_eq!(r.wages, 60, "3 gold x the 20 units that moved, not the 30 offered");
    assert_eq!(db.character_gold(&cid), start + 60, "credited in the same tx");

    // Per-cell road path pays on the same rule.
    let road = db.insert_build_order("civic", "road_x", r#"{"stone":4}"#, "open", 0, None, 0, None, Some("[[100,100],[110,100]]"));
    db.insert_road_cells(&road.id, &two_road_cells());
    let r = db.contribute_to_road_cell(&cid, &road.id, 0, "stone", 5, 3);
    assert_eq!(r.moved, 2, "bounded by the cell's own cost");
    assert_eq!(r.wages, 6);
    assert_eq!(db.character_gold(&cid), start + 66);

    let before = db.character_gold(&cid);
    let r = db.contribute_to_road_cell(&cid, &road.id, 1, "stone", 2, 0);
    assert_eq!(r.moved, 2, "the contribution still happens");
    assert_eq!(r.wages, 0);
    assert_eq!(db.character_gold(&cid), before, "no gold minted at a zero rate");
}

/// A contribution that moves nothing pays nothing — the guard that stops
/// a spam-click on a filled order from minting gold for free.
#[test]
fn build_wages_pay_nothing_when_no_units_move() {
    let mut db = Db::new();
    let cid = a_character(&mut db);
    let start = db.character_gold(&cid);
    let order = db.insert_build_order("civic", "town_well", r#"{"wood":5}"#, "open", 0, None, 0, None, None);

    // Carrying nothing: nothing moves, nothing is paid.
    let r = db.contribute(&cid, &order.id, "wood", 5, 10);
    assert_eq!((r.moved, r.wages), (0, 0));
    assert_eq!(db.character_gold(&cid), start);

    // Fill it, then contribute again into an already-met requirement.
    db.add_to_inventory(&cid, "wood", 10);
    assert_eq!(db.contribute(&cid, &order.id, "wood", 5, 10).wages, 50);
    let paid = db.character_gold(&cid);
    let r = db.contribute(&cid, &order.id, "wood", 5, 10);
    assert_eq!((r.moved, r.wages), (0, 0), "a completed order pays no more wages");
    assert_eq!(db.character_gold(&cid), paid, "no free gold from re-contributing");
}

#[test]
fn road_cell_contribute_updates_the_cell_and_mirrors_into_the_order_aggregate() {
    let mut db = Db::new();
    let order = db.insert_build_order("civic", "road_x", r#"{"stone":4}"#, "open", 0, None, 0, None, Some("[[100,100],[110,100]]"));
    db.insert_road_cells(&order.id, &two_road_cells());

    let cid = a_character(&mut db);
    db.add_to_inventory(&cid, "stone", 10);

    // Partial contribution to cell 0: cell progress moves, cell isn't
    // done yet, and the order's own aggregate mirrors the same amount.
    let r = db.contribute_to_road_cell(&cid, &order.id, 0, "stone", 1, 0);
    assert_eq!(r.moved, 1);
    assert!(!r.cell_completed);
    assert!(!r.order_completed);
    let order_row = db.build_order_by_id(&order.id).unwrap();
    assert_eq!(order_row.progress_json, r#"{"stone":1}"#, "order aggregate mirrors the cell contribution");
    let cells = db.road_cells_for_order(&order.id);
    assert_eq!(cells[0].progress_json, r#"{"stone":1}"#);
    assert!(cells[0].completed_at.is_none());

    // Finish cell 0: only THAT cell completes, not the whole road.
    let r = db.contribute_to_road_cell(&cid, &order.id, 0, "stone", 1, 0);
    assert!(r.cell_completed);
    assert!(!r.order_completed);
    let cells = db.road_cells_for_order(&order.id);
    assert!(cells[0].completed_at.is_some());
    assert!(cells[1].completed_at.is_none());

    // A contribution bounded past a completed cell's need moves nothing.
    assert_eq!(db.contribute_to_road_cell(&cid, &order.id, 0, "stone", 5, 0).moved, 0);

    // Finish cell 1 too: the WHOLE order completes, contributors report,
    // exactly like the pooled `contribute` path.
    let r = db.contribute_to_road_cell(&cid, &order.id, 1, "stone", 2, 0);
    assert!(r.cell_completed);
    assert!(r.order_completed, "every cell done completes the order");
    assert_eq!(r.contributors, vec![(cid.clone(), 4)]);
    let order_row = db.build_order_by_id(&order.id).unwrap();
    assert_eq!(order_row.state, "completed");
    assert_eq!(order_row.progress_json, r#"{"stone":4}"#);

    // Nothing more moves into a completed order.
    assert_eq!(db.contribute_to_road_cell(&cid, &order.id, 1, "stone", 1, 0).moved, 0);
}

#[test]
fn road_cell_contribute_is_a_noop_for_an_unknown_cell_or_order() {
    let mut db = Db::new();
    let order = db.insert_build_order("civic", "road_x", r#"{"stone":2}"#, "open", 0, None, 0, None, Some("[[100,100],[105,100]]"));
    db.insert_road_cells(&order.id, &two_road_cells()[..1]);
    let cid = a_character(&mut db);
    db.add_to_inventory(&cid, "stone", 10);

    assert_eq!(db.contribute_to_road_cell(&cid, "no-such-order", 0, "stone", 1, 0).moved, 0);
    assert_eq!(db.contribute_to_road_cell(&cid, &order.id, 9, "stone", 1, 0).moved, 0, "no cell at that index");
}

#[test]
fn replan_road_order_preserves_progress_on_cells_whose_span_is_unchanged() {
    let mut db = Db::new();
    let order = db.insert_build_order("civic", "road_x", r#"{"stone":4}"#, "open", 0, None, 0, None, Some("[[100,100],[110,100]]"));
    db.insert_road_cells(&order.id, &two_road_cells());
    let cid = a_character(&mut db);
    db.add_to_inventory(&cid, "stone", 10);
    // Finish cell 0 only.
    db.contribute_to_road_cell(&cid, &order.id, 0, "stone", 2, 0);

    // Replan: keep the first cell's span identical (100,100)-(105,100),
    // extend the road further east so the SECOND cell's span changes.
    let new_cells = vec![
        RoadCellSpec { x0: 100, y0: 100, x1: 105, y1: 100, required_json: r#"{"stone":2}"#.to_string() },
        RoadCellSpec { x0: 105, y0: 100, x1: 115, y1: 100, required_json: r#"{"stone":3}"#.to_string() },
    ];
    let placement = BuildPlacement { structure_kind: "dirt_road".to_string(), x: 100, y: 100, x1: Some(115), y1: Some(100) };
    let outcome = db.replan_road_order(&order.id, "civic", r#"{"stone":5}"#, "[[100,100],[115,100]]", &placement, &new_cells, 0);
    assert!(outcome.applied);
    assert!(!outcome.completed, "the recomputed 5-stone cost isn't covered by the kept 2");

    let cells = db.road_cells_for_order(&order.id);
    assert_eq!(cells.len(), 2);
    assert_eq!(cells[0].progress_json, r#"{"stone":2}"#, "unchanged span keeps its progress");
    assert!(cells[0].completed_at.is_some(), "and stays completed");
    assert_eq!(cells[1].progress_json, "{}", "the reshaped cell starts fresh");
    assert!(cells[1].completed_at.is_none());
}

#[test]
fn settle_demolition_refunds_the_full_progress_including_a_part_finished_cell() {
    let mut db = Db::new();
    let order = db.insert_build_order("civic", "road_x", r#"{"stone":4}"#, "open", 0, None, 0, None, Some("[[100,100],[110,100]]"));
    db.insert_road_cells(&order.id, &two_road_cells());
    let cid = a_character(&mut db);
    db.add_to_inventory(&cid, "stone", 10);
    // Cell 0 fully done (2 stone), cell 1 only half done (1 of 2 stone)
    // — the road as a whole is still open, not completed.
    db.contribute_to_road_cell(&cid, &order.id, 0, "stone", 2, 0);
    db.contribute_to_road_cell(&cid, &order.id, 1, "stone", 1, 0);

    db.create_demolition(&order.id, 0).unwrap();
    let (target, refund) = db.settle_demolition(&order.id).unwrap();
    assert_eq!(target.id, order.id);
    assert_eq!(refund.get("stone"), Some(&3), "the partial cell's stone is refunded too, not lost");

    assert!(db.road_cells_for_order(&order.id).is_empty(), "cells are cleaned up with the order");
    assert!(db.build_order_by_id(&order.id).is_none());
}

#[test]
fn cancel_road_order_removes_its_cells_too() {
    let mut db = Db::new();
    let order = db.insert_build_order("civic", "road_x", r#"{"stone":4}"#, "open", 0, None, 0, None, Some("[[100,100],[110,100]]"));
    db.insert_road_cells(&order.id, &two_road_cells());
    assert!(db.cancel_road_order(&order.id));
    assert!(db.road_cells_for_order(&order.id).is_empty());
    assert!(db.build_order_by_id(&order.id).is_none());
}

#[test]
fn seeding_opens_a_dependent_whose_prerequisite_is_already_done() {
    let mut db = Db::new();

    // A world where the capital's market is already finished.
    db.insert_build_order(
        "civic", "market", r#"{"wood":1}"#, "completed", 0, None, 0, None, None,
    );

    db.seed_capital(&world::capital(), 0);

    let remote = db.build_orders_for_district("market")
        .into_iter()
        .find(|o| o.kind == "market_east")
        .expect("the second market should be seeded");
    assert_eq!(
        remote.state, "open",
        "a dependent whose prerequisite is already complete must seed open, or it is \
         permanently dead content"
    );

    // The converse still holds: on a fresh world it seeds locked, because
    // the completion event is still ahead of it.
    let mut fresh = Db::new();
    fresh.seed_capital(&world::capital(), 0);
    let remote = fresh.build_orders_for_district("market")
        .into_iter()
        .find(|o| o.kind == "market_east")
        .unwrap();
    assert_eq!(remote.state, "locked", "on a fresh world the second market is still gated");
    assert!(
        !fresh.is_build_kind_completed("market"),
        "nothing is built on a fresh world"
    );
}

#[test]
fn open_build_order_unlocks_a_locked_dependent() {
    let mut db = Db::new();
    db.insert_build_order("civic", "wall_section", r#"{"stone":30}"#, "locked", 0, None, 0, None, None);
    // Unlock flips it open and returns it; a second call is a no-op.
    let opened = db.open_build_order("civic", "wall_section").unwrap();
    assert_eq!(opened.state, "open");
    assert!(db.open_build_order("civic", "wall_section").is_none());
    // A locked order rejects contributions until opened.
    let locked = db.insert_build_order("civic", "market_stall", r#"{"wood":40}"#, "locked", 0, None, 0, None, None);
    let cid = a_character(&mut db);
    db.add_to_inventory(&cid, "wood", 40);
    assert_eq!(db.contribute(&cid, &locked.id, "wood", 40, 0).moved, 0,
        "a locked order accepts nothing");
}

#[test]
fn skill_gated_order_rejects_until_the_threshold_is_reached() {
    let mut db = Db::new();
    // An open order that still requires Building 1 to contribute to.
    let order = db.insert_build_order("civic", "watchtower", r#"{"wood":30}"#, "open", 0, Some("building"), 1, None, None);
    let cid = a_character(&mut db);
    db.add_to_inventory(&cid, "wood", 30);

    // Below the threshold (Building 0): nothing moves, the wood
    // stays carried, and the order does not complete.
    let r = db.contribute(&cid, &order.id, "wood", 30, 0);
    assert_eq!(r.moved, 0, "greyed order accepts nothing below its skill threshold");
    assert!(!r.completed);
    assert_eq!(db.inventory_total(&cid), 30, "wood untouched");

    // Reach Building 1, then the same contribution succeeds and completes it.
    db.grant_skill_xp(&cid, "building", 100);
    assert_eq!(db.skill_level(&cid, "building"), 1);
    let r = db.contribute(&cid, &order.id, "wood", 30, 0);
    assert_eq!(r.moved, 30, "the threshold un-greys the order");
    assert!(r.completed);
}
