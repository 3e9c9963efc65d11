use ideal_city::market_config::{BountyConfig, MarketConfig, ProvisionerBounds};
use ideal_city::persistence::book::BookLevel;
use ideal_city::persistence::db::Db;
use ideal_city::persistence::inventory::MAX_CARRY;
use ideal_city::persistence::listings::ListingReject;
use ideal_city::persistence::rows::{
    BuildPlacement, MarketListing, MarketOrder, OrderRecord, RoadCellSpec, WarehouseItem,
};

const NO_EXPIRY: i64 = i64::MAX;

fn a_character(db: &mut Db) -> String {
    let email = format!("c_{}@t.test", db.accounts.len());
    let (_a, c) = db.create_account_with_character(&email, "h", "Hero", 0, 0, 100);
    c.id
}

fn cfg() -> MarketConfig {
    MarketConfig { max_open_orders: 1000, ..MarketConfig::default() }
}

fn stocked(db: &mut Db, m: &str, item: &str, qty: i64) -> String {
    let cid = a_character(db);
    db.add_to_inventory(&cid, item, qty);
    db.warehouse_deposit(m, &cid, item, qty, 60);
    cid
}

fn order(side: &str, who: &str, price: i64, total: i64, left: i64) -> OrderRecord {
    OrderRecord {
        order: MarketOrder {
            id: format!("{side}-{who}-{price}"),
            market_id: "m".to_string(),
            character_id: who.to_string(),
            side: side.to_string(),
            item_id: "wood".to_string(),
            unit_price: price,
            qty_total: total,
            qty_remaining: left,
            created_seq: 1,
            created_at: 0,
        },
        expires_at: 0,
    }
}

fn locked(who: &str, item: &str, qty: i64) -> WarehouseItem {
    WarehouseItem {
        id: format!("{who}-{item}"),
        market_id: "m".to_string(),
        character_id: who.to_string(),
        item_id: item.to_string(),
        qty,
        state: "locked".to_string(),
        durability: None,
    }
}

#[test]
fn splitting_an_order_never_saves_fees() {
    let c = cfg();
    for value in [1, 7, 99, 100, 101, 12_345] {
        assert!(c.listing_fee(value) >= 1 && c.sale_tax(value) >= 1 && c.sale_tax(value) <= value);
        for part in 1..value.min(50) {
            assert!(c.listing_fee(part) + c.listing_fee(value - part) >= c.listing_fee(value));
            assert!(c.sale_tax(part) + c.sale_tax(value - part) >= c.sale_tax(value));
        }
    }
    assert_eq!((c.listing_fee(0), c.sale_tax(0)), (0, 0));
    assert_eq!((c.listing_fee(100), c.listing_fee(101)), (1, 2));
    assert_eq!((c.sale_tax(50), c.sale_tax(51)), (1, 2));
}

#[test]
fn every_drift_is_reported_in_words() {
    let mut db = Db::new();
    assert!(db.book_health().is_empty());
    db.warehouse.rows.push(locked("a", "wood", 3));
    db.orders.rows.push(order("sell", "a", 9, 5, 5));
    db.orders.rows.push(order("sell", "b", 8, 5, 0));
    db.orders.rows.push(order("buy", "a", 12, 2, -4));
    db.orders.rows.push(order("buy", "c", 10, 2, 2));
    assert_eq!(
        db.book_health(),
        vec![
            "escrow drift at m/wood: open sells promise 5, warehouse holds 3".to_string(),
            "order sell-b-8 rests at 0 of 5".to_string(),
            "order buy-a-12 rests at -4 of 2".to_string(),
            "crossed book at m/wood: a bid at 12 rests against another player's ask at 8".to_string(),
        ]
    );
    assert_eq!(db.escrow_reconciliation("m"), vec![("wood".to_string(), 5, 3)]);
}

#[test]
fn a_sell_without_any_stock_behind_it_is_drift_too() {
    let mut db = Db::new();
    db.orders.rows.push(order("sell", "a", 9, 5, 5));
    assert_eq!(
        db.book_health(),
        vec!["escrow drift at m/wood: open sells promise 5, warehouse holds 0".to_string()]
    );
}

#[test]
fn the_books_stay_healthy_through_trading() {
    let mut db = Db::new();
    let m = "m";
    let s = stocked(&mut db, m, "wood", 30);
    let b = a_character(&mut db);
    db.place_order(m, &s, "sell", "wood", 7, 20, NO_EXPIRY, &cfg(), "", 0).unwrap();
    assert!(db.book_health().is_empty());
    let out = db.place_order(m, &b, "buy", "wood", 9, 12, NO_EXPIRY, &cfg(), "", 0).unwrap();
    assert_eq!((out.filled, out.spent, out.refunded), (12, 84, 24));
    assert!(db.book_health().is_empty() && db.is_sound());
    let left = db.open_orders_for_character(m, &s).remove(0);
    assert_eq!(db.cancel_order(&s, &left.id).unwrap().qty_remaining, 8);
    assert!(db.book_health().is_empty() && db.is_sound());
    assert_eq!(db.gold_supply_gap(), 0);
}

#[test]
fn nobody_trades_with_themselves() {
    let mut db = Db::new();
    let s = stocked(&mut db, "m", "wood", 30);
    db.place_order("m", &s, "sell", "wood", 5, 10, NO_EXPIRY, &cfg(), "", 0).unwrap();
    let out = db.place_order("m", &s, "buy", "wood", 8, 4, NO_EXPIRY, &cfg(), "", 0).unwrap();
    assert_eq!((out.filled, out.resting_qty), (0, 4));
    assert!(db.book_health().is_empty(), "one owner's orders may cross");
}

#[test]
fn refreshing_again_leaves_the_same_book() {
    let mut db = Db::new();
    let mut c = cfg();
    c.provisioner.push((
        "wood".to_string(),
        ProvisionerBounds { floor: 2, ceiling: 20, bid_qty: 100, seed_stock: 50 },
    ));
    let s = stocked(&mut db, "m", "wood", 10);
    db.place_order("m", &s, "sell", "wood", 9, 10, NO_EXPIRY, &cfg(), "", 0).unwrap();
    assert!(db.refresh_provisioner("m", &c, 10) >= 0);
    let bids = db.book_for("m", "wood", "buy");
    let asks = db.book_for("m", "wood", "sell");
    assert_eq!(bids, vec![BookLevel { unit_price: 2, qty: 100 }]);
    assert_eq!(asks, vec![BookLevel { unit_price: 9, qty: 10 }, BookLevel { unit_price: 20, qty: 50 }]);
    let supply = db.gold_supply();
    for now in [11, 400, 90_000] {
        assert_eq!(db.refresh_provisioner("m", &c, now), 0, "nothing is short");
        assert_eq!(db.book_for("m", "wood", "buy"), bids);
        assert_eq!(db.book_for("m", "wood", "sell"), asks);
    }
    assert_eq!(db.gold_supply(), supply);
}

#[test]
fn only_the_first_buyer_of_a_listing_gets_it() {
    let mut db = Db::new();
    let s = a_character(&mut db);
    db.add_to_inventory(&s, "axe", 1);
    db.warehouse_deposit("m", &s, "axe", 1, 60);
    let tool = db.warehouse_for_character("m", &s).remove(0);
    let listing = db.place_listing("m", &s, &tool.id, 50, NO_EXPIRY, &cfg(), "", 0).unwrap().unwrap();
    let buyers: Vec<String> = (0..4).map(|_| a_character(&mut db)).collect();
    let mut wins = 0;
    for b in &buyers {
        match db.buy_listing(b, &listing.id, 50, &cfg(), "", 0).unwrap() {
            Ok((sold, tax)) => {
                wins += 1;
                assert_eq!((sold.id.as_str(), tax), (listing.id.as_str(), 1));
            }
            Err(e) => assert_eq!(e, ListingReject::Gone),
        }
    }
    assert_eq!(wins, 1);
    assert_eq!(db.warehouse_for_character("m", &buyers[0])[0].id, tool.id, "the very instance");
    assert_eq!(db.gold_supply_gap(), 0);
    assert!(db.is_sound());
}

#[test]
fn early_rent_stacks() {
    let mut db = Db::new();
    let c = a_character(&mut db);
    db.insert_unowned_plot("suburbs", 0, 0, 8, 8, 0);
    let plot = db.claim_plot(&c, "suburbs", 1000, 0).unwrap();
    assert_eq!((plot.rent_paid_through, plot.rent_due_at), (Some(0), Some(1000)));
    let p = db.pay_rent(&plot.id, 1000, 0).unwrap();
    assert_eq!((p.rent_paid_through, p.rent_due_at), (Some(1000), Some(2000)), "nothing is lost");
    let p = db.pay_rent(&plot.id, 1000, 200).unwrap();
    assert_eq!((p.rent_paid_through, p.rent_due_at), (Some(2000), Some(3000)), "one more period on top");
    let p = db.pay_rent(&plot.id, 1000, 5000).unwrap();
    assert_eq!(p.rent_due_at, Some(6000), "late rent runs from now");
    assert!(db.pay_rent("nope", 1000, 0).is_none());
}

#[test]
fn plots_are_given_out_by_row_and_lost_only_after_grace() {
    let mut db = Db::new();
    let far = db.insert_unowned_plot("suburbs", 0, 5, 8, 8, 0);
    let near = db.insert_unowned_plot("suburbs", 3, 1, 8, 8, 0);
    db.insert_unowned_plot("market", 0, 0, 8, 8, 0);
    let a = a_character(&mut db);
    let b = a_character(&mut db);
    let c = a_character(&mut db);
    assert_eq!(db.claim_plot(&a, "suburbs", 100, 0).unwrap().id, near.id);
    assert_eq!(db.claim_plot(&b, "suburbs", 100, 0).unwrap().id, far.id);
    assert!(db.claim_plot(&c, "suburbs", 100, 0).is_none(), "the district has no more");
    assert_eq!(db.apply_rent_tick(&near.id, 100, 50).as_deref(), Some("active"), "due, not overdue");
    assert_eq!(db.apply_rent_tick(&near.id, 5000, 50).as_deref(), Some("lapsed"), "never at once");
    assert_eq!(db.apply_rent_tick(&near.id, 150, 50).as_deref(), Some("lapsed"));
    assert_eq!(db.apply_rent_tick(&near.id, 151, 50).as_deref(), Some("reclaimed"));
    assert_eq!(db.apply_rent_tick("nope", 151, 50), None);
    assert_eq!(db.claim_plot(&c, "suburbs", 100, 200).unwrap().id, near.id);
}

#[test]
fn crafting_makes_no_more_than_can_be_carried() {
    let mut db = Db::new();
    let c = a_character(&mut db);
    db.add_to_inventory(&c, "wood", MAX_CARRY);
    assert!(db.craft(&c, &[("wood", 2)], "plank", 10));
    assert_eq!(db.inventory_qty(&c, "wood"), MAX_CARRY - 2);
    assert_eq!(db.inventory_qty(&c, "plank"), 2, "only two fit");
    assert_eq!(db.inventory_total(&c), MAX_CARRY);
    assert!(!db.craft(&c, &[("stone", 1)], "plank", 1));
}

#[test]
fn mending_brings_a_tool_back() {
    let mut db = Db::new();
    let c = a_character(&mut db);
    db.add_to_inventory(&c, "pickaxe", 1);
    let id = db.inventory_for_character(&c)[0].id.clone();
    assert_eq!(db.equip_instance(&c, &id), Some(("tool", "pickaxe".to_string())));
    let w = db.wear_equipped_tool(&c, "tool", 40).unwrap().unwrap();
    assert_eq!((w.remaining, w.broke), (0, true));
    assert_eq!(db.equipped(&c, "tool"), None);
    db.add_to_inventory(&c, "wood", 3);
    db.add_to_inventory(&c, "stone", 5);
    let r = db.repair_instance(&c, &id).unwrap();
    assert_eq!(r.cost, vec![("wood".to_string(), 3), ("stone".to_string(), 5)]);
    assert_eq!(db.inventory_for_character(&c)[0].durability, Some(30));
    assert_eq!(db.repair_instance(&c, &id), None, "nothing is missing");
    let wood = {
        db.add_to_inventory(&c, "wood", 1);
        db.inventory_for_character(&c).into_iter().find(|i| i.item_id == "wood").unwrap().id
    };
    assert_eq!(db.repair_instance(&c, &wood), None, "wood is no tool");
    assert_eq!(db.equip_instance(&c, &wood), None);
}

fn road(db: &mut Db) -> String {
    let at = BuildPlacement { structure_kind: "dirt_road".to_string(), x: 0, y: 0, x1: Some(20), y1: Some(0) };
    let o = db.insert_build_order(
        "civic",
        "road_1",
        r#"{"stone":6}"#,
        "open",
        0,
        None,
        0,
        Some(at),
        Some("[[0,0],[20,0]]"),
    );
    let cell = |x0, x1| RoadCellSpec { x0, y0: 0, x1, y1: 0, required_json: r#"{"stone":3}"#.to_string() };
    db.insert_road_cells(&o.id, &[cell(0, 10), cell(10, 20)]);
    o.id
}

#[test]
fn a_road_is_the_sum_of_its_cells() {
    let mut db = Db::new();
    let id = road(&mut db);
    let c = a_character(&mut db);
    db.add_to_inventory(&c, "stone", 10);
    let r = db.try_contribute_to_road_cell(&c, &id, 0, "stone", 2, 3).unwrap();
    assert_eq!((r.moved, r.wages, r.cell_completed, r.order_completed), (2, 6, false, false));
    let r = db.try_contribute_to_road_cell(&c, &id, 1, "stone", 9, 0).unwrap();
    assert_eq!((r.moved, r.cell_completed, r.order_completed), (3, true, false));
    assert_eq!(db.build_order_by_id(&id).unwrap().progress_json, r#"{"stone":5}"#);
    let r = db.try_contribute_to_road_cell(&c, &id, 1, "stone", 9, 0).unwrap();
    assert_eq!(r.moved, 0, "a finished cell takes nothing");
    let r = db.try_contribute_to_road_cell(&c, &id, 0, "stone", 9, 0).unwrap();
    assert_eq!((r.moved, r.order_completed), (1, true));
    assert_eq!(r.contributors, vec![(c.clone(), 6)]);
    assert_eq!(db.inventory_qty(&c, "stone"), 4);
}

#[test]
fn a_road_plan_is_cancelled_or_demolished_never_both() {
    let mut db = Db::new();
    let c = a_character(&mut db);
    db.add_to_inventory(&c, "stone", 10);
    assert_eq!(db.create_demolition("nope", 1), Err("no such order"));
    let well = db.insert_build_order("civic", "well", r#"{"wood":1}"#, "open", 0, None, 0, None, None);
    assert_eq!(db.create_demolition(&well.id, 1), Err("that order is not a road"));

    let id = road(&mut db);
    assert_eq!(db.create_demolition(&id, 1), Err("nothing built there yet — cancel the plan instead"));
    db.try_contribute_to_road_cell(&c, &id, 0, "stone", 2, 0).unwrap();
    assert!(!db.cancel_road_order(&id), "there is stone in it");
    let demo = db.create_demolition(&id, 1).unwrap();
    assert_eq!(demo.kind, format!("demo_{id}"));
    assert_eq!(demo.required_json, r#"{"tool_kit":1}"#);
    assert_eq!(db.create_demolition(&id, 2), Err("a demolition for that road is already posted"));
    let r = db.try_contribute_to_road_cell(&c, &id, 0, "stone", 2, 0).unwrap();
    assert_eq!(r.moved, 0, "a plan under demolition takes nothing");
    let (target, refund) = db.settle_demolition(&id).unwrap();
    assert_eq!(target.id, id);
    assert_eq!(refund.entries, vec![("stone".to_string(), 2)]);
    assert!(db.build_order_by_id(&id).is_none() && db.road_cells_for_order(&id).is_empty());
    assert!(db.settle_demolition(&id).is_none());

    let fresh = road(&mut db);
    assert!(db.cancel_road_order(&fresh));
    assert!(db.build_order_by_id(&fresh).is_none());
    let gone = road(&mut db);
    db.save_build_order_progress(&gone, "{}", "locked", None);
    assert_eq!(db.create_demolition(&gone, 3), Err("that road can't be demolished right now"));
}

#[test]
fn a_state_that_cannot_be_is_told_apart() {
    let mut db = Db::new();
    let s = stocked(&mut db, "m", "wood", 10);
    db.place_order("m", &s, "sell", "wood", 5, 10, NO_EXPIRY, &cfg(), "", 0).unwrap();
    assert!(db.is_sound());
    db.characters.rows[0].gold = -1;
    assert!(!db.is_sound(), "an overdrawn purse");
    db.characters.rows[0].gold = 5;
    assert!(db.is_sound());
    db.warehouse.rows[0].qty = 9;
    assert!(!db.is_sound(), "a sell that is not covered");
    db.warehouse.rows[0].qty = 0;
    assert!(!db.is_sound(), "an empty slot");
    db.warehouse.rows[0].qty = 10;
    db.add_to_inventory(&s, "axe", 1);
    assert!(db.is_sound());
    db.inventory.rows[0].durability = None;
    assert!(!db.is_sound(), "a tool without wear");
}

#[test]
fn a_bounty_is_paid_once_for_a_command() {
    let mut db = Db::new();
    let c = a_character(&mut db);
    let bounty = BountyConfig::default();
    db.add_to_inventory(&c, "dog_pelt", 25);
    let purse = db.character_gold(&c);
    assert_eq!(db.turn_in_bounty(&c, &bounty, "x", 0), (100, 15));
    let (paid, _held) = db.turn_in_bounty(&c, &bounty, "x", 0);
    assert_eq!(paid, 0);
    assert_eq!(db.character_gold(&c), purse + 100);
    assert_eq!(db.inventory_qty(&c, "dog_pelt"), 15);
    assert_eq!(db.gold_supply_gap(), 0);
}

#[test]
fn what_a_full_warehouse_leaves_of_a_bid_does_not_cross() {
    let mut db = Db::new();
    let seller = stocked(&mut db, "m", "wood", 10);
    let buyer = stocked(&mut db, "m", "stone", 1);
    let tight = MarketConfig { warehouse_slots: 1, ..cfg() };
    let ask = db.place_order("m", &seller, "sell", "wood", 5, 10, NO_EXPIRY, &cfg(), "a", 0).unwrap();
    assert_eq!(ask.resting_qty, 10);
    let gold = db.character_gold(&buyer);
    let bid = db.place_order("m", &buyer, "buy", "wood", 10, 4, NO_EXPIRY, &tight, "b", 0).unwrap();
    assert_eq!((bid.filled, bid.resting_qty, bid.resting_order_id), (0, 0, None), "nothing rests across the ask");
    assert_eq!(db.character_gold(&buyer), gold - bid.listing_fee, "the gold in escrow is back");
    assert_eq!(db.book_for("m", "wood", "buy"), vec![]);
    assert_eq!(db.book_for("m", "wood", "sell"), vec![BookLevel { unit_price: 5, qty: 10 }]);
    assert!(db.book_health().is_empty());
    assert_eq!(db.gold_supply_gap(), 0);
}

#[test]
fn what_a_full_warehouse_leaves_of_an_ask_does_not_cross() {
    let mut db = Db::new();
    let seller = stocked(&mut db, "m", "wood", 10);
    let buyer = a_character(&mut db);
    let bid = db.place_order("m", &buyer, "buy", "wood", 9, 4, NO_EXPIRY, &cfg(), "a", 0).unwrap();
    assert_eq!(bid.resting_qty, 4);
    let tight = MarketConfig { warehouse_slots: 0, ..cfg() };
    let ask = db.place_order("m", &seller, "sell", "wood", 5, 6, NO_EXPIRY, &tight, "b", 0).unwrap();
    assert_eq!((ask.filled, ask.resting_qty), (0, 0));
    assert_eq!(db.available_stock("m", &seller, "wood"), 10, "the goods in escrow are back");
    assert_eq!(db.book_for("m", "wood", "sell"), vec![]);
    assert_eq!(db.book_for("m", "wood", "buy"), vec![BookLevel { unit_price: 9, qty: 4 }]);
    assert!(db.book_health().is_empty());
    assert!(db.is_sound());
}

#[test]
fn a_buy_costs_what_it_reports_and_own_orders_stay() {
    let mut db = Db::new();
    let seller = stocked(&mut db, "m", "wood", 10);
    let buyer = stocked(&mut db, "m", "wood", 3);
    db.place_order("m", &buyer, "sell", "wood", 4, 3, NO_EXPIRY, &cfg(), "a", 0).unwrap();
    db.place_order("m", &seller, "sell", "wood", 5, 2, NO_EXPIRY, &cfg(), "b", 0).unwrap();
    let own = db.open_orders_for_character("m", &buyer);
    let gold = db.character_gold(&buyer);
    let out = db.place_order("m", &buyer, "buy", "wood", 8, 5, NO_EXPIRY, &cfg(), "c", 0).unwrap();
    assert_eq!((out.filled, out.spent, out.resting_qty), (2, 10, 3), "what stands behind the own order is matched");
    assert_eq!(db.character_gold(&buyer), gold - out.spent - out.listing_fee - 8 * out.resting_qty);
    let after = db.open_orders_for_character("m", &buyer);
    assert!(own.iter().all(|o| after.contains(o)), "the own order still rests");
    assert!(out.fills.iter().all(|f| f.seller_id != f.buyer_id));
    let again = db.place_order("m", &buyer, "buy", "wood", 8, 5, NO_EXPIRY, &cfg(), "c", 1).unwrap();
    assert!(again.deduped && again.fills.is_empty() && again.listing_fee == 0);
}

#[test]
fn a_rerouted_road_is_done_only_with_its_last_cell() {
    let mut db = Db::new();
    let c = a_character(&mut db);
    let cell = |x: i64| RoadCellSpec {
        x0: x,
        y0: 0,
        x1: x + 5,
        y1: 0,
        required_json: r#"{"stone":2}"#.to_string(),
    };
    let road = db.insert_build_order("civic", "road_x", r#"{"stone":4}"#, "open", 0, None, 0, None, Some("[]"));
    db.insert_road_cells(&road.id, &[cell(0), cell(5)]);
    db.add_to_inventory(&c, "stone", 20);
    assert!(db.contribute_to_road_cell(&c, &road.id, 0, "stone", 2, 0).cell_completed);
    let place = BuildPlacement { structure_kind: "road".to_string(), x: 0, y: 0, x1: Some(9), y1: Some(0) };
    let moved = db.replan_road_order(&road.id, "civic", r#"{"stone":4}"#, "[]", &place, &[cell(50), cell(60)], 1);
    assert!(moved.applied);
    let r = db.contribute_to_road_cell(&c, &road.id, 0, "stone", 2, 0);
    assert!(r.cell_completed && !r.order_completed, "a cell with nothing in it is not done");
    assert_eq!(r.order_progress.amount("stone"), 4);
    assert_eq!(db.build_order_by_id(&road.id).unwrap().state, "open");
    let r = db.contribute_to_road_cell(&c, &road.id, 1, "stone", 2, 0);
    assert!(r.cell_completed && r.order_completed);
    assert_eq!(r.contributors, vec![(c, 6)]);
    assert_eq!(db.build_order_by_id(&road.id).unwrap().state, "completed");
}

#[test]
fn only_a_unique_item_is_listed() {
    let mut db = Db::new();
    let seller = a_character(&mut db);
    let slot = |id: &str, item: &str, durability: Option<i64>| WarehouseItem {
        id: id.to_string(),
        market_id: "m".to_string(),
        character_id: seller.clone(),
        item_id: item.to_string(),
        qty: 1,
        state: "available".to_string(),
        durability,
    };
    db.warehouse.push(slot("w", "wood", None));
    db.warehouse.push(slot("x", "nobody_knows", None));
    db.warehouse.push(slot("t", "axe", Some(12)));
    for id in ["w", "x"] {
        assert_eq!(db.place_listing("m", &seller, id, 50, 0, &cfg(), id, 0).unwrap(), None);
    }
    let l = db.place_listing("m", &seller, "t", 50, 0, &cfg(), "t", 0).unwrap().unwrap();
    assert_eq!((l.item_id.as_str(), l.durability), ("axe", Some(12)));
    assert!(db.is_sound());
}

#[test]
fn stock_is_taken_in_the_order_of_its_ids() {
    let mut db = Db::new();
    let owner = a_character(&mut db);
    for id in ["c", "a", "b"] {
        db.warehouse.push(WarehouseItem {
            id: id.to_string(),
            market_id: "m".to_string(),
            character_id: owner.clone(),
            item_id: "axe".to_string(),
            qty: 1,
            state: "available".to_string(),
            durability: Some(5),
        });
    }
    assert_eq!(db.warehouse_lock("m", &owner, "axe", 1), 1);
    let held = db.warehouse_for_character("m", &owner);
    let locked: Vec<&str> = held.iter().filter(|w| w.state == "locked").map(|w| w.id.as_str()).collect();
    assert_eq!(locked, vec!["a"]);
    assert_eq!(db.warehouse_withdraw("m", &owner, "axe", 1), 1);
    assert_eq!(db.inventory_for_character(&owner)[0].id, "b");
    for id in ["o2", "o1"] {
        let mut o = order("buy", &owner, 1, 1, 1);
        o.order.id = id.to_string();
        o.expires_at = 10;
        db.orders.push(o);
    }
    let due: Vec<String> = db.expire_orders(10).into_iter().map(|o| o.id).collect();
    assert_eq!(due, vec!["o1", "o2"]);
}

#[test]
fn a_listing_goes_by_the_id_of_what_it_has_in_escrow() {
    let mut db = Db::new();
    let seller = a_character(&mut db);
    let mut row = locked(&seller, "axe", 1);
    row.id = "t".to_string();
    db.warehouse.push(row);
    for (id, expires_at) in [("l1", 0), ("l2", 5)] {
        db.listings.push(MarketListing {
            id: id.to_string(),
            market_id: "m".to_string(),
            seller_id: seller.clone(),
            warehouse_item_id: "t".to_string(),
            item_id: "axe".to_string(),
            durability: None,
            ask_price: 10,
            created_at: 0,
            expires_at,
        });
    }
    assert!(db.cancel_listing(&seller, "l1").is_some());
    assert_eq!(db.warehouse_for_character("m", &seller)[0].state, "available");
    db.warehouse.rows[0].state = "locked".to_string();
    assert_eq!(db.expire_listings(5).len(), 1);
    assert_eq!(db.warehouse_for_character("m", &seller)[0].state, "available");
}

#[test]
fn a_lapsed_plot_without_a_due_date_is_kept() {
    let mut db = Db::new();
    let c = a_character(&mut db);
    db.insert_unowned_plot("suburbs", 0, 0, 8, 8, 0);
    let plot = db.claim_plot(&c, "suburbs", 1000, 0).unwrap();
    db.plots.rows[0].state = "lapsed".to_string();
    db.plots.rows[0].rent_due_at = None;
    assert_eq!(db.apply_rent_tick(&plot.id, i64::MAX, 0), Some("lapsed".to_string()));
    assert_eq!(db.apply_rent_tick(&plot.id, i64::MAX, -1), Some("reclaimed".to_string()));
}

#[test]
fn refreshing_several_commodities_again_leaves_every_book() {
    let mut db = Db::new();
    let bounds = |floor: i64, ceiling: i64| ProvisionerBounds { floor, ceiling, bid_qty: 100, seed_stock: 20 };
    let cfg = MarketConfig {
        provisioner: vec![
            ("plank".to_string(), bounds(4, 40)),
            ("stone".to_string(), bounds(3, 30)),
            ("wood".to_string(), bounds(2, 20)),
        ],
        ..cfg()
    };
    assert_eq!(db.refresh_provisioner("m", &cfg, 0), 400, "900 bid, 500 in the purse");
    let books = |db: &Db| -> Vec<Vec<BookLevel>> {
        ["plank", "stone", "wood"]
            .iter()
            .flat_map(|i| [db.book_for("m", i, "buy"), db.book_for("m", i, "sell")])
            .collect()
    };
    let before = books(&db);
    for now in 1..4 {
        assert_eq!(db.refresh_provisioner("m", &cfg, now), 0, "nothing more is minted");
        assert_eq!(books(&db), before);
    }
    let farmer = a_character(&mut db);
    let start = db.character_gold(&farmer);
    let bought = db.place_order("m", &farmer, "buy", "wood", 20, 5, NO_EXPIRY, &cfg, "b", 9).unwrap();
    let sold = db.place_order("m", &farmer, "sell", "wood", 2, 5, NO_EXPIRY, &cfg, "s", 9).unwrap();
    assert_eq!((bought.filled, bought.spent, sold.filled, sold.earned), (5, 100, 5, 10));
    assert_eq!(
        db.character_gold(&farmer),
        start - 100 - bought.listing_fee + 10 - sold.sale_tax - sold.listing_fee
    );
    assert_eq!(db.gold_supply_gap(), 0);
}
