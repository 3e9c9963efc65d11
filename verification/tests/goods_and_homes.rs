use ideal_city::world;
use ideal_city::persistence::db::Db;
use ideal_city::persistence::inventory::MAX_CARRY;
use ideal_city::persistence::rows::InventoryItem;
use ideal_city::persistence::skills::level_for_xp;

fn a_character(db: &mut Db) -> String {
    let email = format!("c_{}@t.test", db.accounts.len());
    let (_a, c) = db.create_account_with_character(&email, "h", "Hero", 0, 0, 100);
    c.id
}

fn qty_of(items: &[InventoryItem], item: &str) -> i64 {
    items.iter().filter(|i| i.item_id == item).map(|i| i.qty).sum()
}

#[test]
fn xp_curve_is_monotonic_and_correct() {
    assert_eq!(level_for_xp(0), 0);
    assert_eq!(level_for_xp(99), 0);
    assert_eq!(level_for_xp(100), 1);
    assert_eq!(level_for_xp(399), 1);
    assert_eq!(level_for_xp(400), 2);
    assert_eq!(level_for_xp(900), 3);
    // never decreases
    let mut last = 0;
    for xp in (0..2000).step_by(7) {
        let l = level_for_xp(xp);
        assert!(l >= last);
        last = l;
    }
}

#[test]
fn skill_xp_accumulates_and_levels() {
    let mut db = Db::new();
    let cid = a_character(&mut db);
    let g = db.grant_skill_xp(&cid, "gathering", 60);
    assert_eq!((g.skill.xp, g.skill.level), (60, 0));
    assert!(!g.leveled_up, "still level 0");
    let g = db.grant_skill_xp(&cid, "gathering", 50);
    assert_eq!((g.skill.xp, g.skill.level), (110, 1));
    assert!(g.leveled_up, "crossed into level 1");
    // A further grant that stays within the level does not report a level-up.
    let g = db.grant_skill_xp(&cid, "gathering", 10);
    assert_eq!(g.skill.level, 1);
    assert!(!g.leveled_up, "no boundary crossed");
    // separate skills are independent
    db.grant_skill_xp(&cid, "building", 400);
    let skills = db.skills_for_character(&cid);
    assert_eq!(skills.len(), 2);
    assert_eq!(db.skill_level(&cid, "building"), 2);
    assert_eq!(db.skill_level(&cid, "absent"), 0);
}

#[test]
fn inventory_stacks_and_caps_at_carry_limit() {
    let mut db = Db::new();
    let cid = a_character(&mut db);
    assert_eq!(db.add_to_inventory(&cid, "wood", 3), 3);
    assert_eq!(db.add_to_inventory(&cid, "wood", 2), 2);
    let inv = db.inventory_for_character(&cid);
    assert_eq!(qty_of(&inv, "wood"), 5);
    assert_eq!(db.inventory_total(&cid), 5);

    // Fill to MAX_CARRY; further adds are partially then fully rejected.
    let added = db.add_to_inventory(&cid, "stone", 100);
    assert_eq!(added, MAX_CARRY - 5, "only the remaining room is added");
    assert_eq!(db.inventory_total(&cid), MAX_CARRY);
    assert_eq!(db.add_to_inventory(&cid, "wood", 1), 0, "full inventory");
}

#[test]
fn deposit_frees_capacity_and_withdraw_respects_it() {
    let mut db = Db::new();
    let cid = a_character(&mut db);
    db.add_to_inventory(&cid, "wood", MAX_CARRY);
    assert_eq!(db.add_to_inventory(&cid, "stone", 1), 0);

    // Deposit moves carried wood into storage (which is uncapped) and frees carry.
    let moved = db.deposit(&cid, "wood", 30);
    assert_eq!(moved, 30);
    assert_eq!(db.inventory_total(&cid), MAX_CARRY - 30);
    assert_eq!(qty_of(&db.inventory_for_character(&cid), "wood"), MAX_CARRY - 30);
    let stored = db.storage_for_character(&cid);
    assert_eq!(stored.iter().find(|s| s.item_id == "wood").unwrap().qty, 30);
    // Now there is room to carry again.
    assert_eq!(db.add_to_inventory(&cid, "stone", 1), 1);

    // Withdraw is bounded by remaining carry room: only fills to MAX_CARRY.
    let room = MAX_CARRY - db.inventory_total(&cid);
    let got = db.withdraw(&cid, "wood", 999);
    assert_eq!(got, room);
    assert_eq!(db.inventory_total(&cid), MAX_CARRY);
    // The rest stays safely in storage.
    assert_eq!(db.storage_for_character(&cid).iter()
        .find(|s| s.item_id == "wood").unwrap().qty, 30 - room);

    // Depositing more than carried only moves what's there.
    let inv_stone = qty_of(&db.inventory_for_character(&cid), "stone");
    assert_eq!(db.deposit(&cid, "stone", 999), inv_stone);
}

#[test]
fn claim_plot_is_idempotent_and_respects_the_pool() {
    let mut db = Db::new();
    let cid = a_character(&mut db);
    db.insert_unowned_plot("suburbs", 0, 0, 8, 8, 0);
    db.insert_unowned_plot("suburbs", 1, 0, 8, 8, 0);

    let p1 = db.claim_plot(&cid, "suburbs", 3600, 1000).unwrap();
    assert_eq!(p1.owner_character_id.as_deref(), Some(cid.as_str()));
    assert_eq!(p1.state, "active");
    assert_eq!((p1.rent_paid_through, p1.rent_due_at), (Some(1000), Some(4600)));

    // Reconnect: same plot, no second grant.
    let p2 = db.claim_plot(&cid, "suburbs", 3600, 9999).unwrap();
    assert_eq!(p2.id, p1.id);
    assert_eq!(db.plot_for_character(&cid).unwrap().id, p1.id);
}

#[test]
fn rent_lapses_then_reclaims_and_returns_to_pool() {
    let mut db = Db::new();
    let cid = a_character(&mut db);
    db.insert_unowned_plot("suburbs", 0, 0, 8, 8, 0);
    let plot = db.claim_plot(&cid, "suburbs", 1000, 0).unwrap();
    // due at 1000. Before due: still active.
    assert_eq!(db.apply_rent_tick(&plot.id, 500, 500).as_deref(), Some("active"));
    // Past due: lapses (grace window begins).
    assert_eq!(db.apply_rent_tick(&plot.id, 1500, 500).as_deref(), Some("lapsed"));
    // Paying rescues it.
    let paid = db.pay_rent(&plot.id, 1000, 1500).unwrap();
    assert_eq!(paid.state, "active");
    assert_eq!(paid.rent_due_at, Some(2500));
    // Let it lapse and exceed grace → reclaimed, owner cleared, back in pool.
    db.apply_rent_tick(&plot.id, 3000, 500);
    let st = db.apply_rent_tick(&plot.id, 4000, 500);
    assert_eq!(st.as_deref(), Some("reclaimed"));
    let reclaimed = db.load_plot(&plot.id).unwrap();
    assert_eq!(reclaimed.owner_character_id, None);
    assert!(db.plot_for_character(&cid).is_none());
    // Another character can claim the reclaimed plot.
    let other = a_character(&mut db);
    let p = db.claim_plot(&other, "suburbs", 1000, 5000).unwrap();
    assert_eq!(p.id, plot.id);
}

#[test]
fn pay_rent_with_gold_is_atomic_and_ownership_checked() {
    let mut db = Db::new();
    let cid = a_character(&mut db);
    let other = a_character(&mut db);
    db.insert_unowned_plot("suburbs", 0, 0, 8, 8, 0);
    let plot = db.claim_plot(&cid, "suburbs", 1000, 0).unwrap();
    let starting_gold = db.character_gold(&cid);
    assert_eq!(starting_gold, 500, "the migration's starting balance");

    // Someone else can't pay your rent.
    assert!(db.pay_rent_with_gold(&other, &plot.id, 50, 1000, 100).unwrap().is_none());
    assert_eq!(db.character_gold(&cid), starting_gold, "no mutation on the wrong owner");

    // More than the balance: no-op, no partial deduction.
    assert!(db.pay_rent_with_gold(&cid, &plot.id, starting_gold + 1, 1000, 100).unwrap().is_none());
    assert_eq!(db.character_gold(&cid), starting_gold);

    // Lapse it first, so paying also has to clear the lapse + the warned flag.
    db.apply_rent_tick(&plot.id, 1500, 500);
    db.mark_rent_warned(&plot.id);
    assert_eq!(db.load_plot(&plot.id).unwrap().state, "lapsed");

    let paid = db.pay_rent_with_gold(&cid, &plot.id, 50, 1000, 2000).unwrap().unwrap();
    assert_eq!(paid.state, "active");
    assert!(!paid.warned, "paying resets the warning flag for the new cycle");
    assert_eq!(paid.rent_due_at, Some(3000));
    assert_eq!(db.character_gold(&cid), starting_gold - 50, "cost deducted exactly once");
}

#[test]
fn set_auto_pay_is_ownership_checked() {
    let mut db = Db::new();
    let cid = a_character(&mut db);
    let other = a_character(&mut db);
    db.insert_unowned_plot("suburbs", 0, 0, 8, 8, 0);
    let plot = db.claim_plot(&cid, "suburbs", 1000, 0).unwrap();
    assert!(!plot.auto_pay, "off by default");

    assert!(!db.set_auto_pay(&other, &plot.id, true), "not the owner");
    assert!(!db.load_plot(&plot.id).unwrap().auto_pay);

    assert!(db.set_auto_pay(&cid, &plot.id, true));
    assert!(db.load_plot(&plot.id).unwrap().auto_pay);
}

#[test]
fn rent_active_plots_only_returns_owned_active_or_lapsed_plots() {
    let mut db = Db::new();
    let cid = a_character(&mut db);
    db.insert_unowned_plot("suburbs", 0, 0, 8, 8, 0);
    db.insert_unowned_plot("suburbs", 1, 0, 8, 8, 0);
    db.insert_unowned_plot("suburbs", 2, 0, 8, 8, 0);
    let owned = db.claim_plot(&cid, "suburbs", 1000, 0).unwrap();

    let active = db.rent_active_plots();
    assert_eq!(active.len(), 1, "unowned plots aren't subject to rent");
    assert_eq!(active[0].id, owned.id);

    db.apply_rent_tick(&owned.id, 1500, 500);
    assert_eq!(db.rent_active_plots().len(), 1, "lapsed still counts, until reclaimed");

    db.apply_rent_tick(&owned.id, 3000, 500);
    assert!(db.rent_active_plots().is_empty(), "reclaimed drops out (no owner)");
}

#[test]
fn reclaim_plot_belongings_preserves_flair_and_clears_structures_and_respawn() {
    let mut db = Db::new();
    let cid = a_character(&mut db);
    db.insert_unowned_plot("suburbs", 0, 0, 8, 8, 0);
    let plot = db.claim_plot(&cid, "suburbs", 1000, 0).unwrap();
    let bed = db.place_structure(&plot.id, "bed", 2, 3, 0, 100, Some(&cid), "{}");
    db.place_structure(&plot.id, "storage", 4, 4, 0, 100, Some(&cid), "{}");
    let flair_id = db.add_flair(&cid, Some(&plot.id), "rug", 1, 1, 0);
    db.set_respawn_structure(&cid, Some(&bed.id));
    db.deposit_to_storage(&cid, "wood", 10);

    let deleted = db.reclaim_plot_belongings(&plot.id, &cid);
    assert_eq!(deleted.len(), 2, "both structures are reported as deleted");
    assert!(deleted.contains(&bed.id));

    assert!(db.structures_for_plot(&plot.id).is_empty(), "structures are gone");
    let flair = db.flair_for_plot(&plot.id);
    assert!(flair.is_empty(), "no longer attached to the (former) plot");
    // But it isn't destroyed — still exists, owned, just unattached.
    let all_flair = db.flair_for_character(&cid);
    assert_eq!(all_flair.len(), 1, "flair is preserved, not deleted");
    assert_eq!(all_flair[0].id, flair_id);
    assert_eq!(all_flair[0].plot_id, None);
    assert_eq!(all_flair[0].owner_character_id, cid);

    // The respawn bed was demolished — the dangling reference is cleared.
    assert_eq!(db.respawn_point_for_character(&cid), None);

    let stash = db.storage_for_character(&cid);
    assert_eq!(stash.iter().find(|i| i.item_id == "wood").unwrap().qty, 10);
}

#[test]
fn reclaiming_one_plot_does_not_disturb_another_owners_plot() {
    let mut db = Db::new();
    let alice = a_character(&mut db);
    let bob = a_character(&mut db);
    db.insert_unowned_plot("suburbs", 0, 0, 8, 8, 0);
    db.insert_unowned_plot("suburbs", 1, 0, 8, 8, 0);
    let alice_plot = db.claim_plot(&alice, "suburbs", 1000, 0).unwrap();
    let bob_plot = db.claim_plot(&bob, "suburbs", 1000, 0).unwrap();
    assert_ne!(alice_plot.id, bob_plot.id);

    let alice_bed = db.place_structure(&alice_plot.id, "bed", 2, 3, 0, 100, Some(&alice), "{}");
    let bob_bed = db.place_structure(&bob_plot.id, "bed", 2, 3, 0, 100, Some(&bob), "{}");
    db.add_flair(&bob, Some(&bob_plot.id), "rug", 1, 1, 0);
    db.set_respawn_structure(&bob, Some(&bob_bed.id));

    // Reclaim only Alice's plot: the pure state-machine transition (as the
    // real ticker would drive it) plus the belongings side-effect.
    db.apply_rent_tick(&alice_plot.id, 1500, 500);
    db.apply_rent_tick(&alice_plot.id, 3000, 500);
    let deleted = db.reclaim_plot_belongings(&alice_plot.id, &alice);
    assert_eq!(deleted, vec![alice_bed.id]);

    // Bob's plot, structure, flair, and respawn are all completely untouched.
    let bob_plot_after = db.load_plot(&bob_plot.id).unwrap();
    assert_eq!(bob_plot_after.owner_character_id.as_deref(), Some(bob.as_str()));
    assert_eq!(bob_plot_after.state, "active");
    let bob_structures = db.structures_for_plot(&bob_plot.id);
    assert_eq!(bob_structures.len(), 1);
    assert_eq!(bob_structures[0].id, bob_bed.id);
    assert_eq!(db.flair_for_plot(&bob_plot.id).len(), 1);
    assert_eq!(
        db.respawn_point_for_character(&bob),
        Some((2, 3)),
        "Bob's respawn bed is untouched"
    );

    // Alice's plot really is reclaimed, and a third character can claim it.
    assert!(db.plot_for_character(&alice).is_none());
    let carol = a_character(&mut db);
    let claimed = db.claim_plot(&carol, "suburbs", 1000, 100).unwrap();
    assert_eq!(claimed.id, alice_plot.id);
}

#[test]
fn structures_build_orders_and_nodes_round_trip() {
    let mut db = Db::new();
    let cid = a_character(&mut db);
    let plot = db.insert_unowned_plot("suburbs", 0, 0, 8, 8, 0);
    let s = db.place_structure(&plot.id, "bed", 2, 3, 90, 50, Some(&cid), "{}");
    assert_eq!(s.kind, "bed");
    assert_eq!(db.structures_for_plot(&plot.id).len(), 1);
    db.add_flair(&cid, Some(&plot.id), "rug", 1, 1, 0);

    let order = db.insert_build_order("market", "town_well", r#"{"wood":20}"#, "open", 100, None, 0, None, None);
    db.save_build_order_progress(&order.id, r#"{"wood":20}"#, "completed", Some(200));
    let orders = db.build_orders_for_district("market");
    assert_eq!(orders[0].state, "completed");

    let node = db.insert_resource_node("market", "wood", 10, 10, 5);
    let remaining = db.deplete_resource_node(&node.id, 5, 9999);
    assert_eq!(remaining, 0);
    let nodes = db.resource_nodes_for_district("market");
    assert_eq!(nodes[0].respawn_at, Some(9999));
}

#[test]
fn craft_is_atomic_and_bounded_by_ingredients() {
    let mut db = Db::new();
    let cid = a_character(&mut db);
    db.add_to_inventory(&cid, "wood", 3);

    // Short one stone: the whole craft is a no-op, wood is untouched.
    let ok = db.craft(&cid, &[("wood", 2), ("stone", 1)], "tool_kit", 1);
    assert!(!ok, "insufficient ingredients should not craft");
    assert_eq!(
        qty_of(&db.inventory_for_character(&cid), "wood"),
        3,
        "a failed craft must not consume any input"
    );

    // Enough wood alone: plank only needs wood.
    let ok = db.craft(&cid, &[("wood", 2)], "plank", 2);
    assert!(ok);
    let items = db.inventory_for_character(&cid);
    assert_eq!(qty_of(&items, "wood"), 1, "inputs are debited");
    assert_eq!(qty_of(&items, "plank"), 2, "output is credited");
}

#[test]
fn structures_in_district_spans_every_owning_plot() {
    let mut db = Db::new();
    let cid_a = a_character(&mut db);
    let cid_b = a_character(&mut db);
    let plot_a = db.insert_unowned_plot("suburbs", 0, 0, 8, 8, 0);
    let plot_b = db.insert_unowned_plot("suburbs", 1, 0, 8, 8, 0);
    let other_district = db.insert_unowned_plot("market", 0, 0, 8, 8, 0);
    db.place_structure(&plot_a.id, "bed", 2, 3, 0, 100, Some(&cid_a), "{}");
    db.place_structure(&plot_b.id, "storage", 4, 4, 0, 100, Some(&cid_b), "{}");
    db.place_structure(&other_district.id, "bed", 1, 1, 0, 100, Some(&cid_a), "{}");

    let suburbs = db.structures_in_district("suburbs");
    assert_eq!(suburbs.len(), 2, "every home in the district, not just one character's");
    assert!(suburbs.iter().any(|s| s.plot_id == plot_a.id));
    assert!(suburbs.iter().any(|s| s.plot_id == plot_b.id));
    assert!(!suburbs.iter().any(|s| s.plot_id == other_district.id));
}

#[test]
fn plots_for_district_shows_every_plot_with_owner_name_or_none() {
    let mut db = Db::new();
    let (_a, alice) = db.create_account_with_character("alice@t.test", "h", "Alice", 0, 0, 100);
    // Two suburbs plots (claim_plot picks the lowest grid coord first, so
    // this one goes to Alice) and one in a different district as a control.
    let plot_a = db.insert_unowned_plot("suburbs", 0, 0, 8, 8, 0);
    let plot_b = db.insert_unowned_plot("suburbs", 1, 0, 8, 8, 0);
    let other_district = db.insert_unowned_plot("market", 0, 0, 8, 8, 0);
    db.claim_plot(&alice.id, "suburbs", 1000, 500);

    let roster = db.plots_for_district("suburbs");
    assert_eq!(roster.len(), 2, "every suburbs plot, claimed or not");
    assert!(!roster.iter().any(|p| p.id == other_district.id), "other districts excluded");

    let mine = roster.iter().find(|p| p.id == plot_a.id).expect("the claimed plot appears");
    assert_eq!(mine.owner_character_id.as_deref(), Some(alice.id.as_str()));
    assert_eq!(mine.owner_name.as_deref(), Some("Alice"), "owner name resolved via the join");

    let free = roster.iter().find(|p| p.id == plot_b.id).expect("the still-free plot appears");
    assert_eq!(free.owner_character_id, None);
    assert_eq!(free.owner_name, None, "unclaimed plots have no owner name");
}

#[test]
fn respawn_structure_resolves_to_its_position_or_none() {
    let mut db = Db::new();
    let cid = a_character(&mut db);
    assert_eq!(db.respawn_point_for_character(&cid), None, "no bed set yet");

    let plot = db.insert_unowned_plot("suburbs", 0, 0, 8, 8, 0);
    let bed = db.place_structure(&plot.id, "bed", 12, 34, 0, 100, Some(&cid), "{}");
    db.set_respawn_structure(&cid, Some(&bed.id));
    assert_eq!(db.respawn_point_for_character(&cid), Some((12, 34)));

    db.set_respawn_structure(&cid, None);
    assert_eq!(db.respawn_point_for_character(&cid), None, "clearing it falls back to no bed");
}

#[test]
fn seed_capital_is_idempotent_and_claimable() {
    let mut db = Db::new();
    let cap = world::capital();

    db.seed_capital(&cap, 100);
    let plots = db.plot_count();
    assert_eq!(plots, cap.starter_plots().len() as i64);
    let seeded = db.build_orders_for_district("civic");
    assert_eq!(seeded.len(), 1);
    assert_eq!((seeded[0].kind.as_str(), seeded[0].state.as_str()), ("market", "open"));

    // Re-seed (simulating a restart): no duplicate plots, and no duplicate
    // build orders — each authored kind is created at most once per district.
    db.seed_capital(&cap, 200);
    assert_eq!(db.plot_count(), plots);
    assert_eq!(
        db.build_orders_for_district("civic").len(), 1,
        "re-seeding must not duplicate the market"
    );

    // A fresh character can claim one of the seeded starter plots.
    let cid = a_character(&mut db);
    let claimed = db.claim_plot(&cid, "suburbs", 3600, 300);
    assert!(claimed.is_some(), "a seeded starter plot should be claimable");
}

/// A build order pools contributions from multiple characters, bounds each move by
/// the remaining need and what's carried, and completes when the last item is met —
/// returning every contributor for lump-sum XP.
#[test]
fn build_order_pools_contributions_and_completes() {
    let mut db = Db::new();
    let order = db.insert_build_order("civic", "town_well", r#"{"wood":20,"stone":10}"#, "open", 0, None, 0, None, None);

    let a = a_character(&mut db);
    let b = a_character(&mut db);
    db.add_to_inventory(&a, "wood", 30);
    db.add_to_inventory(&b, "wood", 5);
    db.add_to_inventory(&b, "stone", 20);

    // A contributes wood: bounded by the order's need (20), not the 30 carried.
    let r = db.contribute(&a, &order.id, "wood", 30, 0);
    assert_eq!(r.moved, 20, "capped at the wood requirement");
    assert!(!r.completed, "stone still outstanding");
    assert_eq!(r.progress.get("wood"), Some(&20));
    assert_eq!(db.inventory_total(&a), 10, "unspent wood stays carried");

    // Wood is already met: a further wood contribution moves nothing.
    assert_eq!(db.contribute(&b, &order.id, "wood", 5, 0).moved, 0);

    // B finishes the stone (bounded to the 10 needed) → completes the order.
    let done = db.contribute(&b, &order.id, "stone", 20, 0);
    assert_eq!(done.moved, 10);
    assert!(done.completed, "the last required item completes the order");
    // Both contributors are reported, keyed for XP, with their total units.
    let by: std::collections::HashMap<_, _> = done.contributors.iter().cloned().collect();
    assert_eq!(by.get(&a), Some(&20));
    assert_eq!(by.get(&b), Some(&10));

    let after = db.build_orders_for_district("civic");
    let well = after.iter().find(|o| o.id == order.id).unwrap();
    assert_eq!(well.state, "completed");
    assert!(well.completed_at.is_some());
    assert_eq!(db.contribute(&a, &order.id, "stone", 1, 0).moved, 0);
}
