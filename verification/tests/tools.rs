use ideal_city::world;
use ideal_city::persistence::db::Db;

fn a_character(db: &mut Db) -> String {
    let email = format!("c_{}@t.test", db.accounts.len());
    let (_a, c) = db.create_account_with_character(&email, "h", "Hero", 0, 0, 100);
    c.id
}

#[test]
fn tools_are_instanced_not_stacked_on_grant() {
    let mut db = Db::new();
    let cid = a_character(&mut db);
    db.add_to_inventory(&cid, "pickaxe", 1);
    db.add_to_inventory(&cid, "pickaxe", 1);
    db.add_to_inventory(&cid, "wood", 3);
    db.add_to_inventory(&cid, "wood", 2);

    let items = db.inventory_for_character(&cid);
    let picks: Vec<_> = items.iter().filter(|i| i.item_id == "pickaxe").collect();
    assert_eq!(picks.len(), 2, "two grants -> two separate instance rows");
    let fresh = world::tool_max_durability("pickaxe").unwrap();
    assert!(picks.iter().all(|p| p.qty == 1 && p.durability == Some(fresh)), "each a fresh instance: {picks:?}");
    assert_ne!(picks[0].id, picks[1].id, "distinct instance ids");

    let wood: Vec<_> = items.iter().filter(|i| i.item_id == "wood").collect();
    assert_eq!(wood.len(), 1, "ordinary items still merge onto one stack row");
    assert_eq!(wood[0].qty, 5);
    assert_eq!(wood[0].durability, None, "not a tool -> no durability tracked");
}

/// Equipping targets a specific instance: wrong owner, unknown id, and a
/// non-equippable item are all rejected; a legitimate equip returns the
/// derived slot and item, and is reflected by `equipped`/`equipped_tool`.
#[test]
fn equip_instance_validates_ownership_and_equippability() {
    let mut db = Db::new();
    let owner = a_character(&mut db);
    let stranger = a_character(&mut db);
    db.add_to_inventory(&owner, "pickaxe", 1);
    db.add_to_inventory(&owner, "wood", 1);
    let items = db.inventory_for_character(&owner);
    let pick_id = &items.iter().find(|i| i.item_id == "pickaxe").unwrap().id;
    let wood_id = &items.iter().find(|i| i.item_id == "wood").unwrap().id;

    assert_eq!(db.equip_instance(&owner, "no-such-id"), None, "unknown instance");
    assert_eq!(db.equip_instance(&stranger, pick_id), None, "not the owner");
    assert_eq!(db.equip_instance(&owner, wood_id), None, "not equippable at all");

    let ok = db.equip_instance(&owner, pick_id);
    assert_eq!(ok, Some(("tool", "pickaxe".to_string())));
    assert_eq!(db.equipped(&owner, "tool").as_deref(), Some("pickaxe"));
    let tool = db.equipped_tool(&owner, "tool").unwrap().unwrap();
    assert_eq!(tool.instance_id, *pick_id);
    let fresh = world::tool_max_durability("pickaxe").unwrap();
    assert_eq!(tool.durability, fresh);
    assert_eq!(tool.max_durability, fresh);
}

/// A swing spends durability on whichever instance is equipped; hitting
/// 0 auto-unequips (the slot clears) but the instance survives in
/// inventory as a repairable, durability-0 husk — not deleted.
#[test]
fn wear_equipped_tool_clamps_at_zero_and_auto_unequips_on_break() {
    let mut db = Db::new();
    let cid = a_character(&mut db);
    db.add_to_inventory(&cid, "pickaxe", 1);
    let instance_id = db.inventory_for_character(&cid)[0].id.clone();
    db.equip_instance(&cid, &instance_id);

    let fresh = world::tool_max_durability("pickaxe").unwrap();
    let outcome = db.wear_equipped_tool(&cid, "tool", 1).unwrap().unwrap();
    assert_eq!((outcome.remaining, outcome.broke), (fresh - 1, false));
    assert_eq!(db.equipped(&cid, "tool").as_deref(), Some("pickaxe"), "still equipped");

    // Drive it to the brink, then break it with a loss bigger than what's left.
    for _ in 0..(fresh - 2) {
        db.wear_equipped_tool(&cid, "tool", 1).unwrap();
    }
    let broke = db.wear_equipped_tool(&cid, "tool", 5).unwrap().unwrap();
    assert_eq!((broke.remaining, broke.broke), (0, true), "clamped at 0, not negative");
    assert_eq!(db.equipped(&cid, "tool"), None, "auto-unequipped");

    let items = db.inventory_for_character(&cid);
    let husk = items.iter().find(|i| i.id == instance_id).expect("the broken instance must still exist");
    assert_eq!(husk.durability, Some(0), "a repairable husk, not deleted");

    // Nothing equipped: wearing it down again is a no-op, not an error.
    assert_eq!(db.wear_equipped_tool(&cid, "tool", 1).unwrap(), None);
}

/// Repair cost scales with missing durability (world::repair_cost's
/// formula) and is actually consumed; repairing something not missing
/// any durability, or that can't be afforded, does nothing.
#[test]
fn repair_instance_costs_scale_and_restore_to_full() {
    let mut db = Db::new();
    let cid = a_character(&mut db);
    db.add_to_inventory(&cid, "pickaxe", 1);
    let instance_id = db.inventory_for_character(&cid)[0].id.clone();

    // Fully healthy: nothing to repair.
    assert_eq!(db.repair_instance(&cid, &instance_id), None);

    let max = world::tool_max_durability("pickaxe").unwrap();
    let missing = max * 2 / 3;
    db.equip_instance(&cid, &instance_id);
    for _ in 0..missing {
        db.wear_equipped_tool(&cid, "tool", 1).unwrap();
    }
    let want: Vec<(String, i64)> = world::repair_cost("pickaxe", missing, max)
        .unwrap()
        .into_iter()
        .map(|(i, q)| (i.to_string(), q))
        .collect();

    // Can't afford it yet.
    assert_eq!(db.repair_instance(&cid, &instance_id), None, "no ingredients at all");

    for (item, qty) in &want {
        db.add_to_inventory(&cid, item, *qty);
    }
    let outcome = db.repair_instance(&cid, &instance_id).expect("affordable now");
    assert_eq!(outcome.item_id, "pickaxe");
    assert_eq!(
        outcome.cost.into_iter().collect::<std::collections::BTreeMap<_, _>>(),
        want.iter().cloned().collect::<std::collections::BTreeMap<_, _>>(),
    );
    assert_eq!(db.inventory_qty(&cid, "wood"), 0, "ingredients consumed");
    assert_eq!(db.inventory_qty(&cid, "stone"), 0);
    let repaired = db.inventory_for_character(&cid)
        .into_iter().find(|i| i.id == instance_id).unwrap();
    assert_eq!(repaired.durability, Some(max), "restored to full");

    // A stranger can't repair someone else's instance.
    let stranger = a_character(&mut db);
    db.wear_equipped_tool(&cid, "tool", 10).unwrap();
    assert_eq!(db.repair_instance(&stranger, &instance_id), None);
}
