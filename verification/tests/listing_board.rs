use ideal_city::world;
use ideal_city::market_config::MarketConfig;
use ideal_city::persistence::db::Db;
use ideal_city::persistence::listings::ListingReject;

fn a_character(db: &mut Db) -> String {
    let email = format!("c_{}@t.test", db.accounts.len());
    let (_a, c) = db.create_account_with_character(&email, "h", "Hero", 0, 0, 100);
    c.id
}

fn a_market(db: &mut Db) -> String {
    db.insert_build_order("civic", "market", r#"{"wood":1}"#, "completed", 0, None, 0, None, None)
        .id
}

const NO_EXPIRY: i64 = i64::MAX;

fn test_cfg() -> MarketConfig {
    MarketConfig { max_open_orders: 1000, ..MarketConfig::default() }
}

/// A seller stocked at a market, ready to rest orders.
fn a_seller(db: &mut Db, market: &str, item: &str, qty: i64) -> String {
    let cid = a_character(db);
    db.add_to_inventory(&cid, item, qty);
    db.warehouse_deposit(market, &cid, item, qty, 60);
    cid
}

/// A seller with a worn pickaxe banked at the market, ready to list. Returns
/// `(seller_id, warehouse_item_id, durability)`.
fn a_seller_with_a_worn_tool(db: &mut Db, market: &str) -> (String, String, i64) {
    let cid = a_character(db);
    db.add_to_inventory(&cid, "pickaxe", 1);
    let inv = db.inventory_for_character(&cid);
    let pick = inv.iter().find(|i| i.item_id == "pickaxe").unwrap().clone();
    // Wear it, so "the same instance" is actually falsifiable.
    db.equip_instance(&cid, &pick.id);
    db.wear_equipped_tool(&cid, "tool", 13).unwrap();
    db.warehouse_deposit(market, &cid, "pickaxe", 1, 60);
    let held = db.warehouse_for_character(market, &cid);
    let row = held.iter().find(|r| r.item_id == "pickaxe").unwrap();
    (cid, row.id.clone(), row.durability.unwrap())
}

fn set_gold(db: &mut Db, id: &str, gold: i64) {
    for c in db.characters.rows.iter_mut() {
        if c.character.id == id {
            c.gold = gold;
        }
    }
}

#[test]
fn a_listed_tool_keeps_its_exact_instance_and_wear_through_the_sale() {
    let mut db = Db::new();
    let m = a_market(&mut db);
    let (seller, wh_id, wear) = a_seller_with_a_worn_tool(&mut db, &m);
    let fresh = world::tool_max_durability("pickaxe").unwrap();
    assert_eq!(wear, fresh - 13, "worn by 13 from full");

    let listing = db.place_listing(&m, &seller, &wh_id, 60, NO_EXPIRY, &test_cfg(), "", 0)
        .unwrap()
        .expect("the listing should be accepted");
    assert_eq!(listing.durability, Some(wear), "the board advertises its actual wear");
    // Escrowed, not merely flagged: it can't be withdrawn while listed.
    assert_eq!(db.warehouse_withdraw(&m, &seller, "pickaxe", 1), 0);

    let buyer = a_character(&mut db);
    let (sold, tax) = db.buy_listing(&buyer, &listing.id, 60, &test_cfg(), "", 0)
        .unwrap()
        .expect("the purchase should go through");
    assert_eq!(sold.id, listing.id);

    let buyer_held = db.warehouse_for_character(&m, &buyer);
    assert_eq!(buyer_held.len(), 1);
    assert_eq!(buyer_held[0].id, wh_id, "the very instance that was advertised");
    assert_eq!(buyer_held[0].durability, Some(wear));
    assert_eq!(buyer_held[0].state, "available", "and collectable");
    assert!(db.warehouse_for_character(&m, &seller).is_empty());

    // And it withdraws to carried inventory as the same instance again.
    assert_eq!(db.warehouse_withdraw(&m, &buyer, "pickaxe", 1), 1);
    let back = db.inventory_for_character(&buyer)
        .into_iter().find(|i| i.item_id == "pickaxe").unwrap();
    assert_eq!((back.id, back.durability), (wh_id, Some(wear)));
    assert!(tax > 0, "the sale was taxed");
}

#[test]
fn buying_a_listing_refuses_a_changed_price_and_your_own_listing() {
    let mut db = Db::new();
    let m = a_market(&mut db);
    let (seller, wh_id, _) = a_seller_with_a_worn_tool(&mut db, &m);
    let listing = db.place_listing(&m, &seller, &wh_id, 60, NO_EXPIRY, &test_cfg(), "", 0).unwrap().unwrap();

    // A stale price is refused outright — never charge a surprise price.
    let buyer = a_character(&mut db);
    let purse = db.character_gold(&buyer);
    assert_eq!(
        db.buy_listing(&buyer, &listing.id, 45, &test_cfg(), "", 0).unwrap(),
        Err(ListingReject::PriceChanged)
    );
    assert_eq!(db.character_gold(&buyer), purse, "nothing charged");
    assert!(db.listing_by_id(&listing.id).is_some(), "listing untouched");

    // You can't buy your own.
    assert_eq!(
        db.buy_listing(&seller, &listing.id, 60, &test_cfg(), "", 0).unwrap(),
        Err(ListingReject::OwnListing)
    );

    // Nor one you can't afford.
    let broke = a_character(&mut db);
    set_gold(&mut db, &broke, 0);
    assert_eq!(
        db.buy_listing(&broke, &listing.id, 60, &test_cfg(), "", 0).unwrap(),
        Err(ListingReject::NoFunds)
    );
    assert!(db.listing_by_id(&listing.id).is_some(), "still for sale");
}

#[test]
fn cancelling_or_expiring_a_listing_returns_the_item_intact() {
    let mut db = Db::new();
    let m = a_market(&mut db);

    // Cancel.
    let (seller, wh_id, wear) = a_seller_with_a_worn_tool(&mut db, &m);
    let listing = db.place_listing(&m, &seller, &wh_id, 60, NO_EXPIRY, &test_cfg(), "", 0).unwrap().unwrap();
    let other = a_character(&mut db);
    assert!(db.cancel_listing(&other, &listing.id).is_none(), "not yours");
    assert!(db.cancel_listing(&seller, &listing.id).is_some());
    let held = db.warehouse_for_character(&m, &seller);
    assert_eq!(held.len(), 1);
    assert_eq!((held[0].id.as_str(), held[0].state.as_str(), held[0].durability), (wh_id.as_str(), "available", Some(wear)));

    // Expiry does exactly the same — forgetting a listing can't cost you
    // the item.
    let listing = db.place_listing(&m, &seller, &wh_id, 60, 100, &test_cfg(), "", 0).unwrap().unwrap();
    assert!(db.expire_listings(99).is_empty(), "not due yet");
    let expired = db.expire_listings(100);
    assert_eq!(expired.len(), 1);
    assert_eq!(expired[0].id, listing.id);
    let held = db.warehouse_for_character(&m, &seller);
    assert_eq!((held[0].state.as_str(), held[0].durability), ("available", Some(wear)));
    assert!(db.listing_by_id(&listing.id).is_none());
}

#[test]
fn the_board_rejects_commodities_and_filters_and_sorts() {
    let mut db = Db::new();
    let m = a_market(&mut db);

    // A stackable good can never be listed — it belongs on the book.
    let stacker = a_seller(&mut db, &m, "wood", 10);
    let wood_row = db.warehouse_for_character(&m, &stacker)[0].id.clone();
    assert!(
        db.place_listing(&m, &stacker, &wood_row, 5, NO_EXPIRY, &test_cfg(), "", 0).unwrap().is_none(),
        "commodities go to the order book, not the board"
    );

    // Three tools at different prices and wear.
    let mut made = Vec::new();
    for (ask, extra_wear) in [(90, 0), (40, 20), (65, 5)] {
        let cid = a_character(&mut db);
        db.add_to_inventory(&cid, "axe", 1);
        let inv = db.inventory_for_character(&cid);
        let axe = inv.iter().find(|i| i.item_id == "axe").unwrap().clone();
        if extra_wear > 0 {
            db.equip_instance(&cid, &axe.id);
            db.wear_equipped_tool(&cid, "tool", extra_wear).unwrap();
        }
        db.warehouse_deposit(&m, &cid, "axe", 1, 60);
        let row = db.warehouse_for_character(&m, &cid)
            .into_iter().find(|r| r.item_id == "axe").unwrap();
        made.push(db.place_listing(&m, &cid, &row.id, ask, NO_EXPIRY, &test_cfg(), "", 0).unwrap().unwrap());
    }
    assert_eq!(made.len(), 3);

    // Cheapest first.
    let all = db.listings_for_market(&m, None, None, None, 50);
    let prices: Vec<i64> = all.iter().map(|l| l.ask_price).collect();
    assert_eq!(prices, vec![40, 65, 90], "board sorts by ask, cheapest first");

    // Filters compose.
    let cheap = db.listings_for_market(&m, Some("axe"), None, Some(70), 50);
    assert_eq!(cheap.len(), 2);
    let healthy = db.listings_for_market(&m, None, Some(46), None, 50);
    assert!(
        healthy.iter().all(|l| l.durability.unwrap() >= 46),
        "min durability skips the worn ones: {healthy:?}"
    );
    assert!(db.listings_for_market(&m, Some("pickaxe"), None, None, 50).is_empty());
}
