use ideal_city::persistence::skills::level_for_xp;
use ideal_city::world::{
    abilities_for_item, ability_cooldown_ms, ability_target_item, ability_xp_per_swing, governing_tool,
    item, recipe, recipes, repair_cost, structure_footprint, tool_max_durability,
};
use ideal_city::world::capital::{capital, capital_district_ids};
use ideal_city::world::geometry::{Rect, Safety, WORLD_SIZE};
use ideal_city::world::spawns::{AUTHORED_MOB_LEASH, SPECIES_WILD_DOG};

fn tool_economics(tool: &str) -> (i64, i64, i64, f64) {
    let max = tool_max_durability(tool).expect("a tool");
    let recipe = recipes().into_iter().find(|r| r.output_item == tool).expect("a recipe");
    let cost: i64 = recipe.inputs.iter().map(|(_, q)| *q).sum();
    // One unit harvested per swing, so a tool's lifetime yield is its
    // durability.
    (max, cost, max - cost, cost as f64 / max as f64)
}

#[test]
fn district_ids_match_the_authored_capital() {
    let mut authored: Vec<&str> = capital().districts.iter().map(|d| d.id).collect();
    let mut listed = capital_district_ids();
    authored.sort_unstable();
    listed.sort_unstable();
    assert_eq!(
        listed, authored,
        "CAPITAL_DISTRICT_IDS has drifted from capital() — market.toml validation \n             would reject a real district, or accept a typo"
    );
}

#[test]
fn districts_tile_the_world_without_gaps_or_overlap() {
    let c = capital();
    // No two districts overlap.
    for (i, a) in c.districts.iter().enumerate() {
        for b in &c.districts[i + 1..] {
            let overlap_x = a.region.x0 < b.region.x1 && b.region.x0 < a.region.x1;
            let overlap_y = a.region.y0 < b.region.y1 && b.region.y0 < a.region.y1;
            assert!(!(overlap_x && overlap_y), "{} overlaps {}", a.id, b.id);
        }
    }
    // Areas sum to the whole world (full coverage of a clean tiling).
    let total: i64 = c.districts.iter().map(|d| d.region.area()).sum();
    assert_eq!(total, (WORLD_SIZE as i64) * (WORLD_SIZE as i64));
}

#[test]
fn town_centre_is_inside_a_safe_district_and_is_the_spawn() {
    let c = capital();
    let (tx, ty) = c.town_centre;
    let d = c.district_at(tx, ty).expect("town centre lies in a district");
    assert_eq!(d.id, "civic");
    assert_eq!(d.safety, Safety::Safe);
    // The gateway's spawn constant must agree with the authored town centre.
    assert_eq!((tx, ty), (WORLD_SIZE / 2, WORLD_SIZE / 2));
}

#[test]
fn district_lookup_by_point_and_region() {
    let c = capital();
    assert_eq!(c.district_at(10, 10).unwrap().id, "suburbs");
    assert_eq!(c.district_at(12800, 12800).unwrap().id, "civic");
    assert_eq!(c.district_at(22000, 12800).unwrap().id, "market");
    assert_eq!(c.district_at(12800, 3200).unwrap().id, "craftworks");
    assert_eq!(c.district_at(12800, 22400).unwrap().id, "old_quarter");
    assert!(c.district_at(WORLD_SIZE, 0).is_none()); // outside (half-open)
    // Region centre routing survives shard geometry.
    let r = Rect::new(200, 0, 1600, 2400);
    assert_eq!(c.district_for_region(r).unwrap().id, "suburbs");
}

#[test]
fn starter_plots_are_authored_and_inside_the_suburbs() {
    let c = capital();
    let suburbs = c.districts.iter().find(|d| d.id == "suburbs").unwrap();
    let cells = suburbs.plots();
    assert_eq!(cells.len(), 240); // 12 x 20
    for cell in &cells {
        assert!(
            suburbs.region.contains(cell.x, cell.y)
                && suburbs.region.contains(cell.x + cell.w - 1, cell.y + cell.h - 1),
            "plot {:?} escapes the suburbs band",
            cell
        );
    }
    // Grid indices are unique.
    let mut seen = std::collections::HashSet::new();
    for cell in &cells {
        assert!(seen.insert((cell.grid_x, cell.grid_y)), "duplicate grid cell");
    }
    // Only the suburbs carry a grid; the capital total matches.
    assert_eq!(c.starter_plots().len(), 240);
}

#[test]
fn the_pack_cannot_reach_the_town_centre() {
    const ZONE_AGGRO_RADIUS: i32 = 180;
    let c = capital();
    let (tcx, tcy) = c.town_centre;
    let threat = (AUTHORED_MOB_LEASH + ZONE_AGGRO_RADIUS) as f64;

    for d in c.mobs.iter().filter(|m| m.species == SPECIES_WILD_DOG) {
        let dist = (((d.x - tcx) as f64).powi(2) + ((d.y - tcy) as f64).powi(2)).sqrt();
        assert!(
            dist > threat * 1.5,
            "{} sits {dist:.0} from spawn but can threaten out to {threat:.0} — a fresh                  character would be mauled at the storehouse",
            d.id
        );
    }

    // The same guarantee for everywhere else a player is made to stand: the
    // storehouse, the build board, the markets, the NPCs who hand out tools.
    for sp in &c.storage_points {
        for d in &c.mobs {
            let g = (((sp.x - d.x) as f64).powi(2) + ((sp.y - d.y) as f64).powi(2)).sqrt();
            assert!(g > threat, "{} can reach a storage point ({g:.0})", d.id);
        }
    }
    for n in &c.npcs {
        for d in &c.mobs {
            let g = (((n.x - d.x) as f64).powi(2) + ((n.y - d.y) as f64).powi(2)).sqrt();
            assert!(g > threat, "{} can reach NPC {} ({g:.0})", d.id, n.id);
        }
    }
    for o in &c.build_orders {
        for d in &c.mobs {
            let g = (((o.structure_x - d.x) as f64).powi(2)
                + ((o.structure_y - d.y) as f64).powi(2))
            .sqrt();
            assert!(g > threat, "{} can reach the {} site ({g:.0})", d.id, o.kind);
        }
    }
}

#[test]
fn authored_mobs_are_partitioned_cleanly_by_region() {
    let c = capital();
    assert!(!c.mobs.is_empty());

    // The whole world holds every one of them.
    let all = c.mobs_in(Rect::new(0, 0, WORLD_SIZE, WORLD_SIZE));
    assert_eq!(all.len(), c.mobs.len());

    // Split the world in half and the two halves partition it exactly.
    let half = WORLD_SIZE / 2;
    let left = c.mobs_in(Rect::new(0, 0, half, WORLD_SIZE));
    let right = c.mobs_in(Rect::new(half, 0, WORLD_SIZE, WORLD_SIZE));
    assert_eq!(
        left.len() + right.len(),
        c.mobs.len(),
        "a split duplicated or dropped an authored creature"
    );
    for m in &left {
        assert!(!right.contains(m), "{} is owned by both halves of a split", m.id);
    }

    // An empty corner owns none, and that must be fine rather than a panic.
    assert!(c.mobs_in(Rect::new(0, 0, 10, 10)).is_empty());
}

#[test]
fn item_registry_and_node_spawns_are_consistent() {
    let c = capital();
    // Every node references a real item and sits inside its district.
    assert!(!c.resource_nodes.is_empty());
    for n in &c.resource_nodes {
        assert!(item(n.item_id).is_some(), "node {} -> unknown item {}", n.id, n.item_id);
        let d = c.districts.iter().find(|d| d.id == n.district).expect("node district exists");
        assert!(d.region.contains(n.x, n.y), "node {} escapes {}", n.id, n.district);
        assert!(n.qty > 0);
    }
    // Node ids are unique.
    let mut seen = std::collections::HashSet::new();
    for n in &c.resource_nodes {
        assert!(seen.insert(n.id), "duplicate node id {}", n.id);
    }
    // A fresh spawn at the town centre finds wood nearby.
    let (tcx, tcy) = c.town_centre;
    let near = c.resource_nodes.iter().any(|n| {
        n.item_id == "wood" && ((n.x - tcx).pow(2) + (n.y - tcy).pow(2)) < 200 * 200
    });
    assert!(near, "no wood near the town centre");
}

#[test]
fn resource_nodes_in_filters_by_region() {
    let c = capital();
    let civic = c.districts.iter().find(|d| d.id == "civic").unwrap().region;
    let in_civic = c.resource_nodes_in(civic);
    assert!(!in_civic.is_empty());
    assert!(in_civic.iter().all(|n| n.district == "civic"));
    // The whole world contains every node.
    assert_eq!(c.resource_nodes_in(Rect::new(0, 0, WORLD_SIZE, WORLD_SIZE)).len(), c.resource_nodes.len());
}

#[test]
fn storage_point_is_in_the_civic_centre_near_spawn() {
    let c = capital();
    assert!(!c.storage_points.is_empty());
    let (tcx, tcy) = c.town_centre;
    for s in &c.storage_points {
        assert_eq!(c.district_at(s.x, s.y).map(|d| d.id), Some(s.district));
        // Near the town centre so a fresh spawn can reach it.
        assert!((s.x - tcx).pow(2) + (s.y - tcy).pow(2) < 100 * 100);
    }
    let civic = c.districts.iter().find(|d| d.id == "civic").unwrap().region;
    assert_eq!(c.storage_points_in(civic).len(), c.storage_points.len());
}

#[test]
fn capital_authors_only_the_two_markets() {
    let c = capital();
    assert_eq!(c.build_orders.len(), 2, "only the two markets are authored");
    for o in &c.build_orders {
        assert_eq!(o.structure_kind, "market", "{} is not a market", o.kind);
        assert_eq!(o.required_level, 0, "no skill gate keeps newcomers out of the economy");
        assert_eq!(
            c.district_at(o.structure_x, o.structure_y).map(|d| d.id),
            Some(o.district),
            "{} is sited outside the district that owns it",
            o.kind
        );
    }

    // The capital's, at the root of the trade tree.
    let (tcx, tcy) = c.town_centre;
    let first = c.build_orders.iter().find(|o| o.kind == "market").unwrap();
    assert_eq!(first.district, "civic");
    assert!(first.prereq.is_none(), "the first market gates on nothing");
    assert!((first.structure_x - tcx).pow(2) + (first.structure_y - tcy).pow(2) < 200 * 200,
        "the first market should be a short walk from spawn");

    let second = c.build_orders.iter().find(|o| o.kind == "market_east").unwrap();
    assert_eq!(second.district, "market", "the Market District finally has a market");
    assert_eq!(second.prereq, Some("market"), "the second market is the reward for the first");
    assert_eq!(
        second.required_json, first.required_json,
        "the second market costs the same — the 8.6km haul is the difficulty, not the bill"
    );
    // Distinct kinds: the prereq edge is keyed on kind, and the build board
    // renders it raw. Two orders both called "market" would be ambiguous in
    // both places.
    assert_ne!(first.kind, second.kind);

    // Far enough that hauling between them is a real journey — that
    // distance IS the arbitrage, so a future re-site must not quietly
    // shorten it.
    let d2 = ((second.structure_x - first.structure_x) as i64).pow(2)
        + ((second.structure_y - first.structure_y) as i64).pow(2);
    assert!(d2 > 5000i64.pow(2), "the two markets are too close to be worth hauling between");
}

#[test]
fn build_board_is_in_the_civic_centre_near_spawn() {
    let c = capital();
    assert!(!c.build_boards.is_empty());
    let (tcx, tcy) = c.town_centre;
    for b in &c.build_boards {
        assert_eq!(c.district_at(b.x, b.y).map(|d| d.id), Some(b.district));
        assert!((b.x - tcx).pow(2) + (b.y - tcy).pow(2) < 100 * 100,
            "board should be reachable from a fresh spawn");
    }
    let civic = c.districts.iter().find(|d| d.id == "civic").unwrap().region;
    assert_eq!(c.build_boards_in(civic).len(), c.build_boards.len());
}

#[test]
fn rect_overlaps_detects_any_shared_area() {
    let suburbs = Rect::new(800, 0, 1200, 1200);
    let whole_world = Rect::new(0, 0, WORLD_SIZE, WORLD_SIZE);
    assert!(whole_world.overlaps(suburbs));
    // Two districts that only share a boundary edge (half-open) don't overlap.
    let civic = Rect::new(400, 0, 800, 1200);
    assert!(!civic.overlaps(suburbs));
    // A region entirely inside the suburbs overlaps it.
    assert!(Rect::new(900, 100, 1000, 200).overlaps(suburbs));
    // A region entirely elsewhere does not.
    assert!(!Rect::new(0, 0, 100, 100).overlaps(suburbs));
}

#[test]
fn recipe_registry_is_well_formed() {
    let all = recipes();
    assert!(!all.is_empty());
    for r in &all {
        assert!(!r.inputs.is_empty(), "{} has no inputs", r.id);
        for (input_item, qty) in r.inputs {
            assert!(item(input_item).is_some(), "{} needs unknown item {}", r.id, input_item);
            assert!(*qty > 0);
        }
        assert!(item(r.output_item).is_some(), "{} produces unknown item {}", r.id, r.output_item);
        assert!(r.output_qty > 0);
    }
    // Ids are unique and the lookup helper agrees with the list.
    let mut seen = std::collections::HashSet::new();
    for r in &all {
        assert!(seen.insert(r.id), "duplicate recipe id {}", r.id);
        assert_eq!(recipe(r.id).map(|found| found.id), Some(r.id));
    }
    assert!(recipe("nonexistent").is_none());
}

#[test]
fn structure_footprints_cover_every_placeable_home_structure() {
    for kind in ["bed", "storage", "crafting"] {
        let (w, h) = structure_footprint(kind).expect(kind);
        assert!(w > 0 && h > 0, "{kind} has a degenerate footprint");
    }
    assert!(structure_footprint("wall").is_none(), "city structures aren't placeable homes");
}

#[test]
fn plots_in_filters_by_region_like_the_other_authored_fixtures() {
    let c = capital();
    let suburbs = c.districts.iter().find(|d| d.id == "suburbs").unwrap().region;
    let in_suburbs = c.plots_in(suburbs);
    assert_eq!(in_suburbs.len(), 240, "every starter plot sits in the suburbs");
    // A civic-only region (no plot grid there) has none.
    let civic = c.districts.iter().find(|d| d.id == "civic").unwrap().region;
    assert!(c.plots_in(civic).is_empty());
    // Each returned cell's rect() really is inside the queried region.
    for (_, cell) in &in_suburbs {
        let r = cell.rect();
        assert!(suburbs.contains(r.x0, r.y0) && suburbs.contains(r.x1 - 1, r.y1 - 1));
    }
}

#[test]
fn tool_upkeep_is_a_real_share_of_what_it_gathers() {
    for tool in ["pickaxe", "axe"] {
        let (durability, cost, net, share) = tool_economics(tool);
        assert!(
            (0.12..0.40).contains(&share),
            "{tool}: upkeep is {:.0}% of its {durability}-swing yield ({cost} units) — \
             outside the 12-40% band. Under it, wear is a rounding error; \
             over it, gathering stops paying for itself.",
            share * 100.0
        );
        assert!(net > 0, "{tool} costs more than it can ever gather — the loop is broken");
    }

    let (_, pick_cost, _, pick_share) = tool_economics("pickaxe");
    let (_, axe_cost, _, axe_share) = tool_economics("axe");
    assert!(
        pick_cost > axe_cost && pick_share > axe_share,
        "the pickaxe should cost more than the axe — mining is the high-effort track"
    );
}

#[test]
fn each_tool_funds_itself_from_what_it_harvests() {
    for (tool, ability) in [("pickaxe", "pick"), ("axe", "chop")] {
        let harvested = ability_target_item(ability).expect("a harvest target");
        let max = tool_max_durability(tool).unwrap();
        let recipe = recipes().into_iter().find(|r| r.output_item == tool).unwrap();
        let own: i64 = recipe
            .inputs
            .iter()
            .filter(|(i, _)| *i == harvested)
            .map(|(_, q)| *q)
            .sum();
        assert!(own > 0, "{tool} doesn't cost any of the {harvested} it harvests");
        assert!(
            own < max,
            "{tool} costs {own} {harvested} but only harvests {max} — it can't fund itself"
        );
    }
}

#[test]
fn a_skill_reaches_its_cooldown_floor_inside_one_session() {
    for ability in ["pick", "chop"] {
        let floor = ability_cooldown_ms(ability, 100);
        let floor_level = (0..=40)
            .find(|l| ability_cooldown_ms(ability, *l) == floor)
            .expect("the curve must reach its floor");
        assert!(
            (5..=8).contains(&floor_level),
            "{ability} floors at level {floor_level}; the payoff should land inside one session"
        );

        // Swings to get there, and the wall-clock they take.
        let xp_needed = 100 * floor_level * floor_level;
        let per_swing = ability_xp_per_swing(ability);
        let mut xp = 0i64;
        let mut swings = 0i64;
        let mut ms = 0i64;
        while xp < xp_needed {
            ms += ability_cooldown_ms(ability, level_for_xp(xp));
            xp += per_swing;
            swings += 1;
        }
        let minutes = ms as f64 / 60_000.0;
        assert!(
            (4.0..15.0).contains(&minutes),
            "{ability} takes {minutes:.1} min ({swings} swings) to stop improving — \
             outside a single session"
        );
    }
}

#[test]
fn chop_is_faster_than_pick_at_every_level() {
    for level in 0..=20 {
        let chop = ability_cooldown_ms("chop", level);
        let pick = ability_cooldown_ms("pick", level);
        assert!(
            chop < pick,
            "at level {level} chop is {chop}ms and pick {pick}ms — mining should be slower"
        );
    }
    // And both improve monotonically, never getting worse with practice.
    for ability in ["pick", "chop"] {
        for level in 1..=20 {
            assert!(
                ability_cooldown_ms(ability, level) <= ability_cooldown_ms(ability, level - 1),
                "{ability} got SLOWER from level {} to {level}",
                level - 1
            );
        }
    }
}

#[test]
fn repairing_always_beats_crafting_new_until_the_tool_is_spent() {
    for tool in ["pickaxe", "axe"] {
        let max = tool_max_durability(tool).unwrap();
        let recipe = recipes().into_iter().find(|r| r.output_item == tool).unwrap();
        let full: i64 = recipe.inputs.iter().map(|(_, q)| *q).sum();

        let mut last = 0i64;
        for missing in 1..max {
            let cost: i64 =
                repair_cost(tool, missing, max).unwrap().iter().map(|(_, q)| *q).sum();
            assert!(
                cost < full,
                "{tool} missing {missing}/{max} costs {cost} to repair vs {full} to craft \
                 new — repair is dominated and nobody would ever choose it"
            );
            assert!(
                cost >= last,
                "{tool} repair got CHEAPER as it wore further ({last} -> {cost})"
            );
            last = cost;
        }
        // Entirely spent is the one point where rebuilding is the same deal.
        let spent: i64 = repair_cost(tool, max, max).unwrap().iter().map(|(_, q)| *q).sum();
        assert_eq!(spent, full, "a fully spent {tool} should cost exactly a fresh craft");
    }
}

#[test]
fn both_abilities_pay_the_same_xp_per_swing() {
    assert_eq!(ability_xp_per_swing("pick"), ability_xp_per_swing("chop"));
    assert!(
        ability_xp_per_swing("pick") >= 10,
        "a swing should be worth at least the old channel's 10/unit"
    );
}

#[test]
fn repair_cost_scales_with_missing_durability_and_floors_at_one() {
    let max = tool_max_durability("pickaxe").unwrap();
    assert_eq!(repair_cost("pickaxe", 0, max), None, "nothing missing -> nothing to repair");
    // Barely worn: the floor, not the proportion (3*1/30 and 5*1/30 are 0).
    assert_eq!(repair_cost("pickaxe", 1, max), Some(vec![("wood", 1), ("stone", 1)]));
    // A third worn: wood 3*10/30 = 1, stone 5*10/30 = 1.
    assert_eq!(repair_cost("pickaxe", 10, max), Some(vec![("wood", 1), ("stone", 1)]));
    // Two thirds: wood 3*20/30 = 2, stone 5*20/30 = 3.
    assert_eq!(repair_cost("pickaxe", 20, max), Some(vec![("wood", 2), ("stone", 3)]));
    // Nearly spent, and still strictly cheaper than the 8-unit fresh craft.
    assert_eq!(repair_cost("pickaxe", 29, max), Some(vec![("wood", 2), ("stone", 4)]));
    // Entirely spent -> exactly the full recipe, never more.
    assert_eq!(repair_cost("pickaxe", max, max), Some(vec![("wood", 3), ("stone", 5)]));
    // Missing far more than max (shouldn't happen, but must not go
    // negative/overflow) clamps to the same as fully spent.
    assert_eq!(repair_cost("pickaxe", 999, max), Some(vec![("wood", 3), ("stone", 5)]));
    // Not a real tool/recipe -> None, not a panic.
    assert_eq!(repair_cost("wood", 5, max), None);
}

#[test]
fn tool_registries_agree_with_each_other() {
    for item_id in ["pickaxe", "axe"] {
        assert!(tool_max_durability(item_id).is_some(), "{item_id} should have a durability cap");
        let abilities = abilities_for_item(item_id);
        assert_eq!(abilities.len(), 1, "{item_id} should grant exactly one ability");
        assert_eq!(governing_tool(abilities[0].id), Some(item_id), "governing_tool must invert abilities_for_item for {item_id}");
    }
    assert_eq!(tool_max_durability("wood"), None);
    assert_eq!(governing_tool("nonexistent"), None);
}

fn apart(ax: i32, ay: i32, bx: i32, by: i32) -> f64 {
    (((ax - bx) as f64).powi(2) + ((ay - by) as f64).powi(2)).sqrt()
}

#[test]
fn the_quarry_is_a_rich_stone_cluster_in_civic() {
    let c = capital();
    let site = Rect::new(8150, 13850, 8350, 13990);
    let quarry: Vec<_> = c.resource_nodes.iter().filter(|n| n.id.starts_with("node_quarry_")).collect();
    assert!(quarry.len() >= 6, "a quarry needs a working face, not a pebble (got {})", quarry.len());
    for n in &quarry {
        assert_eq!(n.item_id, "stone", "{} must be stone", n.id);
        assert_eq!(n.district, "civic", "{} must sit in the civic district", n.id);
        assert!(site.contains(n.x, n.y), "{} at ({},{}) escapes the authored site", n.id, n.x, n.y);
        assert!(n.qty >= 20, "{} should be rich (5x a field rock), got {}", n.id, n.qty);
    }
}

#[test]
fn the_wild_dogs_are_a_pack_a_short_walk_from_town() {
    let c = capital();
    let dogs: Vec<_> = c.mobs.iter().filter(|m| m.species == SPECIES_WILD_DOG).collect();
    assert!(dogs.len() >= 3, "a pack needs to be a pack, got {}", dogs.len());
    let (tcx, tcy) = c.town_centre;
    let lead = dogs[0];
    let clearance = (AUTHORED_MOB_LEASH + 100) as f64;
    for d in &dogs {
        assert_eq!(
            c.district_at(d.x, d.y).map(|x| x.id),
            Some(d.district),
            "{} is sited outside its own district",
            d.id
        );
        let dist = apart(d.x, d.y, tcx, tcy);
        assert!((400.0..1500.0).contains(&dist), "{} is {dist:.0} from spawn", d.id);
        for n in &c.resource_nodes {
            assert!(apart(n.x, n.y, d.x, d.y) > clearance, "{} could wander onto resource node {}", d.id, n.id);
        }
        for n in &c.npcs {
            assert!(apart(n.x, n.y, d.x, d.y) > clearance, "{} could wander onto NPC {}", d.id, n.id);
        }
        for sp in &c.storage_points {
            assert!(apart(sp.x, sp.y, d.x, d.y) > clearance, "{} could wander onto a storage point", d.id);
        }
        for o in &c.build_orders {
            let g = apart(o.structure_x, o.structure_y, d.x, d.y);
            assert!(g > clearance, "{} could wander onto the {} build site", d.id, o.kind);
        }
        for b in &c.build_boards {
            assert!(apart(b.x, b.y, d.x, d.y) > clearance, "{} could wander onto the build board", d.id);
        }
        let g = apart(d.x, d.y, lead.x, lead.y);
        assert!(g < 300.0, "{} has wandered off from the pack ({g:.0} away)", d.id);
    }
    let mut ids: Vec<&str> = c.mobs.iter().map(|m| m.id).collect();
    ids.sort_unstable();
    let before = ids.len();
    ids.dedup();
    assert_eq!(ids.len(), before, "duplicate authored mob id");
}

#[test]
fn the_second_market_stands_well_inside_its_district() {
    let c = capital();
    let m = c.build_orders.iter().find(|o| o.kind == "market_east").unwrap();
    let (mx, my) = (m.structure_x, m.structure_y);
    let region = c.districts.iter().find(|d| d.id == "market").unwrap().region;
    let margin = 600;
    assert!(
        mx - region.x0 > margin
            && region.x1 - mx > margin
            && my - region.y0 > margin
            && region.y1 - my > margin,
        "the second market is too close to its district edge"
    );
    for n in &c.resource_nodes {
        let d2 = ((n.x - mx) as i64).pow(2) + ((n.y - my) as i64).pow(2);
        assert!(d2 > 500i64.pow(2), "resource node {} is on top of the second market", n.id);
    }
}
