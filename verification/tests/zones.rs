use ideal_city::zone_config::{
    default_geometry_version, default_portal_radius, DepositPlacement, InteriorZone, Portal,
    StationPlacement, Volume, ZoneConfig,
};

fn volume(x0: i32, y0: i32, x1: i32, y1: i32) -> Volume {
    Volume { x0, y0, x1, y1 }
}

fn portal(id: &str, world: (i32, i32), inside: (i32, i32), radius: i32) -> Portal {
    Portal { id: id.to_string(), world, inside, radius }
}

fn interior(name: &str, spawn_anchor: (i32, i32), volumes: Vec<Volume>, portals: Vec<Portal>) -> InteriorZone {
    InteriorZone {
        display_name: name.to_string(),
        spawn_anchor,
        geometry_version: default_geometry_version(),
        volumes,
        portals,
        deposits: Vec::new(),
    }
}

fn layout(id: &str, zone: InteriorZone) -> ZoneConfig {
    ZoneConfig { interior: vec![(id.to_string(), zone)], station: Vec::new() }
}

fn a_mine() -> ZoneConfig {
    let mut mine = interior(
        "Kedron Cut",
        (20, 20),
        vec![volume(0, 0, 60, 40), volume(60, 10, 200, 30)],
        vec![portal("adit_mouth", (12000, 12000), (20, 20), 40)],
    );
    mine.geometry_version = 3;
    layout("mine_starter", mine)
}

fn deposit(id: &str, pos: (i32, i32)) -> DepositPlacement {
    DepositPlacement { id: id.to_string(), kind: "clay_starter".to_string(), pos }
}

fn station(id: &str, pos: (i32, i32), interior: Option<&str>) -> StationPlacement {
    StationPlacement {
        id: id.to_string(),
        kind: "furnace".to_string(),
        pos,
        interior: interior.map(|s| s.to_string()),
    }
}

#[test]
fn an_interior_parses_with_its_geometry_and_portals() {
    let cfg = ZoneConfig::parse(a_mine()).unwrap();
    let mine = cfg.interior("mine_starter").expect("the mine");
    assert_eq!(mine.display_name, "Kedron Cut");
    assert_eq!(mine.geometry_version, 3);
    assert_eq!(mine.volumes.len(), 2);
    assert!(cfg.is_interior("mine_starter"));
    assert!(!cfg.is_interior("zone_a"), "a surface zone is not an interior");
}

#[test]
fn contains_answers_for_the_whole_floor_and_refuses_the_rock() {
    let cfg = ZoneConfig::parse(a_mine()).unwrap();
    let mine = cfg.interior("mine_starter").unwrap();
    // Inside the entrance chamber.
    assert!(mine.contains(0, 0));
    assert!(mine.contains(59, 39));
    // Inside the gallery.
    assert!(mine.contains(150, 20));
    // Solid rock between and around them.
    assert!(!mine.contains(150, 5), "above the gallery is rock");
    assert!(!mine.contains(60, 39), "the chamber's corner is not the gallery");
    assert!(!mine.contains(-1, 0));
    assert!(!mine.contains(200, 20), "half-open on the upper bound, like Region");
}

#[test]
fn nearest_walkable_keeps_you_on_the_floor() {
    let cfg = ZoneConfig::parse(a_mine()).unwrap();
    let mine = cfg.interior("mine_starter").unwrap();
    assert_eq!(mine.nearest_walkable(30, 30), (30, 30));
    assert_eq!(mine.nearest_walkable(9999, 9999), mine.spawn_anchor);
}

#[test]
fn portals_resolve_from_both_sides_and_respect_their_radius() {
    let cfg = ZoneConfig::parse(a_mine()).unwrap();
    let (zone, portal) = cfg.portal_from_world(12010, 12010).expect("in reach outside");
    assert_eq!(zone, "mine_starter");
    assert_eq!(portal.id, "adit_mouth");
    assert_eq!(portal.inside, (20, 20));
    assert!(cfg.portal_from_world(12200, 12000).is_none(), "out of reach");

    assert!(cfg.portal_from_inside("mine_starter", 22, 22).is_some());
    assert!(cfg.portal_from_inside("mine_starter", 190, 20).is_none(), "deep in the gallery");
    assert!(cfg.portal_from_inside("zone_a", 20, 20).is_none(), "not an interior");
}

#[test]
fn a_portal_reaches_exactly_its_radius() {
    let cfg = ZoneConfig::parse(a_mine()).unwrap();
    assert!(cfg.portal_from_world(12040, 12000).is_some());
    assert!(cfg.portal_from_world(12041, 12000).is_none());
    assert!(cfg.portal_from_world(12024, 12032).is_some());
    assert!(cfg.portal_from_world(12025, 12032).is_none());
    assert!(cfg.portal_from_world(i32::MIN, i32::MAX).is_none());
}

/// Every one of these strands somebody.
#[test]
fn a_layout_that_would_strand_a_player_refuses_to_boot() {
    let floor = || vec![volume(0, 0, 10, 10)];
    let r = default_portal_radius();
    let cases = [
        // No floor at all.
        (interior("M", (0, 0), vec![], vec![]), "volumes"),
        // Anchor in the rock: everyone who falls back to it is stuck.
        (interior("M", (500, 500), floor(), vec![portal("p", (1, 1), (5, 5), r)]), "spawn_anchor"),
        // Enterable but not leavable.
        (interior("M", (5, 5), floor(), vec![]), "portals"),
        // Arrive inside a wall.
        (interior("M", (5, 5), floor(), vec![portal("p", (1, 1), (900, 900), r)]), "arrives outside"),
        // Inside-out volume.
        (interior("M", (5, 5), vec![volume(10, 0, 0, 10)], vec![portal("p", (1, 1), (5, 5), r)]), "volume"),
    ];
    for (zone, want) in cases {
        let err = match ZoneConfig::parse(layout("m", zone)) {
            Ok(_) => panic!("should have been refused"),
            Err(e) => e.message(),
        };
        assert!(err.contains(want), "error should mention `{want}`: {err}");
    }
}

#[test]
fn every_other_fault_is_named() {
    let floor = || vec![volume(0, 0, 10, 10)];
    let door = || vec![portal("p", (1, 1), (5, 5), 40)];

    let shut = interior("M", (5, 5), floor(), vec![portal("p", (1, 1), (5, 5), 0)]);
    assert_eq!(
        ZoneConfig::parse(layout("m", shut)).unwrap_err().message(),
        "zones.toml [interior.m]: portal `p` has a non-positive radius"
    );

    let mut buried = interior("M", (5, 5), floor(), door());
    buried.deposits = vec![deposit("a", (1, 1)), deposit("b", (10, 1))];
    assert_eq!(
        ZoneConfig::parse(layout("m", buried)).unwrap_err().message(),
        "zones.toml [interior.m]: deposit `b` is outside the volumes"
    );

    let mut twins = interior("M", (5, 5), floor(), door());
    twins.deposits = vec![deposit("a", (1, 1)), deposit("b", (2, 1)), deposit("a", (3, 1))];
    assert_eq!(
        ZoneConfig::parse(layout("m", twins)).unwrap_err().message(),
        "zones.toml [interior.m]: has two deposits sharing an id"
    );

    let with = |stations: Vec<StationPlacement>| ZoneConfig {
        interior: vec![("m".to_string(), interior("M", (5, 5), floor(), door()))],
        station: stations,
    };
    assert_eq!(
        ZoneConfig::parse(with(vec![station("f", (1, 1), None), station("f", (2, 2), None)])).unwrap_err().message(),
        "zones.toml [interior.station f]: is a duplicate id — a station is addressed by id, so two would be one"
    );
    assert_eq!(
        ZoneConfig::parse(with(vec![station("f", (1, 1), Some("x"))])).unwrap_err().message(),
        "zones.toml [interior.station f]: names an interior that doesn't exist"
    );
    assert_eq!(
        ZoneConfig::parse(with(vec![station("f", (10, 1), Some("m"))])).unwrap_err().message(),
        "zones.toml [interior.station f]: stands inside solid rock — nobody could reach it"
    );
    assert_eq!(
        ZoneConfig::parse(with(vec![station("f", (-1, 1), None)])).unwrap_err().message(),
        "zones.toml [interior.station f]: stands outside the world"
    );
    assert!(ZoneConfig::parse(with(vec![station("f", (9, 9), Some("m")), station("g", (7000, 9), None)])).is_ok());
}

#[test]
fn no_layout_means_no_interiors() {
    let cfg = ZoneConfig::parse(ZoneConfig::default()).unwrap();
    assert!(cfg.interior.is_empty());
    assert!(!cfg.is_interior("mine_starter"));
    assert!(cfg.portal_from_world(0, 0).is_none());
}

#[test]
fn a_surface_station_stands_in_the_world() {
    for (pos, fine) in [
        ((0, 0), true),
        ((25599, 25599), true),
        ((30000, 5), false),
        ((25600, 0), false),
        ((0, 25600), false),
        ((-1, 0), false),
        ((0, -1), false),
    ] {
        let cfg = ZoneConfig { interior: Vec::new(), station: vec![station("f1", pos, None)] };
        match cfg.validate() {
            Ok(()) => assert!(fine, "{pos:?}"),
            Err(e) => {
                assert!(!fine, "{pos:?}");
                assert!(e.message().contains("outside the world"), "{}", e.message());
            }
        }
    }
}
