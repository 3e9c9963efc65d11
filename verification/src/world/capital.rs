//! The capital: its districts, and everything that stands in it from the start.

use vstd::prelude::*;

use crate::table::{find, lemma_find_is, rows_view};
use crate::world::geometry::{
    cells_view, centre_of, fits_i32, grid_fits, grid_rows, holds, law_plots_do_not_overlap,
    law_plots_stay_inside, lemma_grid_len, plots_fit, plots_of, District, DistrictView, PlotCell,
    PlotCellView, PlotGrid, Rect, Safety, WORLD_SIZE,
};
use crate::world::spawns::{
    mob_spawns, npc_registry, npc_spawns, pack, BuildBoard, BuildBoardView, MobSpawn, MobSpawnView,
    NpcSpawn, NpcSpawnView, ResourceNodeSpawn, ResourceNodeSpawnView, SeedBuildOrder, SeedBuildOrderView,
    StoragePoint, StoragePointView,
};

verus! {

/// The ids of the capital's districts.
pub fn capital_district_ids() -> (ids: Vec<&'static str>)
    ensures
        ids@.len() == 5,
        ids@[0]@ == "market"@,
        ids@[1]@ == "suburbs"@,
        ids@[2]@ == "civic"@,
        ids@[3]@ == "craftworks"@,
        ids@[4]@ == "old_quarter"@,
{
    vec!["market", "suburbs", "civic", "craftworks", "old_quarter"]
}

/// The whole capital.
#[derive(Debug)]
pub struct Capital {
    pub districts: Vec<District>,
    pub town_centre: (i32, i32),
    pub build_orders: Vec<SeedBuildOrder>,
    pub resource_nodes: Vec<ResourceNodeSpawn>,
    pub storage_points: Vec<StoragePoint>,
    pub build_boards: Vec<BuildBoard>,
    pub npcs: Vec<NpcSpawn>,
    pub mobs: Vec<MobSpawn>,
}

/// The view of a [`Capital`].
pub struct CapitalView {
    pub districts: Seq<DistrictView>,
    pub town_centre: (int, int),
    pub build_orders: Seq<SeedBuildOrderView>,
    pub resource_nodes: Seq<ResourceNodeSpawnView>,
    pub storage_points: Seq<StoragePointView>,
    pub build_boards: Seq<BuildBoardView>,
    pub npcs: Seq<NpcSpawnView>,
    pub mobs: Seq<MobSpawnView>,
}

impl View for Capital {
    type V = CapitalView;

    open spec fn view(&self) -> CapitalView {
        CapitalView {
            districts: rows_view(self.districts@),
            town_centre: (self.town_centre.0 as int, self.town_centre.1 as int),
            build_orders: rows_view(self.build_orders@),
            resource_nodes: rows_view(self.resource_nodes@),
            storage_points: rows_view(self.storage_points@),
            build_boards: rows_view(self.build_boards@),
            npcs: rows_view(self.npcs@),
            mobs: rows_view(self.mobs@),
        }
    }
}

pub open spec fn district_def(id: &str, name: &str, region: Rect, plot_grid: Option<PlotGrid>) -> DistrictView {
    DistrictView { id: id@, name: name@, region, safety: Safety::Safe, plot_grid }
}

/// The plots that newcomers get.
pub open spec fn starter_grid() -> PlotGrid {
    PlotGrid { cols: 12, rows: 20, margin: 40, plot_w: 80, plot_h: 80, gap: 40, tier: 0 }
}

/// The districts: a civic centre, with the suburbs to its west, the market to its east, and two quarters between
/// them to its north and south.
pub open spec fn authored_districts() -> Seq<DistrictView> {
    seq![
        district_def("market", "Market District", Rect { x0: 19200, y0: 0, x1: 25600, y1: 25600 }, None),
        district_def("civic", "Civic Centre", Rect { x0: 6400, y0: 6400, x1: 19200, y1: 19200 }, None),
        district_def(
            "suburbs",
            "Starter Suburbs",
            Rect { x0: 0, y0: 0, x1: 6400, y1: 25600 },
            Some(starter_grid()),
        ),
        district_def("craftworks", "Craftworks Quarter", Rect { x0: 6400, y0: 0, x1: 19200, y1: 6400 }, None),
        district_def("old_quarter", "Old Quarter", Rect { x0: 6400, y0: 19200, x1: 19200, y1: 25600 }, None),
    ]
}

/// The build orders that exist from the start: a market in the town, and a second one far away for when the first
/// is done.
pub open spec fn authored_orders() -> Seq<SeedBuildOrderView> {
    seq![
        SeedBuildOrderView {
            district: "civic"@,
            kind: "market"@,
            required_json: "{\"wood\":50,\"stone\":30}"@,
            prereq: None,
            structure_kind: "market"@,
            structure_x: 12900,
            structure_y: 12800,
            required_skill: None,
            required_level: 0,
        },
        SeedBuildOrderView {
            district: "market"@,
            kind: "market_east"@,
            required_json: "{\"wood\":50,\"stone\":30}"@,
            prereq: Some("market"@),
            structure_kind: "market"@,
            structure_x: 20800,
            structure_y: 9600,
            required_skill: None,
            required_level: 0,
        },
    ]
}

pub open spec fn node_def(id: &str, district: &str, item_id: &str, x: int, y: int, qty: int) -> ResourceNodeSpawnView {
    ResourceNodeSpawnView { id: id@, district: district@, item_id: item_id@, x, y, qty }
}

/// Trees and a rock around the town centre.
pub open spec fn town_nodes() -> Seq<ResourceNodeSpawnView> {
    seq![
        node_def("node_civic_tree_0", "civic", "wood", 12740, 12740, 5),
        node_def("node_civic_tree_1", "civic", "wood", 12860, 12740, 5),
        node_def("node_civic_tree_2", "civic", "wood", 12740, 12860, 5),
        node_def("node_civic_tree_3", "civic", "wood", 12860, 12860, 5),
        node_def("node_civic_rock_0", "civic", "stone", 12800, 12690, 5),
    ]
}

fn town_spawns() -> (out: Vec<ResourceNodeSpawn>)
    ensures
        rows_view(out@) == town_nodes(),
{
    let out: Vec<ResourceNodeSpawn> = vec![
        ResourceNodeSpawn { id: "node_civic_tree_0", district: "civic", item_id: "wood", x: 12740, y: 12740, qty: 5 },
        ResourceNodeSpawn { id: "node_civic_tree_1", district: "civic", item_id: "wood", x: 12860, y: 12740, qty: 5 },
        ResourceNodeSpawn { id: "node_civic_tree_2", district: "civic", item_id: "wood", x: 12740, y: 12860, qty: 5 },
        ResourceNodeSpawn { id: "node_civic_tree_3", district: "civic", item_id: "wood", x: 12860, y: 12860, qty: 5 },
        ResourceNodeSpawn { id: "node_civic_rock_0", district: "civic", item_id: "stone", x: 12800, y: 12690, qty: 5 },
    ];
    assert(rows_view(out@) =~= town_nodes());
    out
}

/// The nodes of the market district.
pub open spec fn market_nodes() -> Seq<ResourceNodeSpawnView> {
    seq![
        node_def("node_market_tree_0", "market", "wood", 20800, 2800, 5),
        node_def("node_market_tree_1", "market", "wood", 23600, 8800, 5),
        node_def("node_market_rock_0", "market", "stone", 21600, 14400, 5),
        node_def("node_market_tree_2", "market", "wood", 24000, 20000, 5),
        node_def("node_market_rock_1", "market", "stone", 19300, 22600, 5),
    ]
}

fn market_spawns() -> (out: Vec<ResourceNodeSpawn>)
    ensures
        rows_view(out@) == market_nodes(),
{
    let out: Vec<ResourceNodeSpawn> = vec![
        ResourceNodeSpawn { id: "node_market_tree_0", district: "market", item_id: "wood", x: 20800, y: 2800, qty: 5 },
        ResourceNodeSpawn { id: "node_market_tree_1", district: "market", item_id: "wood", x: 23600, y: 8800, qty: 5 },
        ResourceNodeSpawn { id: "node_market_rock_0", district: "market", item_id: "stone", x: 21600, y: 14400, qty: 5 },
        ResourceNodeSpawn { id: "node_market_tree_2", district: "market", item_id: "wood", x: 24000, y: 20000, qty: 5 },
        ResourceNodeSpawn { id: "node_market_rock_1", district: "market", item_id: "stone", x: 19300, y: 22600, qty: 5 },
    ];
    assert(rows_view(out@) =~= market_nodes());
    out
}

/// The nodes of the suburbs.
pub open spec fn suburb_nodes() -> Seq<ResourceNodeSpawnView> {
    seq![
        node_def("node_suburbs_tree_0", "suburbs", "wood", 1600, 3200, 5),
        node_def("node_suburbs_tree_1", "suburbs", "wood", 4000, 9600, 5),
        node_def("node_suburbs_rock_0", "suburbs", "stone", 2400, 16000, 5),
        node_def("node_suburbs_tree_2", "suburbs", "wood", 4800, 20800, 5),
        node_def("node_suburbs_rock_1", "suburbs", "stone", 1200, 24000, 5),
    ]
}

fn suburb_spawns() -> (out: Vec<ResourceNodeSpawn>)
    ensures
        rows_view(out@) == suburb_nodes(),
{
    let out: Vec<ResourceNodeSpawn> = vec![
        ResourceNodeSpawn { id: "node_suburbs_tree_0", district: "suburbs", item_id: "wood", x: 1600, y: 3200, qty: 5 },
        ResourceNodeSpawn { id: "node_suburbs_tree_1", district: "suburbs", item_id: "wood", x: 4000, y: 9600, qty: 5 },
        ResourceNodeSpawn { id: "node_suburbs_rock_0", district: "suburbs", item_id: "stone", x: 2400, y: 16000, qty: 5 },
        ResourceNodeSpawn { id: "node_suburbs_tree_2", district: "suburbs", item_id: "wood", x: 4800, y: 20800, qty: 5 },
        ResourceNodeSpawn { id: "node_suburbs_rock_1", district: "suburbs", item_id: "stone", x: 1200, y: 24000, qty: 5 },
    ];
    assert(rows_view(out@) =~= suburb_nodes());
    out
}

/// The nodes of the craftworks quarter.
pub open spec fn craftworks_nodes() -> Seq<ResourceNodeSpawnView> {
    seq![
        node_def("node_craftworks_tree_0", "craftworks", "wood", 8000, 1600, 5),
        node_def("node_craftworks_rock_0", "craftworks", "stone", 12800, 3600, 5),
        node_def("node_craftworks_tree_1", "craftworks", "wood", 17600, 2000, 5),
        node_def("node_craftworks_rock_1", "craftworks", "stone", 11200, 5200, 5),
    ]
}

fn craftworks_spawns() -> (out: Vec<ResourceNodeSpawn>)
    ensures
        rows_view(out@) == craftworks_nodes(),
{
    let out: Vec<ResourceNodeSpawn> = vec![
        ResourceNodeSpawn { id: "node_craftworks_tree_0", district: "craftworks", item_id: "wood", x: 8000, y: 1600, qty: 5 },
        ResourceNodeSpawn { id: "node_craftworks_rock_0", district: "craftworks", item_id: "stone", x: 12800, y: 3600, qty: 5 },
        ResourceNodeSpawn { id: "node_craftworks_tree_1", district: "craftworks", item_id: "wood", x: 17600, y: 2000, qty: 5 },
        ResourceNodeSpawn { id: "node_craftworks_rock_1", district: "craftworks", item_id: "stone", x: 11200, y: 5200, qty: 5 },
    ];
    assert(rows_view(out@) =~= craftworks_nodes());
    out
}

/// The nodes of the old quarter.
pub open spec fn old_quarter_nodes() -> Seq<ResourceNodeSpawnView> {
    seq![
        node_def("node_old_quarter_tree_0", "old_quarter", "wood", 8000, 20800, 5),
        node_def("node_old_quarter_rock_0", "old_quarter", "stone", 12800, 23600, 5),
        node_def("node_old_quarter_tree_1", "old_quarter", "wood", 17600, 21600, 5),
        node_def("node_old_quarter_rock_1", "old_quarter", "stone", 11200, 24400, 5),
    ]
}

fn old_quarter_spawns() -> (out: Vec<ResourceNodeSpawn>)
    ensures
        rows_view(out@) == old_quarter_nodes(),
{
    let out: Vec<ResourceNodeSpawn> = vec![
        ResourceNodeSpawn { id: "node_old_quarter_tree_0", district: "old_quarter", item_id: "wood", x: 8000, y: 20800, qty: 5 },
        ResourceNodeSpawn { id: "node_old_quarter_rock_0", district: "old_quarter", item_id: "stone", x: 12800, y: 23600, qty: 5 },
        ResourceNodeSpawn { id: "node_old_quarter_tree_1", district: "old_quarter", item_id: "wood", x: 17600, y: 21600, qty: 5 },
        ResourceNodeSpawn { id: "node_old_quarter_rock_1", district: "old_quarter", item_id: "stone", x: 11200, y: 24400, qty: 5 },
    ];
    assert(rows_view(out@) =~= old_quarter_nodes());
    out
}

/// The quarry: a working face of rich rock on the mountain bench.
pub open spec fn quarry_nodes() -> Seq<ResourceNodeSpawnView> {
    seq![
        node_def("node_quarry_rock_0", "civic", "stone", 8210, 13900, 25),
        node_def("node_quarry_rock_1", "civic", "stone", 8225, 13905, 25),
        node_def("node_quarry_rock_2", "civic", "stone", 8240, 13900, 25),
        node_def("node_quarry_rock_3", "civic", "stone", 8255, 13905, 25),
        node_def("node_quarry_rock_4", "civic", "stone", 8210, 13925, 25),
        node_def("node_quarry_rock_5", "civic", "stone", 8225, 13930, 25),
        node_def("node_quarry_rock_6", "civic", "stone", 8240, 13925, 25),
        node_def("node_quarry_rock_7", "civic", "stone", 8255, 13930, 25),
    ]
}

fn quarry_spawns() -> (out: Vec<ResourceNodeSpawn>)
    ensures
        rows_view(out@) == quarry_nodes(),
{
    let out: Vec<ResourceNodeSpawn> = vec![
        ResourceNodeSpawn { id: "node_quarry_rock_0", district: "civic", item_id: "stone", x: 8210, y: 13900, qty: 25 },
        ResourceNodeSpawn { id: "node_quarry_rock_1", district: "civic", item_id: "stone", x: 8225, y: 13905, qty: 25 },
        ResourceNodeSpawn { id: "node_quarry_rock_2", district: "civic", item_id: "stone", x: 8240, y: 13900, qty: 25 },
        ResourceNodeSpawn { id: "node_quarry_rock_3", district: "civic", item_id: "stone", x: 8255, y: 13905, qty: 25 },
        ResourceNodeSpawn { id: "node_quarry_rock_4", district: "civic", item_id: "stone", x: 8210, y: 13925, qty: 25 },
        ResourceNodeSpawn { id: "node_quarry_rock_5", district: "civic", item_id: "stone", x: 8225, y: 13930, qty: 25 },
        ResourceNodeSpawn { id: "node_quarry_rock_6", district: "civic", item_id: "stone", x: 8240, y: 13925, qty: 25 },
        ResourceNodeSpawn { id: "node_quarry_rock_7", district: "civic", item_id: "stone", x: 8255, y: 13930, qty: 25 },
    ];
    assert(rows_view(out@) =~= quarry_nodes());
    out
}

/// The logging camp: a grove around its foreman.
pub open spec fn logging_nodes() -> Seq<ResourceNodeSpawnView> {
    seq![
        node_def("node_logging_tree_0", "civic", "wood", 14280, 11380, 20),
        node_def("node_logging_tree_1", "civic", "wood", 14320, 11385, 20),
        node_def("node_logging_tree_2", "civic", "wood", 14340, 11410, 20),
        node_def("node_logging_tree_3", "civic", "wood", 14320, 11435, 20),
        node_def("node_logging_tree_4", "civic", "wood", 14280, 11430, 20),
        node_def("node_logging_tree_5", "civic", "wood", 14260, 11405, 20),
    ]
}

fn logging_spawns() -> (out: Vec<ResourceNodeSpawn>)
    ensures
        rows_view(out@) == logging_nodes(),
{
    let out: Vec<ResourceNodeSpawn> = vec![
        ResourceNodeSpawn { id: "node_logging_tree_0", district: "civic", item_id: "wood", x: 14280, y: 11380, qty: 20 },
        ResourceNodeSpawn { id: "node_logging_tree_1", district: "civic", item_id: "wood", x: 14320, y: 11385, qty: 20 },
        ResourceNodeSpawn { id: "node_logging_tree_2", district: "civic", item_id: "wood", x: 14340, y: 11410, qty: 20 },
        ResourceNodeSpawn { id: "node_logging_tree_3", district: "civic", item_id: "wood", x: 14320, y: 11435, qty: 20 },
        ResourceNodeSpawn { id: "node_logging_tree_4", district: "civic", item_id: "wood", x: 14280, y: 11430, qty: 20 },
        ResourceNodeSpawn { id: "node_logging_tree_5", district: "civic", item_id: "wood", x: 14260, y: 11405, qty: 20 },
    ];
    assert(rows_view(out@) =~= logging_nodes());
    out
}

/// Everything that can be gathered.
pub open spec fn authored_nodes() -> Seq<ResourceNodeSpawnView> {
    town_nodes() + market_nodes() + suburb_nodes() + craftworks_nodes() + old_quarter_nodes() + quarry_nodes() + logging_nodes()
}

/// The whole capital, as it was laid out.
pub open spec fn authored_capital() -> CapitalView {
    CapitalView {
        districts: authored_districts(),
        town_centre: (12800, 12800),
        build_orders: authored_orders(),
        resource_nodes: authored_nodes(),
        storage_points: seq![
            StoragePointView { id: "storehouse_town"@, district: "civic"@, x: 12830, y: 12810 },
        ],
        build_boards: seq![BuildBoardView { id: "board_town"@, district: "civic"@, x: 12770, y: 12810 }],
        npcs: npc_registry(),
        mobs: pack(),
    }
}

fn districts() -> (out: Vec<District>)
    ensures
        rows_view(out@) == authored_districts(),
{
    let side: i32 = WORLD_SIZE / 4;
    let mid0: i32 = side;
    let mid1: i32 = WORLD_SIZE - side;
    let market = District {
        id: "market",
        name: "Market District",
        region: Rect::new(mid1, 0, WORLD_SIZE, WORLD_SIZE),
        safety: Safety::Safe,
        plot_grid: None,
    };
    let suburbs = District {
        id: "suburbs",
        name: "Starter Suburbs",
        region: Rect::new(0, 0, side, WORLD_SIZE),
        safety: Safety::Safe,
        plot_grid: Some(
            PlotGrid { cols: 12, rows: 20, margin: 40, plot_w: 80, plot_h: 80, gap: 40, tier: 0 },
        ),
    };
    let civic = District {
        id: "civic",
        name: "Civic Centre",
        region: Rect::new(mid0, mid0, mid1, mid1),
        safety: Safety::Safe,
        plot_grid: None,
    };
    let craftworks = District {
        id: "craftworks",
        name: "Craftworks Quarter",
        region: Rect::new(mid0, 0, mid1, side),
        safety: Safety::Safe,
        plot_grid: None,
    };
    let old_quarter = District {
        id: "old_quarter",
        name: "Old Quarter",
        region: Rect::new(mid0, mid1, mid1, WORLD_SIZE),
        safety: Safety::Safe,
        plot_grid: None,
    };
    let out: Vec<District> = vec![market, civic, suburbs, craftworks, old_quarter];
    assert(rows_view(out@) =~= authored_districts());
    out
}

fn seed_orders(tcx: i32, tcy: i32) -> (out: Vec<SeedBuildOrder>)
    requires
        tcx == 12800,
        tcy == 12800,
    ensures
        rows_view(out@) == authored_orders(),
{
    let out: Vec<SeedBuildOrder> = vec![
        // A short walk from the town centre, and clear of the storehouse and the board.
        SeedBuildOrder {
            district: "civic",
            kind: "market",
            required_json: "{\"wood\":50,\"stone\":30}",
            prereq: None,
            structure_kind: "market",
            structure_x: tcx + 100,
            structure_y: tcy,
            required_skill: None,
            required_level: 0,
        },
        // The reward for the first, at the same cost: the difficulty is the way there.
        SeedBuildOrder {
            district: "market",
            kind: "market_east",
            required_json: "{\"wood\":50,\"stone\":30}",
            prereq: Some("market"),
            structure_kind: "market",
            structure_x: 20800,
            structure_y: 9600,
            required_skill: None,
            required_level: 0,
        },
    ];
    assert(rows_view(out@) =~= authored_orders());
    out
}

fn nodes() -> (out: Vec<ResourceNodeSpawn>)
    ensures
        rows_view(out@) == authored_nodes(),
{
    let mut out: Vec<ResourceNodeSpawn> = town_spawns();

    let mut more: Vec<ResourceNodeSpawn> = market_spawns();
    out.append(&mut more);
    assert(rows_view(out@) =~= town_nodes() + market_nodes());
    let mut more: Vec<ResourceNodeSpawn> = suburb_spawns();
    out.append(&mut more);
    assert(rows_view(out@) =~= town_nodes() + market_nodes() + suburb_nodes());
    let mut more: Vec<ResourceNodeSpawn> = craftworks_spawns();
    out.append(&mut more);
    assert(rows_view(out@) =~= town_nodes() + market_nodes() + suburb_nodes() + craftworks_nodes());
    let mut more: Vec<ResourceNodeSpawn> = old_quarter_spawns();
    out.append(&mut more);
    assert(rows_view(out@) =~= town_nodes() + market_nodes() + suburb_nodes() + craftworks_nodes() + old_quarter_nodes());
    let mut more: Vec<ResourceNodeSpawn> = quarry_spawns();
    out.append(&mut more);
    assert(rows_view(out@) =~= town_nodes() + market_nodes() + suburb_nodes() + craftworks_nodes() + old_quarter_nodes() + quarry_nodes());
    let mut more: Vec<ResourceNodeSpawn> = logging_spawns();
    out.append(&mut more);
    assert(rows_view(out@) =~= town_nodes() + market_nodes() + suburb_nodes() + craftworks_nodes() + old_quarter_nodes() + quarry_nodes() + logging_nodes());
    out
}

/// The capital: five districts that tile the world, a grid of starter plots in the suburbs, the town centre in the
/// middle, two markets to build, and what is gathered, stored, met and feared around them.
pub fn capital() -> (c: Capital)
    ensures
        c@ == authored_capital(),
{
    let town_centre: (i32, i32) = (WORLD_SIZE / 2, WORLD_SIZE / 2);
    let (tcx, tcy) = town_centre;
    let storage_points: Vec<StoragePoint> = vec![
        StoragePoint { id: "storehouse_town", district: "civic", x: tcx + 30, y: tcy + 10 },
    ];
    let build_boards: Vec<BuildBoard> = vec![
        BuildBoard { id: "board_town", district: "civic", x: tcx - 30, y: tcy + 10 },
    ];
    let c = Capital {
        districts: districts(),
        town_centre,
        build_orders: seed_orders(tcx, tcy),
        resource_nodes: nodes(),
        storage_points,
        build_boards,
        npcs: npc_spawns(),
        mobs: mob_spawns(),
    };
    assert(c@.storage_points =~= authored_capital().storage_points);
    assert(c@.build_boards =~= authored_capital().build_boards);
    c
}

pub open spec fn owns_point(x: int, y: int) -> spec_fn(DistrictView) -> bool {
    |d: DistrictView| holds(d.region, x, y)
}

/// The district of a point, if any.
pub open spec fn district_of(districts: Seq<DistrictView>, x: int, y: int) -> Option<DistrictView> {
    let k = find(districts, owns_point(x, y));
    if k < districts.len() {
        Some(districts[k])
    } else {
        None
    }
}

pub open spec fn opt_district(d: Option<&District>) -> Option<DistrictView> {
    match d {
        Some(v) => Some(v@),
        None => None,
    }
}

/// Plots, each with the id of its district.
pub open spec fn labelled(id: Seq<char>, cells: Seq<PlotCellView>) -> Seq<(Seq<char>, PlotCellView)> {
    Seq::new(cells.len(), |i: int| (id, cells[i]))
}

/// The plots of these districts, one district after the other.
pub open spec fn all_plots(districts: Seq<DistrictView>) -> Seq<(Seq<char>, PlotCellView)>
    decreases districts.len(),
{
    if districts.len() == 0 {
        Seq::empty()
    } else {
        all_plots(districts.drop_last()) + labelled(districts.last().id, plots_of(districts.last()))
    }
}

pub open spec fn labelled_view(v: Seq<(&'static str, PlotCell)>) -> Seq<(Seq<char>, PlotCellView)> {
    Seq::new(v.len(), |i: int| (v[i].0@, v[i].1@))
}

/// Every district's plots can be laid out.
pub open spec fn districts_fit(districts: Seq<DistrictView>) -> bool {
    forall|i: int| 0 <= i < districts.len() ==> plots_fit(#[trigger] districts[i])
}

/// A plot that lies wholly in a region.
pub open spec fn lies_in(r: Rect) -> spec_fn((Seq<char>, PlotCellView)) -> bool {
    |p: (Seq<char>, PlotCellView)| holds(r, p.1.x, p.1.y) && holds(r, p.1.x + p.1.w - 1, p.1.y + p.1.h - 1)
}

pub open spec fn node_in(r: Rect) -> spec_fn(ResourceNodeSpawnView) -> bool {
    |n: ResourceNodeSpawnView| holds(r, n.x, n.y)
}

pub open spec fn storage_in(r: Rect) -> spec_fn(StoragePointView) -> bool {
    |p: StoragePointView| holds(r, p.x, p.y)
}

pub open spec fn board_in(r: Rect) -> spec_fn(BuildBoardView) -> bool {
    |b: BuildBoardView| holds(r, b.x, b.y)
}

pub open spec fn npc_in(r: Rect) -> spec_fn(NpcSpawnView) -> bool {
    |n: NpcSpawnView| holds(r, n.x, n.y)
}

pub open spec fn mob_in(r: Rect) -> spec_fn(MobSpawnView) -> bool {
    |m: MobSpawnView| holds(r, m.x, m.y)
}

/// Those of a list that satisfy a predicate, in their order.
fn kept<T: View + Copy, F: Fn(&T) -> bool>(all: &Vec<T>, f: F, p: Ghost<spec_fn(T::V) -> bool>) -> (out: Vec<T>)
    requires
        forall|a: &T| f.requires((a,)),
        forall|a: &T, b: bool| f.ensures((a,), b) ==> b == p@(a@),
    ensures
        rows_view(out@) == rows_view(all@).filter(p@),
{
    let ghost views = rows_view(all@);
    let mut out: Vec<T> = Vec::new();
    let mut i: usize = 0;
    proof {
        reveal(Seq::filter);
        assert(views.take(0) =~= Seq::empty());
        assert(rows_view(out@) =~= views.take(0).filter(p@));
    }
    while i < all.len()
        invariant
            i <= all.len(),
            views == rows_view(all@),
            forall|a: &T| f.requires((a,)),
            forall|a: &T, b: bool| f.ensures((a,), b) ==> b == p@(a@),
            rows_view(out@) == views.take(i as int).filter(p@),
        decreases all.len() - i,
    {
        let ghost was = out@;
        proof {
            reveal(Seq::filter);
            assert(views.take(i + 1).drop_last() =~= views.take(i as int));
            assert(views.take(i + 1).last() == all@[i as int]@);
        }
        if f(&all[i]) {
            out.push(all[i]);
            assert(rows_view(out@) =~= rows_view(was).push(all@[i as int]@));
        }
        i = i + 1;
    }
    assert(views.take(i as int) =~= views);
    out
}

impl Capital {
    /// The district of a point, if any.
    pub fn district_at(&self, x: i32, y: i32) -> (d: Option<&District>)
        ensures
            opt_district(d) == district_of(self@.districts, x as int, y as int),
    {
        let ghost views = self@.districts;
        let ghost p = owns_point(x as int, y as int);
        let mut k: usize = 0;
        while k < self.districts.len()
            invariant
                k <= self.districts.len(),
                views == rows_view(self.districts@),
                p == owns_point(x as int, y as int),
                forall|j: int| 0 <= j < k ==> !p(#[trigger] views[j]),
            decreases self.districts.len() - k,
        {
            assert(views[k as int] == self.districts@[k as int]@);
            if self.districts[k].region.contains(x, y) {
                proof {
                    lemma_find_is(views, p, k as int);
                }
                return Some(&self.districts[k]);
            }
            k = k + 1;
        }
        proof {
            lemma_find_is(views, p, k as int);
        }
        None
    }

    /// The district of a region: that of its centre, so that it survives the region being cut up.
    pub fn district_for_region(&self, r: Rect) -> (d: Option<&District>)
        requires
            fits_i32(r.x0 + r.x1),
            fits_i32(r.y0 + r.y1),
        ensures
            opt_district(d) == district_of(self@.districts, centre_of(r).0, centre_of(r).1),
    {
        let (cx, cy) = r.centre();
        self.district_at(cx, cy)
    }

    /// Every plot, with the id of its district.
    pub fn starter_plots(&self) -> (out: Vec<(&'static str, PlotCell)>)
        requires
            districts_fit(self@.districts),
        ensures
            labelled_view(out@) == all_plots(self@.districts),
    {
        let ghost views = self@.districts;
        let mut out: Vec<(&'static str, PlotCell)> = Vec::new();
        let mut i: usize = 0;
        assert(views.take(0) =~= Seq::empty());
        assert(labelled_view(out@) =~= all_plots(views.take(0)));
        while i < self.districts.len()
            invariant
                i <= self.districts.len(),
                views == rows_view(self.districts@),
                districts_fit(views),
                labelled_view(out@) == all_plots(views.take(i as int)),
            decreases self.districts.len() - i,
        {
            let d = &self.districts[i];
            assert(views[i as int] == d@);
            let cells = d.plots();
            let ghost done = labelled_view(out@);
            let ghost more = labelled(d@.id, plots_of(d@));
            proof {
                assert(views.take(i + 1).drop_last() =~= views.take(i as int));
                assert(views.take(i + 1).last() == d@);
                assert(done + more.take(0) =~= done);
            }
            let mut j: usize = 0;
            while j < cells.len()
                invariant
                    j <= cells.len(),
                    cells_view(cells@) == plots_of(d@),
                    more == labelled(d@.id, plots_of(d@)),
                    labelled_view(out@) == done + more.take(j as int),
                decreases cells.len() - j,
            {
                let ghost was = out@;
                assert(cells_view(cells@)[j as int] == cells@[j as int]@);
                out.push((d.id, cells[j]));
                assert(labelled_view(out@) =~= labelled_view(was).push(more[j as int]));
                assert(done + more.take(j + 1) =~= (done + more.take(j as int)).push(more[j as int]));
                j = j + 1;
            }
            assert(more.take(j as int) =~= more);
            i = i + 1;
        }
        assert(views.take(i as int) =~= views);
        out
    }

    /// The plots that lie wholly in a region, with the ids of their districts.
    pub fn plots_in(&self, r: Rect) -> (out: Vec<(&'static str, PlotCell)>)
        requires
            districts_fit(self@.districts),
        ensures
            labelled_view(out@) == all_plots(self@.districts).filter(lies_in(r)),
    {
        let all = self.starter_plots();
        let ghost views = labelled_view(all@);
        let ghost p = lies_in(r);
        let mut out: Vec<(&'static str, PlotCell)> = Vec::new();
        let mut i: usize = 0;
        proof {
            reveal(Seq::filter);
            assert(views.take(0) =~= Seq::empty());
            assert(labelled_view(out@) =~= views.take(0).filter(p));
        }
        while i < all.len()
            invariant
                i <= all.len(),
                views == labelled_view(all@),
                p == lies_in(r),
                labelled_view(out@) == views.take(i as int).filter(p),
            decreases all.len() - i,
        {
            let ghost was = out@;
            let (id, c) = all[i];
            proof {
                reveal(Seq::filter);
                assert(views.take(i + 1).drop_last() =~= views.take(i as int));
                assert(views.take(i + 1).last() == (id@, c@));
            }
            let right: i64 = c.x as i64 + c.w as i64 - 1;
            let bottom: i64 = c.y as i64 + c.h as i64 - 1;
            if r.contains(c.x, c.y) && r.x0 as i64 <= right && right < r.x1 as i64 && r.y0 as i64 <= bottom && bottom
                < r.y1 as i64 {
                out.push((id, c));
                assert(labelled_view(out@) =~= labelled_view(was).push((id@, c@)));
            }
            i = i + 1;
        }
        assert(views.take(i as int) =~= views);
        out
    }

    /// The resource nodes in a region.
    pub fn resource_nodes_in(&self, r: Rect) -> (out: Vec<ResourceNodeSpawn>)
        ensures
            rows_view(out@) == self@.resource_nodes.filter(node_in(r)),
    {
        let f = |n: &ResourceNodeSpawn| -> (b: bool)
            ensures
                b == node_in(r)(n@),
            { r.contains(n.x, n.y) };
        kept(&self.resource_nodes, f, Ghost(node_in(r)))
    }

    /// The storage points in a region.
    pub fn storage_points_in(&self, r: Rect) -> (out: Vec<StoragePoint>)
        ensures
            rows_view(out@) == self@.storage_points.filter(storage_in(r)),
    {
        let f = |p: &StoragePoint| -> (b: bool)
            ensures
                b == storage_in(r)(p@),
            { r.contains(p.x, p.y) };
        kept(&self.storage_points, f, Ghost(storage_in(r)))
    }

    /// The build boards in a region.
    pub fn build_boards_in(&self, r: Rect) -> (out: Vec<BuildBoard>)
        ensures
            rows_view(out@) == self@.build_boards.filter(board_in(r)),
    {
        let f = |b: &BuildBoard| -> (y: bool)
            ensures
                y == board_in(r)(b@),
            { r.contains(b.x, b.y) };
        kept(&self.build_boards, f, Ghost(board_in(r)))
    }

    /// Whoever there is to talk to in a region.
    pub fn npcs_in(&self, r: Rect) -> (out: Vec<NpcSpawn>)
        ensures
            rows_view(out@) == self@.npcs.filter(npc_in(r)),
    {
        let f = |n: &NpcSpawn| -> (b: bool)
            ensures
                b == npc_in(r)(n@),
            { r.contains(n.x, n.y) };
        kept(&self.npcs, f, Ghost(npc_in(r)))
    }

    /// The creatures in a region. A region that is cut in two hands each half its own, none twice and none lost.
    pub fn mobs_in(&self, r: Rect) -> (out: Vec<MobSpawn>)
        ensures
            rows_view(out@) == self@.mobs.filter(mob_in(r)),
    {
        let f = |m: &MobSpawn| -> (b: bool)
            ensures
                b == mob_in(r)(m@),
            { r.contains(m.x, m.y) };
        kept(&self.mobs, f, Ghost(mob_in(r)))
    }
}

/// The districts tile the world: every point of it lies in exactly one, and no other point in any.
pub proof fn law_districts_tile_the_world(x: int, y: int)
    ensures
        0 <= x < WORLD_SIZE && 0 <= y < WORLD_SIZE <==> exists|i: int|
            0 <= i < 5 && holds((#[trigger] authored_districts()[i]).region, x, y),
        forall|i: int, j: int|
            0 <= i < 5 && 0 <= j < 5 && holds((#[trigger] authored_districts()[i]).region, x, y) && holds(
                (#[trigger] authored_districts()[j]).region,
                x,
                y,
            ) ==> i == j,
        authored_districts().len() == 5,
{
    let d = authored_districts();
    assert(d[0].region == Rect { x0: 19200, y0: 0, x1: 25600, y1: 25600 });
    assert(d[1].region == Rect { x0: 6400, y0: 6400, x1: 19200, y1: 19200 });
    assert(d[2].region == Rect { x0: 0, y0: 0, x1: 6400, y1: 25600 });
    assert(d[3].region == Rect { x0: 6400, y0: 0, x1: 19200, y1: 6400 });
    assert(d[4].region == Rect { x0: 6400, y0: 19200, x1: 19200, y1: 25600 });
    if 0 <= x < WORLD_SIZE && 0 <= y < WORLD_SIZE {
        let i: int = if x < 6400 {
            2
        } else if x >= 19200 {
            0
        } else if y < 6400 {
            3
        } else if y >= 19200 {
            4
        } else {
            1
        };
        assert(holds(d[i].region, x, y));
    }
}

/// The starter plots can be laid out; there are 240 of them, all inside the suburbs, and no two share any ground.
pub proof fn law_starter_plots(i: int, j: int)
    ensures
        districts_fit(authored_districts()),
        ({
            let r = authored_districts()[2].region;
            let plots = grid_rows(r, starter_grid(), 20);
            &&& plots_of(authored_districts()[2]) == plots
            &&& 0 <= i < j < 240 ==> plots.len() == 240 && {
                let (a, b) = (plots[i], plots[j]);
                &&& holds(r, a.x, a.y) && holds(r, a.x + a.w - 1, a.y + a.h - 1)
                &&& holds(r, b.x, b.y) && holds(r, b.x + b.w - 1, b.y + b.h - 1)
                &&& a.x + a.w <= b.x || b.x + b.w <= a.x || a.y + a.h <= b.y || b.y + b.h <= a.y
            }
        }),
{
    let d = authored_districts();
    let r = d[2].region;
    let g = starter_grid();
    assert(r == Rect { x0: 0, y0: 0, x1: 6400, y1: 25600 });
    assert(g.plot_w + g.gap == 120 && g.plot_h + g.gap == 120);
    assert forall|gx: int| 0 <= gx < g.cols implies fits_i32(#[trigger] (gx * (g.plot_w + g.gap))) && fits_i32(
        r.x0 + g.margin + gx * (g.plot_w + g.gap),
    ) by {
        assert(gx * (g.plot_w + g.gap) == gx * 120);
    }
    assert forall|gy: int| 0 <= gy < g.rows implies fits_i32(#[trigger] (gy * (g.plot_h + g.gap))) && fits_i32(
        r.y0 + g.margin + gy * (g.plot_h + g.gap),
    ) by {
        assert(gy * (g.plot_h + g.gap) == gy * 120);
    }
    assert(grid_fits(r, g));
    assert forall|k: int| 0 <= k < d.len() implies plots_fit(#[trigger] d[k]) by {
        if k != 2 {
            assert(d[0].plot_grid is None && d[1].plot_grid is None && d[3].plot_grid is None && d[4].plot_grid is None);
        }
    }
    if 0 <= i < j < 240 {
        lemma_starter_len();
        law_plots_do_not_overlap(r, g, i, j);
        law_plots_stay_inside(r, g, i);
        law_plots_stay_inside(r, g, j);
    }
}

proof fn lemma_starter_len()
    ensures
        grid_rows(authored_districts()[2].region, starter_grid(), 20).len() == 240,
{
    lemma_grid_len(authored_districts()[2].region, starter_grid(), 20);
}

} // verus!
