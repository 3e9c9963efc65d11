//! Where things lie, how fast one works, and how practice fades.

use vstd::prelude::*;

use crate::table::{find, lemma_filter_contains, lemma_find};
use crate::util::headings;
use crate::world::capital::{
    all_plots, board_in, district_of, lies_in, mob_in, node_in, npc_in, owns_point, storage_in, CapitalView,
};
use crate::world::geometry::{
    area_of, centre_of, lemma_grid_len, lemma_grid_rows, plots_of, DistrictView, PlotCellView, PlotGrid,
    Rect,
};
use crate::world::spawns::{
    damage_of, BuildBoardView, MobSpawnView, NpcSpawnView, ResourceNodeSpawnView, StoragePointView,
};
use crate::world::tools::{cooldown_ms, faded_xp, footprint_of, swing_xp};

verus! {

/// Whether a point lies in a rectangle: from its near edges up to the far ones, which are outside.
pub open spec fn lies_within(r: Rect, x: int, y: int) -> bool {
    r.x0 <= x && x < r.x1 && r.y0 <= y && y < r.y1
}

/// The centre of a rectangle is halfway between its edges, to the next whole number towards zero, and its area is its width
/// times its height.
pub proof fn law_a_centre_is_halfway(r: Rect)
    ensures
        ({
            let c = centre_of(r);
            let (sx, sy) = (r.x0 + r.x1, r.y0 + r.y1);
            &&& sx >= 0 ==> 2 * c.0 <= sx <= 2 * c.0 + 1
            &&& sx < 0 ==> 2 * c.0 - 1 <= sx <= 2 * c.0
            &&& sy >= 0 ==> 2 * c.1 <= sy <= 2 * c.1 + 1
            &&& sy < 0 ==> 2 * c.1 - 1 <= sy <= 2 * c.1
        }),
        area_of(r) == (r.x1 - r.x0) * (r.y1 - r.y0),
{
}

/// Plots stand in rows, each row from the first column on, a plot and a gap apart, from the margin on.
pub proof fn law_plots_stand_in_rows(d: DistrictView, g: PlotGrid, i: int)
    requires
        d.plot_grid == Some(g),
        g.cols > 0,
        g.rows > 0,
        0 <= i < g.rows * g.cols,
    ensures
        ({
            let c = plots_of(d)[i];
            &&& plots_of(d).len() == g.rows * g.cols
            &&& c.grid_y * g.cols + c.grid_x == i
            &&& 0 <= c.grid_x < g.cols && 0 <= c.grid_y < g.rows
            &&& c.x == d.region.x0 + g.margin + c.grid_x * (g.plot_w + g.gap)
            &&& c.y == d.region.y0 + g.margin + c.grid_y * (g.plot_h + g.gap)
            &&& c.w == g.plot_w && c.h == g.plot_h && c.tier == g.tier
        }),
{
    lemma_grid_len(d.region, g, g.rows as int);
    lemma_grid_rows(d.region, g, g.rows as int, i);
}

/// The district of a point is one that the point lies in, the first of these, and there is none only where there is no such
/// district.
pub proof fn law_a_point_belongs_to_its_district(districts: Seq<DistrictView>, x: int, y: int, i: int)
    requires
        0 <= i < districts.len(),
    ensures
        district_of(districts, x, y) matches Some(d) ==> lies_within(d.region, x, y) && districts.contains(d),
        lies_within(districts[i].region, x, y) ==> district_of(districts, x, y) is Some,
        lies_within(districts[i].region, x, y) && (forall|j: int|
            0 <= j < i ==> !lies_within((#[trigger] districts[j]).region, x, y)) ==> district_of(districts, x, y) == Some(
            districts[i],
        ),
{
    let p = owns_point(x, y);
    lemma_find(districts, p);
    let k = find(districts, p);
    if k < districts.len() {
        assert(districts.contains(districts[k]));
    } else {
        assert(!p(districts[i]));
    }
    if lies_within(districts[i].region, x, y) {
        assert(p(districts[i]));
        if k < i {
            assert(lies_within(districts[k].region, x, y));
        }
    }
}

/// What lies in a region is what stands within its edges; a plot lies in it only whole, with both its corners.
pub proof fn law_what_lies_in_a_region(
    c: CapitalView,
    r: Rect,
    plot: (Seq<char>, PlotCellView),
    node: ResourceNodeSpawnView,
    point: StoragePointView,
    board: BuildBoardView,
    npc: NpcSpawnView,
    mob: MobSpawnView,
)
    ensures
        all_plots(c.districts).filter(lies_in(r)).contains(plot) <==> all_plots(c.districts).contains(plot) && lies_within(
            r,
            plot.1.x,
            plot.1.y,
        ) && lies_within(r, plot.1.x + plot.1.w - 1, plot.1.y + plot.1.h - 1),
        c.resource_nodes.filter(node_in(r)).contains(node) <==> c.resource_nodes.contains(node) && lies_within(r, node.x, node.y),
        c.storage_points.filter(storage_in(r)).contains(point) <==> c.storage_points.contains(point) && lies_within(
            r,
            point.x,
            point.y,
        ),
        c.build_boards.filter(board_in(r)).contains(board) <==> c.build_boards.contains(board) && lies_within(r, board.x, board.y),
        c.npcs.filter(npc_in(r)).contains(npc) <==> c.npcs.contains(npc) && lies_within(r, npc.x, npc.y),
        c.mobs.filter(mob_in(r)).contains(mob) <==> c.mobs.contains(mob) && lies_within(r, mob.x, mob.y),
{
    lemma_filter_contains(all_plots(c.districts), lies_in(r), plot);
    lemma_filter_contains(c.resource_nodes, node_in(r), node);
    lemma_filter_contains(c.storage_points, storage_in(r), point);
    lemma_filter_contains(c.build_boards, board_in(r), board);
    lemma_filter_contains(c.npcs, npc_in(r), npc);
    lemma_filter_contains(c.mobs, mob_in(r), mob);
}

/// The directions are all the steps to a neighbour, straight and diagonal, each once, and none stands still.
pub proof fn law_every_direction_once(dx: int, dy: int, i: int, j: int)
    ensures
        headings().contains((dx, dy)) <==> -1 <= dx <= 1 && -1 <= dy <= 1 && !(dx == 0 && dy == 0),
        headings().len() == 8,
        0 <= i < j < 8 ==> headings()[i] != headings()[j],
{
    let h = headings();
    assert(h[0] == (1int, 0int) && h[1] == (-1int, 0int) && h[2] == (0int, 1int) && h[3] == (0int, -1int));
    assert(h[4] == (1int, 1int) && h[5] == (1int, -1int) && h[6] == (-1int, 1int) && h[7] == (-1int, -1int));
    if h.contains((dx, dy)) {
        let k = choose|k: int| 0 <= k < h.len() && h[k] == (dx, dy);
    }
    if -1 <= dx <= 1 && -1 <= dy <= 1 && !(dx == 0 && dy == 0) {
        if dx == 0 {
            assert(h[if dy == 1 {
                2
            } else {
                3
            }] == (dx, dy));
        } else if dy == 0 {
            assert(h[if dx == 1 {
                0
            } else {
                1
            }] == (dx, dy));
        } else if dx == 1 {
            assert(h[if dy == 1 {
                4
            } else {
                5
            }] == (dx, dy));
        } else {
            assert(h[if dy == 1 {
                6
            } else {
                7
            }] == (dx, dy));
        }
    }
}

/// A novice chops every 1.8 seconds and picks every 2.2; each level takes 0.12 off, down to 1 and 1.3. Any other ability
/// takes a second, practised or not.
pub proof fn law_each_level_makes_faster(ability: Seq<char>, level: int)
    ensures
        cooldown_ms("chop"@, 0) == 1800,
        cooldown_ms("pick"@, 0) == 2200,
        level >= 0 && cooldown_ms("chop"@, level) >= 1120 ==> cooldown_ms("chop"@, level + 1) == cooldown_ms("chop"@, level) - 120,
        level >= 0 && cooldown_ms("chop"@, level) < 1120 ==> cooldown_ms("chop"@, level + 1) == 1000,
        level >= 0 && cooldown_ms("pick"@, level) >= 1420 ==> cooldown_ms("pick"@, level + 1) == cooldown_ms("pick"@, level) - 120,
        level >= 0 && cooldown_ms("pick"@, level) < 1420 ==> cooldown_ms("pick"@, level + 1) == 1300,
        ability != "chop"@ && ability != "pick"@ ==> cooldown_ms(ability, level) == 1000,
{
    reveal_strlit("pick");
    reveal_strlit("chop");
    assert("pick"@[0] != "chop"@[0]);
}

/// An award is whole up to the level at which it starts to fade and gone at twice that level. Between them it is the share
/// of it that is left of that way, rounded down. A swing is worth twelve, whichever of the two abilities it is.
pub proof fn law_an_award_fades_by_its_share(base: int, level: int, falloff: int, ability: Seq<char>)
    ensures
        base <= 0 ==> faded_xp(base, level, falloff) == 0,
        base > 0 && (falloff <= 0 || level <= falloff) ==> faded_xp(base, level, falloff) == base,
        base > 0 && falloff > 0 && level >= 2 * falloff ==> faded_xp(base, level, falloff) == 0,
        base > 0 && 0 < falloff < level < 2 * falloff ==> {
            let n = faded_xp(base, level, falloff);
            n * falloff <= base * (2 * falloff - level) < (n + 1) * falloff
        },
        swing_xp(ability) == if ability == "pick"@ || ability == "chop"@ {
            12int
        } else {
            0
        },
{
    if base > 0 && 0 < falloff < level < 2 * falloff {
        let a = base * (2 * falloff - level);
        let n = a / falloff;
        assert(n * falloff <= a < (n + 1) * falloff) by (nonlinear_arith)
            requires
                n == a / falloff,
                falloff > 0,
        ;
    }
}

/// A sword does twice what bare hands do, and whatever else is held does no more than they.
pub proof fn law_a_sword_hits_twice_as_hard(weapon: Option<Seq<char>>)
    ensures
        damage_of(Some("sword"@)) == 2 * damage_of(None),
        weapon != Some("sword"@) ==> damage_of(weapon) == 20,
{
}

/// A bed and a workbench take twenty units each way, a chest sixteen, and nothing else can be placed in a home.
pub proof fn law_what_fits_into_a_home(kind: Seq<char>)
    ensures
        footprint_of("bed"@) == Some((20int, 20int)),
        footprint_of("crafting"@) == Some((20int, 20int)),
        footprint_of("storage"@) == Some((16int, 16int)),
        footprint_of(kind) is Some <==> kind == "bed"@ || kind == "crafting"@ || kind == "storage"@,
{
    reveal_strlit("bed");
    reveal_strlit("crafting");
    reveal_strlit("storage");
    assert("bed"@.len() == 3 && "crafting"@.len() == 8 && "storage"@.len() == 7);
}

} // verus!
