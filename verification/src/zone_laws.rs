//! Which layouts are accepted, and where portals lead.

use vstd::prelude::*;

use crate::table::{find, lemma_find};
use crate::zone_config::{
    footing, has_bad_volume, has_floor, in_rock, in_volume, inside_reach, is_bad_portal, is_bad_zone,
    is_floor, is_zone, layout_fault, leads_in, outside_reach, station_fault, stations_fault, way_in,
    way_out, zone_fault, zone_of, InteriorZoneView, StationPlacementView, ZoneConfigView,
};

verus! {

/// Whether a point lies on a floor of an interior: from the near edges of one of its volumes up to the far ones, which are
/// outside.
pub open spec fn stands_on_floor(z: InteriorZoneView, p: (int, int)) -> bool {
    exists|i: int|
        0 <= i < z.volumes.len() && (#[trigger] z.volumes[i]).x0 <= p.0 && p.0 < z.volumes[i].x1 && z.volumes[i].y0 <= p.1 && p.1
            < z.volumes[i].y1
}

/// Whether an interior is fit to be entered: every volume has a floor; whoever enters stands on one, by the anchor or by any
/// portal; there is a portal, and each can be reached; every deposit stands on a floor, under its own id.
pub open spec fn fit_to_enter(z: InteriorZoneView) -> bool {
    &&& z.volumes.len() > 0
    &&& forall|i: int| 0 <= i < z.volumes.len() ==> (#[trigger] z.volumes[i]).x0 < z.volumes[i].x1 && z.volumes[i].y0 < z.volumes[i].y1
    &&& stands_on_floor(z, z.spawn_anchor)
    &&& z.portals.len() > 0
    &&& forall|i: int| 0 <= i < z.portals.len() ==> stands_on_floor(z, (#[trigger] z.portals[i]).inside) && z.portals[i].radius > 0
    &&& forall|i: int| 0 <= i < z.deposits.len() ==> stands_on_floor(z, (#[trigger] z.deposits[i]).pos)
    &&& forall|i: int, j: int| 0 <= i < j < z.deposits.len() ==> (#[trigger] z.deposits[i]).id != (#[trigger] z.deposits[j]).id
}

/// Whether a station can be reached: on a floor of the interior it names, or in the world where it names none.
pub open spec fn within_reach(c: ZoneConfigView, st: StationPlacementView) -> bool {
    match st.interior {
        Some(id) => exists|k: int|
            0 <= k < c.interior.len() && (#[trigger] c.interior[k]).0 == id && (forall|j: int|
                0 <= j < k ==> (#[trigger] c.interior[j]).0 != id) && stands_on_floor(c.interior[k].1, st.pos),
        None => 0 <= st.pos.0 < 25_600 && 0 <= st.pos.1 < 25_600,
    }
}

/// A layout is accepted exactly when every interior is fit to be entered and every station can be reached, under its own id.
pub proof fn law_when_a_layout_is_accepted(c: ZoneConfigView)
    ensures
        layout_fault(c) is None <==> {
            &&& forall|i: int| 0 <= i < c.interior.len() ==> fit_to_enter((#[trigger] c.interior[i]).1)
            &&& forall|i: int| 0 <= i < c.station.len() ==> within_reach(c, #[trigger] c.station[i])
            &&& forall|i: int, j: int| 0 <= i < j < c.station.len() ==> (#[trigger] c.station[i]).id != (#[trigger] c.station[j]).id
        },
{
    let bad = is_bad_zone();
    let k = find(c.interior, bad);
    lemma_find(c.interior, bad);
    assert forall|i: int| 0 <= i < c.interior.len() implies fit_to_enter((#[trigger] c.interior[i]).1) == !bad(c.interior[i]) by {
        lemma_fit(c.interior[i].1);
    }
    lemma_stations(c, 0);
    assert forall|i: int| 0 <= i < c.station.len() implies (station_fault(c, i) is None <==> within_reach(
        c,
        #[trigger] c.station[i],
    ) && forall|j: int| 0 <= j < i ==> (#[trigger] c.station[j]).id != c.station[i].id) by {
        lemma_station(c, i);
    }
    if layout_fault(c) is None {
        assert forall|i: int| 0 <= i < c.interior.len() implies fit_to_enter((#[trigger] c.interior[i]).1) by {
            assert(!bad(c.interior[i]));
        }
        assert forall|i: int| 0 <= i < c.station.len() implies within_reach(c, #[trigger] c.station[i]) by {
            assert(station_fault(c, i) is None);
        }
        assert forall|i: int, j: int| 0 <= i < j < c.station.len() implies (#[trigger] c.station[i]).id != (
        #[trigger] c.station[j]).id by {
            assert(station_fault(c, j) is None);
        }
    }
    if (forall|i: int| 0 <= i < c.interior.len() ==> fit_to_enter((#[trigger] c.interior[i]).1)) && (forall|i: int|
        0 <= i < c.station.len() ==> within_reach(c, #[trigger] c.station[i])) && (forall|i: int, j: int|
        0 <= i < j < c.station.len() ==> (#[trigger] c.station[i]).id != (#[trigger] c.station[j]).id) {
        if k < c.interior.len() {
            assert(fit_to_enter(c.interior[k].1));
        }
        assert forall|i: int| 0 <= i < c.station.len() implies #[trigger] station_fault(c, i) is None by {
            assert(within_reach(c, c.station[i]));
        }
    }
}

proof fn lemma_fit(z: InteriorZoneView)
    ensures
        fit_to_enter(z) == (zone_fault(z) is None),
{
    let rock = in_rock(z);
    let bad = is_bad_portal(z);
    lemma_find(z.deposits, rock);
    lemma_find(z.portals, bad);
    assert forall|p: (int, int)| #[trigger] stands_on_floor(z, p) == is_floor(z, p.0, p.1) by {
        if stands_on_floor(z, p) {
            let i = choose|i: int|
                0 <= i < z.volumes.len() && (#[trigger] z.volumes[i]).x0 <= p.0 && p.0 < z.volumes[i].x1 && z.volumes[i].y0 <= p.1
                    && p.1 < z.volumes[i].y1;
            assert(in_volume(z.volumes[i], p.0, p.1));
        }
        if is_floor(z, p.0, p.1) {
            let i = choose|i: int| 0 <= i < z.volumes.len() && in_volume(#[trigger] z.volumes[i], p.0, p.1);
            assert(z.volumes[i].x0 <= p.0);
        }
    }
    if zone_fault(z) is None {
        assert forall|i: int| 0 <= i < z.volumes.len() implies (#[trigger] z.volumes[i]).x0 < z.volumes[i].x1 && z.volumes[i].y0
            < z.volumes[i].y1 by {
            assert(has_floor(z.volumes[i]));
        }
        assert forall|i: int| 0 <= i < z.portals.len() implies stands_on_floor(z, (#[trigger] z.portals[i]).inside)
            && z.portals[i].radius > 0 by {
            assert(!bad(z.portals[i]));
        }
        assert forall|i: int| 0 <= i < z.deposits.len() implies stands_on_floor(z, (#[trigger] z.deposits[i]).pos) by {
            assert(!rock(z.deposits[i]));
        }
    }
    if fit_to_enter(z) {
        let d = find(z.deposits, rock);
        let p = find(z.portals, bad);
        if d < z.deposits.len() {
            assert(stands_on_floor(z, z.deposits[d].pos));
        }
        if p < z.portals.len() {
            assert(stands_on_floor(z, z.portals[p].inside));
        }
        assert(stands_on_floor(z, z.spawn_anchor));
        assert(!has_bad_volume(z));
    }
}

proof fn lemma_station(c: ZoneConfigView, i: int)
    requires
        0 <= i < c.station.len(),
    ensures
        station_fault(c, i) is None <==> within_reach(c, c.station[i]) && forall|j: int|
            0 <= j < i ==> (#[trigger] c.station[j]).id != c.station[i].id,
{
    let st = c.station[i];
    if st.interior is Some {
        let id = st.interior->0;
        let k = find(c.interior, is_zone(id));
        lemma_find(c.interior, is_zone(id));
        assert forall|j: int| 0 <= j < k implies (#[trigger] c.interior[j]).0 != id by {
            assert(!is_zone(id)(c.interior[j]));
        }
        if k < c.interior.len() {
            let z = c.interior[k].1;
            assert(c.interior[k].0 == id);
            assert(stands_on_floor(z, st.pos) == is_floor(z, st.pos.0, st.pos.1)) by {
                if stands_on_floor(z, st.pos) {
                    let i = choose|i: int|
                        0 <= i < z.volumes.len() && (#[trigger] z.volumes[i]).x0 <= st.pos.0 && st.pos.0 < z.volumes[i].x1
                            && z.volumes[i].y0 <= st.pos.1 && st.pos.1 < z.volumes[i].y1;
                    assert(in_volume(z.volumes[i], st.pos.0, st.pos.1));
                }
                if is_floor(z, st.pos.0, st.pos.1) {
                    let i = choose|i: int|
                        0 <= i < z.volumes.len() && in_volume(#[trigger] z.volumes[i], st.pos.0, st.pos.1);
                    assert(z.volumes[i].x0 <= st.pos.0);
                }
            }
            if within_reach(c, st) {
                let m = choose|m: int|
                    0 <= m < c.interior.len() && (#[trigger] c.interior[m]).0 == id && (forall|j: int|
                        0 <= j < m ==> (#[trigger] c.interior[j]).0 != id) && stands_on_floor(c.interior[m].1, st.pos);
                assert(m == k) by {
                    if m < k {
                        assert(c.interior[m].0 != id);
                    }
                    if k < m {
                        assert(c.interior[k].0 != id);
                    }
                }
            }
        }
    }
}

proof fn lemma_stations(c: ZoneConfigView, from: int)
    requires
        0 <= from <= c.station.len(),
    ensures
        stations_fault(c, from) is None <==> forall|i: int| from <= i < c.station.len() ==> #[trigger] station_fault(c, i) is None,
    decreases c.station.len() - from,
{
    if from < c.station.len() {
        lemma_stations(c, from + 1);
    }
}

/// Whether two points are no further apart than a radius.
pub open spec fn no_further(a: (int, int), x: int, y: int, radius: int) -> bool {
    (a.0 - x) * (a.0 - x) + (a.1 - y) * (a.1 - y) <= radius * radius
}

/// The way in is a portal no further from where one stands outside than its radius, and there is one exactly when there is
/// such a portal anywhere. The way out is one of the interior's own, from where one stands inside.
pub proof fn law_portals_open_within_their_radius(c: ZoneConfigView, id: Seq<char>, x: int, y: int)
    ensures
        way_in(c, x, y) matches Some((zone, p)) ==> no_further(p.world, x, y, p.radius) && exists|k: int|
            0 <= k < c.interior.len() && (#[trigger] c.interior[k]).0 == zone && c.interior[k].1.portals.contains(p),
        way_in(c, x, y) is None ==> forall|k: int, j: int|
            0 <= k < c.interior.len() && 0 <= j < c.interior[k].1.portals.len() ==> !no_further(
                (#[trigger] c.interior[k].1.portals[j]).world,
                x,
                y,
                c.interior[k].1.portals[j].radius,
            ),
        way_out(c, id, x, y) matches Some(p) ==> no_further(p.inside, x, y, p.radius) && zone_of(c, id) is Some && zone_of(
            c,
            id,
        )->0.portals.contains(p),
        way_out(c, id, x, y) is None && zone_of(c, id) is Some ==> forall|j: int|
            0 <= j < zone_of(c, id)->0.portals.len() ==> !no_further(
                (#[trigger] zone_of(c, id)->0.portals[j]).inside,
                x,
                y,
                zone_of(c, id)->0.portals[j].radius,
            ),
{
    let k = find(c.interior, leads_in(x, y));
    lemma_find(c.interior, leads_in(x, y));
    let near = outside_reach(x, y);
    let back = inside_reach(x, y);
    if k < c.interior.len() {
        let portals = c.interior[k].1.portals;
        lemma_find(portals, near);
        assert(c.interior[k].0 == (way_in(c, x, y)->0).0);
        assert(portals.contains(portals[find(portals, near)]));
    } else {
        assert forall|k: int, j: int| 0 <= k < c.interior.len() && 0 <= j < c.interior[k].1.portals.len() implies !no_further(
            (#[trigger] c.interior[k].1.portals[j]).world,
            x,
            y,
            c.interior[k].1.portals[j].radius,
        ) by {
            assert(!leads_in(x, y)(c.interior[k]));
            lemma_find(c.interior[k].1.portals, near);
            assert(!near(c.interior[k].1.portals[j]));
        }
    }
    if zone_of(c, id) is Some {
        let portals = zone_of(c, id)->0.portals;
        lemma_find(portals, back);
        let m = find(portals, back);
        if m < portals.len() {
            assert(portals.contains(portals[m]));
        } else {
            assert forall|j: int| 0 <= j < portals.len() implies !no_further(
                (#[trigger] portals[j]).inside,
                x,
                y,
                portals[j].radius,
            ) by {
                assert(!back(portals[j]));
            }
        }
    }
}

/// Whoever is to stand on a floor stands there, and whoever is to stand anywhere else stands at the anchor.
pub proof fn law_nobody_stands_in_rock(z: InteriorZoneView, x: int, y: int)
    ensures
        stands_on_floor(z, (x, y)) ==> footing(z, x, y) == (x, y),
        !stands_on_floor(z, (x, y)) ==> footing(z, x, y) == z.spawn_anchor,
{
    if stands_on_floor(z, (x, y)) {
        let i = choose|i: int|
            0 <= i < z.volumes.len() && (#[trigger] z.volumes[i]).x0 <= x && x < z.volumes[i].x1 && z.volumes[i].y0 <= y && y
                < z.volumes[i].y1;
        assert(in_volume(z.volumes[i], x, y));
    } else if is_floor(z, x, y) {
        let i = choose|i: int| 0 <= i < z.volumes.len() && in_volume(#[trigger] z.volumes[i], x, y);
        assert(z.volumes[i].x0 <= x);
    }
}

} // verus!
