//! Interior zones: spaces of their own, apart from the surface of the world.
//!
//! An interior is not a rectangle of the world, so nobody gets into one by walking: a portal is the only way in or out. A
//! position says nothing without the zone it is in.
//!
//! The geometry is a handful of boxes. Everyone asks [`InteriorZone::contains`] and nobody reads the boxes, so that
//! something finer can take their place.

use vstd::prelude::*;

use vstd::string::StringExecFns;

use crate::table::{find, lemma_find, lemma_find_is};
use crate::text::{lemma_text_before, opt_text, same, text_before};
use crate::world::geometry::WORLD_SIZE;

verus! {

/// A box of walkable floor, half-open like every region of the surface.
#[derive(Debug, Clone, Copy, PartialEq, Eq)]
pub struct Volume {
    pub x0: i32,
    pub y0: i32,
    pub x1: i32,
    pub y1: i32,
}

pub open spec fn in_volume(v: Volume, x: int, y: int) -> bool {
    v.x0 <= x < v.x1 && v.y0 <= y < v.y1
}

pub open spec fn has_floor(v: Volume) -> bool {
    v.x0 < v.x1 && v.y0 < v.y1
}

impl Volume {
    pub fn contains(&self, x: i32, y: i32) -> (yes: bool)
        ensures
            yes == in_volume(*self, x as int, y as int),
    {
        x >= self.x0 && x < self.x1 && y >= self.y0 && y < self.y1
    }

    /// Whether there is anything in it.
    pub fn valid(&self) -> (yes: bool)
        ensures
            yes == has_floor(*self),
    {
        self.x1 > self.x0 && self.y1 > self.y0
    }
}

/// A doorway between the surface and an interior, in both directions: where it stands outside, and where one arrives
/// inside.
#[derive(Debug, PartialEq, Eq)]
pub struct Portal {
    pub id: String,
    pub world: (i32, i32),
    pub inside: (i32, i32),
    /// How close one must stand to use it, from either side.
    pub radius: i32,
}

/// The radius of a portal that does not say one.
pub fn default_portal_radius() -> (r: i32)
    ensures
        r == 40,
{
    40
}

/// Where a deposit sits.
#[derive(Debug, PartialEq, Eq)]
pub struct DepositPlacement {
    pub id: String,
    pub kind: String,
    pub pos: (i32, i32),
}

/// Where a station stands: in an interior, or on the surface.
#[derive(Debug, PartialEq, Eq)]
pub struct StationPlacement {
    pub id: String,
    pub kind: String,
    pub pos: (i32, i32),
    pub interior: Option<String>,
}

/// One interior.
#[derive(Debug, PartialEq, Eq)]
pub struct InteriorZone {
    pub display_name: String,
    /// Where a player lands with no better answer.
    pub spawn_anchor: (i32, i32),
    /// Raised whenever the floor changes shape. A position stored under another one is not trusted.
    pub geometry_version: i64,
    pub volumes: Vec<Volume>,
    pub portals: Vec<Portal>,
    pub deposits: Vec<DepositPlacement>,
}

/// The geometry version of an interior that does not say one.
pub fn default_geometry_version() -> (v: i64)
    ensures
        v == 1,
{
    1
}

/// Every interior, by zone id, and where the stations stand.
#[derive(Debug, PartialEq, Eq)]
pub struct ZoneConfig {
    /// In the order of the ids, each once: see [`by_id`].
    pub interior: Vec<(String, InteriorZone)>,
    pub station: Vec<StationPlacement>,
}

/// The view of a [`Portal`].
pub struct PortalView {
    pub id: Seq<char>,
    pub world: (int, int),
    pub inside: (int, int),
    pub radius: int,
}

/// The view of a [`DepositPlacement`].
pub struct DepositPlacementView {
    pub id: Seq<char>,
    pub kind: Seq<char>,
    pub pos: (int, int),
}

/// The view of a [`StationPlacement`].
pub struct StationPlacementView {
    pub id: Seq<char>,
    pub kind: Seq<char>,
    pub pos: (int, int),
    pub interior: Option<Seq<char>>,
}

/// The view of an [`InteriorZone`].
pub struct InteriorZoneView {
    pub display_name: Seq<char>,
    pub spawn_anchor: (int, int),
    pub geometry_version: int,
    pub volumes: Seq<Volume>,
    pub portals: Seq<PortalView>,
    pub deposits: Seq<DepositPlacementView>,
}

/// The view of a [`ZoneConfig`].
pub struct ZoneConfigView {
    pub interior: Seq<(Seq<char>, InteriorZoneView)>,
    pub station: Seq<StationPlacementView>,
}

pub open spec fn point(p: (i32, i32)) -> (int, int) {
    (p.0 as int, p.1 as int)
}

impl View for Portal {
    type V = PortalView;

    open spec fn view(&self) -> PortalView {
        PortalView {
            id: self.id@,
            world: point(self.world),
            inside: point(self.inside),
            radius: self.radius as int,
        }
    }
}

impl View for DepositPlacement {
    type V = DepositPlacementView;

    open spec fn view(&self) -> DepositPlacementView {
        DepositPlacementView { id: self.id@, kind: self.kind@, pos: point(self.pos) }
    }
}

impl View for StationPlacement {
    type V = StationPlacementView;

    open spec fn view(&self) -> StationPlacementView {
        StationPlacementView {
            id: self.id@,
            kind: self.kind@,
            pos: point(self.pos),
            interior: opt_text(self.interior),
        }
    }
}

impl View for InteriorZone {
    type V = InteriorZoneView;

    open spec fn view(&self) -> InteriorZoneView {
        InteriorZoneView {
            display_name: self.display_name@,
            spawn_anchor: point(self.spawn_anchor),
            geometry_version: self.geometry_version as int,
            volumes: self.volumes@,
            portals: Seq::new(self.portals@.len(), |i: int| self.portals@[i]@),
            deposits: Seq::new(self.deposits@.len(), |i: int| self.deposits@[i]@),
        }
    }
}

impl View for ZoneConfig {
    type V = ZoneConfigView;

    open spec fn view(&self) -> ZoneConfigView {
        ZoneConfigView {
            interior: Seq::new(self.interior@.len(), |i: int| (self.interior@[i].0@, self.interior@[i].1@)),
            station: Seq::new(self.station@.len(), |i: int| self.station@[i]@),
        }
    }
}

/// The interiors stand in the order of their ids, each id once.
pub open spec fn by_id(c: ZoneConfigView) -> bool {
    forall|i: int, j: int|
        0 <= i < j < c.interior.len() ==> text_before((#[trigger] c.interior[i]).0, (#[trigger] c.interior[j]).0)
}

impl Default for ZoneConfig {
    /// No interiors and no stations.
    fn default() -> (c: ZoneConfig)
        ensures
            by_id(c@),
            c@.interior.len() == 0,
            c@.station.len() == 0,
    {
        ZoneConfig { interior: Vec::new(), station: Vec::new() }
    }
}

/// Whether a point is floor.
pub open spec fn is_floor(z: InteriorZoneView, x: int, y: int) -> bool {
    exists|i: int| 0 <= i < z.volumes.len() && in_volume(#[trigger] z.volumes[i], x, y)
}

/// Where to put someone who is to stand at a point.
pub open spec fn footing(z: InteriorZoneView, x: int, y: int) -> (int, int) {
    if is_floor(z, x, y) {
        (x, y)
    } else {
        z.spawn_anchor
    }
}

impl InteriorZone {
    /// Whether a point is floor.
    pub fn contains(&self, x: i32, y: i32) -> (yes: bool)
        ensures
            yes == is_floor(self@, x as int, y as int),
    {
        let mut i: usize = 0;
        while i < self.volumes.len()
            invariant
                i <= self.volumes.len(),
                forall|j: int| 0 <= j < i ==> !in_volume(#[trigger] self@.volumes[j], x as int, y as int),
            decreases self.volumes.len() - i,
        {
            if self.volumes[i].contains(x, y) {
                assert(in_volume(self@.volumes[i as int], x as int, y as int));
                return true;
            }
            i = i + 1;
        }
        false
    }

    /// A point to stand on: the given one where it is floor, else the spawn anchor. Being moved is better than being
    /// stuck in the rock.
    pub fn nearest_walkable(&self, x: i32, y: i32) -> (p: (i32, i32))
        ensures
            point(p) == footing(self@, x as int, y as int),
    {
        if self.contains(x, y) {
            return (x, y);
        }
        self.spawn_anchor
    }
}

/// Whether a point is within reach of another.
pub open spec fn in_reach(at: (int, int), x: int, y: int, radius: int) -> bool {
    (at.0 - x) * (at.0 - x) + (at.1 - y) * (at.1 - y) <= radius * radius
}

/// Whether a point is within reach of another.
pub fn near(at: (i32, i32), x: i32, y: i32, radius: i32) -> (yes: bool)
    ensures
        yes == in_reach(point(at), x as int, y as int, radius as int),
{
    let dx: i128 = at.0 as i128 - x as i128;
    let dy: i128 = at.1 as i128 - y as i128;
    let r: i128 = radius as i128;
    assert(0 <= dx * dx <= 0x1_0000_0000 * 0x1_0000_0000) by (nonlinear_arith)
        requires
            -0x1_0000_0000 <= dx <= 0x1_0000_0000,
    ;
    assert(0 <= dy * dy <= 0x1_0000_0000 * 0x1_0000_0000) by (nonlinear_arith)
        requires
            -0x1_0000_0000 <= dy <= 0x1_0000_0000,
    ;
    assert(0 <= r * r <= 0x1_0000_0000 * 0x1_0000_0000) by (nonlinear_arith)
        requires
            -0x1_0000_0000 <= r <= 0x1_0000_0000,
    ;
    dx * dx + dy * dy <= r * r
}

pub open spec fn is_zone(id: Seq<char>) -> spec_fn((Seq<char>, InteriorZoneView)) -> bool {
    |e: (Seq<char>, InteriorZoneView)| e.0 == id
}

/// The interior of an id, if there is one.
pub open spec fn zone_of(c: ZoneConfigView, id: Seq<char>) -> Option<InteriorZoneView> {
    let k = find(c.interior, is_zone(id));
    if k < c.interior.len() {
        Some(c.interior[k].1)
    } else {
        None
    }
}

pub open spec fn outside_reach(x: int, y: int) -> spec_fn(PortalView) -> bool {
    |p: PortalView| in_reach(p.world, x, y, p.radius)
}

pub open spec fn inside_reach(x: int, y: int) -> spec_fn(PortalView) -> bool {
    |p: PortalView| in_reach(p.inside, x, y, p.radius)
}

/// The first portal of a list that satisfies a predicate.
pub open spec fn first_portal(portals: Seq<PortalView>, p: spec_fn(PortalView) -> bool) -> Option<PortalView> {
    let k = find(portals, p);
    if k < portals.len() {
        Some(portals[k])
    } else {
        None
    }
}

pub open spec fn leads_in(x: int, y: int) -> spec_fn((Seq<char>, InteriorZoneView)) -> bool {
    |e: (Seq<char>, InteriorZoneView)| first_portal(e.1.portals, outside_reach(x, y)) is Some
}

/// The first interior with a portal in reach of a point outside, and that portal.
pub open spec fn way_in(c: ZoneConfigView, x: int, y: int) -> Option<(Seq<char>, PortalView)> {
    let k = find(c.interior, leads_in(x, y));
    if k < c.interior.len() {
        Some((c.interior[k].0, first_portal(c.interior[k].1.portals, outside_reach(x, y))->0))
    } else {
        None
    }
}

/// The portal out of an interior in reach of a point inside.
pub open spec fn way_out(c: ZoneConfigView, id: Seq<char>, x: int, y: int) -> Option<PortalView> {
    match zone_of(c, id) {
        Some(z) => first_portal(z.portals, inside_reach(x, y)),
        None => None,
    }
}

pub open spec fn opt_zone(z: Option<&InteriorZone>) -> Option<InteriorZoneView> {
    match z {
        Some(v) => Some(v@),
        None => None,
    }
}

pub open spec fn opt_portal(p: Option<&Portal>) -> Option<PortalView> {
    match p {
        Some(v) => Some(v@),
        None => None,
    }
}

pub open spec fn opt_way(w: Option<(&str, &Portal)>) -> Option<(Seq<char>, PortalView)> {
    match w {
        Some((id, p)) => Some((id@, p@)),
        None => None,
    }
}

/// What is wrong, and where.
pub struct ZoneFault {
    pub zone: Seq<char>,
    pub why: Seq<char>,
}

/// Why a layout is refused.
#[derive(Debug, Clone, PartialEq, Eq)]
pub enum ZoneConfigError {
    /// The part that would strand somebody, and how.
    Invalid { zone: String, why: String },
}

impl View for ZoneConfigError {
    type V = ZoneFault;

    open spec fn view(&self) -> ZoneFault {
        match self {
            ZoneConfigError::Invalid { zone, why } => ZoneFault { zone: zone@, why: why@ },
        }
    }
}

impl ZoneConfigError {
    /// The error in words.
    pub fn message(&self) -> (text: String)
        ensures
            text@ == "zones.toml [interior."@ + self@.zone + "]: "@ + self@.why,
    {
        match self {
            ZoneConfigError::Invalid { zone, why } => {
                let mut text = "zones.toml [interior.".to_string();
                text.append(zone.as_str());
                text.append("]: ");
                text.append(why.as_str());
                text
            },
        }
    }
}

/// A volume without floor.
pub open spec fn has_bad_volume(z: InteriorZoneView) -> bool {
    exists|i: int| 0 <= i < z.volumes.len() && !has_floor(#[trigger] z.volumes[i])
}

pub open spec fn in_rock(z: InteriorZoneView) -> spec_fn(DepositPlacementView) -> bool {
    |d: DepositPlacementView| !is_floor(z, d.pos.0, d.pos.1)
}

/// Two deposits that share an id.
pub open spec fn deposits_clash(z: InteriorZoneView) -> bool {
    exists|i: int, j: int| 0 <= i < j < z.deposits.len() && (#[trigger] z.deposits[i]).id == (#[trigger] z.deposits[j]).id
}

pub open spec fn arrives_in_rock(z: InteriorZoneView, p: PortalView) -> bool {
    !is_floor(z, p.inside.0, p.inside.1)
}

pub open spec fn is_bad_portal(z: InteriorZoneView) -> spec_fn(PortalView) -> bool {
    |p: PortalView| arrives_in_rock(z, p) || p.radius <= 0
}

pub open spec fn portal_fault(z: InteriorZoneView, p: PortalView) -> Seq<char> {
    if arrives_in_rock(z, p) {
        "portal `"@ + p.id + "` arrives outside the volumes"@
    } else {
        "portal `"@ + p.id + "` has a non-positive radius"@
    }
}

/// What is wrong with an interior: the first of what would strand somebody.
pub open spec fn zone_fault(z: InteriorZoneView) -> Option<Seq<char>> {
    let d = find(z.deposits, in_rock(z));
    let p = find(z.portals, is_bad_portal(z));
    if z.volumes.len() == 0 {
        Some("has no volumes — there would be nowhere to stand"@)
    } else if has_bad_volume(z) {
        Some("has an inside-out or zero-area volume"@)
    } else if !is_floor(z, z.spawn_anchor.0, z.spawn_anchor.1) {
        Some("spawn_anchor is outside its own volumes"@)
    } else if z.portals.len() == 0 {
        Some("has no portals — it could be entered but never left"@)
    } else if d < z.deposits.len() {
        Some("deposit `"@ + z.deposits[d].id + "` is outside the volumes"@)
    } else if deposits_clash(z) {
        Some("has two deposits sharing an id"@)
    } else if p < z.portals.len() {
        Some(portal_fault(z, z.portals[p]))
    } else {
        None
    }
}

pub open spec fn is_bad_zone() -> spec_fn((Seq<char>, InteriorZoneView)) -> bool {
    |e: (Seq<char>, InteriorZoneView)| zone_fault(e.1) is Some
}

/// Whether a point lies in the world.
pub open spec fn in_world(p: (int, int)) -> bool {
    0 <= p.0 < WORLD_SIZE && 0 <= p.1 < WORLD_SIZE
}

/// What is wrong with a station, after those before it.
pub open spec fn station_fault(c: ZoneConfigView, k: int) -> Option<Seq<char>> {
    let st = c.station[k];
    if exists|i: int| 0 <= i < k && (#[trigger] c.station[i]).id == st.id {
        Some("is a duplicate id — a station is addressed by id, so two would be one"@)
    } else {
        match st.interior {
            Some(id) => match zone_of(c, id) {
                None => Some("names an interior that doesn't exist"@),
                Some(z) => if !is_floor(z, st.pos.0, st.pos.1) {
                    Some("stands inside solid rock — nobody could reach it"@)
                } else {
                    None
                },
            },
            None => if !in_world(st.pos) {
                Some("stands outside the world"@)
            } else {
                None
            },
        }
    }
}

/// The first station from `k` on with something wrong.
pub open spec fn stations_fault(c: ZoneConfigView, k: int) -> Option<ZoneFault>
    decreases c.station.len() - k,
{
    if k >= c.station.len() {
        None
    } else {
        match station_fault(c, k) {
            Some(why) => Some(ZoneFault { zone: "station "@ + c.station[k].id, why }),
            None => stations_fault(c, k + 1),
        }
    }
}

/// What is wrong with a layout: the first interior, or else the first station.
pub open spec fn layout_fault(c: ZoneConfigView) -> Option<ZoneFault> {
    let k = find(c.interior, is_bad_zone());
    if k < c.interior.len() {
        Some(ZoneFault { zone: c.interior[k].0, why: zone_fault(c.interior[k].1)->0 })
    } else {
        stations_fault(c, 0)
    }
}

/// A text between two others.
fn quoted(before: &str, text: &str, after: &str) -> (out: String)
    ensures
        out@ == before@ + text@ + after@,
{
    let mut out = before.to_string();
    out.append(text);
    out.append(after);
    out
}

/// What is wrong with an interior, if anything.
fn check_zone(z: &InteriorZone) -> (why: Option<String>)
    ensures
        opt_text(why) == zone_fault(z@),
{
    if z.volumes.len() == 0 {
        return Some("has no volumes — there would be nowhere to stand".to_string());
    }
    let mut i: usize = 0;
    while i < z.volumes.len()
        invariant
            i <= z.volumes.len(),
            z@.volumes.len() > 0,
            forall|j: int| 0 <= j < i ==> has_floor(#[trigger] z@.volumes[j]),
        decreases z.volumes.len() - i,
    {
        if !z.volumes[i].valid() {
            assert(!has_floor(z@.volumes[i as int]));
            return Some("has an inside-out or zero-area volume".to_string());
        }
        i = i + 1;
    }
    if !z.contains(z.spawn_anchor.0, z.spawn_anchor.1) {
        return Some("spawn_anchor is outside its own volumes".to_string());
    }
    if z.portals.len() == 0 {
        return Some("has no portals — it could be entered but never left".to_string());
    }
    let ghost deposits = z@.deposits;
    let mut d: usize = 0;
    while d < z.deposits.len() && z.contains(z.deposits[d].pos.0, z.deposits[d].pos.1)
        invariant
            d <= z.deposits.len(),
            deposits == z@.deposits,
            forall|j: int| 0 <= j < d ==> !in_rock(z@)(#[trigger] deposits[j]),
        decreases z.deposits.len() - d,
    {
        d = d + 1;
    }
    proof {
        lemma_find_is(deposits, in_rock(z@), d as int);
    }
    if d < z.deposits.len() {
        return Some(quoted("deposit `", z.deposits[d].id.as_str(), "` is outside the volumes"));
    }
    if clashing(&z.deposits) {
        assert(deposits_clash(z@)) by {
            let (i, j) = choose|i: int, j: int|
                0 <= i < j < z.deposits@.len() && (#[trigger] z.deposits@[i]).id@ == (#[trigger] z.deposits@[j]).id@;
            assert(z@.deposits[i].id == z@.deposits[j].id);
        }
        return Some("has two deposits sharing an id".to_string());
    }
    assert(!deposits_clash(z@)) by {
        if deposits_clash(z@) {
            let (i, j) = choose|i: int, j: int|
                0 <= i < j < z@.deposits.len() && (#[trigger] z@.deposits[i]).id == (#[trigger] z@.deposits[j]).id;
            assert(z.deposits@[i].id@ == z.deposits@[j].id@);
        }
    }
    let ghost portals = z@.portals;
    let mut p: usize = 0;
    while p < z.portals.len()
        invariant
            p <= z.portals.len(),
            portals == z@.portals,
            zone_fault(z@) == {
                let q = find(portals, is_bad_portal(z@));
                if q < portals.len() {
                    Some(portal_fault(z@, portals[q]))
                } else {
                    None
                }
            },
            forall|j: int| 0 <= j < p ==> !is_bad_portal(z@)(#[trigger] portals[j]),
        decreases z.portals.len() - p,
    {
        let portal = &z.portals[p];
        assert(portals[p as int] == portal@);
        if !z.contains(portal.inside.0, portal.inside.1) {
            proof {
                lemma_find_is(portals, is_bad_portal(z@), p as int);
            }
            return Some(quoted("portal `", portal.id.as_str(), "` arrives outside the volumes"));
        }
        if portal.radius <= 0 {
            proof {
                lemma_find_is(portals, is_bad_portal(z@), p as int);
            }
            return Some(quoted("portal `", portal.id.as_str(), "` has a non-positive radius"));
        }
        p = p + 1;
    }
    proof {
        lemma_find_is(portals, is_bad_portal(z@), p as int);
    }
    None
}

/// Whether two deposits share an id.
fn clashing(deposits: &Vec<DepositPlacement>) -> (yes: bool)
    ensures
        yes == exists|i: int, j: int|
            0 <= i < j < deposits@.len() && (#[trigger] deposits@[i]).id@ == (#[trigger] deposits@[j]).id@,
{
    let mut j: usize = 0;
    while j < deposits.len()
        invariant
            j <= deposits.len(),
            forall|a: int, b: int|
                0 <= a < b < j ==> (#[trigger] deposits@[a]).id@ != (#[trigger] deposits@[b]).id@,
        decreases deposits.len() - j,
    {
        let mut i: usize = 0;
        while i < j
            invariant
                i <= j < deposits.len(),
                forall|a: int, b: int|
                    0 <= a < b < j ==> (#[trigger] deposits@[a]).id@ != (#[trigger] deposits@[b]).id@,
                forall|a: int| 0 <= a < i ==> (#[trigger] deposits@[a]).id@ != deposits@[j as int].id@,
            decreases j - i,
        {
            if same(deposits[i].id.as_str(), deposits[j].id.as_str()) {
                assert(deposits@[i as int].id@ == deposits@[j as int].id@);
                return true;
            }
            i = i + 1;
        }
        j = j + 1;
    }
    false
}

pub open spec fn check_result(r: Result<(), ZoneConfigError>) -> Option<ZoneFault> {
    match r {
        Ok(_) => None,
        Err(e) => Some(e@),
    }
}

pub open spec fn layout_result(r: Result<ZoneConfig, ZoneConfigError>) -> Result<ZoneConfigView, ZoneFault> {
    match r {
        Ok(c) => Ok(c@),
        Err(e) => Err(e@),
    }
}

impl ZoneConfig {
    /// The position of an interior.
    fn position(&self, zone_id: &str) -> (k: usize)
        ensures
            k == find(self@.interior, is_zone(zone_id@)),
            k <= self@.interior.len(),
    {
        let ghost all = self@.interior;
        let mut k: usize = 0;
        while k < self.interior.len()
            invariant
                k <= self.interior.len(),
                all == self@.interior,
                forall|j: int| 0 <= j < k ==> !is_zone(zone_id@)(#[trigger] all[j]),
            decreases self.interior.len() - k,
        {
            if same(self.interior[k].0.as_str(), zone_id) {
                proof {
                    lemma_find_is(all, is_zone(zone_id@), k as int);
                }
                return k;
            }
            k = k + 1;
        }
        proof {
            lemma_find_is(all, is_zone(zone_id@), k as int);
        }
        k
    }

    /// The interior of an id, if there is one.
    pub fn interior(&self, zone_id: &str) -> (z: Option<&InteriorZone>)
        requires
            by_id(self@),
        ensures
            opt_zone(z) == zone_of(self@, zone_id@),
    {
        let k: usize = self.position(zone_id);
        if k < self.interior.len() {
            Some(&self.interior[k].1)
        } else {
            None
        }
    }

    /// Whether a zone is an interior.
    pub fn is_interior(&self, zone_id: &str) -> (yes: bool)
        requires
            by_id(self@),
        ensures
            yes == zone_of(self@, zone_id@) is Some,
    {
        self.position(zone_id) < self.interior.len()
    }

    /// The interior that a portal in reach of a point outside leads to, and the portal.
    pub fn portal_from_world(&self, x: i32, y: i32) -> (w: Option<(&str, &Portal)>)
        requires
            by_id(self@),
        ensures
            opt_way(w) == way_in(self@, x as int, y as int),
    {
        let ghost all = self@.interior;
        let ghost p = leads_in(x as int, y as int);
        let mut k: usize = 0;
        while k < self.interior.len()
            invariant
                k <= self.interior.len(),
                all == self@.interior,
                p == leads_in(x as int, y as int),
                forall|j: int| 0 <= j < k ==> !p(#[trigger] all[j]),
            decreases self.interior.len() - k,
        {
            let zone = &self.interior[k].1;
            let ghost portals = zone@.portals;
            let ghost q = outside_reach(x as int, y as int);
            let mut i: usize = 0;
            while i < zone.portals.len()
                invariant
                    k < self.interior.len(),
                    i <= zone.portals.len(),
                    all == self@.interior,
                    all[k as int].1 == zone@,
                    portals == zone@.portals,
                    p == leads_in(x as int, y as int),
                    q == outside_reach(x as int, y as int),
                    forall|j: int| 0 <= j < k ==> !p(#[trigger] all[j]),
                    forall|j: int| 0 <= j < i ==> !q(#[trigger] portals[j]),
                decreases zone.portals.len() - i,
            {
                let portal = &zone.portals[i];
                assert(portals[i as int] == portal@);
                if near(portal.world, x, y, portal.radius) {
                    proof {
                        lemma_find_is(portals, q, i as int);
                        lemma_find_is(all, p, k as int);
                    }
                    return Some((self.interior[k].0.as_str(), portal));
                }
                i = i + 1;
            }
            proof {
                lemma_find_is(portals, q, i as int);
            }
            k = k + 1;
        }
        proof {
            lemma_find_is(all, p, k as int);
        }
        None
    }

    /// The portal out of an interior that a point inside is in reach of.
    pub fn portal_from_inside(&self, zone_id: &str, x: i32, y: i32) -> (found: Option<&Portal>)
        requires
            by_id(self@),
        ensures
            opt_portal(found) == way_out(self@, zone_id@, x as int, y as int),
    {
        let k: usize = self.position(zone_id);
        if k >= self.interior.len() {
            return None;
        }
        let zone = &self.interior[k].1;
        let ghost portals = zone@.portals;
        let ghost q = inside_reach(x as int, y as int);
        let mut i: usize = 0;
        while i < zone.portals.len()
            invariant
                i <= zone.portals.len(),
                zone_of(self@, zone_id@) == Some(zone@),
                portals == zone@.portals,
                q == inside_reach(x as int, y as int),
                forall|j: int| 0 <= j < i ==> !q(#[trigger] portals[j]),
            decreases zone.portals.len() - i,
        {
            let portal = &zone.portals[i];
            assert(portals[i as int] == portal@);
            if near(portal.inside, x, y, portal.radius) {
                proof {
                    lemma_find_is(portals, q, i as int);
                }
                return Some(portal);
            }
            i = i + 1;
        }
        proof {
            lemma_find_is(portals, q, i as int);
        }
        None
    }

    /// What is wrong with a station, after those before it.
    fn check_station(&self, k: usize) -> (why: Option<String>)
        requires
            by_id(self@),
            k < self.station.len(),
        ensures
            opt_text(why) == station_fault(self@, k as int),
    {
        let st = &self.station[k];
        assert(self@.station[k as int] == st@);
        let mut i: usize = 0;
        while i < k
            invariant
                by_id(self@),
                i <= k < self.station.len(),
                self@.station[k as int] == st@,
                forall|j: int| 0 <= j < i ==> (#[trigger] self@.station[j]).id != st@.id,
            decreases k - i,
        {
            assert(self@.station[i as int] == self.station@[i as int]@);
            if same(self.station[i].id.as_str(), st.id.as_str()) {
                assert(self@.station[i as int].id == st@.id);
                return Some(
                    "is a duplicate id — a station is addressed by id, so two would be one".to_string(),
                );
            }
            i = i + 1;
        }
        match &st.interior {
            Some(id) => match self.interior(id.as_str()) {
                None => Some("names an interior that doesn't exist".to_string()),
                Some(z) => if !z.contains(st.pos.0, st.pos.1) {
                    Some("stands inside solid rock — nobody could reach it".to_string())
                } else {
                    None
                },
            },
            None => if st.pos.0 < 0 || st.pos.0 >= WORLD_SIZE || st.pos.1 < 0 || st.pos.1 >= WORLD_SIZE {
                Some("stands outside the world".to_string())
            } else {
                None
            },
        }
    }

    /// Refuse a layout that would strand somebody.
    pub fn validate(&self) -> (out: Result<(), ZoneConfigError>)
        requires
            by_id(self@),
        ensures
            check_result(out) == layout_fault(self@),
    {
        let ghost all = self@.interior;
        let mut k: usize = 0;
        while k < self.interior.len()
            invariant
                k <= self.interior.len(),
                all == self@.interior,
                forall|j: int| 0 <= j < k ==> !is_bad_zone()(#[trigger] all[j]),
            decreases self.interior.len() - k,
        {
            assert(all[k as int] == (self.interior@[k as int].0@, self.interior@[k as int].1@));
            match check_zone(&self.interior[k].1) {
                Some(why) => {
                    proof {
                        lemma_find_is(all, is_bad_zone(), k as int);
                    }
                    return Err(ZoneConfigError::Invalid { zone: self.interior[k].0.clone(), why });
                },
                None => {},
            }
            k = k + 1;
        }
        proof {
            lemma_find_is(all, is_bad_zone(), k as int);
        }
        let mut s: usize = 0;
        while s < self.station.len()
            invariant
                by_id(self@),
                s <= self.station.len(),
                stations_fault(self@, 0) == stations_fault(self@, s as int),
                find(self@.interior, is_bad_zone()) == self@.interior.len(),
            decreases self.station.len() - s,
        {
            assert(self@.station[s as int] == self.station@[s as int]@);
            match self.check_station(s) {
                Some(why) => {
                    let zone = quoted("station ", self.station[s].id.as_str(), "");
                    assert(zone@ =~= "station "@ + self@.station[s as int].id) by {
                        reveal_strlit("");
                    }
                    return Err(ZoneConfigError::Invalid { zone, why });
                },
                None => {},
            }
            s = s + 1;
        }
        Ok(())
    }

    /// Take a layout as it was written down, unless it would strand somebody.
    pub fn parse(cfg: ZoneConfig) -> (out: Result<ZoneConfig, ZoneConfigError>)
        requires
            by_id(cfg@),
        ensures
            out matches Ok(c) ==> by_id(c@),
            layout_result(out) == match layout_fault(cfg@) {
                None => Ok::<ZoneConfigView, ZoneFault>(cfg@),
                Some(f) => Err(f),
            },
    {
        match cfg.validate() {
            Ok(_) => Ok(cfg),
            Err(e) => Err(e),
        }
    }
}

/// In an interior that was accepted nobody is stranded: whoever is placed stands on floor, every portal arrives on
/// floor, every deposit can be reached, and there is a way out.
pub proof fn law_an_accepted_interior_strands_nobody(c: ZoneConfigView, id: Seq<char>, x: int, y: int)
    requires
        layout_fault(c) is None,
        zone_of(c, id) is Some,
    ensures
        ({
            let z = zone_of(c, id)->0;
            &&& is_floor(z, footing(z, x, y).0, footing(z, x, y).1)
            &&& z.portals.len() > 0
            &&& forall|i: int|
                0 <= i < z.portals.len() ==> is_floor(z, (#[trigger] z.portals[i]).inside.0, z.portals[i].inside.1)
                    && z.portals[i].radius > 0
            &&& forall|i: int|
                0 <= i < z.deposits.len() ==> is_floor(z, (#[trigger] z.deposits[i]).pos.0, z.deposits[i].pos.1)
        }),
{
    let k = find(c.interior, is_zone(id));
    let z = zone_of(c, id)->0;
    lemma_find(c.interior, is_zone(id));
    lemma_find(c.interior, is_bad_zone());
    assert(!is_bad_zone()(c.interior[k]));
    assert(zone_fault(z) is None);
    lemma_find(z.deposits, in_rock(z));
    lemma_find(z.portals, is_bad_portal(z));
    assert forall|i: int| 0 <= i < z.portals.len() implies is_floor(
        z,
        (#[trigger] z.portals[i]).inside.0,
        z.portals[i].inside.1,
    ) && z.portals[i].radius > 0 by {
        assert(!is_bad_portal(z)(z.portals[i]));
    }
    assert forall|i: int| 0 <= i < z.deposits.len() implies is_floor(
        z,
        (#[trigger] z.deposits[i]).pos.0,
        z.deposits[i].pos.1,
    ) by {
        assert(!in_rock(z)(z.deposits[i]));
    }
}

/// In a layout that was accepted every station can be reached: on the surface it stands in the world, in an interior it
/// stands on floor. No two stations share an id.
pub proof fn law_an_accepted_station_can_be_reached(c: ZoneConfigView, k: int)
    requires
        layout_fault(c) is None,
        0 <= k < c.station.len(),
    ensures
        ({
            let st = c.station[k];
            &&& st.interior is None ==> in_world(st.pos)
            &&& st.interior matches Some(id) ==> zone_of(c, id) is Some && is_floor(
                zone_of(c, id)->0,
                st.pos.0,
                st.pos.1,
            )
            &&& forall|i: int| 0 <= i < k ==> (#[trigger] c.station[i]).id != st.id
        }),
{
    lemma_find(c.interior, is_bad_zone());
    lemma_stations_accepted(c, 0, k);
}

proof fn lemma_stations_accepted(c: ZoneConfigView, from: int, k: int)
    requires
        stations_fault(c, from) is None,
        from <= k < c.station.len(),
    ensures
        station_fault(c, k) is None,
    decreases k - from,
{
    if from < k {
        lemma_stations_accepted(c, from + 1, k);
    }
}

/// A portal works both ways: where it lets one in, it also lets one out.
pub proof fn law_a_portal_leads_both_ways(c: ZoneConfigView, x: int, y: int)
    requires
        by_id(c),
        way_in(c, x, y) is Some,
    ensures
        ({
            let (id, p) = way_in(c, x, y)->0;
            way_out(c, id, p.inside.0, p.inside.1) is Some
        }),
{
    let (id, p) = way_in(c, x, y)->0;
    let k = find(c.interior, leads_in(x, y));
    lemma_find(c.interior, leads_in(x, y));
    lemma_find(c.interior, is_zone(id));
    let j = find(c.interior, is_zone(id));
    if j < k {
        lemma_text_before(c.interior[j].0, c.interior[k].0, c.interior[j].0);
    }
    assert(is_zone(id)(c.interior[k]));
    assert(j == k);
    let z = c.interior[k].1;
    let q = inside_reach(p.inside.0, p.inside.1);
    lemma_find(z.portals, outside_reach(x, y));
    lemma_find(z.portals, q);
    let i = find(z.portals, outside_reach(x, y));
    assert(z.portals[i] == p);
    assert(0 <= p.radius * p.radius) by (nonlinear_arith);
    assert((p.inside.0 - p.inside.0) * (p.inside.0 - p.inside.0) == 0) by (nonlinear_arith);
    assert((p.inside.1 - p.inside.1) * (p.inside.1 - p.inside.1) == 0) by (nonlinear_arith);
    assert(q(z.portals[i]));
}

} // verus!
