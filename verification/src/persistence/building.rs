//! Build orders: contributions pool until a cost is covered.

use vstd::prelude::*;

use crate::persistence::costs::{
    cost_of, covered, covers, dump_cost, json_text, needed, parse_cost, still_needed, Costs,
};
use crate::persistence::db::{Db, DbView};
use crate::persistence::ids::new_id;
use crate::persistence::inventory::{
    carried, clamp_take, dropped, inventory_qty_in_tx, lemma_carried_bound, lemma_dropped, packed,
    remove_inventory_in_tx,
};
use crate::persistence::purse::{gold_of, has_character, law_minting_is_ledgered, minted, supply_gap, wealth};
use crate::persistence::rows::{
    BuildOrder, BuildOrderView, BuildPlacement, BuildPlacementView, Contribution, ContributionView,
};
use crate::persistence::skills::{level_of, xp_of};
use crate::table::{count, find, lemma_find, order_rows, ordered, rows_view, Row, Table};
use crate::tally::{add_named, added, lemma_added};
use crate::text::{before, opt_int, opt_str, own_opt, pairs_view, same, text_before};
use crate::util::now_secs;

verus! {

pub open spec fn is_order(id: Seq<char>) -> spec_fn(BuildOrderView) -> bool {
    |o: BuildOrderView| o.id == id
}

/// Where an order's structure appears, if it says both what and where.
pub open spec fn placement_of(o: BuildOrderView) -> Option<BuildPlacementView> {
    match (o.structure_kind, o.x, o.y) {
        (Some(structure_kind), Some(x), Some(y)) => Some(
            BuildPlacementView { structure_kind, x, y, x1: o.x1, y1: o.y1 },
        ),
        _ => None,
    }
}

/// The view of an optional placement.
pub open spec fn opt_placement(p: Option<BuildPlacement>) -> Option<BuildPlacementView> {
    match p {
        Some(q) => Some(q@),
        None => None,
    }
}

impl BuildOrder {
    /// Where this order's structure appears, if it says both what and where.
    pub fn placement(&self) -> (p: Option<BuildPlacement>)
        ensures
            opt_placement(p) == placement_of(self@),
    {
        match (&self.structure_kind, self.x, self.y) {
            (Some(kind), Some(x), Some(y)) => Some(
                BuildPlacement { structure_kind: kind.clone(), x, y, x1: self.x1, y1: self.y1 },
            ),
            _ => None,
        }
    }
}

/// What contributing to an order came to.
#[derive(Debug, Clone, PartialEq, Eq)]
pub struct ContributeResult {
    /// Units that moved from what is carried into the order.
    pub moved: i64,
    pub required: Costs,
    /// The progress after this contribution.
    pub progress: Costs,
    pub kind: String,
    pub district: String,
    /// Whether this contribution completed the order.
    pub completed: bool,
    /// On completion, what each contributor put in.
    pub contributors: Vec<(String, i64)>,
    pub placement: Option<BuildPlacement>,
    /// Gold paid to the contributor.
    pub wages: i64,
}

/// The view of a [`ContributeResult`].
pub struct ContributeResultView {
    pub moved: int,
    pub required: Seq<(Seq<char>, int)>,
    pub progress: Seq<(Seq<char>, int)>,
    pub kind: Seq<char>,
    pub district: Seq<char>,
    pub completed: bool,
    pub contributors: Seq<(Seq<char>, int)>,
    pub placement: Option<BuildPlacementView>,
    pub wages: int,
}

impl View for ContributeResult {
    type V = ContributeResultView;

    open spec fn view(&self) -> ContributeResultView {
        ContributeResultView {
            moved: self.moved as int,
            required: self.required@,
            progress: self.progress@,
            kind: self.kind@,
            district: self.district@,
            completed: self.completed,
            contributors: pairs_view(self.contributors@),
            placement: opt_placement(self.placement),
            wages: self.wages as int,
        }
    }
}

impl ContributeResultView {
    pub open spec fn nothing() -> ContributeResultView {
        ContributeResultView {
            moved: 0,
            required: Seq::empty(),
            progress: Seq::empty(),
            kind: Seq::empty(),
            district: Seq::empty(),
            completed: false,
            contributors: Seq::empty(),
            placement: None,
            wages: 0,
        }
    }
}

impl Default for ContributeResult {
    fn default() -> (r: ContributeResult)
        ensures
            r@ == ContributeResultView::nothing(),
    {
        let r = ContributeResult {
            moved: 0,
            required: Costs::default(),
            progress: Costs::default(),
            kind: String::new(),
            district: String::new(),
            completed: false,
            contributors: Vec::new(),
            placement: None,
            wages: 0,
        };
        assert(r@.contributors =~= ContributeResultView::nothing().contributors);
        r
    }
}

pub open spec fn is_contribution(order: Seq<char>, character: Seq<char>) -> spec_fn(ContributionView) -> bool {
    |c: ContributionView| c.order_id == order && c.character_id == character
}

pub open spec fn is_contribution_to(order: Seq<char>) -> spec_fn(ContributionView) -> bool {
    |c: ContributionView| c.order_id == order
}

pub open spec fn contributor_before() -> spec_fn(ContributionView, ContributionView) -> bool {
    |a: ContributionView, b: ContributionView| text_before(a.character_id, b.character_id)
}

/// How much a character has put into an order.
pub open spec fn contributed(rows: Seq<ContributionView>, order: Seq<char>, character: Seq<char>) -> int {
    let k = find(rows, is_contribution(order, character));
    if k < rows.len() {
        rows[k].units
    } else {
        0
    }
}

/// The contributions after more is put into an order.
pub open spec fn credited_to(rows: Seq<ContributionView>, order: Seq<char>, character: Seq<char>, units: int) -> Seq<
    ContributionView,
> {
    let k = find(rows, is_contribution(order, character));
    if k < rows.len() {
        rows.update(k, ContributionView { units: rows[k].units + units, ..rows[k] })
    } else {
        rows.push(ContributionView { order_id: order, character_id: character, units })
    }
}

/// Who put how much into an order, by name.
pub open spec fn contributors_of(rows: Seq<ContributionView>, order: Seq<char>) -> Seq<(Seq<char>, int)> {
    let own = ordered(rows.filter(is_contribution_to(order)), contributor_before());
    Seq::new(own.len(), |i: int| (own[i].character_id, own[i].units))
}

/// How much of an item a contribution moves: no more than is offered, is still needed, and is carried.
pub open spec fn moves(
    s: DbView,
    character: Seq<char>,
    item: Seq<char>,
    qty: int,
    required: Seq<(Seq<char>, int)>,
    progress: Seq<(Seq<char>, int)>,
) -> int {
    let need = still_needed(required, progress, item);
    clamp_take(
        if qty <= need {
            qty
        } else {
            need
        },
        carried(s.inventory, character, item),
    )
}

/// Whether a contributor is skilled enough for an order.
pub open spec fn skilled(s: DbView, character: Seq<char>, o: BuildOrderView) -> bool {
    let skill = match o.required_skill {
        Some(name) => name,
        None => "building"@,
    };
    o.required_level <= 0 || level_of(xp_of(s.skills, character, skill)) >= o.required_level
}

/// What units pay at a rate.
pub open spec fn wages_for(moved: int, rate: int) -> int {
    moved * if rate > 0 {
        rate
    } else {
        0
    }
}

/// How much of an item a character offers: up to `qty` of what they carry.
pub open spec fn offered(s: DbView, character: Seq<char>, item: Seq<char>, qty: int) -> int {
    let held = carried(s.inventory, character, item);
    if qty <= held {
        qty
    } else {
        held
    }
}

/// What is offered, and what it pays, can be counted.
pub open spec fn payable(
    s: DbView,
    order: Seq<char>,
    character: Seq<char>,
    item: Seq<char>,
    qty: int,
    rate: int,
) -> bool {
    let most = offered(s, character, item, qty);
    &&& wages_for(most, rate) + gold_of(s.characters, character) <= i64::MAX
    &&& wages_for(most, rate) <= i64::MAX
    &&& contributed(s.contributions, order, character) + most <= i64::MAX
}

/// What contributing leads to.
pub struct Contributed {
    pub db: DbView,
    pub out: ContributeResultView,
}

/// An order whose cost is covered is completed.
pub open spec fn order_done(required: Seq<(Seq<char>, int)>, progress: Seq<(Seq<char>, int)>) -> bool {
    required.len() > 0 && covered(required, progress)
}

/// The state after `moved` of an item goes from a character into order `k`, paid at a rate.
pub open spec fn order_fed(
    s: DbView,
    k: int,
    character: Seq<char>,
    item: Seq<char>,
    moved: int,
    rate: int,
    now: int,
    id: Seq<char>,
) -> DbView {
    let o = s.build_orders[k];
    let progress = added(cost_of(o.progress_json), item, moved);
    minted(
        DbView {
            inventory: dropped(s.inventory, character, item, moved, id),
            build_orders: s.build_orders.update(
                k,
                BuildOrderView { progress_json: json_text(progress), ..o },
            ),
            contributions: credited_to(s.contributions, o.id, character, moved),
            ..s
        },
        character,
        wages_for(moved, rate),
        "build_wage"@,
        now,
    )
}

/// The state after order `k` is completed.
pub open spec fn order_completed(s: DbView, k: int, now: int) -> DbView {
    DbView {
        build_orders: s.build_orders.update(
            k,
            BuildOrderView { state: "completed"@, completed_at: Some(now), ..s.build_orders[k] },
        ),
        ..s
    }
}

/// Contributing to an order: an order that is not open, or that asks for more skill, takes nothing; else as
/// much moves as is needed and carried, and an order whose cost is then covered is completed.
pub open spec fn contribution(
    s: DbView,
    character: Seq<char>,
    order: Seq<char>,
    item: Seq<char>,
    qty: int,
    rate: int,
    now: int,
    id: Seq<char>,
) -> Contributed {
    let k = find(s.build_orders, is_order(order));
    let o = s.build_orders[k];
    let required = cost_of(o.required_json);
    let progress = cost_of(o.progress_json);
    let shown = ContributeResultView {
        required,
        progress,
        kind: o.kind,
        district: o.district,
        placement: placement_of(o),
        ..ContributeResultView::nothing()
    };
    let moved = moves(s, character, item, qty, required, progress);
    let after = if moved > 0 {
        added(progress, item, moved)
    } else {
        progress
    };
    let fed = if moved > 0 {
        order_fed(s, k, character, item, moved, rate, now, id)
    } else {
        s
    };
    let done = order_done(required, after);
    if k >= s.build_orders.len() {
        Contributed { db: s, out: ContributeResultView::nothing() }
    } else if o.state != "open"@ || qty <= 0 || !skilled(s, character, o) {
        Contributed { db: s, out: shown }
    } else {
        Contributed {
            db: if done {
                order_completed(fed, k, now)
            } else {
                fed
            },
            out: ContributeResultView {
                moved,
                progress: after,
                completed: done,
                contributors: if done {
                    contributors_of(fed.contributions, order)
                } else {
                    Seq::empty()
                },
                wages: if moved > 0 {
                    wages_for(moved, rate)
                } else {
                    0
                },
                ..shown
            },
        }
    }
}

pub(crate) fn find_order(orders: &Table<BuildOrder>, id: &str) -> (k: usize)
    ensures
        k == find(orders@, is_order(id@)),
        k <= orders@.len(),
        k < orders@.len() ==> orders@[k as int].id == id@,
{
    let f = |o: &BuildOrder| -> (b: bool)
        ensures
            b == is_order(id@)(o@),
        { same(o.id.as_str(), id) };
    orders.find(f, Ghost(is_order(id@)))
}

/// Record that more was put into an order.
pub fn credit_contribution(rows: &mut Table<Contribution>, order_id: &str, character_id: &str, units: i64)
    requires
        0 <= units,
        contributed(old(rows)@, order_id@, character_id@) + units <= i64::MAX,
    ensures
        final(rows)@ == credited_to(old(rows)@, order_id@, character_id@, units as int),
{
    let f = |c: &Contribution| -> (b: bool)
        ensures
            b == is_contribution(order_id@, character_id@)(c@),
        { same(c.order_id.as_str(), order_id) && same(c.character_id.as_str(), character_id) };
    let k: usize = rows.find(f, Ghost(is_contribution(order_id@, character_id@)));
    if k < rows.len() {
        let c = rows.get_mut(k);
        c.units = c.units + units;
    } else {
        rows.push(
            Contribution { order_id: order_id.to_string(), character_id: character_id.to_string(), units },
        );
    }
}

impl Db {
    /// Who put how much into an order, by name.
    pub(crate) fn contributors(&self, order_id: &str) -> (out: Vec<(String, i64)>)
        ensures
            pairs_view(out@) == contributors_of(self@.contributions, order_id@),
    {
        let f = |c: &Contribution| -> (b: bool)
            ensures
                b == is_contribution_to(order_id@)(c@),
            { same(c.order_id.as_str(), order_id) };
        let rows = self.contributions.select(f, Ghost(is_contribution_to(order_id@)));
        let g = |a: &Contribution, b: &Contribution| -> (r: bool)
            ensures
                r == contributor_before()(a@, b@),
            { before(a.character_id.as_str(), b.character_id.as_str()) };
        let sorted = order_rows(rows, g, Ghost(contributor_before()));
        let mut out: Vec<(String, i64)> = Vec::new();
        let mut i: usize = 0;
        while i < sorted.len()
            invariant
                i <= sorted.len(),
                out.len() == i,
                forall|j: int|
                    0 <= j < i ==> (#[trigger] out@[j]).0@ == sorted@[j]@.character_id && out@[j].1
                        == sorted@[j]@.units,
            decreases sorted.len() - i,
        {
            let who = sorted[i].character_id.clone();
            out.push((who, sorted[i].units));
            i = i + 1;
        }
        assert(pairs_view(out@) =~= contributors_of(self@.contributions, order_id@));
        out
    }

    /// Contribute up to `qty` of an item to a build order, at a given time.
    pub fn contribute_at(
        &mut self,
        character_id: &str,
        order_id: &str,
        item_id: &str,
        qty: i64,
        wage_per_unit: i64,
        now: i64,
    ) -> (out: ContributeResult)
        requires
            packed(old(self)@.inventory),
            payable(old(self)@, order_id@, character_id@, item_id@, qty as int, wage_per_unit as int),
        ensures
            packed(final(self)@.inventory),
            find(old(self)@.build_orders, is_order(order_id@)) < old(self)@.build_orders.len() ==> cost_of(
                final(self)@.build_orders[find(old(self)@.build_orders, is_order(order_id@))].progress_json,
            ) == out@.progress,
            exists|id: Seq<char>|
                #[trigger] contribution(
                    old(self)@,
                    character_id@,
                    order_id@,
                    item_id@,
                    qty as int,
                    wage_per_unit as int,
                    now as int,
                    id,
                ) == (Contributed { db: final(self)@, out: out@ }),
    {
        let ghost s = self@;
        let id = new_id();
        let ghost idv = id@;
        let ghost want = contribution(
            s,
            character_id@,
            order_id@,
            item_id@,
            qty as int,
            wage_per_unit as int,
            now as int,
            idv,
        );
        let k: usize = find_order(&self.build_orders, order_id);
        if k >= self.build_orders.len() {
            let out = ContributeResult::default();
            assert(want == (Contributed { db: self@, out: out@ }));
            return out;
        }
        let order = self.build_orders.get(k).copy();
        let required = parse_cost(order.required_json.as_str());
        let mut progress = parse_cost(order.progress_json.as_str());
        let mut out = ContributeResult {
            moved: 0,
            required: required.copy(),
            progress: progress.copy(),
            kind: order.kind.clone(),
            district: order.district.clone(),
            completed: false,
            contributors: Vec::new(),
            placement: order.placement(),
            wages: 0,
        };
        assert(out@.contributors =~= Seq::empty());
        if !same(order.state.as_str(), "open") || qty <= 0 {
            assert(want == (Contributed { db: self@, out: out@ }));
            return out;
        }
        if order.required_level > 0 {
            let skill: &str = match &order.required_skill {
                Some(name) => name.as_str(),
                None => "building",
            };
            let have: i64 = self.skill_level(character_id, skill);
            if have < order.required_level {
                assert(want == (Contributed { db: self@, out: out@ }));
                return out;
            }
        }
        let need: i64 = needed(&required, &progress, item_id);
        let held: i64 = inventory_qty_in_tx(&self.inventory, character_id, item_id);
        let most: i64 = if qty <= need {
            qty
        } else {
            need
        };
        let moved: i64 = if most <= 0 || held <= 0 {
            0
        } else if most <= held {
            most
        } else {
            held
        };
        let ghost mid = progress@;
        if moved > 0 {
            let rate: i64 = if wage_per_unit > 0 {
                wage_per_unit
            } else {
                0
            };
            proof {
                lemma_added(progress@, item_id@, moved as int);
                let most = offered(s, character_id@, item_id@, qty as int);
                assert(0 <= moved * rate <= most * rate) by (nonlinear_arith)
                    requires
                        0 <= moved <= most,
                        rate >= 0,
                ;
            }
            remove_inventory_in_tx(&mut self.inventory, character_id, item_id, moved, id);
            add_named(&mut progress.entries, item_id, moved);
            let text = dump_cost(&progress);
            let row = self.build_orders.get_mut(k);
            row.progress_json = text;
            credit_contribution(&mut self.contributions, order_id, character_id, moved);
            let wages: i64 = moved * rate;
            self.mint_gold_in_tx(character_id, wages, "build_wage", now);
            out.wages = wages;
            assert(self@ == order_fed(
                s,
                k as int,
                character_id@,
                item_id@,
                moved as int,
                wage_per_unit as int,
                now as int,
                idv,
            ));
        }
        let done: bool = required.entries.len() > 0 && covers(&required, &progress);
        if done {
            let row = self.build_orders.get_mut(k);
            row.state = "completed".to_string();
            row.completed_at = Some(now);
            out.contributors = self.contributors(order_id);
        }
        out.moved = moved;
        out.progress = progress;
        out.completed = done;
        assert(want.db == self@);
        assert(want.out == out@);
        assert(want == (Contributed { db: self@, out: out@ }));
        out
    }

    /// Contribute up to `qty` of an item to a build order. As much moves as the order still needs of it and
    /// the character carries, and is paid for by the unit. The contribution that covers the cost completes
    /// the order and returns everyone who contributed.
    pub fn contribute(
        &mut self,
        character_id: &str,
        order_id: &str,
        item_id: &str,
        qty: i64,
        wage_per_unit: i64,
    ) -> (out: ContributeResult)
        requires
            packed(old(self)@.inventory),
            payable(old(self)@, order_id@, character_id@, item_id@, qty as int, wage_per_unit as int),
        ensures
            packed(final(self)@.inventory),
            find(old(self)@.build_orders, is_order(order_id@)) < old(self)@.build_orders.len() ==> cost_of(
                final(self)@.build_orders[find(old(self)@.build_orders, is_order(order_id@))].progress_json,
            ) == out@.progress,
            exists|now: int, id: Seq<char>|
                #[trigger] contribution(
                    old(self)@,
                    character_id@,
                    order_id@,
                    item_id@,
                    qty as int,
                    wage_per_unit as int,
                    now,
                    id,
                ) == (Contributed { db: final(self)@, out: out@ }),
    {
        let now: i64 = now_secs();
        self.contribute_at(character_id, order_id, item_id, qty, wage_per_unit, now)
    }
}

/// A new order.
pub open spec fn new_order(
    id: Seq<char>,
    district: Seq<char>,
    kind: Seq<char>,
    required_json: Seq<char>,
    state: Seq<char>,
    now: int,
    required_skill: Option<Seq<char>>,
    required_level: int,
    placement: Option<BuildPlacementView>,
    path_json: Option<Seq<char>>,
) -> BuildOrderView {
    BuildOrderView {
        id,
        district,
        kind,
        required_json,
        progress_json: "{}"@,
        state,
        issued_at: now,
        completed_at: None,
        required_skill,
        required_level,
        structure_kind: match placement {
            Some(p) => Some(p.structure_kind),
            None => None,
        },
        x: match placement {
            Some(p) => Some(p.x),
            None => None,
        },
        y: match placement {
            Some(p) => Some(p.y),
            None => None,
        },
        x1: match placement {
            Some(p) => p.x1,
            None => None,
        },
        y1: match placement {
            Some(p) => p.y1,
            None => None,
        },
        path_json,
    }
}

pub open spec fn in_district(district: Seq<char>) -> spec_fn(BuildOrderView) -> bool {
    |o: BuildOrderView| o.district == district
}

pub open spec fn issued_before() -> spec_fn(BuildOrderView, BuildOrderView) -> bool {
    |a: BuildOrderView, b: BuildOrderView| a.issued_at < b.issued_at
}

pub open spec fn is_completed(kind: Seq<char>) -> spec_fn(BuildOrderView) -> bool {
    |o: BuildOrderView| o.kind == kind && o.state == "completed"@
}

pub open spec fn is_open() -> spec_fn(BuildOrderView) -> bool {
    |o: BuildOrderView| o.state == "open"@
}

pub open spec fn is_locked(district: Seq<char>, kind: Seq<char>) -> spec_fn(BuildOrderView) -> bool {
    |o: BuildOrderView| o.district == district && o.kind == kind && o.state == "locked"@
}

impl Db {
    /// Post a build order, with no progress yet.
    pub fn insert_build_order(
        &mut self,
        district: &str,
        kind: &str,
        required_json: &str,
        state: &str,
        now: i64,
        required_skill: Option<&str>,
        required_level: i64,
        placement: Option<BuildPlacement>,
        path_json: Option<&str>,
    ) -> (order: BuildOrder)
        ensures
            order@ == new_order(
                order@.id,
                district@,
                kind@,
                required_json@,
                state@,
                now as int,
                opt_str(required_skill),
                required_level as int,
                opt_placement(placement),
                opt_str(path_json),
            ),
            final(self)@ == (DbView {
                build_orders: old(self)@.build_orders.push(order@),
                ..old(self)@
            }),
    {
        let id = new_id();
        let (structure_kind, x, y, x1, y1) = match placement {
            Some(p) => (Some(p.structure_kind), Some(p.x), Some(p.y), p.x1, p.y1),
            None => (None, None, None, None, None),
        };
        let order = BuildOrder {
            id,
            district: district.to_string(),
            kind: kind.to_string(),
            required_json: required_json.to_string(),
            progress_json: "{}".to_string(),
            state: state.to_string(),
            issued_at: now,
            completed_at: None,
            required_skill: own_opt(required_skill),
            required_level,
            structure_kind,
            x,
            y,
            x1,
            y1,
            path_json: own_opt(path_json),
        };
        self.build_orders.push(order.copy());
        order
    }

    /// Whether any order of a kind has been completed, anywhere.
    pub fn is_build_kind_completed(&self, kind: &str) -> (yes: bool)
        ensures
            yes == exists|i: int|
                0 <= i < self@.build_orders.len() && is_completed(kind@)(#[trigger] self@.build_orders[i]),
    {
        let f = |o: &BuildOrder| -> (b: bool)
            ensures
                b == is_completed(kind@)(o@),
            { same(o.kind.as_str(), kind) && same(o.state.as_str(), "completed") };
        let k: usize = self.build_orders.find(f, Ghost(is_completed(kind@)));
        proof {
            lemma_find(self@.build_orders, is_completed(kind@));
        }
        k < self.build_orders.len()
    }

    /// Open a locked order of a kind in a district. Returns the order, now open, or `None` where none of that
    /// kind is locked there.
    pub fn open_build_order(&mut self, district: &str, kind: &str) -> (out: Option<BuildOrder>)
        ensures
            ({
                let s = old(self)@;
                let k = find(s.build_orders, is_locked(district@, kind@));
                match out {
                    Some(o) => k < s.build_orders.len() && o@ == (BuildOrderView {
                        state: "open"@,
                        ..s.build_orders[k]
                    }) && final(self)@ == (DbView { build_orders: s.build_orders.update(k, o@), ..s }),
                    None => k >= s.build_orders.len() && final(self)@ == s,
                }
            }),
    {
        let f = |o: &BuildOrder| -> (b: bool)
            ensures
                b == is_locked(district@, kind@)(o@),
            {
                same(o.district.as_str(), district) && same(o.kind.as_str(), kind) && same(
                    o.state.as_str(),
                    "locked",
                )
            };
        let k: usize = self.build_orders.find(f, Ghost(is_locked(district@, kind@)));
        if k >= self.build_orders.len() {
            return None;
        }
        let row = self.build_orders.get_mut(k);
        row.state = "open".to_string();
        Some(self.build_orders.get(k).copy())
    }

    /// A district's orders, in the order in which they were issued.
    pub fn build_orders_for_district(&self, district: &str) -> (out: Vec<BuildOrder>)
        ensures
            rows_view(out@) == ordered(self@.build_orders.filter(in_district(district@)), issued_before()),
    {
        let f = |o: &BuildOrder| -> (b: bool)
            ensures
                b == in_district(district@)(o@),
            { same(o.district.as_str(), district) };
        let rows = self.build_orders.select(f, Ghost(in_district(district@)));
        let g = |a: &BuildOrder, b: &BuildOrder| -> (r: bool)
            ensures
                r == issued_before()(a@, b@),
            { a.issued_at < b.issued_at };
        order_rows(rows, g, Ghost(issued_before()))
    }

    /// An order by its id.
    pub fn build_order_by_id(&self, id: &str) -> (out: Option<BuildOrder>)
        ensures
            ({
                let k = find(self@.build_orders, is_order(id@));
                match out {
                    Some(o) => k < self@.build_orders.len() && o@ == self@.build_orders[k],
                    None => k >= self@.build_orders.len(),
                }
            }),
    {
        let k: usize = find_order(&self.build_orders, id);
        if k < self.build_orders.len() {
            Some(self.build_orders.get(k).copy())
        } else {
            None
        }
    }

    /// Persist an order's progress, state and completion.
    pub fn save_build_order_progress(
        &mut self,
        order_id: &str,
        progress_json: &str,
        state: &str,
        completed_at: Option<i64>,
    )
        ensures
            ({
                let s = old(self)@;
                let k = find(s.build_orders, is_order(order_id@));
                final(self)@ == if k < s.build_orders.len() {
                    DbView {
                        build_orders: s.build_orders.update(
                            k,
                            BuildOrderView {
                                progress_json: progress_json@,
                                state: state@,
                                completed_at: opt_int(completed_at),
                                ..s.build_orders[k]
                            },
                        ),
                        ..s
                    }
                } else {
                    s
                }
            }),
    {
        let k: usize = find_order(&self.build_orders, order_id);
        if k < self.build_orders.len() {
            let row = self.build_orders.get_mut(k);
            row.progress_json = progress_json.to_string();
            row.state = state.to_string();
            row.completed_at = completed_at;
        }
    }

    /// How many orders are open.
    pub fn count_open_build_orders(&self) -> (n: i64)
        requires
            self@.build_orders.len() <= i64::MAX,
        ensures
            n == count(self@.build_orders, is_open()),
    {
        let f = |o: &BuildOrder| -> (b: bool)
            ensures
                b == is_open()(o@),
            { same(o.state.as_str(), "open") };
        self.build_orders.count(f, Ghost(is_open())) as i64
    }
}

/// A contribution moves no more than is offered, needed and carried; what moves leaves the contributor and
/// is the order's; wages follow what moved, and the ledger records them.
pub proof fn law_a_contribution_is_bounded(
    s: DbView,
    character: Seq<char>,
    order: Seq<char>,
    item: Seq<char>,
    qty: int,
    rate: int,
    now: int,
    id: Seq<char>,
)
    requires
        packed(s.inventory),
        has_character(s.characters, character),
    ensures
        ({
            let c = contribution(s, character, order, item, qty, rate, now, id);
            let k = find(s.build_orders, is_order(order));
            &&& 0 <= c.out.moved
            &&& c.out.moved > 0 ==> c.out.moved <= qty
            &&& c.out.moved <= carried(s.inventory, character, item)
            &&& c.out.moved > 0 ==> c.out.moved <= still_needed(
                cost_of(s.build_orders[k].required_json),
                cost_of(s.build_orders[k].progress_json),
                item,
            )
            &&& carried(c.db.inventory, character, item) == carried(s.inventory, character, item) - c.out.moved
            &&& c.out.wages == wages_for(c.out.moved, rate)
            &&& supply_gap(c.db) == supply_gap(s)
            &&& wealth(c.db) == wealth(s) + c.out.wages
        }),
{
    let c = contribution(s, character, order, item, qty, rate, now, id);
    let k = find(s.build_orders, is_order(order));
    let o = s.build_orders[k];
    let moved = moves(s, character, item, qty, cost_of(o.required_json), cost_of(o.progress_json));
    lemma_carried_bound(s.inventory, character, item);
    lemma_dropped(s.inventory, character, item, moved, id, character, item);
    let mid = DbView {
        inventory: dropped(s.inventory, character, item, moved, id),
        build_orders: s.build_orders.update(
            k,
            BuildOrderView { progress_json: json_text(added(cost_of(o.progress_json), item, moved)), ..o },
        ),
        contributions: credited_to(s.contributions, o.id, character, moved),
        ..s
    };
    let r = if rate > 0 {
        rate
    } else {
        0
    };
    assert(moved * r >= 0) by (nonlinear_arith)
        requires
            moved >= 0,
            r >= 0,
    ;
    assert(0 * r == 0) by (nonlinear_arith);
    law_minting_is_ledgered(mid, character, wages_for(moved, rate), "build_wage"@, now);
}

/// An order that is not open takes nothing and pays nothing.
pub proof fn law_only_open_orders_take_contributions(
    s: DbView,
    character: Seq<char>,
    order: Seq<char>,
    item: Seq<char>,
    qty: int,
    rate: int,
    now: int,
    id: Seq<char>,
)
    requires
        find(s.build_orders, is_order(order)) < s.build_orders.len() ==> s.build_orders[find(
            s.build_orders,
            is_order(order),
        )].state != "open"@,
    ensures
        contribution(s, character, order, item, qty, rate, now, id).db == s,
        contribution(s, character, order, item, qty, rate, now, id).out.moved == 0,
        contribution(s, character, order, item, qty, rate, now, id).out.wages == 0,
        !contribution(s, character, order, item, qty, rate, now, id).out.completed,
{
}

} // verus!
