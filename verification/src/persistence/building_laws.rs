//! What a contribution to a build order or a road cell moves, pays and completes.

use vstd::prelude::*;

use crate::persistence::building::{
    contributed, contribution, contributors_of, credited_to, is_contribution, is_locked, is_open, is_order,
    moves, new_order, placement_of, wages_for,
};
use crate::persistence::costs::{cost_of, json_text};
use crate::persistence::db::DbView;
use crate::persistence::inventory::{carried, lemma_carried_bound, lemma_dropped, packed};
use crate::persistence::purse::{gold_of, has_character, lemma_paid};
use crate::persistence::roads::{cell_contribution, is_cell};
use crate::persistence::rows::{BuildOrderView, BuildPlacementView, ContributionView, RoadCellView};
use crate::persistence::skills::{law_a_level_is_a_square, level_of, xp_of};
use crate::table::{count, find, lemma_find, lemma_find_is};
use crate::tally::{amount, in_name_order, lemma_added};

verus! {

/// An order that asks for a level takes nothing from whoever is below it: neither goods nor gold move, nobody is credited and
/// the order stays as it is. The level is that of the skill that the order names, of building where it names none, and it is
/// reached at a hundred times its square of experience.
pub proof fn law_the_unskilled_contribute_nothing(
    s: DbView,
    character: Seq<char>,
    order: Seq<char>,
    item: Seq<char>,
    qty: int,
    rate: int,
    now: int,
    id: Seq<char>,
    o: BuildOrderView,
)
    requires
        find(s.build_orders, is_order(order)) < s.build_orders.len(),
        o == s.build_orders[find(s.build_orders, is_order(order))],
        o.required_level > 0,
        ({
            let skill = if o.required_skill is Some {
                o.required_skill->0
            } else {
                "building"@
            };
            ||| level_of(xp_of(s.skills, character, skill)) < o.required_level
            ||| xp_of(s.skills, character, skill) < 100 * (o.required_level * o.required_level)
        }),
    ensures
        ({
            let c = contribution(s, character, order, item, qty, rate, now, id);
            &&& c.db == s
            &&& c.out.moved == 0 && c.out.wages == 0 && !c.out.completed
            &&& c.out.required == cost_of(o.required_json)
            &&& c.out.progress == cost_of(o.progress_json)
        }),
{
    let skill = if o.required_skill is Some {
        o.required_skill->0
    } else {
        "building"@
    };
    law_a_level_is_a_square(xp_of(s.skills, character, skill), o.required_level);
}

/// An open order takes from whoever is skilled enough the least of what is offered, what it still needs and what is carried.
/// So much leaves what the contributor carries, is credited to them and pays them at the rate, and the order is completed
/// exactly when it asks for something and has as much of each item as it asks for.
pub proof fn law_the_skilled_contribute_what_is_needed(
    s: DbView,
    character: Seq<char>,
    order: Seq<char>,
    item: Seq<char>,
    qty: int,
    rate: int,
    now: int,
    id: Seq<char>,
    o: BuildOrderView,
    who: Seq<char>,
    what: Seq<char>,
)
    requires
        packed(s.inventory),
        has_character(s.characters, character),
        find(s.build_orders, is_order(order)) < s.build_orders.len(),
        o == s.build_orders[find(s.build_orders, is_order(order))],
        o.state == "open"@,
        qty > 0,
        ({
            let skill = if o.required_skill is Some {
                o.required_skill->0
            } else {
                "building"@
            };
            ||| o.required_level <= 0
            ||| xp_of(s.skills, character, skill) >= 100 * (o.required_level * o.required_level)
            ||| level_of(xp_of(s.skills, character, skill)) >= o.required_level
        }),
    ensures
        ({
            let c = contribution(s, character, order, item, qty, rate, now, id);
            let required = cost_of(o.required_json);
            let progress = cost_of(o.progress_json);
            let short = amount(required, item) - amount(progress, item);
            let held = carried(s.inventory, character, item);
            let moved = c.out.moved;
            let after = c.db.build_orders[find(s.build_orders, is_order(order))];
            let complete = required.len() > 0 && forall|i: int|
                0 <= i < required.len() ==> amount(c.out.progress, (#[trigger] required[i]).0) >= required[i].1;
            &&& moved <= qty && moved <= held
            &&& short <= 0 ==> moved == 0
            &&& short > 0 && qty <= i64::MAX ==> moved <= short && (moved == qty || moved == short || moved == held)
            &&& carried(c.db.inventory, who, what) == carried(s.inventory, who, what) - if who == character && what == item {
                moved
            } else {
                0
            }
            &&& rate >= 0 ==> c.out.wages == moved * rate
            &&& rate < 0 ==> c.out.wages == 0
            &&& gold_of(c.db.characters, who) == gold_of(s.characters, who) + if who == character {
                c.out.wages
            } else {
                0
            }
            &&& contributed(c.db.contributions, order, who) == contributed(s.contributions, order, who) + if who == character {
                moved
            } else {
                0
            }
            &&& c.out.required == required
            &&& in_name_order(progress) ==> amount(c.out.progress, what) == amount(progress, what) + if what == item {
                moved
            } else {
                0
            }
            &&& c.out.completed == complete
            &&& c.out.kind == o.kind && c.out.district == o.district && c.out.placement == placement_of(o)
            &&& complete ==> c.out.contributors == contributors_of(c.db.contributions, order)
            &&& !complete ==> c.out.contributors.len() == 0
            &&& forall|i: int|
                0 <= i < s.build_orders.len() && i != find(s.build_orders, is_order(order))
                    ==> #[trigger] c.db.build_orders[i] == s.build_orders[i]
            &&& complete ==> after.state == "completed"@ && after.completed_at == Some(now)
            &&& !complete ==> after.state == "open"@ && after.completed_at == o.completed_at
            &&& after.required_json == o.required_json
            &&& after.progress_json == if moved > 0 {
                json_text(c.out.progress)
            } else {
                o.progress_json
            }
        }),
{
    let skill = if o.required_skill is Some {
        o.required_skill->0
    } else {
        "building"@
    };
    law_a_level_is_a_square(xp_of(s.skills, character, skill), o.required_level);
    let required = cost_of(o.required_json);
    let progress = cost_of(o.progress_json);
    let moved = moves(s, character, item, qty, required, progress);
    lemma_find(s.build_orders, is_order(order));
    lemma_carried_bound(s.inventory, character, item);
    lemma_dropped(s.inventory, character, item, moved, id, who, what);
    lemma_dropped(s.inventory, character, item, moved, id, character, item);
    lemma_paid(s.characters, character, wages_for(moved, rate));
    lemma_credited(s.contributions, o.id, character, moved, who);
    lemma_wages(moved, rate);
    if in_name_order(progress) {
        lemma_added(progress, item, moved);
    }
}

/// An open cell of an open road takes the least of what is offered, what it still needs and what is carried. So much leaves
/// what the contributor carries, is credited to them and pays them at the rate. The cell is done exactly when it has as much
/// of each item as it asks for, and a cell that is done takes nothing.
pub proof fn law_a_cell_takes_what_it_needs(
    s: DbView,
    character: Seq<char>,
    order: Seq<char>,
    index: int,
    item: Seq<char>,
    qty: int,
    rate: int,
    now: int,
    id: Seq<char>,
    cell: RoadCellView,
    who: Seq<char>,
    what: Seq<char>,
)
    requires
        packed(s.inventory),
        has_character(s.characters, character),
        find(s.build_orders, is_order(order)) < s.build_orders.len(),
        find(s.road_cells, is_cell(order, index)) < s.road_cells.len(),
        cell == s.road_cells[find(s.road_cells, is_cell(order, index))],
        qty > 0,
    ensures
        ({
            let k = find(s.build_orders, is_order(order));
            let p = find(s.road_cells, is_cell(order, index));
            let c = cell_contribution(s, character, order, index, item, qty, rate, now, id);
            let required = cost_of(cell.required_json);
            let progress = cost_of(cell.progress_json);
            let short = amount(required, item) - amount(progress, item);
            let held = carried(s.inventory, character, item);
            let moved = c.out.moved;
            let full = forall|i: int|
                0 <= i < required.len() ==> amount(c.out.progress, (#[trigger] required[i]).0) >= required[i].1;
            &&& s.build_orders[k].state != "open"@ || cell.completed_at is Some || short <= 0 || held <= 0 ==> moved == 0 && c.db
                == s
            &&& moved == 0 ==> c.db == s && c.out.wages == 0 && !c.out.cell_completed && !c.out.order_completed
            &&& s.build_orders[k].state == "open"@ && cell.completed_at is None && short > 0 && qty <= i64::MAX ==> {
                &&& moved <= qty && moved <= short && moved <= held
                &&& moved == qty || moved == short || moved == held
            }
            &&& carried(c.db.inventory, who, what) == carried(s.inventory, who, what) - if who == character && what == item {
                moved
            } else {
                0
            }
            &&& rate >= 0 ==> c.out.wages == moved * rate
            &&& rate < 0 ==> c.out.wages == 0
            &&& gold_of(c.db.characters, who) == gold_of(s.characters, who) + if who == character {
                c.out.wages
            } else {
                0
            }
            &&& contributed(c.db.contributions, order, who) == contributed(s.contributions, order, who) + if who == character {
                moved
            } else {
                0
            }
            &&& in_name_order(progress) ==> amount(c.out.progress, what) == amount(progress, what) + if what == item {
                moved
            } else {
                0
            }
            &&& c.out.kind == s.build_orders[k].kind && c.out.district == s.build_orders[k].district
            &&& c.out.placement == placement_of(s.build_orders[k])
            &&& c.out.order_completed ==> c.out.contributors == contributors_of(c.db.contributions, order)
            &&& !c.out.order_completed ==> c.out.contributors.len() == 0
            &&& moved > 0 ==> {
                &&& c.out.cell_completed == full
                &&& (c.db.road_cells[p].completed_at is Some) == full
                &&& c.db.road_cells[p].progress_json == json_text(c.out.progress)
                &&& c.db.road_cells[p].required_json == cell.required_json
                &&& c.db.build_orders[k].progress_json == json_text(c.out.order_progress)
                &&& (c.db.build_orders[k].state == "completed"@) == c.out.order_completed
            }
            &&& moved > 0 && in_name_order(cost_of(s.build_orders[k].progress_json)) ==> amount(c.out.order_progress, what)
                == amount(cost_of(s.build_orders[k].progress_json), what) + if what == item {
                moved
            } else {
                0
            }
            &&& forall|i: int|
                0 <= i < s.road_cells.len() && i != p ==> #[trigger] c.db.road_cells[i] == s.road_cells[i]
            &&& forall|i: int|
                0 <= i < s.build_orders.len() && i != k ==> #[trigger] c.db.build_orders[i] == s.build_orders[i]
        }),
{
    let k = find(s.build_orders, is_order(order));
    let o = s.build_orders[k];
    let required = cost_of(cell.required_json);
    let progress = cost_of(cell.progress_json);
    let moved = moves(s, character, item, qty, required, progress);
    lemma_find(s.build_orders, is_order(order));
    lemma_find(s.road_cells, is_cell(order, index));
    lemma_carried_bound(s.inventory, character, item);
    lemma_dropped(s.inventory, character, item, moved, id, who, what);
    lemma_dropped(s.inventory, character, item, moved, id, character, item);
    lemma_paid(s.characters, character, wages_for(moved, rate));
    lemma_credited(s.contributions, o.id, character, moved, who);
    lemma_wages(moved, rate);
    if in_name_order(progress) {
        lemma_added(progress, item, moved);
    }
    if in_name_order(cost_of(o.progress_json)) {
        lemma_added(cost_of(o.progress_json), item, moved);
    }
    reveal_strlit("open");
    reveal_strlit("completed");
    assert("open"@.len() != "completed"@.len());
}

proof fn lemma_wages(moved: int, rate: int)
    requires
        moved >= 0,
    ensures
        rate >= 0 ==> wages_for(moved, rate) == moved * rate,
        rate <= 0 ==> wages_for(moved, rate) == 0,
        wages_for(moved, rate) >= 0,
        moved == 0 ==> moved * rate == 0,
{
    assert(moved * 0 == 0) by (nonlinear_arith);
    assert(0 * rate == 0) by (nonlinear_arith);
    if rate >= 0 {
        assert(moved * rate >= 0) by (nonlinear_arith)
            requires
                moved >= 0,
                rate >= 0,
        ;
    }
}

proof fn lemma_credited(rows: Seq<ContributionView>, order: Seq<char>, character: Seq<char>, units: int, who: Seq<char>)
    ensures
        contributed(credited_to(rows, order, character, units), order, who) == contributed(rows, order, who) + if who
            == character {
            units
        } else {
            0
        },
{
    let p = is_contribution(order, character);
    let q = is_contribution(order, who);
    let after = credited_to(rows, order, character, units);
    let m = find(rows, q);
    lemma_find(rows, p);
    lemma_find(rows, q);
    let m1 = if m < rows.len() {
        m
    } else if who == character {
        rows.len() as int
    } else {
        after.len() as int
    };
    assert forall|i: int| 0 <= i < m1 implies !q(#[trigger] after[i]) by {
        if i < rows.len() {
            assert(!q(rows[i]));
        }
    }
    lemma_find_is(after, q, m1);
}

/// A new order has nothing put in, asks for what it was told to, and stands where it was placed, if anywhere.
pub proof fn law_a_new_order_is_as_posted(
    id: Seq<char>,
    district: Seq<char>,
    kind: Seq<char>,
    required_json: Seq<char>,
    state: Seq<char>,
    now: int,
    skill: Option<Seq<char>>,
    level: int,
    placement: Option<BuildPlacementView>,
    path_json: Option<Seq<char>>,
)
    ensures
        ({
            let o = new_order(id, district, kind, required_json, state, now, skill, level, placement, path_json);
            &&& placement_of(o) == placement
            &&& o.id == id && o.district == district && o.kind == kind && o.state == state && o.issued_at == now
            &&& o.required_json == required_json && o.progress_json == "{}"@ && o.completed_at is None
            &&& o.required_skill == skill && o.required_level == level && o.path_json == path_json
        }),
{
}

/// What is opened is the first locked order of the district and the kind; there is none only where no such order is locked.
/// The open orders counted are all that are open.
pub proof fn law_which_order_is_opened(orders: Seq<BuildOrderView>, district: Seq<char>, kind: Seq<char>, i: int)
    requires
        0 <= i < orders.len(),
    ensures
        ({
            let k = find(orders, is_locked(district, kind));
            &&& k < orders.len() ==> orders[k].district == district && orders[k].kind == kind && orders[k].state == "locked"@
            &&& orders[i].district == district && orders[i].kind == kind && orders[i].state == "locked"@ ==> k <= i
        }),
        count(orders, is_open()) == orders.filter(|o: BuildOrderView| o.state == "open"@).len(),
{
    let p = is_locked(district, kind);
    lemma_find(orders, p);
    if orders[i].district == district && orders[i].kind == kind && orders[i].state == "locked"@ {
        assert(p(orders[i]));
    }
    lemma_open_count(orders);
}

proof fn lemma_open_count(orders: Seq<BuildOrderView>)
    ensures
        count(orders, is_open()) == orders.filter(|o: BuildOrderView| o.state == "open"@).len(),
    decreases orders.len(),
{
    reveal(Seq::filter);
    if orders.len() > 0 {
        lemma_open_count(orders.drop_last());
    }
}

} // verus!
