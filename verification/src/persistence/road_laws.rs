//! When a road is replanned, cancelled and demolished, and what is left of it.

use vstd::prelude::*;

use crate::persistence::building::{
    contributor_before, contributors_of, in_district, is_contribution_to, is_order, issued_before,
};
use crate::persistence::costs::cost_of;
use crate::persistence::db::DbView;
use crate::persistence::roads::{
    cell_before, cell_built, cells_of, demolition_kind, demolition_of, demolition_posted, has_span,
    is_cell_of, is_kind, laid_out, plan_removed, pristine, recut_cell, refund_of, refusal_to_demolish,
    replanned, road_built, settled_demolition, starting_progress,
};
use crate::persistence::rows::{
    BuildOrderView, BuildPlacementView, ContributionView, RoadCellSpecView, RoadCellView,
};
use crate::table::{
    find, law_page, lemma_filter_contains, lemma_find, lemma_find_is, limited, not, ordered, orders_rows,
};
use crate::tally::{amount, lookup};
use crate::text::{lemma_text_before, text_before};

verus! {

/// A replan takes hold of an open road and of nothing else. It keeps the road's own progress, which is done exactly when it
/// covers the new cost and that cost asks for something, and lays out one cell for each that is given, in their order, in
/// place of the road's old ones. No other order and no other road's cell changes.
pub proof fn law_when_a_replan_takes_hold(
    s: DbView,
    order: Seq<char>,
    district: Seq<char>,
    required_json: Seq<char>,
    path_json: Seq<char>,
    placement: BuildPlacementView,
    cells: Seq<RoadCellSpecView>,
    now: int,
    k: int,
    i: int,
)
    requires
        0 <= k < s.build_orders.len(),
        s.build_orders[k].id == order,
        forall|j: int| 0 <= j < s.build_orders.len() && j != k ==> (#[trigger] s.build_orders[j]).id != order,
    ensures
        ({
            let r = replanned(s, order, district, required_json, path_json, placement, cells, now);
            let o = s.build_orders[k];
            let required = cost_of(required_json);
            let progress = cost_of(o.progress_json);
            let done = required.len() > 0 && forall|n: int|
                0 <= n < required.len() ==> amount(progress, (#[trigger] required[n]).0) >= required[n].1;
            let rest = s.road_cells.filter(|c: RoadCellView| c.order_id != order);
            &&& r.out.applied <==> o.state == "open"@ && o.path_json is Some
            &&& !r.out.applied ==> r.db == s && !r.out.completed
            &&& r.out.applied ==> {
                let after = r.db.build_orders[k];
                &&& r.out.completed == done
                &&& after.state == if done {
                    "completed"@
                } else {
                    "open"@
                }
                &&& after.completed_at == if done {
                    Some(now)
                } else {
                    o.completed_at
                }
                &&& after.progress_json == o.progress_json && after.required_json == required_json && after.path_json == Some(
                    path_json,
                )
                &&& after.district == district && after.structure_kind == Some(placement.structure_kind)
                &&& after.x == Some(placement.x) && after.y == Some(placement.y) && after.x1 == placement.x1 && after.y1
                    == placement.y1
                &&& 0 <= i < s.build_orders.len() && i != k ==> r.db.build_orders[i] == s.build_orders[i]
                &&& r.db.road_cells.len() == rest.len() + cells.len()
                &&& 0 <= i < rest.len() ==> r.db.road_cells[i] == rest[i]
                &&& 0 <= i < cells.len() ==> {
                    let c = r.db.road_cells[rest.len() + i];
                    &&& c.order_id == order && c.cell_index == i && c.required_json == cells[i].required_json
                    &&& c.x0 == cells[i].x0 && c.y0 == cells[i].y0 && c.x1 == cells[i].x1 && c.y1 == cells[i].y1
                }
            }
        }),
{
    lemma_find_is(s.build_orders, is_order(order), k);
    lemma_same_filter(s.road_cells, |c: RoadCellView| c.order_id != order, not(is_cell_of(order)));
}

/// Predicates that agree select the same.
pub proof fn lemma_same_filter<A>(s: Seq<A>, p: spec_fn(A) -> bool, q: spec_fn(A) -> bool)
    requires
        forall|a: A| #[trigger] p(a) == q(a),
    ensures
        s.filter(p) == s.filter(q),
    decreases s.len(),
{
    reveal(Seq::filter);
    if s.len() > 0 {
        lemma_same_filter(s.drop_last(), p, q);
    }
}

/// A new cell over the span of an old one starts with what was put into that one, of each item no more than it asks for now;
/// a cell over any other span starts with nothing. It is done at once exactly when that covers its cost.
pub proof fn law_a_cell_keeps_what_was_put_in(
    old_cells: Seq<RoadCellView>,
    order: Seq<char>,
    i: int,
    c: RoadCellSpecView,
    now: int,
    j: int,
    e: int,
)
    ensures
        ({
            let cell = recut_cell(old_cells, order, i, c, now);
            let start = starting_progress(old_cells, c);
            let required = cost_of(c.required_json);
            let fresh = forall|m: int| 0 <= m < old_cells.len() ==> !same_span(#[trigger] old_cells[m], c);
            let first = 0 <= j < old_cells.len() && same_span(old_cells[j], c) && forall|m: int|
                0 <= m < j ==> !same_span(#[trigger] old_cells[m], c);
            &&& fresh ==> start.len() == 0 && cell.progress_json == "{}"@ && cell.completed_at is None
            &&& first ==> {
                let was = cost_of(old_cells[j].progress_json);
                &&& start.len() == was.len()
                &&& 0 <= e < was.len() ==> {
                    let cap = lookup(required, was[e].0);
                    &&& start[e].0 == was[e].0
                    &&& cap is None ==> start[e].1 == was[e].1
                    &&& cap is Some ==> start[e].1 <= was[e].1 && start[e].1 <= cap->0 && (start[e].1 == was[e].1 || start[e].1
                        == cap->0)
                }
                &&& cell.completed_at == if required.len() > 0 && (forall|n: int|
                    0 <= n < required.len() ==> amount(start, (#[trigger] required[n]).0) >= required[n].1) {
                    Some(now)
                } else {
                    None
                }
            }
        }),
{
    let p = has_span(c);
    lemma_find(old_cells, p);
    let k = find(old_cells, p);
    if 0 <= j < old_cells.len() && same_span(old_cells[j], c) && forall|m: int|
        0 <= m < j ==> !same_span(#[trigger] old_cells[m], c) {
        assert forall|m: int| 0 <= m < j implies !p(#[trigger] old_cells[m]) by {
            assert(!same_span(old_cells[m], c));
        }
        lemma_find_is(old_cells, p, j);
    }
    if k < old_cells.len() {
        assert(same_span(old_cells[k], c));
    }
}

/// Whether a cell lies where a new one is to lie.
pub open spec fn same_span(o: RoadCellView, c: RoadCellSpecView) -> bool {
    o.x0 == c.x0 && o.y0 == c.y0 && o.x1 == c.x1 && o.y1 == c.y1
}

/// A plan can be cancelled while it is open and nothing was put into it. It is then gone with all of its cells, and nothing
/// else is.
pub proof fn law_when_a_plan_is_cancelled(s: DbView, order: Seq<char>, k: int, x: BuildOrderView, y: RoadCellView)
    requires
        0 <= k < s.build_orders.len(),
        s.build_orders[k].id == order,
        forall|j: int| 0 <= j < s.build_orders.len() && j != k ==> (#[trigger] s.build_orders[j]).id != order,
    ensures
        pristine(s, order) <==> s.build_orders[k].state == "open"@ && s.build_orders[k].path_json is Some
            && s.build_orders[k].progress_json == "{}"@,
        plan_removed(s, order).build_orders.contains(x) <==> s.build_orders.contains(x) && x.id != order,
        plan_removed(s, order).road_cells.contains(y) <==> s.road_cells.contains(y) && y.order_id != order,
{
    lemma_find_is(s.build_orders, is_order(order), k);
    lemma_filter_contains(s.build_orders, not(is_order(order)), x);
    lemma_filter_contains(s.road_cells, not(is_cell_of(order)), y);
}

/// A road can be demolished if no demolition of it is posted, and it is built, or open with something put into it.
pub proof fn law_when_a_road_can_be_demolished(s: DbView, target: Seq<char>, k: int)
    requires
        0 <= k < s.build_orders.len(),
        s.build_orders[k].id == target,
        forall|j: int| 0 <= j < s.build_orders.len() && j != k ==> (#[trigger] s.build_orders[j]).id != target,
    ensures
        refusal_to_demolish(s, target) is None <==> {
            let o = s.build_orders[k];
            &&& o.path_json is Some
            &&& o.state == "completed"@ || o.state == "open"@ && o.progress_json != "{}"@
            &&& forall|j: int| 0 <= j < s.build_orders.len() ==> (#[trigger] s.build_orders[j]).kind != "demo_"@ + target
        },
{
    lemma_find_is(s.build_orders, is_order(target), k);
    let p = is_kind(demolition_kind(target));
    lemma_find(s.build_orders, p);
    let m = find(s.build_orders, p);
    if m < s.build_orders.len() {
        assert(s.build_orders[m].kind == "demo_"@ + target);
    } else {
        assert forall|j: int| 0 <= j < s.build_orders.len() implies (#[trigger] s.build_orders[j]).kind != "demo_"@ + target by {
            assert(!p(s.build_orders[j]));
        }
    }
}

/// A demolition is an open order for one tool kit, open to everyone, in the road's district. An open road takes no more
/// contributions from then on, and a built one stays as it is.
pub proof fn law_what_a_demolition_asks(s: DbView, target: Seq<char>, now: int, id: Seq<char>, k: int, i: int)
    requires
        0 <= k < s.build_orders.len(),
        s.build_orders[k].id == target,
        forall|j: int| 0 <= j < s.build_orders.len() && j != k ==> (#[trigger] s.build_orders[j]).id != target,
        0 <= i < s.build_orders.len(),
    ensures
        ({
            let demo = demolition_of(s, target, now, id);
            let t = demolition_posted(s, target, demo);
            &&& demo.id == id && demo.state == "open"@ && demo.required_json == "{\"tool_kit\":1}"@ && demo.progress_json == "{}"@
            &&& demo.required_level == 0 && demo.required_skill is None && demo.issued_at == now && demo.completed_at is None
            &&& demo.kind == "demo_"@ + target && demo.district == s.build_orders[k].district && demo.path_json
                == s.build_orders[k].path_json
            &&& t.build_orders.len() == s.build_orders.len() + 1 && t.build_orders.last() == demo
            &&& i != k || s.build_orders[k].state != "open"@ ==> t.build_orders[i] == s.build_orders[i]
            &&& s.build_orders[k].state == "open"@ ==> t.build_orders[k] == (BuildOrderView {
                state: "demolishing"@,
                ..s.build_orders[k]
            })
        }),
{
    lemma_find_is(s.build_orders, is_order(target), k);
}

/// A demolished road gives back what was built into it: a built one its whole cost, and any other what was put in. It is then
/// gone with its cells and with what anyone put into it, and nothing else is.
pub proof fn law_what_a_demolition_gives_back(
    s: DbView,
    target: Seq<char>,
    o: BuildOrderView,
    x: BuildOrderView,
    y: RoadCellView,
    z: ContributionView,
)
    ensures
        o.state == "completed"@ ==> refund_of(o) == cost_of(o.required_json),
        o.state != "completed"@ ==> refund_of(o) == cost_of(o.progress_json),
        ({
            let t = settled_demolition(s, target);
            &&& t.build_orders.contains(x) <==> s.build_orders.contains(x) && x.id != target
            &&& t.road_cells.contains(y) <==> s.road_cells.contains(y) && y.order_id != target
            &&& t.contributions.contains(z) <==> s.contributions.contains(z) && z.order_id != target
            &&& t.characters == s.characters && t.inventory == s.inventory && t.storage == s.storage
        }),
{
    lemma_filter_contains(s.build_orders, not(is_order(target)), x);
    lemma_filter_contains(s.road_cells, not(is_cell_of(target)), y);
    lemma_filter_contains(s.contributions, not(is_contribution_to(target)), z);
}

/// A road is built exactly when each of its cells has as much of each item as it asks for.
pub proof fn law_when_a_road_is_built(cells: Seq<RoadCellView>, order: Seq<char>)
    ensures
        road_built(cells, order) <==> forall|i: int, n: int|
            0 <= i < cells.len() && cells[i].order_id == order && 0 <= n < cost_of(cells[i].required_json).len() ==> amount(
                cost_of(cells[i].progress_json),
                (#[trigger] cost_of(cells[i].required_json)[n]).0,
            ) >= cost_of(cells[i].required_json)[n].1,
{
    if road_built(cells, order) {
        assert forall|i: int, n: int|
            0 <= i < cells.len() && cells[i].order_id == order && 0 <= n < cost_of(cells[i].required_json).len() implies amount(
            cost_of(cells[i].progress_json),
            (#[trigger] cost_of(cells[i].required_json)[n]).0,
        ) >= cost_of(cells[i].required_json)[n].1 by {
            assert(cell_built(cells[i]));
        }
    }
}

/// The cells of a new road carry their own cost, nothing put in, and their place along the way.
pub proof fn law_a_new_road_is_empty(order: Seq<char>, cells: Seq<RoadCellSpecView>, i: int)
    ensures
        laid_out(order, cells).len() == cells.len(),
        0 <= i < cells.len() ==> {
            let c = laid_out(order, cells)[i];
            &&& c.order_id == order && c.cell_index == i && c.required_json == cells[i].required_json
            &&& same_span(c, cells[i])
            &&& c.progress_json == "{}"@ && c.completed_at is None
        },
{
}

/// A road shows all of its cells and no other's, along the way.
pub proof fn law_a_road_shows_its_cells(cells: Seq<RoadCellView>, order: Seq<char>, i: int, j: int, x: RoadCellView)
    ensures
        ({
            let out = cells_of(cells, order);
            &&& out.contains(x) <==> cells.contains(x) && x.order_id == order
            &&& 0 <= i < j < out.len() ==> out[i].cell_index <= out[j].cell_index
        }),
{
    let f = cells.filter(is_cell_of(order));
    let out = cells_of(cells, order);
    assert(orders_rows(cell_before()));
    law_page(f, cell_before(), -1, x);
    assert(limited(out, -1) == out);
    lemma_filter_contains(cells, is_cell_of(order), x);
    if out.contains(x) {
        let k = choose|k: int| 0 <= k < out.len() && out[k] == x;
        assert(f.contains(out[k]));
    }
    if 0 <= i < j < out.len() {
        assert(!cell_before()(out[j], out[i]));
    }
}

/// Whoever put something into an order is listed with what they put in, by name, and nobody else is.
pub proof fn law_contributors_are_listed(rows: Seq<ContributionView>, order: Seq<char>, i: int, j: int, x: ContributionView)
    ensures
        ({
            let out = contributors_of(rows, order);
            &&& rows.contains(x) && x.order_id == order ==> out.contains((x.character_id, x.units))
            &&& 0 <= i < out.len() ==> exists|k: int|
                0 <= k < rows.len() && (#[trigger] rows[k]).order_id == order && out[i] == (rows[k].character_id, rows[k].units)
            &&& 0 <= i < j < out.len() ==> !text_before(out[j].0, out[i].0)
        }),
{
    let p = is_contribution_to(order);
    let f = rows.filter(p);
    let o = ordered(f, contributor_before());
    let out = contributors_of(rows, order);
    lemma_contributor_before();
    law_page(f, contributor_before(), -1, x);
    assert(limited(o, -1) == o);
    lemma_filter_contains(rows, p, x);
    if rows.contains(x) && x.order_id == order {
        let k = choose|k: int| 0 <= k < o.len() && o[k] == x;
        assert(out[k] == (x.character_id, x.units));
    }
    if 0 <= i < out.len() {
        assert(f.contains(o[i]));
        lemma_filter_contains(rows, p, o[i]);
        let k = choose|k: int| 0 <= k < rows.len() && rows[k] == o[i];
        assert(rows[k].order_id == order);
    }
    if 0 <= i < j < out.len() {
        assert(!contributor_before()(o[j], o[i]));
    }
}

proof fn lemma_contributor_before()
    ensures
        orders_rows(contributor_before()),
{
    let before = contributor_before();
    assert forall|a: ContributionView, b: ContributionView| #[trigger] before(a, b) implies !before(b, a) by {
        lemma_text_before(a.character_id, b.character_id, a.character_id);
    }
    assert forall|a: ContributionView, b: ContributionView, c: ContributionView|
        !(#[trigger] before(a, b)) && !(#[trigger] before(b, c)) implies !before(a, c) by {
        lemma_text_before(a.character_id, b.character_id, c.character_id);
        lemma_text_before(c.character_id, b.character_id, a.character_id);
        lemma_text_before(a.character_id, c.character_id, b.character_id);
    }
}

/// A district's orders are all shown and no others, in the order in which they were issued.
pub proof fn law_a_district_shows_its_orders(
    orders: Seq<BuildOrderView>,
    district: Seq<char>,
    i: int,
    j: int,
    x: BuildOrderView,
)
    ensures
        ({
            let out = ordered(orders.filter(in_district(district)), issued_before());
            &&& out.contains(x) <==> orders.contains(x) && x.district == district
            &&& 0 <= i < j < out.len() ==> out[i].issued_at <= out[j].issued_at
        }),
{
    let f = orders.filter(in_district(district));
    let out = ordered(f, issued_before());
    assert(orders_rows(issued_before()));
    law_page(f, issued_before(), -1, x);
    assert(limited(out, -1) == out);
    lemma_filter_contains(orders, in_district(district), x);
    if out.contains(x) {
        let k = choose|k: int| 0 <= k < out.len() && out[k] == x;
        assert(f.contains(out[k]));
    }
    if 0 <= i < j < out.len() {
        assert(!issued_before()(out[j], out[i]));
    }
}

} // verus!
