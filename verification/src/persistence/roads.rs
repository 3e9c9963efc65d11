//! Roads: build orders that follow a path and are built cell by cell.

use vstd::prelude::*;

use crate::persistence::building::{
    contribution, contributors_of, credit_contribution, credited_to, find_order, is_contribution_to,
    is_order, law_only_open_orders_take_contributions, moves, offered, opt_placement, order_completed,
    order_done, order_fed, payable, placement_of, wages_for,
};
use crate::persistence::costs::{
    cost_of, covered, covers, dump_cost, json_text, needed, parse_cost, still_needed, Costs,
};
use crate::persistence::db::{Db, DbView};
use crate::persistence::ids::new_id;
use crate::persistence::inventory::{
    carried, dropped, inventory_qty_in_tx, lemma_carried_bound, lemma_dropped, packed,
    remove_inventory_in_tx,
};
use crate::persistence::purse::{has_character, law_minting_is_ledgered, supply_gap, wealth};
use crate::persistence::rows::{
    BuildOrder, BuildOrderView, BuildPlacement, BuildPlacementView, Contribution, RoadCell, RoadCellSpec,
    RoadCellSpecView, RoadCellView,
};
use crate::table::{
    find, lemma_find, lemma_find_is, lemma_sum_update, not, order_rows, ordered, rows_view, sum, Row,
};
use crate::tally::{add_named, added, amount, in_name_order, lemma_added, lookup};
use crate::text::{pairs_view, same, text_before};
use crate::util::now_secs;

verus! {

/// What contributing to one cell of a road came to.
#[derive(Debug, Clone, PartialEq, Eq)]
pub struct CellContributeResult {
    /// Units that moved from what is carried into the cell.
    pub moved: i64,
    /// What the cell costs.
    pub required: Costs,
    /// The cell's progress after this contribution.
    pub progress: Costs,
    /// Whether this contribution completed the cell.
    pub cell_completed: bool,
    /// Whether this contribution completed the whole order.
    pub order_completed: bool,
    /// What the whole order costs.
    pub order_required: Costs,
    /// The whole order's progress after this contribution.
    pub order_progress: Costs,
    pub kind: String,
    pub district: String,
    pub contributors: Vec<(String, i64)>,
    pub placement: Option<BuildPlacement>,
    /// Gold paid to the contributor.
    pub wages: i64,
}

/// The view of a [`CellContributeResult`].
pub struct CellContributeResultView {
    pub moved: int,
    pub required: Seq<(Seq<char>, int)>,
    pub progress: Seq<(Seq<char>, int)>,
    pub cell_completed: bool,
    pub order_completed: bool,
    pub order_required: Seq<(Seq<char>, int)>,
    pub order_progress: Seq<(Seq<char>, int)>,
    pub kind: Seq<char>,
    pub district: Seq<char>,
    pub contributors: Seq<(Seq<char>, int)>,
    pub placement: Option<BuildPlacementView>,
    pub wages: int,
}

impl View for CellContributeResult {
    type V = CellContributeResultView;

    open spec fn view(&self) -> CellContributeResultView {
        CellContributeResultView {
            moved: self.moved as int,
            required: self.required@,
            progress: self.progress@,
            cell_completed: self.cell_completed,
            order_completed: self.order_completed,
            order_required: self.order_required@,
            order_progress: self.order_progress@,
            kind: self.kind@,
            district: self.district@,
            contributors: pairs_view(self.contributors@),
            placement: opt_placement(self.placement),
            wages: self.wages as int,
        }
    }
}

impl CellContributeResultView {
    pub open spec fn nothing() -> CellContributeResultView {
        CellContributeResultView {
            moved: 0,
            required: Seq::empty(),
            progress: Seq::empty(),
            cell_completed: false,
            order_completed: false,
            order_required: Seq::empty(),
            order_progress: Seq::empty(),
            kind: Seq::empty(),
            district: Seq::empty(),
            contributors: Seq::empty(),
            placement: None,
            wages: 0,
        }
    }
}

impl Default for CellContributeResult {
    fn default() -> (r: CellContributeResult)
        ensures
            r@ == CellContributeResultView::nothing(),
    {
        let r = CellContributeResult {
            moved: 0,
            required: Costs::default(),
            progress: Costs::default(),
            cell_completed: false,
            order_completed: false,
            order_required: Costs::default(),
            order_progress: Costs::default(),
            kind: String::new(),
            district: String::new(),
            contributors: Vec::new(),
            placement: None,
            wages: 0,
        };
        assert(r@.contributors =~= CellContributeResultView::nothing().contributors);
        r
    }
}

pub open spec fn is_cell_of(order: Seq<char>) -> spec_fn(RoadCellView) -> bool {
    |c: RoadCellView| c.order_id == order
}

pub open spec fn is_cell(order: Seq<char>, index: int) -> spec_fn(RoadCellView) -> bool {
    |c: RoadCellView| c.order_id == order && c.cell_index == index
}

pub open spec fn cell_before() -> spec_fn(RoadCellView, RoadCellView) -> bool {
    |a: RoadCellView, b: RoadCellView| a.cell_index < b.cell_index
}

/// A road's cells in path order.
pub open spec fn cells_of(cells: Seq<RoadCellView>, order: Seq<char>) -> Seq<RoadCellView> {
    ordered(cells.filter(is_cell_of(order)), cell_before())
}

/// A road's new cells, with nothing built yet.
pub open spec fn laid_out(order: Seq<char>, cells: Seq<RoadCellSpecView>) -> Seq<RoadCellView> {
    Seq::new(
        cells.len(),
        |i: int|
            RoadCellView {
                order_id: order,
                cell_index: i,
                x0: cells[i].x0,
                y0: cells[i].y0,
                x1: cells[i].x1,
                y1: cells[i].y1,
                required_json: cells[i].required_json,
                progress_json: "{}"@,
                completed_at: None,
            },
    )
}

/// What contributing to one cell leads to.
pub struct CellContributed {
    pub db: DbView,
    pub out: CellContributeResultView,
}

/// The state after `moved` of an item is put into cell `c`.
pub open spec fn cell_fed(s: DbView, c: int, item: Seq<char>, moved: int, now: int) -> DbView {
    let cell = s.road_cells[c];
    let progress = added(cost_of(cell.progress_json), item, moved);
    DbView {
        road_cells: s.road_cells.update(
            c,
            RoadCellView {
                progress_json: json_text(progress),
                completed_at: if covered(cost_of(cell.required_json), progress) {
                    Some(now)
                } else {
                    None
                },
                ..cell
            },
        ),
        ..s
    }
}

/// Whether every cell of a road covers its own cost.
pub open spec fn road_built(cells: Seq<RoadCellView>, order: Seq<char>) -> bool {
    forall|i: int| 0 <= i < cells.len() && (#[trigger] cells[i]).order_id == order ==> cell_built(cells[i])
}

pub open spec fn cell_built(c: RoadCellView) -> bool {
    covered(cost_of(c.required_json), cost_of(c.progress_json))
}

/// Contributing to one cell of a road: a cell that is done, or whose order is not open, takes nothing; else
/// as much moves as the cell needs and is carried, and the order's progress grows with the cell's. The order is
/// done once every cell is.
pub open spec fn cell_contribution(
    s: DbView,
    character: Seq<char>,
    order: Seq<char>,
    index: int,
    item: Seq<char>,
    qty: int,
    rate: int,
    now: int,
    id: Seq<char>,
) -> CellContributed {
    let k = find(s.build_orders, is_order(order));
    let c = find(s.road_cells, is_cell(order, index));
    let o = s.build_orders[k];
    let cell = s.road_cells[c];
    let required = cost_of(cell.required_json);
    let progress = cost_of(cell.progress_json);
    let shown = CellContributeResultView {
        required,
        progress,
        kind: o.kind,
        district: o.district,
        placement: placement_of(o),
        ..CellContributeResultView::nothing()
    };
    let moved = moves(s, character, item, qty, required, progress);
    let after = added(progress, item, moved);
    let order_required = cost_of(o.required_json);
    let order_after = added(cost_of(o.progress_json), item, moved);
    let fed = order_fed(cell_fed(s, c, item, moved, now), k, character, item, moved, rate, now, id);
    let done = road_built(fed.road_cells, order);
    if k >= s.build_orders.len() || c >= s.road_cells.len() {
        CellContributed { db: s, out: CellContributeResultView::nothing() }
    } else if o.state != "open"@ || cell.completed_at is Some || qty <= 0 || moved == 0 {
        CellContributed { db: s, out: shown }
    } else {
        CellContributed {
            db: if done {
                order_completed(fed, k, now)
            } else {
                fed
            },
            out: CellContributeResultView {
                moved,
                progress: after,
                cell_completed: covered(required, after),
                order_completed: done,
                order_required,
                order_progress: order_after,
                contributors: if done {
                    contributors_of(fed.contributions, order)
                } else {
                    Seq::empty()
                },
                wages: wages_for(moved, rate),
                ..shown
            },
        }
    }
}

/// How much of an item the cells of a road hold.
pub open spec fn held_by(order: Seq<char>, item: Seq<char>) -> spec_fn(RoadCellView) -> int {
    |c: RoadCellView|
        if c.order_id == order {
            amount(cost_of(c.progress_json), item)
        } else {
            0
        }
}

/// A road's progress is what its cells hold together.
pub open spec fn mirrored(s: DbView, order: Seq<char>) -> bool {
    let k = find(s.build_orders, is_order(order));
    k < s.build_orders.len() ==> forall|item: Seq<char>|
        #[trigger] amount(cost_of(s.build_orders[k].progress_json), item) == sum(
            s.road_cells,
            held_by(order, item),
        )
}

/// A road order has room to record as much of an item as a character offers.
pub open spec fn recordable(s: DbView, order: Seq<char>, character: Seq<char>, item: Seq<char>, qty: int) -> bool {
    let k = find(s.build_orders, is_order(order));
    k < s.build_orders.len() ==> amount(cost_of(s.build_orders[k].progress_json), item) + offered(
        s,
        character,
        item,
        qty,
    ) <= i64::MAX
}

proof fn lemma_mirrored(
    s: DbView,
    t: DbView,
    order: Seq<char>,
    k: int,
    c: int,
    item: Seq<char>,
    moved: int,
)
    requires
        k == find(s.build_orders, is_order(order)),
        0 <= k < s.build_orders.len(),
        0 <= c < s.road_cells.len(),
        s.road_cells[c].order_id == order,
        mirrored(s, order),
        in_name_order(cost_of(s.build_orders[k].progress_json)),
        in_name_order(cost_of(s.road_cells[c].progress_json)),
        t.build_orders.len() == s.build_orders.len(),
        t.build_orders == s.build_orders.update(k, t.build_orders[k]),
        t.build_orders[k].id == s.build_orders[k].id,
        cost_of(t.build_orders[k].progress_json) == added(cost_of(s.build_orders[k].progress_json), item, moved),
        t.road_cells == s.road_cells.update(c, t.road_cells[c]),
        t.road_cells[c].order_id == order,
        cost_of(t.road_cells[c].progress_json) == added(cost_of(s.road_cells[c].progress_json), item, moved),
    ensures
        mirrored(t, order),
{
    lemma_find(s.build_orders, is_order(order));
    assert forall|i: int| 0 <= i < k implies !is_order(order)(#[trigger] t.build_orders[i]) by {
        assert(t.build_orders[i] == s.build_orders[i]);
    }
    lemma_find_is(t.build_orders, is_order(order), k);
    lemma_added(cost_of(s.build_orders[k].progress_json), item, moved);
    lemma_added(cost_of(s.road_cells[c].progress_json), item, moved);
    assert forall|x: Seq<char>|
        #[trigger] amount(cost_of(t.build_orders[k].progress_json), x) == sum(
            t.road_cells,
            held_by(order, x),
        ) by {
        lemma_sum_update(s.road_cells, held_by(order, x), c, t.road_cells[c]);
        assert(amount(cost_of(s.build_orders[k].progress_json), x) == sum(s.road_cells, held_by(order, x)));
        if x != item {
            assert(lookup(cost_of(t.build_orders[k].progress_json), x) == lookup(
                cost_of(s.build_orders[k].progress_json),
                x,
            ));
            assert(lookup(cost_of(t.road_cells[c].progress_json), x) == lookup(
                cost_of(s.road_cells[c].progress_json),
                x,
            ));
        }
    }
}

impl Db {
    /// Persist a road plan's cells, in path order from index 0.
    pub fn insert_road_cells(&mut self, order_id: &str, cells: &[RoadCellSpec])
        requires
            cells.len() <= i64::MAX,
        ensures
            final(self)@ == (DbView {
                road_cells: old(self)@.road_cells + laid_out(order_id@, rows_view(cells@)),
                ..old(self)@
            }),
    {
        let ghost s = self@;
        let ghost want = laid_out(order_id@, rows_view(cells@));
        let mut i: usize = 0;
        assert(s.road_cells + want.take(0) =~= s.road_cells);
        while i < cells.len()
            invariant
                i <= cells.len() <= i64::MAX,
                want == laid_out(order_id@, rows_view(cells@)),
                self@ == (DbView { road_cells: s.road_cells + want.take(i as int), ..s }),
            decreases cells.len() - i,
        {
            let c = &cells[i];
            self.road_cells.push(
                RoadCell {
                    order_id: order_id.to_string(),
                    cell_index: i as i64,
                    x0: c.x0,
                    y0: c.y0,
                    x1: c.x1,
                    y1: c.y1,
                    required_json: c.required_json.clone(),
                    progress_json: "{}".to_string(),
                    completed_at: None,
                },
            );
            assert(rows_view(cells@)[i as int] == c@);
            assert(self@.road_cells =~= s.road_cells + want.take(i + 1));
            i = i + 1;
        }
        assert(want.take(i as int) =~= want);
    }

    /// A road order's cells, in path order.
    pub fn road_cells_for_order(&self, order_id: &str) -> (out: Vec<RoadCell>)
        ensures
            rows_view(out@) == cells_of(self@.road_cells, order_id@),
    {
        let f = |c: &RoadCell| -> (b: bool)
            ensures
                b == is_cell_of(order_id@)(c@),
            { same(c.order_id.as_str(), order_id) };
        let rows = self.road_cells.select(f, Ghost(is_cell_of(order_id@)));
        let g = |a: &RoadCell, b: &RoadCell| -> (r: bool)
            ensures
                r == cell_before()(a@, b@),
            { a.cell_index < b.cell_index };
        order_rows(rows, g, Ghost(cell_before()))
    }

    /// Whether every cell of a road covers its own cost.
    fn is_road_built(&self, order_id: &str) -> (yes: bool)
        ensures
            yes == road_built(self@.road_cells, order_id@),
    {
        let ghost cells = self@.road_cells;
        let mut i: usize = 0;
        while i < self.road_cells.len()
            invariant
                i <= cells.len(),
                cells == self@.road_cells,
                forall|j: int| 0 <= j < i && (#[trigger] cells[j]).order_id == order_id@ ==> cell_built(cells[j]),
            decreases cells.len() - i,
        {
            let c = self.road_cells.get(i);
            if same(c.order_id.as_str(), order_id) {
                let required = parse_cost(c.required_json.as_str());
                let progress = parse_cost(c.progress_json.as_str());
                if !covers(&required, &progress) {
                    assert(!cell_built(cells[i as int]));
                    return false;
                }
            }
            i = i + 1;
        }
        true
    }

    /// Contribute up to `qty` of an item to one cell of a road order, at a given time.
    pub fn contribute_to_road_cell_at(
        &mut self,
        character_id: &str,
        order_id: &str,
        cell_index: i64,
        item_id: &str,
        qty: i64,
        wage_per_unit: i64,
        now: i64,
    ) -> (out: CellContributeResult)
        requires
            packed(old(self)@.inventory),
            payable(old(self)@, order_id@, character_id@, item_id@, qty as int, wage_per_unit as int),
            recordable(old(self)@, order_id@, character_id@, item_id@, qty as int),
        ensures
            packed(final(self)@.inventory),
            mirrored(old(self)@, order_id@) ==> mirrored(final(self)@, order_id@),
            out.moved > 0 ==> amount(out@.order_progress, item_id@) == amount(
                cost_of(old(self)@.build_orders[find(old(self)@.build_orders, is_order(order_id@))].progress_json),
                item_id@,
            ) + out.moved,
            ({
                let k = find(old(self)@.build_orders, is_order(order_id@));
                let c = find(old(self)@.road_cells, is_cell(order_id@, cell_index as int));
                &&& k < old(self)@.build_orders.len() && c < old(self)@.road_cells.len() ==> cost_of(
                    final(self)@.road_cells[c].progress_json,
                ) == out@.progress
                &&& out.moved > 0 ==> cost_of(final(self)@.build_orders[k].progress_json) == out@.order_progress
            }),
            exists|id: Seq<char>|
                #[trigger] cell_contribution(
                    old(self)@,
                    character_id@,
                    order_id@,
                    cell_index as int,
                    item_id@,
                    qty as int,
                    wage_per_unit as int,
                    now as int,
                    id,
                ) == (CellContributed { db: final(self)@, out: out@ }),
    {
        let ghost s = self@;
        let id = new_id();
        let ghost idv = id@;
        let ghost want = cell_contribution(
            s,
            character_id@,
            order_id@,
            cell_index as int,
            item_id@,
            qty as int,
            wage_per_unit as int,
            now as int,
            idv,
        );
        let k: usize = find_order(&self.build_orders, order_id);
        let f = |c: &RoadCell| -> (b: bool)
            ensures
                b == is_cell(order_id@, cell_index as int)(c@),
            { c.cell_index == cell_index && same(c.order_id.as_str(), order_id) };
        let c: usize = self.road_cells.find(f, Ghost(is_cell(order_id@, cell_index as int)));
        if k >= self.build_orders.len() || c >= self.road_cells.len() {
            let out = CellContributeResult::default();
            assert(want == (CellContributed { db: self@, out: out@ }));
            return out;
        }
        let order = self.build_orders.get(k).copy();
        let cell = self.road_cells.get(c).copy();
        let cell_required = parse_cost(cell.required_json.as_str());
        let mut cell_progress = parse_cost(cell.progress_json.as_str());
        let mut out = CellContributeResult {
            required: cell_required.copy(),
            progress: cell_progress.copy(),
            kind: order.kind.clone(),
            district: order.district.clone(),
            placement: order.placement(),
            moved: 0,
            cell_completed: false,
            order_completed: false,
            order_required: Costs::default(),
            order_progress: Costs::default(),
            contributors: Vec::new(),
            wages: 0,
        };
        assert(out@.contributors =~= Seq::empty());
        if !same(order.state.as_str(), "open") || cell.completed_at.is_some() || qty <= 0 {
            assert(want == (CellContributed { db: self@, out: out@ }));
            return out;
        }
        let need: i64 = needed(&cell_required, &cell_progress, item_id);
        let held: i64 = inventory_qty_in_tx(&self.inventory, character_id, item_id);
        let most: i64 = if qty <= need {
            qty
        } else {
            need
        };
        if most <= 0 || held <= 0 {
            assert(want == (CellContributed { db: self@, out: out@ }));
            return out;
        }
        let moved: i64 = if most <= held {
            most
        } else {
            held
        };
        let rate: i64 = if wage_per_unit > 0 {
            wage_per_unit
        } else {
            0
        };
        proof {
            lemma_added(cell_progress@, item_id@, moved as int);
            let most = offered(s, character_id@, item_id@, qty as int);
            assert(0 <= moved * rate <= most * rate) by (nonlinear_arith)
                requires
                    0 <= moved <= most,
                    rate >= 0,
            ;
        }
        remove_inventory_in_tx(&mut self.inventory, character_id, item_id, moved, id);
        add_named(&mut cell_progress.entries, item_id, moved);
        let cell_done: bool = covers(&cell_required, &cell_progress);
        let cell_text = dump_cost(&cell_progress);
        let row = self.road_cells.get_mut(c);
        row.progress_json = cell_text;
        row.completed_at = if cell_done {
            Some(now)
        } else {
            None
        };
        let mut order_progress = parse_cost(order.progress_json.as_str());
        let so_far: i64 = order_progress.amount(item_id);
        proof {
            lemma_added(order_progress@, item_id@, moved as int);
        }
        add_named(&mut order_progress.entries, item_id, moved);
        let order_text = dump_cost(&order_progress);
        let row = self.build_orders.get_mut(k);
        row.progress_json = order_text;
        credit_contribution(&mut self.contributions, order_id, character_id, moved);
        let wages: i64 = moved * rate;
        self.mint_gold_in_tx(character_id, wages, "build_wage", now);
        let ghost fed = self@;
        assert(fed == order_fed(
            cell_fed(s, c as int, item_id@, moved as int, now as int),
            k as int,
            character_id@,
            item_id@,
            moved as int,
            wage_per_unit as int,
            now as int,
            idv,
        ));
        let order_required = parse_cost(order.required_json.as_str());
        let done: bool = self.is_road_built(order_id);
        if done {
            let row = self.build_orders.get_mut(k);
            row.state = "completed".to_string();
            row.completed_at = Some(now);
            out.contributors = self.contributors(order_id);
        }
        proof {
            if mirrored(s, order_id@) {
                assert(self@.build_orders =~= s.build_orders.update(k as int, self@.build_orders[k as int]));
                lemma_mirrored(s, self@, order_id@, k as int, c as int, item_id@, moved as int);
            }
        }
        out.wages = wages;
        out.moved = moved;
        out.progress = cell_progress;
        out.cell_completed = cell_done;
        out.order_completed = done;
        out.order_required = order_required;
        out.order_progress = order_progress;
        assert(want.db == self@);
        assert(want.out == out@);
        assert(want == (CellContributed { db: self@, out: out@ }));
        out
    }

    /// Contribute up to `qty` of an item to one cell of a road order. As much moves as the cell still needs
    /// and the character carries, and is paid for by the unit. The order's own progress grows in step, and the order is
    /// completed once every one of its cells is.
    pub fn contribute_to_road_cell(
        &mut self,
        character_id: &str,
        order_id: &str,
        cell_index: i64,
        item_id: &str,
        qty: i64,
        wage_per_unit: i64,
    ) -> (out: CellContributeResult)
        requires
            packed(old(self)@.inventory),
            payable(old(self)@, order_id@, character_id@, item_id@, qty as int, wage_per_unit as int),
            recordable(old(self)@, order_id@, character_id@, item_id@, qty as int),
        ensures
            packed(final(self)@.inventory),
            mirrored(old(self)@, order_id@) ==> mirrored(final(self)@, order_id@),
            out.moved > 0 ==> amount(out@.order_progress, item_id@) == amount(
                cost_of(old(self)@.build_orders[find(old(self)@.build_orders, is_order(order_id@))].progress_json),
                item_id@,
            ) + out.moved,
            ({
                let k = find(old(self)@.build_orders, is_order(order_id@));
                let c = find(old(self)@.road_cells, is_cell(order_id@, cell_index as int));
                &&& k < old(self)@.build_orders.len() && c < old(self)@.road_cells.len() ==> cost_of(
                    final(self)@.road_cells[c].progress_json,
                ) == out@.progress
                &&& out.moved > 0 ==> cost_of(final(self)@.build_orders[k].progress_json) == out@.order_progress
            }),
            exists|now: int, id: Seq<char>|
                #[trigger] cell_contribution(
                    old(self)@,
                    character_id@,
                    order_id@,
                    cell_index as int,
                    item_id@,
                    qty as int,
                    wage_per_unit as int,
                    now,
                    id,
                ) == (CellContributed { db: final(self)@, out: out@ }),
    {
        let now: i64 = now_secs();
        self.contribute_to_road_cell_at(character_id, order_id, cell_index, item_id, qty, wage_per_unit, now)
    }

    /// Contribute to one cell of a road order as [`Db::contribute_to_road_cell`] does, or `None`, with nothing
    /// changed, where the order's progress is too large to record more.
    pub fn try_contribute_to_road_cell(
        &mut self,
        character_id: &str,
        order_id: &str,
        cell_index: i64,
        item_id: &str,
        qty: i64,
        wage_per_unit: i64,
    ) -> (out: Option<CellContributeResult>)
        requires
            packed(old(self)@.inventory),
            payable(old(self)@, order_id@, character_id@, item_id@, qty as int, wage_per_unit as int),
        ensures
            packed(final(self)@.inventory),
            out is Some <==> recordable(old(self)@, order_id@, character_id@, item_id@, qty as int),
            out is None ==> final(self)@ == old(self)@,
            mirrored(old(self)@, order_id@) ==> mirrored(final(self)@, order_id@),
            out is Some ==> ({
                let k = find(old(self)@.build_orders, is_order(order_id@));
                let c = find(old(self)@.road_cells, is_cell(order_id@, cell_index as int));
                &&& k < old(self)@.build_orders.len() && c < old(self)@.road_cells.len() ==> cost_of(
                    final(self)@.road_cells[c].progress_json,
                ) == out->0@.progress
                &&& out->0.moved > 0 ==> cost_of(final(self)@.build_orders[k].progress_json)
                    == out->0@.order_progress && amount(out->0@.order_progress, item_id@) == amount(
                    cost_of(old(self)@.build_orders[k].progress_json),
                    item_id@,
                ) + out->0.moved
            }),
            out is Some ==> exists|now: int, id: Seq<char>|
                #[trigger] cell_contribution(
                    old(self)@,
                    character_id@,
                    order_id@,
                    cell_index as int,
                    item_id@,
                    qty as int,
                    wage_per_unit as int,
                    now,
                    id,
                ) == (CellContributed { db: final(self)@, out: out->0@ }),
    {
        let k: usize = find_order(&self.build_orders, order_id);
        if k < self.build_orders.len() {
            let progress = parse_cost(self.build_orders.get(k).progress_json.as_str());
            let so_far: i64 = progress.amount(item_id);
            let held: i64 = inventory_qty_in_tx(&self.inventory, character_id, item_id);
            let most: i64 = if qty <= held {
                qty
            } else {
                held
            };
            if so_far as i128 + most as i128 > i64::MAX as i128 {
                return None;
            }
        }
        Some(self.contribute_to_road_cell(character_id, order_id, cell_index, item_id, qty, wage_per_unit))
    }

    /// Re-route an open road order: swap in the new path, placement, district and cost, keeping what was
    /// contributed. A cell that keeps its span keeps its progress, up to its new cost; any other cell starts
    /// fresh. If what was contributed already covers the new cost, the order completes here.
    pub fn replan_road_order(
        &mut self,
        order_id: &str,
        district: &str,
        required_json: &str,
        path_json: &str,
        placement: &BuildPlacement,
        cells: &[RoadCellSpec],
        now: i64,
    ) -> (out: ReplanOutcome)
        requires
            cells.len() <= i64::MAX,
        ensures
            replanned(
                old(self)@,
                order_id@,
                district@,
                required_json@,
                path_json@,
                placement@,
                rows_view(cells@),
                now as int,
            ) == (Replanned { db: final(self)@, out: out@ }),
            out.applied ==> ({
                let old_cells = cells_of(old(self)@.road_cells, order_id@);
                let cut = recut(old_cells, order_id@, rows_view(cells@), now as int);
                forall|i: int|
                    0 <= i < cut.len() ==> cost_of((#[trigger] cut[i]).progress_json) == starting_progress(
                        old_cells,
                        rows_view(cells@)[i],
                    )
            }),
    {
        let ghost s = self@;
        let ghost want = replanned(
            s,
            order_id@,
            district@,
            required_json@,
            path_json@,
            placement@,
            rows_view(cells@),
            now as int,
        );
        let k: usize = find_order(&self.build_orders, order_id);
        let applied: bool = k < self.build_orders.len() && {
            let o = self.build_orders.get(k);
            same(o.state.as_str(), "open") && o.path_json.is_some()
        };
        if !applied {
            let out = ReplanOutcome::default();
            assert(want == (Replanned { db: self@, out: out@ }));
            return out;
        }
        let row = self.build_orders.get_mut(k);
        row.district = district.to_string();
        row.required_json = required_json.to_string();
        row.path_json = Some(path_json.to_string());
        row.structure_kind = Some(placement.structure_kind.clone());
        row.x = Some(placement.x);
        row.y = Some(placement.y);
        row.x1 = placement.x1;
        row.y1 = placement.y1;
        let ghost o = rerouted(s.build_orders[k as int], district@, required_json@, path_json@, placement@);
        assert(self@.build_orders =~= s.build_orders.update(k as int, o));
        let old_cells = self.road_cells_for_order(order_id);
        let f = |c: &RoadCell| -> (b: bool)
            ensures
                b == is_cell_of(order_id@)(c@),
            { same(c.order_id.as_str(), order_id) };
        self.road_cells.delete_where(f, Ghost(is_cell_of(order_id@)));
        let ghost others = self@.road_cells;
        let ghost cut = recut(rows_view(old_cells@), order_id@, rows_view(cells@), now as int);
        let mut i: usize = 0;
        assert(others + cut.take(0) =~= others);
        while i < cells.len()
            invariant
                i <= cells.len() <= i64::MAX,
                cut == recut(rows_view(old_cells@), order_id@, rows_view(cells@), now as int),
                forall|j: int|
                    0 <= j < i ==> cost_of((#[trigger] cut[j]).progress_json) == starting_progress(
                        rows_view(old_cells@),
                        rows_view(cells@)[j],
                    ),
                self@ == (DbView {
                    build_orders: s.build_orders.update(k as int, o),
                    road_cells: others + cut.take(i as int),
                    ..s
                }),
            decreases cells.len() - i,
        {
            assert(rows_view(cells@)[i as int] == cells@[i as int]@);
            let cell = recut_cell_of(&old_cells, order_id, i, &cells[i], now);
            self.road_cells.push(cell);
            assert(self@.road_cells =~= others + cut.take(i + 1));
            i = i + 1;
        }
        assert(cut.take(i as int) =~= cut);
        let required = parse_cost(required_json);
        let progress = parse_cost(self.build_orders.get(k).progress_json.as_str());
        let completed: bool = required.entries.len() > 0 && covers(&required, &progress);
        let mut contributors: Vec<(String, i64)> = Vec::new();
        assert(pairs_view(contributors@) =~= Seq::empty());
        if completed {
            let row = self.build_orders.get_mut(k);
            row.state = "completed".to_string();
            row.completed_at = Some(now);
            contributors = self.contributors(order_id);
        }
        let out = ReplanOutcome { applied: true, completed, contributors };
        assert(want.db == self@);
        assert(want == (Replanned { db: self@, out: out@ }));
        out
    }

    /// Cancel a road plan that nothing was built of yet: only an open road order without progress goes.
    /// Returns whether it went.
    pub fn cancel_road_order(&mut self, order_id: &str) -> (gone: bool)
        ensures
            gone == pristine(old(self)@, order_id@),
            final(self)@ == if gone {
                plan_removed(old(self)@, order_id@)
            } else {
                old(self)@
            },
    {
        let k: usize = find_order(&self.build_orders, order_id);
        let eligible: bool = k < self.build_orders.len() && {
            let o = self.build_orders.get(k);
            same(o.state.as_str(), "open") && o.path_json.is_some() && same(o.progress_json.as_str(), "{}")
        };
        if !eligible {
            return false;
        }
        self.remove_plan(order_id);
        true
    }

    /// Delete an order with its cells.
    fn remove_plan(&mut self, order_id: &str)
        ensures
            final(self)@ == plan_removed(old(self)@, order_id@),
    {
        let f = |c: &RoadCell| -> (b: bool)
            ensures
                b == is_cell_of(order_id@)(c@),
            { same(c.order_id.as_str(), order_id) };
        self.road_cells.delete_where(f, Ghost(is_cell_of(order_id@)));
        let g = |o: &BuildOrder| -> (b: bool)
            ensures
                b == is_order(order_id@)(o@),
            { same(o.id.as_str(), order_id) };
        self.build_orders.delete_where(g, Ghost(is_order(order_id@)));
    }

    /// Post a demolition order for a road. The road must be built, or be an open plan with progress: an open
    /// plan stops taking contributions, a built road stays until the demolition is done. The demolition
    /// carries the road's path and no placement, and is posted once for each road.
    pub fn create_demolition(&mut self, target_order_id: &str, now: i64) -> (out: Result<
        BuildOrder,
        &'static str,
    >)
        ensures
            match out {
                Ok(demo) => refusal_to_demolish(old(self)@, target_order_id@) is None && demo@
                    == demolition_of(old(self)@, target_order_id@, now as int, demo@.id) && final(self)@
                    == demolition_posted(old(self)@, target_order_id@, demo@),
                Err(why) => refusal_to_demolish(old(self)@, target_order_id@) == Some(why@) && final(self)@
                    == old(self)@,
            },
    {
        let ghost s = self@;
        let k: usize = find_order(&self.build_orders, target_order_id);
        if k >= self.build_orders.len() {
            return Err("no such order");
        }
        let target = self.build_orders.get(k).copy();
        let path_json = match &target.path_json {
            Some(path) => path.clone(),
            None => {
                return Err("that order is not a road");
            },
        };
        let demo_kind = demolition_name(target.id.as_str());
        let f = |o: &BuildOrder| -> (b: bool)
            ensures
                b == is_kind(demo_kind@)(o@),
            { same(o.kind.as_str(), demo_kind.as_str()) };
        let d: usize = self.build_orders.find(f, Ghost(is_kind(demo_kind@)));
        if d < self.build_orders.len() {
            return Err("a demolition for that road is already posted");
        }
        if same(target.state.as_str(), "completed") {
        } else if same(target.state.as_str(), "open") {
            if same(target.progress_json.as_str(), "{}") {
                return Err("nothing built there yet — cancel the plan instead");
            }
            let row = self.build_orders.get_mut(k);
            row.state = "demolishing".to_string();
        } else {
            return Err("that road can't be demolished right now");
        }
        let demo = BuildOrder {
            id: new_id(),
            district: target.district.clone(),
            kind: demo_kind,
            required_json: "{\"tool_kit\":1}".to_string(),
            progress_json: "{}".to_string(),
            state: "open".to_string(),
            issued_at: now,
            completed_at: None,
            required_skill: None,
            required_level: 0,
            structure_kind: None,
            x: None,
            y: None,
            x1: None,
            y1: None,
            path_json: Some(path_json),
        };
        self.build_orders.push(demo.copy());
        assert(self@ == demolition_posted(s, target_order_id@, demo@)) by {
            reveal_strlit("completed");
            reveal_strlit("open");
            assert("completed"@.len() != "open"@.len());
        }
        Ok(demo)
    }

    /// Finish a demolition: a built road gives back its whole cost, a part-built plan what was contributed.
    /// The road goes, with its cells and its contributions. Returns the road and what it gives back.
    pub fn settle_demolition(&mut self, target_order_id: &str) -> (out: Option<(BuildOrder, Costs)>)
        ensures
            ({
                let s = old(self)@;
                let k = find(s.build_orders, is_order(target_order_id@));
                match out {
                    Some((road, refund)) => k < s.build_orders.len() && road@ == s.build_orders[k] && refund@
                        == refund_of(road@) && final(self)@ == settled_demolition(s, target_order_id@),
                    None => k >= s.build_orders.len() && final(self)@ == s,
                }
            }),
    {
        let k: usize = find_order(&self.build_orders, target_order_id);
        if k >= self.build_orders.len() {
            return None;
        }
        let target = self.build_orders.get(k).copy();
        let refund = if same(target.state.as_str(), "completed") {
            parse_cost(target.required_json.as_str())
        } else {
            parse_cost(target.progress_json.as_str())
        };
        let f = |c: &Contribution| -> (b: bool)
            ensures
                b == is_contribution_to(target_order_id@)(c@),
            { same(c.order_id.as_str(), target_order_id) };
        self.contributions.delete_where(f, Ghost(is_contribution_to(target_order_id@)));
        self.remove_plan(target_order_id);
        Some((target, refund))
    }
}

/// What re-routing a road came to.
#[derive(Debug, Clone, PartialEq, Eq)]
pub struct ReplanOutcome {
    /// Whether the new route was taken; an order that is not an open road takes none.
    pub applied: bool,
    /// Whether what was contributed already covers the new cost.
    pub completed: bool,
    /// On completion, what each contributor put in.
    pub contributors: Vec<(String, i64)>,
}

/// The view of a [`ReplanOutcome`].
pub struct ReplanOutcomeView {
    pub applied: bool,
    pub completed: bool,
    pub contributors: Seq<(Seq<char>, int)>,
}

impl View for ReplanOutcome {
    type V = ReplanOutcomeView;

    open spec fn view(&self) -> ReplanOutcomeView {
        ReplanOutcomeView {
            applied: self.applied,
            completed: self.completed,
            contributors: pairs_view(self.contributors@),
        }
    }
}

impl Default for ReplanOutcome {
    fn default() -> (r: ReplanOutcome)
        ensures
            r@ == (ReplanOutcomeView { applied: false, completed: false, contributors: Seq::empty() }),
    {
        let r = ReplanOutcome { applied: false, completed: false, contributors: Vec::new() };
        assert(r@.contributors =~= Seq::empty());
        r
    }
}

/// Quantities, none above what a cost asks of it.
pub open spec fn capped(p: Seq<(Seq<char>, int)>, required: Seq<(Seq<char>, int)>) -> Seq<(Seq<char>, int)> {
    Seq::new(
        p.len(),
        |i: int|
            (
                p[i].0,
                match lookup(required, p[i].0) {
                    Some(cap) => if p[i].1 <= cap {
                        p[i].1
                    } else {
                        cap
                    },
                    None => p[i].1,
                },
            ),
    )
}

pub open spec fn has_span(c: RoadCellSpecView) -> spec_fn(RoadCellView) -> bool {
    |o: RoadCellView| o.x0 == c.x0 && o.y0 == c.y0 && o.x1 == c.x1 && o.y1 == c.y1
}

/// What a re-routed road's cell keeps of the old cells' progress: that of the first cell with its span.
pub open spec fn kept_progress(old_cells: Seq<RoadCellView>, c: RoadCellSpecView) -> Option<Seq<(Seq<char>, int)>> {
    let k = find(old_cells, has_span(c));
    if k < old_cells.len() {
        Some(capped(cost_of(old_cells[k].progress_json), cost_of(c.required_json)))
    } else {
        None
    }
}

/// The progress that a re-routed road's cell starts with: what it keeps, or none.
pub open spec fn starting_progress(old_cells: Seq<RoadCellView>, c: RoadCellSpecView) -> Seq<(Seq<char>, int)> {
    match kept_progress(old_cells, c) {
        Some(p) => p,
        None => Seq::empty(),
    }
}

/// A re-routed road's cell.
pub open spec fn recut_cell(
    old_cells: Seq<RoadCellView>,
    order: Seq<char>,
    i: int,
    c: RoadCellSpecView,
    now: int,
) -> RoadCellView {
    let kept = kept_progress(old_cells, c);
    RoadCellView {
        order_id: order,
        cell_index: i,
        x0: c.x0,
        y0: c.y0,
        x1: c.x1,
        y1: c.y1,
        required_json: c.required_json,
        progress_json: match kept {
            Some(p) => json_text(p),
            None => "{}"@,
        },
        completed_at: match kept {
            Some(p) => if order_done(cost_of(c.required_json), p) {
                Some(now)
            } else {
                None
            },
            None => None,
        },
    }
}

/// A re-routed road's cells.
pub open spec fn recut(
    old_cells: Seq<RoadCellView>,
    order: Seq<char>,
    cells: Seq<RoadCellSpecView>,
    now: int,
) -> Seq<RoadCellView> {
    Seq::new(cells.len(), |i: int| recut_cell(old_cells, order, i, cells[i], now))
}

/// An order with a new route and cost; its progress stays.
pub open spec fn rerouted(
    o: BuildOrderView,
    district: Seq<char>,
    required_json: Seq<char>,
    path_json: Seq<char>,
    placement: BuildPlacementView,
) -> BuildOrderView {
    BuildOrderView {
        district,
        required_json,
        path_json: Some(path_json),
        structure_kind: Some(placement.structure_kind),
        x: Some(placement.x),
        y: Some(placement.y),
        x1: placement.x1,
        y1: placement.y1,
        ..o
    }
}

/// What re-routing leads to.
pub struct Replanned {
    pub db: DbView,
    pub out: ReplanOutcomeView,
}

/// An order that is a road still being built.
pub open spec fn open_road(s: DbView, order: Seq<char>) -> bool {
    let k = find(s.build_orders, is_order(order));
    k < s.build_orders.len() && s.build_orders[k].state == "open"@ && s.build_orders[k].path_json is Some
}

pub open spec fn replanned(
    s: DbView,
    order: Seq<char>,
    district: Seq<char>,
    required_json: Seq<char>,
    path_json: Seq<char>,
    placement: BuildPlacementView,
    cells: Seq<RoadCellSpecView>,
    now: int,
) -> Replanned {
    let k = find(s.build_orders, is_order(order));
    let o = s.build_orders[k];
    let db = DbView {
        build_orders: s.build_orders.update(k, rerouted(o, district, required_json, path_json, placement)),
        road_cells: s.road_cells.filter(not(is_cell_of(order))) + recut(
            cells_of(s.road_cells, order),
            order,
            cells,
            now,
        ),
        ..s
    };
    let done = order_done(cost_of(required_json), cost_of(o.progress_json));
    if !open_road(s, order) {
        Replanned {
            db: s,
            out: ReplanOutcomeView { applied: false, completed: false, contributors: Seq::empty() },
        }
    } else {
        Replanned {
            db: if done {
                order_completed(db, k, now)
            } else {
                db
            },
            out: ReplanOutcomeView {
                applied: true,
                completed: done,
                contributors: if done {
                    contributors_of(s.contributions, order)
                } else {
                    Seq::empty()
                },
            },
        }
    }
}

/// Cap quantities at what a cost asks of each.
fn cap_costs(p: &Costs, required: &Costs) -> (out: Costs)
    requires
        in_name_order(p@),
    ensures
        out@ == capped(p@, required@),
        in_name_order(out@),
{
    let mut entries: Vec<(String, i64)> = Vec::new();
    let mut i: usize = 0;
    while i < p.entries.len()
        invariant
            i <= p.entries.len(),
            pairs_view(entries@) == capped(p@, required@).take(i as int),
        decreases p.entries.len() - i,
    {
        let e = &p.entries[i];
        assert(p@[i as int] == (e.0@, e.1 as int));
        let v: i64 = match required.get(e.0.as_str()) {
            Some(cap) => if e.1 <= *cap {
                e.1
            } else {
                *cap
            },
            None => e.1,
        };
        let name = e.0.clone();
        let ghost was = entries@;
        entries.push((name, v));
        assert(pairs_view(entries@) =~= pairs_view(was).push((e.0@, v as int)));
        assert(capped(p@, required@).take(i + 1) =~= capped(p@, required@).take(i as int).push(
            capped(p@, required@)[i as int],
        ));
        i = i + 1;
    }
    let out = Costs { entries };
    assert(out@ =~= capped(p@, required@));
    assert forall|a: int, b: int| 0 <= a < b < out@.len() implies text_before(
        (#[trigger] out@[a]).0,
        (#[trigger] out@[b]).0,
    ) by {
        assert(out@[a].0 == p@[a].0 && out@[b].0 == p@[b].0);
    }
    out
}

/// Cut one cell of a re-routed road.
fn recut_cell_of(old_cells: &Vec<RoadCell>, order_id: &str, i: usize, c: &RoadCellSpec, now: i64) -> (cell:
    RoadCell)
    requires
        i <= i64::MAX,
    ensures
        cell@ == recut_cell(rows_view(old_cells@), order_id@, i as int, c@, now as int),
        cost_of(cell@.progress_json) == starting_progress(rows_view(old_cells@), c@),
{
    let ghost olds = rows_view(old_cells@);
    let mut k: usize = 0;
    while k < old_cells.len() && !(old_cells[k].x0 == c.x0 && old_cells[k].y0 == c.y0 && old_cells[k].x1 == c.x1
        && old_cells[k].y1 == c.y1)
        invariant
            k <= old_cells.len(),
            olds == rows_view(old_cells@),
            forall|j: int| 0 <= j < k ==> !has_span(c@)(#[trigger] olds[j]),
        decreases old_cells.len() - k,
    {
        assert(olds[k as int] == old_cells@[k as int]@);
        k = k + 1;
    }
    proof {
        if k < olds.len() {
            assert(olds[k as int] == old_cells@[k as int]@);
        }
        lemma_find_is(olds, has_span(c@), k as int);
    }
    let none = Costs::default();
    let mut progress_json = dump_cost(&none);
    let mut completed_at: Option<i64> = None;
    if k < old_cells.len() {
        let required = parse_cost(c.required_json.as_str());
        let was = parse_cost(old_cells[k].progress_json.as_str());
        let kept = cap_costs(&was, &required);
        progress_json = dump_cost(&kept);
        if required.entries.len() > 0 && covers(&required, &kept) {
            completed_at = Some(now);
        }
    }
    RoadCell {
        order_id: order_id.to_string(),
        cell_index: i as i64,
        x0: c.x0,
        y0: c.y0,
        x1: c.x1,
        y1: c.y1,
        required_json: c.required_json.clone(),
        progress_json,
        completed_at,
    }
}

/// An open road order without progress.
pub open spec fn pristine(s: DbView, order: Seq<char>) -> bool {
    open_road(s, order) && s.build_orders[find(s.build_orders, is_order(order))].progress_json == "{}"@
}

/// The state without an order and its cells.
pub open spec fn plan_removed(s: DbView, order: Seq<char>) -> DbView {
    DbView {
        road_cells: s.road_cells.filter(not(is_cell_of(order))),
        build_orders: s.build_orders.filter(not(is_order(order))),
        ..s
    }
}

pub open spec fn is_kind(kind: Seq<char>) -> spec_fn(BuildOrderView) -> bool {
    |o: BuildOrderView| o.kind == kind
}

/// The kind of the order that demolishes a road.
pub open spec fn demolition_kind(order: Seq<char>) -> Seq<char> {
    "demo_"@ + order
}

fn demolition_name(order_id: &str) -> (kind: String)
    ensures
        kind@ == demolition_kind(order_id@),
{
    let mut kind = "demo_".to_string();
    kind.append(order_id);
    kind
}

/// Why a road cannot be demolished, if so.
pub open spec fn refusal_to_demolish(s: DbView, target: Seq<char>) -> Option<Seq<char>> {
    let k = find(s.build_orders, is_order(target));
    let o = s.build_orders[k];
    let kind = demolition_kind(target);
    if k >= s.build_orders.len() {
        Some("no such order"@)
    } else if o.path_json is None {
        Some("that order is not a road"@)
    } else if find(s.build_orders, is_kind(kind)) < s.build_orders.len() {
        Some("a demolition for that road is already posted"@)
    } else if o.state == "completed"@ {
        None
    } else if o.state != "open"@ {
        Some("that road can't be demolished right now"@)
    } else if o.progress_json == "{}"@ {
        Some("nothing built there yet — cancel the plan instead"@)
    } else {
        None
    }
}

/// The order that demolishes a road.
pub open spec fn demolition_of(s: DbView, target: Seq<char>, now: int, id: Seq<char>) -> BuildOrderView {
    let o = s.build_orders[find(s.build_orders, is_order(target))];
    BuildOrderView {
        id,
        district: o.district,
        kind: demolition_kind(target),
        required_json: "{\"tool_kit\":1}"@,
        progress_json: "{}"@,
        state: "open"@,
        issued_at: now,
        completed_at: None,
        required_skill: None,
        required_level: 0,
        structure_kind: None,
        x: None,
        y: None,
        x1: None,
        y1: None,
        path_json: o.path_json,
    }
}

/// The state with a demolition posted; an open plan takes no more contributions.
pub open spec fn demolition_posted(s: DbView, target: Seq<char>, demo: BuildOrderView) -> DbView {
    let k = find(s.build_orders, is_order(target));
    let o = s.build_orders[k];
    let orders = if o.state == "open"@ {
        s.build_orders.update(k, BuildOrderView { state: "demolishing"@, ..o })
    } else {
        s.build_orders
    };
    DbView { build_orders: orders.push(demo), ..s }
}

/// What a demolished road gives back.
pub open spec fn refund_of(o: BuildOrderView) -> Seq<(Seq<char>, int)> {
    if o.state == "completed"@ {
        cost_of(o.required_json)
    } else {
        cost_of(o.progress_json)
    }
}

/// The state once a road is gone.
pub open spec fn settled_demolition(s: DbView, target: Seq<char>) -> DbView {
    plan_removed(
        DbView { contributions: s.contributions.filter(not(is_contribution_to(target))), ..s },
        target,
    )
}

/// A contribution to a cell moves no more than is offered, needed and carried; what moves leaves the
/// contributor, wages follow it, and the ledger records them.
pub proof fn law_a_cell_contribution_is_bounded(
    s: DbView,
    character: Seq<char>,
    order: Seq<char>,
    index: int,
    item: Seq<char>,
    qty: int,
    rate: int,
    now: int,
    id: Seq<char>,
)
    requires
        packed(s.inventory),
        has_character(s.characters, character),
    ensures
        ({
            let t = cell_contribution(s, character, order, index, item, qty, rate, now, id);
            let cell = s.road_cells[find(s.road_cells, is_cell(order, index))];
            &&& 0 <= t.out.moved <= carried(s.inventory, character, item)
            &&& t.out.moved > 0 ==> t.out.moved <= qty && t.out.moved <= still_needed(
                cost_of(cell.required_json),
                cost_of(cell.progress_json),
                item,
            )
            &&& carried(t.db.inventory, character, item) == carried(s.inventory, character, item) - t.out.moved
            &&& t.out.wages == wages_for(t.out.moved, rate)
            &&& supply_gap(t.db) == supply_gap(s)
            &&& wealth(t.db) == wealth(s) + t.out.wages
        }),
{
    let k = find(s.build_orders, is_order(order));
    let c = find(s.road_cells, is_cell(order, index));
    let o = s.build_orders[k];
    let cell = s.road_cells[c];
    let moved = moves(s, character, item, qty, cost_of(cell.required_json), cost_of(cell.progress_json));
    lemma_carried_bound(s.inventory, character, item);
    lemma_dropped(s.inventory, character, item, moved, id, character, item);
    let f = cell_fed(s, c, item, moved, now);
    let mid = DbView {
        inventory: dropped(f.inventory, character, item, moved, id),
        build_orders: f.build_orders.update(
            k,
            BuildOrderView { progress_json: json_text(added(cost_of(o.progress_json), item, moved)), ..o },
        ),
        contributions: credited_to(f.contributions, o.id, character, moved),
        ..f
    };
    let r = if rate > 0 {
        rate
    } else {
        0
    };
    assert(moved * r >= 0) by (nonlinear_arith)
        requires
            moved >= 0,
            r >= 0,
    ;
    assert(0 * r == 0) by (nonlinear_arith);
    law_minting_is_ledgered(mid, character, wages_for(moved, rate), "build_wage"@, now);
}

/// A road is done once every one of its cells is: a contribution that moves something completes the order exactly where
/// each cell covers its own cost after it.
pub proof fn law_a_road_is_done_once_every_cell_is(
    s: DbView,
    character: Seq<char>,
    order: Seq<char>,
    index: int,
    item: Seq<char>,
    qty: int,
    rate: int,
    now: int,
    id: Seq<char>,
)
    ensures
        ({
            let t = cell_contribution(s, character, order, index, item, qty, rate, now, id);
            let k = find(s.build_orders, is_order(order));
            let cell = s.road_cells[find(s.road_cells, is_cell(order, index))];
            t.out.moved > 0 ==> {
                &&& t.out.order_completed == road_built(t.db.road_cells, order)
                &&& (t.db.build_orders[k].state == "completed"@) == t.out.order_completed
                &&& t.out.cell_completed == covered(cost_of(cell.required_json), t.out.progress)
            }
        }),
{
    let k = find(s.build_orders, is_order(order));
    lemma_find(s.build_orders, is_order(order));
    assert("open"@ != "completed"@) by {
        reveal_strlit("open");
        reveal_strlit("completed");
        assert("open"@.len() == 4);
        assert("completed"@.len() == 9);
    }
}

/// Re-routing a road loses nothing that was contributed: the order's progress stays as it was, and so do all
/// contributions and every other road's cells.
#[verifier::rlimit(40)]
pub proof fn law_replanning_keeps_progress(
    s: DbView,
    order: Seq<char>,
    district: Seq<char>,
    required_json: Seq<char>,
    path_json: Seq<char>,
    placement: BuildPlacementView,
    cells: Seq<RoadCellSpecView>,
    now: int,
)
    ensures
        ({
            let t = replanned(s, order, district, required_json, path_json, placement, cells, now).db;
            let k = find(s.build_orders, is_order(order));
            &&& t.contributions == s.contributions
            &&& t.build_orders.len() == s.build_orders.len()
            &&& forall|i: int|
                0 <= i < s.build_orders.len() ==> (#[trigger] t.build_orders[i]).progress_json
                    == s.build_orders[i].progress_json && (i != k ==> t.build_orders[i] == s.build_orders[i])
            &&& t.road_cells.filter(not(is_cell_of(order))) == s.road_cells.filter(not(is_cell_of(order)))
        }),
{
    let t = replanned(s, order, district, required_json, path_json, placement, cells, now).db;
    let k = find(s.build_orders, is_order(order));
    let old_cells = cells_of(s.road_cells, order);
    lemma_find(s.build_orders, is_order(order));
    let p = not(is_cell_of(order));
    let rest = s.road_cells.filter(p);
    let cut = recut(old_cells, order, cells, now);
    assert forall|i: int| 0 <= i < rest.len() implies #[trigger] p(rest[i]) by {
        s.road_cells.lemma_filter_pred(p, i);
    }
    lemma_filter_keeps(rest, cut, p);
}

/// Quantities of which none is above what a cost asks.
pub open spec fn within(p: Seq<(Seq<char>, int)>, required: Seq<(Seq<char>, int)>) -> bool {
    forall|i: int|
        0 <= i < p.len() ==> match lookup(required, (#[trigger] p[i]).0) {
            Some(cap) => p[i].1 <= cap,
            None => true,
        }
}

/// A cell that a re-routing leaves where it was, and whose progress is within its new cost, keeps that
/// progress, and is done if it covers the cost.
pub proof fn law_an_unchanged_span_keeps_its_progress(
    old_cells: Seq<RoadCellView>,
    order: Seq<char>,
    i: int,
    c: RoadCellSpecView,
    now: int,
    j: int,
)
    requires
        0 <= j < old_cells.len(),
        j == find(old_cells, has_span(c)),
        within(cost_of(old_cells[j].progress_json), cost_of(c.required_json)),
    ensures
        recut_cell(old_cells, order, i, c, now).progress_json == json_text(cost_of(old_cells[j].progress_json)),
        recut_cell(old_cells, order, i, c, now).completed_at is Some <==> order_done(
            cost_of(c.required_json),
            cost_of(old_cells[j].progress_json),
        ),
{
    let was = cost_of(old_cells[j].progress_json);
    assert(capped(was, cost_of(c.required_json)) =~= was);
}

/// A plan that can be cancelled cannot be demolished, and the other way round: what was contributed is never
/// thrown away.
pub proof fn law_cancelling_and_demolishing_exclude_each_other(s: DbView, order: Seq<char>)
    ensures
        pristine(s, order) ==> refusal_to_demolish(s, order) is Some,
        refusal_to_demolish(s, order) is None ==> !pristine(s, order),
{
    reveal_strlit("completed");
    reveal_strlit("open");
    assert("completed"@.len() != "open"@.len());
}

/// A road is demolished once: with its demolition posted, a second one is refused.
pub proof fn law_a_demolition_is_posted_once(s: DbView, target: Seq<char>, now: int, id: Seq<char>)
    requires
        refusal_to_demolish(s, target) is None,
    ensures
        refusal_to_demolish(
            demolition_posted(s, target, demolition_of(s, target, now, id)),
            target,
        ) == Some("a demolition for that road is already posted"@),
{
    let demo = demolition_of(s, target, now, id);
    let t = demolition_posted(s, target, demo);
    let k = find(s.build_orders, is_order(target));
    lemma_find(s.build_orders, is_order(target));
    assert forall|i: int| 0 <= i < k implies !is_order(target)(#[trigger] t.build_orders[i]) by {
        assert(t.build_orders[i] == s.build_orders[i]);
    }
    lemma_find_is(t.build_orders, is_order(target), k);
    lemma_find(t.build_orders, is_kind(demolition_kind(target)));
    assert(t.build_orders[t.build_orders.len() - 1] == demo);
    assert(is_kind(demolition_kind(target))(demo));
}

/// A plan under demolition takes no more contributions.
pub proof fn law_a_plan_under_demolition_is_closed(
    s: DbView,
    target: Seq<char>,
    demo: BuildOrderView,
    character: Seq<char>,
    item: Seq<char>,
    qty: int,
    rate: int,
    now: int,
    id: Seq<char>,
)
    requires
        refusal_to_demolish(s, target) is None,
    ensures
        contribution(demolition_posted(s, target, demo), character, target, item, qty, rate, now, id).db
            == demolition_posted(s, target, demo),
        contribution(
            demolition_posted(s, target, demo),
            character,
            target,
            item,
            qty,
            rate,
            now,
            id,
        ).out.moved == 0,
{
    let t = demolition_posted(s, target, demo);
    let k = find(s.build_orders, is_order(target));
    lemma_find(s.build_orders, is_order(target));
    assert forall|i: int| 0 <= i < k implies !is_order(target)(#[trigger] t.build_orders[i]) by {
        assert(t.build_orders[i] == s.build_orders[i]);
    }
    lemma_find_is(t.build_orders, is_order(target), k);
    reveal_strlit("completed");
    reveal_strlit("open");
    reveal_strlit("demolishing");
    assert("completed"@.len() != "open"@.len());
    assert("demolishing"@.len() != "open"@.len());
    law_only_open_orders_take_contributions(t, character, target, item, qty, rate, now, id);
}

/// Filtering keeps what satisfies the predicate and drops what does not.
proof fn lemma_filter_keeps(kept: Seq<RoadCellView>, dropped: Seq<RoadCellView>, p: spec_fn(RoadCellView) -> bool)
    requires
        forall|i: int| 0 <= i < kept.len() ==> #[trigger] p(kept[i]),
        forall|i: int| 0 <= i < dropped.len() ==> !(#[trigger] p(dropped[i])),
    ensures
        (kept + dropped).filter(p) == kept,
    decreases kept.len() + dropped.len(),
{
    reveal(Seq::filter);
    let all = kept + dropped;
    if dropped.len() > 0 {
        assert(all.drop_last() =~= kept + dropped.drop_last());
        assert(all.last() == dropped[dropped.len() - 1]);
        assert(!p(dropped[dropped.len() - 1]));
        assert forall|i: int| 0 <= i < dropped.drop_last().len() implies !(#[trigger] p(
            dropped.drop_last()[i],
        )) by {
            assert(dropped.drop_last()[i] == dropped[i]);
        }
        lemma_filter_keeps(kept, dropped.drop_last(), p);
    } else if kept.len() > 0 {
        assert(all =~= kept);
        assert(p(kept[kept.len() - 1]));
        assert forall|i: int| 0 <= i < kept.drop_last().len() implies #[trigger] p(kept.drop_last()[i]) by {
            assert(kept.drop_last()[i] == kept[i]);
        }
        lemma_filter_keeps(kept.drop_last(), dropped, p);
        assert(kept.drop_last() + dropped =~= kept.drop_last());
        assert(kept.drop_last().push(kept.last()) =~= kept);
    } else {
        assert(all.filter(p) =~= kept);
    }
}

} // verus!
