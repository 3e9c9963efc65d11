//! Laying the capital out in an empty city: its plots and its first build orders.

use vstd::prelude::*;

use crate::persistence::building::{is_completed, new_order};
use crate::persistence::db::{Db, DbView};
use crate::persistence::rows::{BuildOrderView, BuildPlacement, BuildPlacementView, PlotView};
use crate::table::rows_view;
use crate::text::same;
use crate::world::capital::{all_plots, districts_fit, labelled_view, Capital, CapitalView};
use crate::world::geometry::PlotCellView;
use crate::world::spawns::{SeedBuildOrder, SeedBuildOrderView};

verus! {

/// A plot of the layout, before anybody owns it.
pub open spec fn unowned(id: Seq<char>, district: Seq<char>, c: PlotCellView) -> PlotView {
    PlotView {
        id,
        owner_character_id: None,
        district,
        grid_x: c.grid_x,
        grid_y: c.grid_y,
        w: c.w,
        h: c.h,
        tier: c.tier,
        rent_due_at: None,
        rent_paid_through: None,
        state: "unowned"@,
        auto_pay: false,
        warned: false,
    }
}

/// The plots of a layout, under these ids.
pub open spec fn plots_laid(cells: Seq<(Seq<char>, PlotCellView)>, ids: Seq<Seq<char>>) -> Seq<PlotView> {
    Seq::new(cells.len(), |i: int| unowned(ids[i], cells[i].0, cells[i].1))
}

/// Whether an order of a kind was posted in a district, whatever became of it.
pub open spec fn is_posted(orders: Seq<BuildOrderView>, district: Seq<char>, kind: Seq<char>) -> bool {
    exists|i: int| 0 <= i < orders.len() && (#[trigger] orders[i]).district == district && orders[i].kind == kind
}

/// Whether what an order waits for is done; an order that waits for nothing may open at once.
pub open spec fn is_unlocked(orders: Seq<BuildOrderView>, prereq: Option<Seq<char>>) -> bool {
    match prereq {
        Some(kind) => exists|i: int| 0 <= i < orders.len() && is_completed(kind)(#[trigger] orders[i]),
        None => true,
    }
}

/// The orders after one of the layout is posted, unless it was already.
pub open spec fn order_seeded(orders: Seq<BuildOrderView>, o: SeedBuildOrderView, now: int, id: Seq<char>) -> Seq<
    BuildOrderView,
> {
    if is_posted(orders, o.district, o.kind) {
        orders
    } else {
        orders.push(
            new_order(
                id,
                o.district,
                o.kind,
                o.required_json,
                if is_unlocked(orders, o.prereq) {
                    "open"@
                } else {
                    "locked"@
                },
                now,
                o.required_skill,
                o.required_level,
                Some(
                    BuildPlacementView {
                        structure_kind: o.structure_kind,
                        x: o.structure_x,
                        y: o.structure_y,
                        x1: None,
                        y1: None,
                    },
                ),
                None,
            ),
        )
    }
}

/// The orders after those of the layout are posted in turn.
pub open spec fn orders_seeded(
    orders: Seq<BuildOrderView>,
    seeds: Seq<SeedBuildOrderView>,
    now: int,
    ids: Seq<Seq<char>>,
) -> Seq<BuildOrderView>
    decreases seeds.len(),
{
    if seeds.len() == 0 {
        orders
    } else {
        order_seeded(
            orders_seeded(orders, seeds.drop_last(), now, ids.drop_last()),
            seeds.last(),
            now,
            ids.last(),
        )
    }
}

/// The state with the capital laid out: its plots where there are none yet, and each of its build orders once.
pub open spec fn seeded(
    s: DbView,
    c: CapitalView,
    now: int,
    plot_ids: Seq<Seq<char>>,
    order_ids: Seq<Seq<char>>,
) -> DbView {
    DbView {
        plots: if s.plots.len() == 0 {
            plots_laid(all_plots(c.districts), plot_ids)
        } else {
            s.plots
        },
        build_orders: orders_seeded(s.build_orders, c.build_orders, now, order_ids),
        ..s
    }
}

impl Db {
    /// Lay out plots.
    fn seed_plots(&mut self, capital: &Capital) -> (ids: Ghost<Seq<Seq<char>>>)
        requires
            districts_fit(capital@.districts),
            old(self)@.plots.len() == 0,
        ensures
            final(self)@ == (DbView {
                plots: plots_laid(all_plots(capital@.districts), ids@),
                ..old(self)@
            }),
    {
        let ghost s = self@;
        let cells = capital.starter_plots();
        let ghost all = labelled_view(cells@);
        let ghost mut ids = Seq::<Seq<char>>::empty();
        let mut i: usize = 0;
        assert(self@.plots =~= plots_laid(all, ids).take(0));
        while i < cells.len()
            invariant
                i <= cells.len(),
                all == labelled_view(cells@),
                ids.len() == i,
                self@ == (DbView { plots: self@.plots, ..s }),
                self@.plots.len() == i,
                forall|j: int| 0 <= j < i ==> #[trigger] self@.plots[j] == unowned(ids[j], all[j].0, all[j].1),
            decreases cells.len() - i,
        {
            let (district, c) = cells[i];
            let p = self.insert_unowned_plot(
                district,
                c.grid_x as i64,
                c.grid_y as i64,
                c.w as i64,
                c.h as i64,
                c.tier,
            );
            proof {
                assert(all[i as int] == (district@, c@));
                ids = ids.push(p@.id);
            }
            i = i + 1;
        }
        assert(self@.plots =~= plots_laid(all, ids));
        Ghost(ids)
    }

    /// Post one build order of the layout, unless its kind was posted in its district already.
    fn seed_order(&mut self, o: &SeedBuildOrder, now: i64) -> (id: Ghost<Seq<char>>)
        ensures
            final(self)@ == (DbView {
                build_orders: order_seeded(old(self)@.build_orders, o@, now as int, id@),
                ..old(self)@
            }),
    {
        let ghost orders = self@.build_orders;
        let mut i: usize = 0;
        while i < self.build_orders.len()
            invariant
                i <= self@.build_orders.len(),
                self@ == old(self)@,
                orders == self@.build_orders,
                forall|j: int|
                    0 <= j < i ==> !((#[trigger] orders[j]).district == o@.district && orders[j].kind == o@.kind),
            decreases self@.build_orders.len() - i,
        {
            let b = self.build_orders.get(i);
            if same(b.district.as_str(), o.district) && same(b.kind.as_str(), o.kind) {
                assert(orders[i as int].district == o@.district);
                return Ghost(Seq::empty());
            }
            i = i + 1;
        }
        let unlocked: bool = match o.prereq {
            None => true,
            Some(kind) => self.is_build_kind_completed(kind),
        };
        let state: &str = if unlocked {
            "open"
        } else {
            "locked"
        };
        let placement = Some(
            BuildPlacement {
                structure_kind: o.structure_kind.to_string(),
                x: o.structure_x as i64,
                y: o.structure_y as i64,
                x1: None,
                y1: None,
            },
        );
        let order = self.insert_build_order(
            o.district,
            o.kind,
            o.required_json,
            state,
            now,
            o.required_skill,
            o.required_level,
            placement,
            None,
        );
        Ghost(order@.id)
    }

    /// Lay the capital out: its plots, as owned by nobody, where the city has none yet, and its first build
    /// orders, each once in its district. An order that waits for another opens at once where that is already
    /// completed, and is locked otherwise. Calling this again changes nothing.
    pub fn seed_capital(&mut self, capital: &Capital, now: i64)
        requires
            districts_fit(capital@.districts),
        ensures
            exists|plot_ids: Seq<Seq<char>>, order_ids: Seq<Seq<char>>|
                order_ids.len() == capital@.build_orders.len() && final(self)@ == #[trigger] seeded(
                    old(self)@,
                    capital@,
                    now as int,
                    plot_ids,
                    order_ids,
                ),
    {
        let ghost s = self@;
        let ghost mut plot_ids = Seq::<Seq<char>>::empty();
        if self.plots.len() == 0 {
            let ids = self.seed_plots(capital);
            proof {
                plot_ids = ids@;
            }
        }
        let ghost plots = self@.plots;
        let ghost seeds = capital@.build_orders;
        let ghost mut ids = Seq::<Seq<char>>::empty();
        let mut i: usize = 0;
        assert(seeds.take(0) =~= Seq::empty());
        while i < capital.build_orders.len()
            invariant
                i <= capital.build_orders.len(),
                seeds == rows_view(capital.build_orders@),
                ids.len() == i,
                self@ == (DbView {
                    plots,
                    build_orders: orders_seeded(s.build_orders, seeds.take(i as int), now as int, ids),
                    ..s
                }),
            decreases capital.build_orders.len() - i,
        {
            let id = self.seed_order(&capital.build_orders[i], now);
            proof {
                assert(seeds[i as int] == capital.build_orders@[i as int]@);
                assert(seeds.take(i + 1).drop_last() =~= seeds.take(i as int));
                assert(seeds.take(i + 1).last() == seeds[i as int]);
                assert(ids.push(id@).drop_last() =~= ids);
                ids = ids.push(id@);
            }
            i = i + 1;
        }
        assert(seeds.take(i as int) =~= seeds);
        assert(self@ == seeded(s, capital@, now as int, plot_ids, ids));
    }
}

/// Posting keeps what was posted, and posts the layout's orders.
proof fn lemma_orders_seeded(
    orders: Seq<BuildOrderView>,
    seeds: Seq<SeedBuildOrderView>,
    now: int,
    ids: Seq<Seq<char>>,
)
    ensures
        orders.len() <= orders_seeded(orders, seeds, now, ids).len(),
        forall|i: int|
            0 <= i < orders.len() ==> #[trigger] orders_seeded(orders, seeds, now, ids)[i] == orders[i],
        forall|j: int|
            0 <= j < seeds.len() ==> is_posted(
                orders_seeded(orders, seeds, now, ids),
                (#[trigger] seeds[j]).district,
                seeds[j].kind,
            ),
    decreases seeds.len(),
{
    if seeds.len() > 0 {
        let head = seeds.drop_last();
        let before = orders_seeded(orders, head, now, ids.drop_last());
        let after = orders_seeded(orders, seeds, now, ids);
        lemma_orders_seeded(orders, head, now, ids.drop_last());
        assert forall|j: int| 0 <= j < seeds.len() implies is_posted(
            after,
            (#[trigger] seeds[j]).district,
            seeds[j].kind,
        ) by {
            if j < head.len() {
                assert(head[j] == seeds[j]);
                let i = choose|i: int|
                    0 <= i < before.len() && (#[trigger] before[i]).district == seeds[j].district && before[i].kind
                        == seeds[j].kind;
                assert(after[i] == before[i]);
            } else if !is_posted(before, seeds.last().district, seeds.last().kind) {
                assert(after[after.len() - 1].district == seeds[j].district);
            }
        }
    }
}

/// Where everything is posted, nothing more is.
proof fn lemma_nothing_to_seed(
    orders: Seq<BuildOrderView>,
    seeds: Seq<SeedBuildOrderView>,
    now: int,
    ids: Seq<Seq<char>>,
)
    requires
        forall|j: int|
            0 <= j < seeds.len() ==> is_posted(orders, (#[trigger] seeds[j]).district, seeds[j].kind),
    ensures
        orders_seeded(orders, seeds, now, ids) == orders,
    decreases seeds.len(),
{
    if seeds.len() > 0 {
        assert forall|j: int| 0 <= j < seeds.drop_last().len() implies is_posted(
            orders,
            (#[trigger] seeds.drop_last()[j]).district,
            seeds.drop_last()[j].kind,
        ) by {
            assert(seeds.drop_last()[j] == seeds[j]);
        }
        lemma_nothing_to_seed(orders, seeds.drop_last(), now, ids.drop_last());
        assert(is_posted(orders, seeds[seeds.len() - 1].district, seeds[seeds.len() - 1].kind));
    }
}

/// Seeding is safe to repeat: a second time, whenever that is, changes nothing.
pub proof fn law_seeding_is_idempotent(
    s: DbView,
    c: CapitalView,
    now: int,
    plot_ids: Seq<Seq<char>>,
    order_ids: Seq<Seq<char>>,
    again: int,
    other_plot_ids: Seq<Seq<char>>,
    other_order_ids: Seq<Seq<char>>,
)
    ensures
        ({
            let t = seeded(s, c, now, plot_ids, order_ids);
            seeded(t, c, again, other_plot_ids, other_order_ids) == t
        }),
{
    let t = seeded(s, c, now, plot_ids, order_ids);
    lemma_orders_seeded(s.build_orders, c.build_orders, now, order_ids);
    lemma_nothing_to_seed(t.build_orders, c.build_orders, again, other_order_ids);
    if t.plots.len() == 0 {
        assert(plots_laid(all_plots(c.districts), other_plot_ids) =~= t.plots);
    }
}

/// Seeding keeps every plot that is owned and every order that was posted, with its progress.
pub proof fn law_seeding_keeps_what_is_there(
    s: DbView,
    c: CapitalView,
    now: int,
    plot_ids: Seq<Seq<char>>,
    order_ids: Seq<Seq<char>>,
)
    ensures
        ({
            let t = seeded(s, c, now, plot_ids, order_ids);
            &&& s.plots.len() > 0 ==> t.plots == s.plots
            &&& s.build_orders.len() <= t.build_orders.len()
            &&& forall|i: int| 0 <= i < s.build_orders.len() ==> #[trigger] t.build_orders[i] == s.build_orders[i]
        }),
{
    lemma_orders_seeded(s.build_orders, c.build_orders, now, order_ids);
}

} // verus!
