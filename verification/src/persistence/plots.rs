//! Plots: claiming one, paying its rent, and losing it.

use vstd::prelude::*;

use crate::persistence::db::{Db, DbView};
use crate::persistence::ids::new_id;
use crate::persistence::market::DbError;
use crate::persistence::purse::{
    find_character, gold_of, has_character, is_character, ledger_gold_in_tx, ledgered, lemma_ledgered,
    lemma_paid, paid, pay_in_tx, supply, supply_gap, wealth,
};
use crate::persistence::rows::{Plot, PlotRosterRow, PlotRosterRowView, PlotView};
use crate::table::{
    find, law_ordered, lemma_filter_all, lemma_find, lemma_find_is, lemma_ordered_contains, order_rows,
    ordered, orders_rows, rows_view, Row, Table,
};
use crate::text::{copy_opt_text, opt_text, same};

verus! {

pub open spec fn is_plot(id: Seq<char>) -> spec_fn(PlotView) -> bool {
    |p: PlotView| p.id == id
}

/// A plot whose owner still holds it, whether or not the rent is overdue.
pub open spec fn is_held(p: PlotView) -> bool {
    p.state == "active"@ || p.state == "lapsed"@
}

pub open spec fn is_held_by(character: Seq<char>) -> spec_fn(PlotView) -> bool {
    |p: PlotView| p.owner_character_id == Some(character) && is_held(p)
}

pub open spec fn is_rented() -> spec_fn(PlotView) -> bool {
    |p: PlotView| p.owner_character_id is Some && is_held(p)
}

/// A plot that can be claimed.
pub open spec fn is_free_in(district: Seq<char>) -> spec_fn(PlotView) -> bool {
    |p: PlotView| p.district == district && p.owner_character_id is None
}

pub open spec fn is_plot_in(district: Seq<char>) -> spec_fn(PlotView) -> bool {
    |p: PlotView| p.district == district
}

/// Plots by row, then by column.
pub open spec fn grid_before() -> spec_fn(PlotView, PlotView) -> bool {
    |a: PlotView, b: PlotView| a.grid_y < b.grid_y || a.grid_y == b.grid_y && a.grid_x < b.grid_x
}

/// The view of an optional plot.
pub open spec fn opt_plot(p: Option<Plot>) -> Option<PlotView> {
    match p {
        Some(q) => Some(q@),
        None => None,
    }
}

/// The plot at a position, where there is one.
pub open spec fn plot_at(plots: Seq<PlotView>, k: int) -> Option<PlotView> {
    if 0 <= k < plots.len() {
        Some(plots[k])
    } else {
        None
    }
}

/// The plot a character holds.
pub open spec fn held_plot(plots: Seq<PlotView>, character: Seq<char>) -> Option<PlotView> {
    plot_at(plots, find(plots, is_held_by(character)))
}

/// The free plots of a district, in the order in which they are given out.
pub open spec fn free_plots(plots: Seq<PlotView>, district: Seq<char>) -> Seq<PlotView> {
    ordered(plots.filter(is_free_in(district)), grid_before())
}

/// A plot as its new owner gets it.
pub open spec fn taken(p: PlotView, character: Seq<char>, period: int, now: int) -> PlotView {
    PlotView {
        owner_character_id: Some(character),
        state: "active"@,
        rent_paid_through: Some(now),
        rent_due_at: Some(now + period),
        ..p
    }
}

/// What claiming a plot leads to.
pub struct Claimed {
    pub plots: Seq<PlotView>,
    pub plot: Option<PlotView>,
}

/// Claiming a plot: who holds one keeps it; else the first free plot of the district is given out, if any.
pub open spec fn claim(
    plots: Seq<PlotView>,
    character: Seq<char>,
    district: Seq<char>,
    period: int,
    now: int,
) -> Claimed {
    let free = free_plots(plots, district);
    let k = find(plots, is_plot(free[0].id));
    if held_plot(plots, character) is Some {
        Claimed { plots, plot: held_plot(plots, character) }
    } else if free.len() == 0 {
        Claimed { plots, plot: None }
    } else {
        Claimed {
            plots: if k < plots.len() {
                plots.update(k, taken(plots[k], character, period, now))
            } else {
                plots
            },
            plot: Some(taken(free[0], character, period, now)),
        }
    }
}

/// The time from which a payment extends a plot's rent: the later of now and when it falls due.
pub open spec fn rent_base(p: PlotView, now: int) -> int {
    match p.rent_due_at {
        Some(t) => if t > now {
            t
        } else {
            now
        },
        None => now,
    }
}

/// A plot with one more period of rent paid.
pub open spec fn rent_paid(p: PlotView, period: int, now: int) -> PlotView {
    PlotView {
        rent_paid_through: Some(rent_base(p, now)),
        rent_due_at: Some(rent_base(p, now) + period),
        state: "active"@,
        warned: false,
        ..p
    }
}

/// The plots after a period of rent is paid on one of them.
pub open spec fn rent_paid_on(plots: Seq<PlotView>, id: Seq<char>, period: int, now: int) -> Seq<PlotView> {
    let k = find(plots, is_plot(id));
    if k < plots.len() {
        plots.update(k, rent_paid(plots[k], period, now))
    } else {
        plots
    }
}

/// A payment on a plot gives a time that can be counted.
pub open spec fn rent_countable(plots: Seq<PlotView>, id: Seq<char>, period: int, now: int) -> bool {
    let k = find(plots, is_plot(id));
    k < plots.len() ==> i64::MIN <= rent_base(plots[k], now) + period <= i64::MAX
}

/// The state after a character pays gold for a plot's rent. The gold is destroyed.
pub open spec fn rent_bought(
    s: DbView,
    character: Seq<char>,
    plot: Seq<char>,
    cost: int,
    period: int,
    now: int,
) -> DbView {
    DbView {
        characters: paid(s.characters, character, -cost),
        ledger: ledgered(s.ledger, character, -cost, "rent"@, now),
        plots: rent_paid_on(s.plots, plot, period, now),
        ..s
    }
}

pub open spec fn owns(plots: Seq<PlotView>, character: Seq<char>, plot: Seq<char>) -> bool {
    let k = find(plots, is_plot(plot));
    k < plots.len() && plots[k].owner_character_id == Some(character)
}

/// When a plot's rent falls due; never, where no date is set.
pub open spec fn due_at(p: PlotView) -> int {
    match p.rent_due_at {
        Some(t) => t,
        None => i64::MAX as int,
    }
}

/// The state that a plot moves to as time passes, where it moves.
pub open spec fn rent_lapse(p: PlotView, now: int, grace: int) -> Option<Seq<char>> {
    let due = due_at(p);
    if p.state == "active"@ && now > due {
        Some("lapsed"@)
    } else if p.state == "lapsed"@ && now > due + grace {
        Some("reclaimed"@)
    } else {
        None
    }
}

/// A plot as time passes: an active one lapses once past due, a lapsed one returns to the pool once past the
/// grace window.
pub open spec fn rent_ticked(p: PlotView, now: int, grace: int) -> PlotView {
    match rent_lapse(p, now, grace) {
        Some(state) => if state == "reclaimed"@ {
            PlotView {
                state,
                owner_character_id: None,
                rent_due_at: None,
                rent_paid_through: None,
                ..p
            }
        } else {
            PlotView { state, ..p }
        },
        None => p,
    }
}

/// A plot with its owner's name.
pub open spec fn roster_row(s: DbView, p: PlotView) -> PlotRosterRowView {
    PlotRosterRowView {
        id: p.id,
        owner_character_id: p.owner_character_id,
        owner_name: match p.owner_character_id {
            Some(id) => {
                let k = find(s.characters, is_character(id));
                if k < s.characters.len() {
                    Some(s.characters[k].character.name)
                } else {
                    None
                }
            },
            None => None,
        },
        grid_x: p.grid_x,
        grid_y: p.grid_y,
        w: p.w,
        h: p.h,
        tier: p.tier,
    }
}

/// A district's plots with their owners' names.
pub open spec fn roster(s: DbView, district: Seq<char>) -> Seq<PlotRosterRowView> {
    let plots = s.plots.filter(is_plot_in(district));
    Seq::new(plots.len(), |i: int| roster_row(s, plots[i]))
}

pub(crate) fn find_plot(plots: &Table<Plot>, id: &str) -> (k: usize)
    ensures
        k == find(plots@, is_plot(id@)),
        k <= plots@.len(),
        k < plots@.len() ==> plots@[k as int].id == id@,
{
    let f = |p: &Plot| -> (b: bool)
        ensures
            b == is_plot(id@)(p@),
        { same(p.id.as_str(), id) };
    plots.find(f, Ghost(is_plot(id@)))
}

fn holds_plot(p: &Plot) -> (yes: bool)
    ensures
        yes == is_held(p@),
{
    same(p.state.as_str(), "active") || same(p.state.as_str(), "lapsed")
}

fn owned_by(p: &Plot, character_id: &str) -> (yes: bool)
    ensures
        yes == (p@.owner_character_id == Some(character_id@)),
{
    match &p.owner_character_id {
        Some(owner) => same(owner.as_str(), character_id),
        None => false,
    }
}

/// Extend a plot's rent by one period from the later of now and when it falls due, so that paying early stacks, make it
/// active, and clear the warning.
pub fn pay_rent_in_tx(plots: &mut Table<Plot>, k: usize, rent_period_secs: i64, now: i64) -> (p: Plot)
    requires
        k < old(plots)@.len(),
        i64::MIN <= rent_base(old(plots)@[k as int], now as int) + rent_period_secs <= i64::MAX,
    ensures
        p@ == rent_paid(old(plots)@[k as int], rent_period_secs as int, now as int),
        final(plots)@ == old(plots)@.update(k as int, p@),
{
    let row = plots.get_mut(k);
    let base: i64 = match row.rent_due_at {
        Some(t) => if t > now {
            t
        } else {
            now
        },
        None => now,
    };
    row.rent_paid_through = Some(base);
    row.rent_due_at = Some(base + rent_period_secs);
    row.state = "active".to_string();
    row.warned = false;
    plots.get(k).copy()
}

impl Db {
    /// Add a plot that nobody owns.
    pub fn insert_unowned_plot(&mut self, district: &str, grid_x: i64, grid_y: i64, w: i64, h: i64, tier: i64) -> (p:
        Plot)
        ensures
            p@ == (PlotView {
                id: p@.id,
                owner_character_id: None,
                district: district@,
                grid_x: grid_x as int,
                grid_y: grid_y as int,
                w: w as int,
                h: h as int,
                tier: tier as int,
                rent_due_at: None,
                rent_paid_through: None,
                state: "unowned"@,
                auto_pay: false,
                warned: false,
            }),
            final(self)@ == (DbView { plots: old(self)@.plots.push(p@), ..old(self)@ }),
    {
        let p = Plot {
            id: new_id(),
            owner_character_id: None,
            district: district.to_string(),
            grid_x,
            grid_y,
            w,
            h,
            tier,
            rent_due_at: None,
            rent_paid_through: None,
            state: "unowned".to_string(),
            auto_pay: false,
            warned: false,
        };
        self.plots.push(p.copy());
        p
    }

    /// A plot by its id.
    pub fn load_plot(&self, plot_id: &str) -> (p: Option<Plot>)
        ensures
            opt_plot(p) == plot_at(self@.plots, find(self@.plots, is_plot(plot_id@))),
    {
        let k: usize = find_plot(&self.plots, plot_id);
        if k < self.plots.len() {
            Some(self.plots.get(k).copy())
        } else {
            None
        }
    }

    /// The plot a character holds, active or lapsed, if any.
    pub fn plot_for_character(&self, character_id: &str) -> (p: Option<Plot>)
        ensures
            opt_plot(p) == held_plot(self@.plots, character_id@),
    {
        let f = |p: &Plot| -> (b: bool)
            ensures
                b == is_held_by(character_id@)(p@),
            { owned_by(p, character_id) && holds_plot(p) };
        let k: usize = self.plots.find(f, Ghost(is_held_by(character_id@)));
        if k < self.plots.len() {
            Some(self.plots.get(k).copy())
        } else {
            None
        }
    }

    /// Every plot of a district, owned or not, with its owner's name.
    pub fn plots_for_district(&self, district: &str) -> (out: Vec<PlotRosterRow>)
        ensures
            rows_view(out@) == roster(self@, district@),
    {
        let f = |p: &Plot| -> (b: bool)
            ensures
                b == is_plot_in(district@)(p@),
            { same(p.district.as_str(), district) };
        let plots = self.plots.select(f, Ghost(is_plot_in(district@)));
        let ghost rows = rows_view(plots@);
        let mut out: Vec<PlotRosterRow> = Vec::new();
        let mut i: usize = 0;
        while i < plots.len()
            invariant
                i <= plots.len(),
                rows == rows_view(plots@),
                out.len() == i,
                forall|j: int| 0 <= j < i ==> (#[trigger] out@[j])@ == roster_row(self@, rows[j]),
            decreases plots.len() - i,
        {
            let p = &plots[i];
            assert(rows[i as int] == p@);
            let owner_name = match &p.owner_character_id {
                Some(id) => {
                    let k: usize = find_character(&self.characters, id.as_str());
                    if k < self.characters.len() {
                        Some(self.characters.get(k).character.name.clone())
                    } else {
                        None
                    }
                },
                None => None,
            };
            let row = PlotRosterRow {
                id: p.id.clone(),
                owner_character_id: copy_opt_text(&p.owner_character_id),
                owner_name,
                grid_x: p.grid_x,
                grid_y: p.grid_y,
                w: p.w,
                h: p.h,
                tier: p.tier,
            };
            assert(row@ == roster_row(self@, rows[i as int]));
            out.push(row);
            i = i + 1;
        }
        assert(rows_view(out@) =~= roster(self@, district@));
        out
    }

    /// Give a free plot of a district to a character. Who already holds a plot gets that one and no other;
    /// `None` comes only where the district has no free plot left. The rent is paid through now and due after
    /// one period.
    pub fn claim_plot(&mut self, character_id: &str, district: &str, rent_period_secs: i64, now: i64) -> (out:
        Option<Plot>)
        requires
            i64::MIN <= now + rent_period_secs <= i64::MAX,
        ensures
            claim(old(self)@.plots, character_id@, district@, rent_period_secs as int, now as int) == (Claimed {
                plots: final(self)@.plots,
                plot: opt_plot(out),
            }),
            final(self)@ == (DbView { plots: final(self)@.plots, ..old(self)@ }),
    {
        let ghost s = self@.plots;
        let existing = self.plot_for_character(character_id);
        if existing.is_some() {
            return existing;
        }
        let f = |p: &Plot| -> (b: bool)
            ensures
                b == is_free_in(district@)(p@),
            { p.owner_character_id.is_none() && same(p.district.as_str(), district) };
        let rows = self.plots.select(f, Ghost(is_free_in(district@)));
        let g = |a: &Plot, b: &Plot| -> (r: bool)
            ensures
                r == grid_before()(a@, b@),
            { a.grid_y < b.grid_y || (a.grid_y == b.grid_y && a.grid_x < b.grid_x) };
        let free = order_rows(rows, g, Ghost(grid_before()));
        assert(rows_view(free@) == free_plots(s, district@));
        if free.len() == 0 {
            return None;
        }
        let mut p = free[0].copy();
        assert(p@ == free_plots(s, district@)[0]);
        let due: i64 = now + rent_period_secs;
        let k: usize = find_plot(&self.plots, p.id.as_str());
        if k < self.plots.len() {
            let row = self.plots.get_mut(k);
            row.owner_character_id = Some(character_id.to_string());
            row.state = "active".to_string();
            row.rent_paid_through = Some(now);
            row.rent_due_at = Some(due);
        }
        p.owner_character_id = Some(character_id.to_string());
        p.state = "active".to_string();
        p.rent_paid_through = Some(now);
        p.rent_due_at = Some(due);
        Some(p)
    }

    /// Pay a period of rent on a plot, without any gold. Returns the plot, or `None` where there is no such
    /// plot.
    pub fn pay_rent(&mut self, plot_id: &str, rent_period_secs: i64, now: i64) -> (out: Option<Plot>)
        requires
            rent_countable(old(self)@.plots, plot_id@, rent_period_secs as int, now as int),
        ensures
            final(self)@ == (DbView {
                plots: rent_paid_on(old(self)@.plots, plot_id@, rent_period_secs as int, now as int),
                ..old(self)@
            }),
            opt_plot(out) == plot_at(final(self)@.plots, find(old(self)@.plots, is_plot(plot_id@))),
    {
        let k: usize = find_plot(&self.plots, plot_id);
        if k >= self.plots.len() {
            return None;
        }
        Some(pay_rent_in_tx(&mut self.plots, k, rent_period_secs, now))
    }

    /// Pay a period of rent out of a character's purse. Only the plot's owner can, and only with enough gold;
    /// otherwise nothing changes and `None` comes back.
    pub fn pay_rent_with_gold(
        &mut self,
        character_id: &str,
        plot_id: &str,
        cost: i64,
        rent_period_secs: i64,
        now: i64,
    ) -> (out: Result<Option<Plot>, DbError>)
        requires
            rent_countable(old(self)@.plots, plot_id@, rent_period_secs as int, now as int),
            i64::MIN < cost,
            gold_of(old(self)@.characters, character_id@) - cost <= i64::MAX,
        ensures
            out is Err <==> owns(old(self)@.plots, character_id@, plot_id@) && !has_character(
                old(self)@.characters,
                character_id@,
            ),
            out is Err ==> out == Err::<Option<Plot>, DbError>(DbError::RowNotFound) && final(self)@ == old(self)@,
            out is Ok ==> (out->Ok_0 is Some <==> owns(old(self)@.plots, character_id@, plot_id@) && gold_of(
                old(self)@.characters,
                character_id@,
            ) >= cost),
            out is Ok && out->Ok_0 is None ==> final(self)@ == old(self)@,
            out is Ok && out->Ok_0 is Some ==> final(self)@ == rent_bought(
                old(self)@,
                character_id@,
                plot_id@,
                cost as int,
                rent_period_secs as int,
                now as int,
            ) && out->Ok_0->0@ == final(self)@.plots[find(old(self)@.plots, is_plot(plot_id@))],
    {
        let k: usize = find_plot(&self.plots, plot_id);
        if k >= self.plots.len() {
            return Ok(None);
        }
        if !owned_by(self.plots.get(k), character_id) {
            return Ok(None);
        }
        let c: usize = find_character(&self.characters, character_id);
        if c >= self.characters.len() {
            return Err(DbError::RowNotFound);
        }
        let gold: i64 = self.characters.get(c).gold;
        if gold < cost {
            return Ok(None);
        }
        pay_in_tx(&mut self.characters, character_id, -cost);
        ledger_gold_in_tx(&mut self.ledger, character_id, -cost, "rent", now);
        let p = pay_rent_in_tx(&mut self.plots, k, rent_period_secs, now);
        Ok(Some(p))
    }

    /// Switch on or off that rent is deducted when it comes due. Only the owner can; returns whether it was
    /// done.
    pub fn set_auto_pay(&mut self, character_id: &str, plot_id: &str, enabled: bool) -> (done: bool)
        ensures
            done == owns(old(self)@.plots, character_id@, plot_id@),
            ({
                let plots = old(self)@.plots;
                let k = find(plots, is_plot(plot_id@));
                final(self)@ == if done {
                    DbView {
                        plots: plots.update(k, PlotView { auto_pay: enabled, ..plots[k] }),
                        ..old(self)@
                    }
                } else {
                    old(self)@
                }
            }),
    {
        let k: usize = find_plot(&self.plots, plot_id);
        if k >= self.plots.len() {
            return false;
        }
        if !owned_by(self.plots.get(k), character_id) {
            return false;
        }
        let row = self.plots.get_mut(k);
        row.auto_pay = enabled;
        true
    }

    /// Record that the rent warning of the current due cycle has been sent. Paying clears it.
    pub fn mark_rent_warned(&mut self, plot_id: &str)
        ensures
            ({
                let plots = old(self)@.plots;
                let k = find(plots, is_plot(plot_id@));
                final(self)@ == if k < plots.len() {
                    DbView { plots: plots.update(k, PlotView { warned: true, ..plots[k] }), ..old(self)@ }
                } else {
                    old(self)@
                }
            }),
    {
        let k: usize = find_plot(&self.plots, plot_id);
        if k < self.plots.len() {
            let row = self.plots.get_mut(k);
            row.warned = true;
        }
    }

    /// Every owned plot that rent is due on, active or lapsed.
    pub fn rent_active_plots(&self) -> (out: Vec<Plot>)
        ensures
            rows_view(out@) == self@.plots.filter(is_rented()),
    {
        let f = |p: &Plot| -> (b: bool)
            ensures
                b == is_rented()(p@),
            { p.owner_character_id.is_some() && holds_plot(p) };
        self.plots.select(f, Ghost(is_rented()))
    }

    /// Advance a plot's rent state to the current time: an active plot past due lapses, a lapsed one past the
    /// grace window returns to the pool, without an owner. Returns the resulting state.
    pub fn apply_rent_tick(&mut self, plot_id: &str, now: i64, grace_secs: i64) -> (out: Option<String>)
        requires
            ({
                let k = find(old(self)@.plots, is_plot(plot_id@));
                let p = old(self)@.plots[k];
                k < old(self)@.plots.len() && p.state == "lapsed"@ ==> i64::MIN <= due_at(p) + grace_secs <= i64::MAX
            }),
        ensures
            ({
                let plots = old(self)@.plots;
                let k = find(plots, is_plot(plot_id@));
                let ticked = rent_ticked(plots[k], now as int, grace_secs as int);
                &&& final(self)@ == if k < plots.len() {
                    DbView { plots: plots.update(k, ticked), ..old(self)@ }
                } else {
                    old(self)@
                }
                &&& opt_text(out) == if k < plots.len() {
                    Some(ticked.state)
                } else {
                    None
                }
            }),
    {
        let ghost plots = self@.plots;
        let k: usize = find_plot(&self.plots, plot_id);
        if k >= self.plots.len() {
            return None;
        }
        proof {
            reveal_strlit("active");
            reveal_strlit("lapsed");
            reveal_strlit("reclaimed");
            assert("active"@[0] != "lapsed"@[0]);
            assert("reclaimed"@.len() != "lapsed"@.len());
        }
        let p = self.plots.get(k);
        let due: i64 = match p.rent_due_at {
            Some(t) => t,
            None => i64::MAX,
        };
        if same(p.state.as_str(), "active") && now > due {
            let row = self.plots.get_mut(k);
            row.state = "lapsed".to_string();
        } else if same(p.state.as_str(), "lapsed") && now > due + grace_secs {
            let row = self.plots.get_mut(k);
            row.state = "reclaimed".to_string();
            row.owner_character_id = None;
            row.rent_due_at = None;
            row.rent_paid_through = None;
        } else {
            assert(self@.plots =~= plots.update(k as int, plots[k as int]));
        }
        Some(self.plots.get(k).state.clone())
    }

    /// How many plots there are.
    pub fn plot_count(&self) -> (n: i64)
        requires
            self@.plots.len() <= i64::MAX,
        ensures
            n == self@.plots.len(),
    {
        self.plots.len() as i64
    }
}

/// Plots of which no two have one id.
pub open spec fn plots_distinct(plots: Seq<PlotView>) -> bool {
    forall|i: int, j: int| 0 <= i < j < plots.len() ==> (#[trigger] plots[i]).id != (#[trigger] plots[j]).id
}

proof fn lemma_first_free(plots: Seq<PlotView>, district: Seq<char>)
    ensures
        free_plots(plots, district).len() == plots.filter(is_free_in(district)).len(),
        free_plots(plots, district).len() > 0 ==> plots.contains(free_plots(plots, district)[0]) && is_free_in(
            district,
        )(free_plots(plots, district)[0]),
{
    let some = plots.filter(is_free_in(district));
    assert(orders_rows(grid_before()));
    law_ordered(some, grid_before());
    lemma_ordered_contains(some, grid_before());
    lemma_filter_all(plots, is_free_in(district));
    let free = free_plots(plots, district);
    if free.len() > 0 {
        assert(some.contains(free[0]));
        let i = choose|i: int| 0 <= i < some.len() && some[i] == free[0];
        assert(plots.contains(some[i]));
    }
}

/// Claiming again changes nothing and gives the same plot: nobody gets a second one.
pub proof fn law_claiming_is_idempotent(
    plots: Seq<PlotView>,
    character: Seq<char>,
    district: Seq<char>,
    period: int,
    now: int,
    again_district: Seq<char>,
    again_period: int,
    again: int,
)
    requires
        plots_distinct(plots),
        claim(plots, character, district, period, now).plot is Some,
    ensures
        ({
            let first = claim(plots, character, district, period, now);
            claim(first.plots, character, again_district, again_period, again) == first
        }),
{
    let first = claim(plots, character, district, period, now);
    if held_plot(plots, character) is None {
        let free = free_plots(plots, district);
        lemma_first_free(plots, district);
        let i = choose|i: int| 0 <= i < plots.len() && plots[i] == free[0];
        lemma_find(plots, is_plot(free[0].id));
        let k = find(plots, is_plot(free[0].id));
        assert(is_plot(free[0].id)(plots[i]));
        assert(k == i);
        lemma_find(plots, is_held_by(character));
        assert forall|j: int| 0 <= j < k implies !is_held_by(character)(#[trigger] first.plots[j]) by {
            assert(first.plots[j] == plots[j]);
        }
        lemma_find_is(first.plots, is_held_by(character), k);
    }
}

/// A claim fails only where the claimant holds no plot and the district has none free, and what it gives out
/// was free: nobody else's plot changes.
pub proof fn law_a_claim_takes_only_a_free_plot(
    plots: Seq<PlotView>,
    character: Seq<char>,
    district: Seq<char>,
    period: int,
    now: int,
)
    requires
        plots_distinct(plots),
    ensures
        claim(plots, character, district, period, now).plot is None <==> held_plot(plots, character) is None
            && plots.filter(is_free_in(district)).len() == 0,
        forall|i: int|
            0 <= i < plots.len() && (#[trigger] plots[i]).owner_character_id is Some ==> claim(
                plots,
                character,
                district,
                period,
                now,
            ).plots[i] == plots[i],
{
    let free = free_plots(plots, district);
    lemma_first_free(plots, district);
    if free.len() > 0 {
        let i = choose|i: int| 0 <= i < plots.len() && plots[i] == free[0];
        lemma_find(plots, is_plot(free[0].id));
        assert(is_plot(free[0].id)(plots[i]));
        assert(find(plots, is_plot(free[0].id)) == i);
    }
}

/// Paying early stacks: a payment made before the rent falls due moves the due date by exactly one period, also the
/// first after a claim, which moves what is paid through by one period as well. Late rent runs from now.
pub proof fn law_early_rent_stacks(p: PlotView, period: int, now: int, character: Seq<char>, claimed_at: int)
    ensures
        p.rent_due_at is Some && now <= p.rent_due_at->0 ==> {
            &&& rent_paid(p, period, now).rent_due_at == Some(p.rent_due_at->0 + period)
            &&& rent_paid(p, period, now).rent_paid_through == p.rent_due_at
        },
        p.rent_due_at is Some && now > p.rent_due_at->0 ==> rent_paid(p, period, now).rent_due_at == Some(now + period),
        ({
            let q = taken(p, character, period, claimed_at);
            now <= claimed_at + period ==> {
                &&& rent_paid(q, period, now).rent_due_at == Some(q.rent_due_at->0 + period)
                &&& rent_paid(q, period, now).rent_paid_through == Some(q.rent_paid_through->0 + period)
            }
        }),
{
}

/// Rent that was just paid neither lapses nor is reclaimed before it is due, and paying rescues a lapsed plot.
pub proof fn law_paid_rent_holds(p: PlotView, period: int, now: int, then: int, grace: int)
    requires
        then <= rent_base(p, now) + period,
    ensures
        rent_paid(p, period, now).state == "active"@,
        rent_paid(p, period, now).owner_character_id == p.owner_character_id,
        rent_ticked(rent_paid(p, period, now), then, grace) == rent_paid(p, period, now),
{
    reveal_strlit("active");
    reveal_strlit("lapsed");
    assert("active"@[0] != "lapsed"@[0]);
}

/// A plot is not taken from its owner before the grace window is over, and never without lapsing first.
pub proof fn law_reclaiming_waits_for_the_grace_window(p: PlotView, now: int, grace: int)
    requires
        p.owner_character_id is Some,
    ensures
        rent_ticked(p, now, grace).owner_character_id is None <==> p.state == "lapsed"@ && now > due_at(p) + grace,
        rent_ticked(p, now, grace).owner_character_id is None ==> rent_ticked(p, now, grace).state
            == "reclaimed"@,
        p.state == "active"@ ==> rent_ticked(p, now, grace).owner_character_id == p.owner_character_id,
{
    reveal_strlit("active");
    reveal_strlit("lapsed");
    reveal_strlit("reclaimed");
    assert("active"@[0] != "lapsed"@[0]);
    assert("reclaimed"@.len() != "lapsed"@.len());
}

/// Rent destroys gold, and the ledger records it.
pub proof fn law_rent_is_ledgered(
    s: DbView,
    character: Seq<char>,
    plot: Seq<char>,
    cost: int,
    period: int,
    now: int,
)
    requires
        has_character(s.characters, character),
    ensures
        supply(rent_bought(s, character, plot, cost, period, now)) == supply(s) - cost,
        wealth(rent_bought(s, character, plot, cost, period, now)) == wealth(s) - cost,
        supply_gap(rent_bought(s, character, plot, cost, period, now)) == supply_gap(s),
{
    lemma_paid(s.characters, character, -cost);
    lemma_ledgered(s.ledger, character, -cost, "rent"@, now);
}

} // verus!
