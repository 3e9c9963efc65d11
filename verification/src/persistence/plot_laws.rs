//! Which plot a claim takes, what rent buys, and when a plot is lost.

use vstd::prelude::*;

use crate::persistence::db::DbView;
use crate::persistence::plots::{
    claim, free_plots, grid_before, is_free_in, is_held_by, is_plot, is_plot_in, is_rented, owns,
    rent_bought, rent_paid, rent_ticked, roster,
};
use crate::persistence::purse::{gold_of, has_character, is_character, lemma_paid};
use crate::persistence::rows::{LedgerRecordView, PlotView};
use crate::table::{find, law_page, lemma_filter_contains, lemma_find, lemma_find_is, limited, orders_rows};

verus! {

/// Whether nobody owns a plot of a district.
pub open spec fn up_for_claim(p: PlotView, district: Seq<char>) -> bool {
    p.district == district && p.owner_character_id is None
}

/// Whether a character lives on a plot: it is theirs, and not reclaimed, though its rent may be overdue.
pub open spec fn lives_on(p: PlotView, character: Seq<char>) -> bool {
    p.owner_character_id == Some(character) && (p.state == "active"@ || p.state == "lapsed"@)
}

/// Whoever lives on a plot already gets that plot back, and no plot changes hands. Whoever does not gets a free plot of the
/// district, the topmost and then the leftmost, with its first period of rent paid; no other plot changes. With no free plot
/// nothing changes.
pub proof fn law_a_claim_takes_the_first_free_plot(
    plots: Seq<PlotView>,
    character: Seq<char>,
    district: Seq<char>,
    period: int,
    now: int,
    i: int,
    j: int,
)
    requires
        forall|a: int, b: int| 0 <= a < b < plots.len() ==> (#[trigger] plots[a]).id != (#[trigger] plots[b]).id,
        0 <= i < plots.len(),
        0 <= j < plots.len(),
    ensures
        ({
            let c = claim(plots, character, district, period, now);
            let housed = exists|k: int| 0 <= k < plots.len() && lives_on(#[trigger] plots[k], character);
            let free = exists|k: int| 0 <= k < plots.len() && up_for_claim(#[trigger] plots[k], district);
            &&& housed ==> c.plots == plots && c.plot is Some && lives_on(c.plot->0, character) && plots.contains(c.plot->0)
            &&& !housed && !free ==> c.plots == plots && c.plot is None
            &&& !housed && free ==> {
                &&& c.plot is Some && c.plots.len() == plots.len()
                &&& c.plots[i].id == plots[i].id
                &&& plots[i].id != c.plot->0.id ==> c.plots[i] == plots[i]
                &&& plots[i].id == c.plot->0.id ==> {
                    &&& up_for_claim(plots[i], district)
                    &&& c.plots[i] == c.plot->0
                    &&& c.plot->0 == (PlotView {
                        owner_character_id: Some(character),
                        state: "active"@,
                        rent_paid_through: Some(now),
                        rent_due_at: Some(now + period),
                        ..plots[i]
                    })
                    &&& up_for_claim(plots[j], district) ==> plots[i].grid_y < plots[j].grid_y || plots[i].grid_y == plots[j].grid_y
                        && plots[i].grid_x <= plots[j].grid_x
                }
            }
        }),
{
    let held = is_held_by(character);
    let free_p = is_free_in(district);
    let f = plots.filter(free_p);
    let free = free_plots(plots, district);
    let c = claim(plots, character, district, period, now);
    lemma_find(plots, held);
    let h = find(plots, held);
    if h < plots.len() {
        assert(lives_on(plots[h], character));
        assert(plots.contains(plots[h]));
    } else {
        assert forall|k: int| 0 <= k < plots.len() implies !lives_on(#[trigger] plots[k], character) by {
            assert(!held(plots[k]));
        }
        assert(orders_rows(grid_before()));
        law_page(f, grid_before(), -1, plots[j]);
        lemma_filter_contains(plots, free_p, plots[j]);
        if exists|k: int| 0 <= k < plots.len() && up_for_claim(#[trigger] plots[k], district) {
            let k = choose|k: int| 0 <= k < plots.len() && up_for_claim(#[trigger] plots[k], district);
            lemma_filter_contains(plots, free_p, plots[k]);
            assert(plots.contains(plots[k]));
            assert(f.len() > 0);
            let first = free[0];
            assert(limited(free, -1) == free);
            assert(f.contains(first));
            lemma_filter_contains(plots, free_p, first);
            let m = choose|m: int| 0 <= m < plots.len() && plots[m] == first;
            assert forall|a: int| 0 <= a < m implies !is_plot(first.id)(#[trigger] plots[a]) by {
                assert(plots[a].id != plots[m].id);
            }
            lemma_find_is(plots, is_plot(first.id), m);
            if i != m {
                assert(plots[i].id != plots[m].id) by {
                    if i < m {
                        assert(plots[i].id != plots[m].id);
                    } else {
                        assert(plots[m].id != plots[i].id);
                    }
                }
            }
            if up_for_claim(plots[j], district) {
                assert(plots.contains(plots[j]));
                assert(f.contains(plots[j]));
                assert(free.contains(plots[j]));
                let n = choose|n: int| 0 <= n < free.len() && free[n] == plots[j];
                if n > 0 {
                    assert(!grid_before()(free[n], free[0]));
                }
            }
        } else {
            if f.len() > 0 {
                assert(f.contains(f[0]));
                lemma_filter_contains(plots, free_p, f[0]);
                let k = choose|k: int| 0 <= k < plots.len() && plots[k] == f[0];
                assert(up_for_claim(plots[k], district));
            }
            assert(free.len() == f.len());
        }
    }
}

/// Rent runs from when it is due, or from now where it is overdue or was never paid, for one period. It leaves the plot
/// active, and everything but its rent as it was.
pub proof fn law_rent_buys_one_period(p: PlotView, period: int, now: int)
    ensures
        ({
            let q = rent_paid(p, period, now);
            let from = if p.rent_due_at is Some && p.rent_due_at->0 > now {
                p.rent_due_at->0
            } else {
                now
            };
            q == (PlotView {
                rent_paid_through: Some(from),
                rent_due_at: Some(from + period),
                state: "active"@,
                warned: false,
                ..p
            })
        }),
{
}

/// Rent is paid by the owner out of their own purse: the cost leaves it and goes on the ledger, and the plot's rent runs on.
/// Nobody else pays, and no other plot changes.
pub proof fn law_rent_costs_its_price(
    s: DbView,
    character: Seq<char>,
    plot: Seq<char>,
    cost: int,
    period: int,
    now: int,
    who: Seq<char>,
    k: int,
    i: int,
)
    requires
        has_character(s.characters, character),
        0 <= k < s.plots.len(),
        s.plots[k].id == plot,
        forall|j: int| 0 <= j < s.plots.len() && j != k ==> (#[trigger] s.plots[j]).id != plot,
        0 <= i < s.plots.len(),
    ensures
        owns(s.plots, character, plot) <==> s.plots[k].owner_character_id == Some(character),
        ({
            let t = rent_bought(s, character, plot, cost, period, now);
            &&& gold_of(t.characters, who) == gold_of(s.characters, who) - if who == character {
                cost
            } else {
                0
            }
            &&& cost == 0 ==> t.ledger == s.ledger
            &&& cost != 0 ==> t.ledger == s.ledger.push(
                LedgerRecordView { character_id: character, amount: -cost, reason: "rent"@, created_at: now },
            )
            &&& t.plots.len() == s.plots.len()
            &&& t.plots[k] == rent_paid(s.plots[k], period, now)
            &&& i != k ==> t.plots[i] == s.plots[i]
        }),
{
    lemma_find_is(s.plots, is_plot(plot), k);
    lemma_paid(s.characters, character, -cost);
}

/// A plot lapses once its rent is overdue, and is lost once it has lapsed and the grace window is over as well: then it is
/// nobody's and owes no rent. At any other time, or without a date, nothing happens to it.
pub proof fn law_when_a_plot_is_lost(p: PlotView, now: int, grace: int)
    requires
        now <= i64::MAX,
        grace >= 0,
    ensures
        ({
            let q = rent_ticked(p, now, grace);
            let overdue = p.rent_due_at is Some && now > p.rent_due_at->0;
            let gone = p.rent_due_at is Some && now > p.rent_due_at->0 + grace;
            &&& p.state == "active"@ && overdue ==> q == (PlotView { state: "lapsed"@, ..p })
            &&& p.state == "lapsed"@ && gone ==> q == (PlotView {
                state: "reclaimed"@,
                owner_character_id: None,
                rent_due_at: None,
                rent_paid_through: None,
                ..p
            })
            &&& !(p.state == "active"@ && overdue) && !(p.state == "lapsed"@ && gone) ==> q == p
        }),
{
    reveal_strlit("lapsed");
    reveal_strlit("reclaimed");
    reveal_strlit("active");
    assert("lapsed"@.len() != "reclaimed"@.len());
    assert("lapsed"@[0] != "active"@[0]);
}

/// Rent runs on exactly the plots that someone lives on.
pub proof fn law_rent_runs_where_someone_lives(plots: Seq<PlotView>, x: PlotView)
    ensures
        plots.filter(is_rented()).contains(x) <==> plots.contains(x) && x.owner_character_id is Some && (x.state == "active"@
            || x.state == "lapsed"@),
{
    lemma_filter_contains(plots, is_rented(), x);
}

/// The roster of a district names each of its plots, where it lies, and its owner by id and by name.
pub proof fn law_the_roster_names_owners(s: DbView, district: Seq<char>, i: int)
    ensures
        ({
            let own = s.plots.filter(is_plot_in(district));
            let out = roster(s, district);
            &&& out.len() == own.len()
            &&& 0 <= i < own.len() ==> {
                let p = own[i];
                let k = find(s.characters, is_character(p.owner_character_id->0));
                &&& s.plots.contains(p) && p.district == district
                &&& out[i].id == p.id && out[i].owner_character_id == p.owner_character_id
                &&& out[i].grid_x == p.grid_x && out[i].grid_y == p.grid_y && out[i].w == p.w && out[i].h == p.h && out[i].tier
                    == p.tier
                &&& p.owner_character_id is None ==> out[i].owner_name is None
                &&& p.owner_character_id is Some && k < s.characters.len() ==> s.characters[k].character.id == p.owner_character_id->0
                    && out[i].owner_name == Some(s.characters[k].character.name)
            }
        }),
{
    let own = s.plots.filter(is_plot_in(district));
    if 0 <= i < own.len() {
        assert(own.contains(own[i]));
        lemma_filter_contains(s.plots, is_plot_in(district), own[i]);
        if own[i].owner_character_id is Some {
            lemma_find(s.characters, is_character(own[i].owner_character_id->0));
        }
    }
}

} // verus!
