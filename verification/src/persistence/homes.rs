//! Homes: what stands on a plot, the flair that decorates it, and the bed one wakes up in.

use vstd::prelude::*;

use crate::persistence::db::{Db, DbView};
use crate::persistence::ids::new_id;
use crate::persistence::plots::{find_plot, is_plot};
use crate::persistence::purse::{find_character, is_character};
use crate::persistence::rows::{CharacterRecordView, Flair, FlairView, PlotView, Structure, StructureView};
use crate::persistence::storage_fees::names_view;
use crate::table::{
    find, lemma_filter_all, lemma_find, lemma_find_is, not, order_rows, ordered, rows_view, Row, Table,
};
use crate::text::{before, opt_str, own_opt, same, text_before};

verus! {

pub open spec fn stands_on(plot: Seq<char>) -> spec_fn(StructureView) -> bool {
    |t: StructureView| t.plot_id == plot
}

pub open spec fn is_structure(id: Seq<char>) -> spec_fn(StructureView) -> bool {
    |t: StructureView| t.id == id
}

/// A structure on a plot of a district.
pub open spec fn stands_in(plots: Seq<PlotView>, district: Seq<char>) -> spec_fn(StructureView) -> bool {
    |t: StructureView|
        {
            let k = find(plots, is_plot(t.plot_id));
            k < plots.len() && plots[k].district == district
        }
}

pub open spec fn structure_before() -> spec_fn(StructureView, StructureView) -> bool {
    |a: StructureView, b: StructureView| text_before(a.id, b.id)
}

pub open spec fn decorates(plot: Seq<char>) -> spec_fn(FlairView) -> bool {
    |f: FlairView| f.plot_id == Some(plot)
}

pub open spec fn is_flair_of(owner: Seq<char>) -> spec_fn(FlairView) -> bool {
    |f: FlairView| f.owner_character_id == owner
}

pub open spec fn flair_before() -> spec_fn(FlairView, FlairView) -> bool {
    |a: FlairView, b: FlairView| text_before(a.id, b.id)
}

/// Flair that no longer decorates a plot; its owner keeps it.
pub open spec fn unattached(flair: Seq<FlairView>, plot: Seq<char>) -> Seq<FlairView> {
    Seq::new(
        flair.len(),
        |i: int|
            if flair[i].plot_id == Some(plot) {
                FlairView { plot_id: None, ..flair[i] }
            } else {
                flair[i]
            },
    )
}

/// The ids of the structures on a plot.
pub open spec fn structure_ids(structures: Seq<StructureView>, plot: Seq<char>) -> Seq<Seq<char>> {
    let own = structures.filter(stands_on(plot));
    Seq::new(own.len(), |i: int| own[i].id)
}

/// The bed a character wakes up in stands on a plot.
pub open spec fn sleeps_on(structures: Seq<StructureView>, c: CharacterRecordView, plot: Seq<char>) -> bool {
    c.respawn_structure_id is Some && exists|i: int|
        0 <= i < structures.len() && (#[trigger] structures[i]).plot_id == plot && structures[i].id
            == c.respawn_structure_id->0
}

/// The state once what belonged to a plot is cleared away.
pub open spec fn cleared_away(s: DbView, plot: Seq<char>, owner: Seq<char>) -> DbView {
    let k = find(s.characters, is_character(owner));
    DbView {
        flair: unattached(s.flair, plot),
        structures: s.structures.filter(not(stands_on(plot))),
        characters: if k < s.characters.len() && sleeps_on(s.structures, s.characters[k], plot) {
            s.characters.update(
                k,
                CharacterRecordView { respawn_structure_id: None, ..s.characters[k] },
            )
        } else {
            s.characters
        },
        ..s
    }
}

/// Where a character wakes up, if a bed is set and still stands.
pub open spec fn respawn_point(s: DbView, character: Seq<char>) -> Option<(int, int)> {
    let k = find(s.characters, is_character(character));
    if k < s.characters.len() {
        match s.characters[k].respawn_structure_id {
            Some(id) => {
                let b = find(s.structures, is_structure(id));
                if b < s.structures.len() {
                    Some((s.structures[b].x, s.structures[b].y))
                } else {
                    None
                }
            },
            None => None,
        }
    } else {
        None
    }
}

pub open spec fn opt_point(p: Option<(i64, i64)>) -> Option<(int, int)> {
    match p {
        Some((x, y)) => Some((x as int, y as int)),
        None => None,
    }
}

fn find_structure(structures: &Table<Structure>, id: &str) -> (k: usize)
    ensures
        k == find(structures@, is_structure(id@)),
        k <= structures@.len(),
{
    let f = |t: &Structure| -> (b: bool)
        ensures
            b == is_structure(id@)(t@),
        { same(t.id.as_str(), id) };
    structures.find(f, Ghost(is_structure(id@)))
}

fn order_structures(rows: Vec<Structure>) -> (out: Vec<Structure>)
    ensures
        rows_view(out@) == ordered(rows_view(rows@), structure_before()),
{
    let g = |a: &Structure, b: &Structure| -> (r: bool)
        ensures
            r == structure_before()(a@, b@),
        { before(a.id.as_str(), b.id.as_str()) };
    order_rows(rows, g, Ghost(structure_before()))
}

fn order_flair(rows: Vec<Flair>) -> (out: Vec<Flair>)
    ensures
        rows_view(out@) == ordered(rows_view(rows@), flair_before()),
{
    let g = |a: &Flair, b: &Flair| -> (r: bool)
        ensures
            r == flair_before()(a@, b@),
        { before(a.id.as_str(), b.id.as_str()) };
    order_rows(rows, g, Ghost(flair_before()))
}

fn decorates_plot(f: &Flair, plot_id: &str) -> (yes: bool)
    ensures
        yes == decorates(plot_id@)(f@),
{
    match &f.plot_id {
        Some(p) => same(p.as_str(), plot_id),
        None => false,
    }
}

impl Db {
    /// Put a structure on a plot. Where it may stand, and who may put it there, is the caller's to check.
    pub fn place_structure(
        &mut self,
        plot_id: &str,
        kind: &str,
        x: i64,
        y: i64,
        rot: i64,
        hp: i64,
        built_by: Option<&str>,
        data: &str,
    ) -> (t: Structure)
        ensures
            t@ == (StructureView {
                id: t@.id,
                plot_id: plot_id@,
                kind: kind@,
                x: x as int,
                y: y as int,
                rot: rot as int,
                hp: hp as int,
                built_by: opt_str(built_by),
                data: data@,
            }),
            final(self)@ == (DbView { structures: old(self)@.structures.push(t@), ..old(self)@ }),
    {
        let t = Structure {
            id: new_id(),
            plot_id: plot_id.to_string(),
            kind: kind.to_string(),
            x,
            y,
            rot,
            hp,
            built_by: own_opt(built_by),
            data: data.to_string(),
        };
        self.structures.push(t.copy());
        t
    }

    /// The structures on a plot, by id.
    pub fn structures_for_plot(&self, plot_id: &str) -> (out: Vec<Structure>)
        ensures
            rows_view(out@) == ordered(self@.structures.filter(stands_on(plot_id@)), structure_before()),
    {
        let f = |t: &Structure| -> (b: bool)
            ensures
                b == stands_on(plot_id@)(t@),
            { same(t.plot_id.as_str(), plot_id) };
        let rows = self.structures.select(f, Ghost(stands_on(plot_id@)));
        order_structures(rows)
    }

    /// Every structure on any plot of a district, by id.
    pub fn structures_in_district(&self, district: &str) -> (out: Vec<Structure>)
        ensures
            rows_view(out@) == ordered(
                self@.structures.filter(stands_in(self@.plots, district@)),
                structure_before(),
            ),
    {
        let plots = &self.plots;
        let f = |t: &Structure| -> (b: bool)
            ensures
                b == stands_in(plots@, district@)(t@),
            {
                let k: usize = find_plot(plots, t.plot_id.as_str());
                k < plots.len() && same(plots.get(k).district.as_str(), district)
            };
        let rows = self.structures.select(f, Ghost(stands_in(self@.plots, district@)));
        order_structures(rows)
    }

    /// Set or clear the structure a character wakes up at.
    pub fn set_respawn_structure(&mut self, character_id: &str, structure_id: Option<&str>)
        ensures
            ({
                let s = old(self)@;
                let k = find(s.characters, is_character(character_id@));
                final(self)@ == if k < s.characters.len() {
                    DbView {
                        characters: s.characters.update(
                            k,
                            CharacterRecordView {
                                respawn_structure_id: opt_str(structure_id),
                                ..s.characters[k]
                            },
                        ),
                        ..s
                    }
                } else {
                    s
                }
            }),
    {
        let k: usize = find_character(&self.characters, character_id);
        if k < self.characters.len() {
            let id = own_opt(structure_id);
            let row = self.characters.get_mut(k);
            row.respawn_structure_id = id;
        }
    }

    /// Where a character wakes up, if a bed is set and still stands.
    pub fn respawn_point_for_character(&self, character_id: &str) -> (p: Option<(i64, i64)>)
        ensures
            opt_point(p) == respawn_point(self@, character_id@),
    {
        let k: usize = find_character(&self.characters, character_id);
        if k >= self.characters.len() {
            return None;
        }
        match &self.characters.get(k).respawn_structure_id {
            Some(id) => {
                let b: usize = find_structure(&self.structures, id.as_str());
                if b < self.structures.len() {
                    let t = self.structures.get(b);
                    Some((t.x, t.y))
                } else {
                    None
                }
            },
            None => None,
        }
    }

    /// Add a piece of flair. It belongs to the character, whatever becomes of the plot. Returns its id.
    pub fn add_flair(
        &mut self,
        owner_character_id: &str,
        plot_id: Option<&str>,
        item_id: &str,
        x: i64,
        y: i64,
        rot: i64,
    ) -> (id: String)
        ensures
            final(self)@ == (DbView {
                flair: old(self)@.flair.push(
                    FlairView {
                        id: id@,
                        owner_character_id: owner_character_id@,
                        plot_id: opt_str(plot_id),
                        item_id: item_id@,
                        x: x as int,
                        y: y as int,
                        rot: rot as int,
                    },
                ),
                ..old(self)@
            }),
    {
        let id = new_id();
        self.flair.push(
            Flair {
                id: id.clone(),
                owner_character_id: owner_character_id.to_string(),
                plot_id: own_opt(plot_id),
                item_id: item_id.to_string(),
                x,
                y,
                rot,
            },
        );
        id
    }

    /// The flair on a plot, by id.
    pub fn flair_for_plot(&self, plot_id: &str) -> (out: Vec<Flair>)
        ensures
            rows_view(out@) == ordered(self@.flair.filter(decorates(plot_id@)), flair_before()),
    {
        let f = |f: &Flair| -> (b: bool)
            ensures
                b == decorates(plot_id@)(f@),
            { decorates_plot(f, plot_id) };
        let rows = self.flair.select(f, Ghost(decorates(plot_id@)));
        order_flair(rows)
    }

    /// All the flair of a character, on a plot or not, by id.
    pub fn flair_for_character(&self, owner_character_id: &str) -> (out: Vec<Flair>)
        ensures
            rows_view(out@) == ordered(self@.flair.filter(is_flair_of(owner_character_id@)), flair_before()),
    {
        let f = |f: &Flair| -> (b: bool)
            ensures
                b == is_flair_of(owner_character_id@)(f@),
            { same(f.owner_character_id.as_str(), owner_character_id) };
        let rows = self.flair.select(f, Ghost(is_flair_of(owner_character_id@)));
        order_flair(rows)
    }

    /// Take the flair off a plot.
    fn unattach_flair(&mut self, plot_id: &str)
        ensures
            final(self)@ == (DbView { flair: unattached(old(self)@.flair, plot_id@), ..old(self)@ }),
    {
        let ghost s = self@;
        let mut i: usize = 0;
        while i < self.flair.len()
            invariant
                i <= self@.flair.len() == s.flair.len(),
                self@ == (DbView { flair: self@.flair, ..s }),
                forall|j: int| 0 <= j < i ==> #[trigger] self@.flair[j] == unattached(s.flair, plot_id@)[j],
                forall|j: int| i <= j < s.flair.len() ==> #[trigger] self@.flair[j] == s.flair[j],
            decreases self@.flair.len() - i,
        {
            if decorates_plot(self.flair.get(i), plot_id) {
                let row = self.flair.get_mut(i);
                row.plot_id = None;
            }
            i = i + 1;
        }
        assert(self@.flair =~= unattached(s.flair, plot_id@));
    }

    /// Clear away what belonged to a plot that was taken back. The flair stays its owner's, on no plot; the
    /// structures go, and with them the owner's bed if it stood there. Returns the ids of the structures that
    /// went.
    pub fn reclaim_plot_belongings(&mut self, plot_id: &str, former_owner: &str) -> (ids: Vec<String>)
        ensures
            final(self)@ == cleared_away(old(self)@, plot_id@, former_owner@),
            names_view(ids@) == structure_ids(old(self)@.structures, plot_id@),
    {
        let ghost s = self@;
        self.unattach_flair(plot_id);
        let f = |t: &Structure| -> (b: bool)
            ensures
                b == stands_on(plot_id@)(t@),
            { same(t.plot_id.as_str(), plot_id) };
        let gone = self.structures.select(f, Ghost(stands_on(plot_id@)));
        let ghost own = s.structures.filter(stands_on(plot_id@));
        let mut ids: Vec<String> = Vec::new();
        let mut i: usize = 0;
        while i < gone.len()
            invariant
                i <= gone.len(),
                own == rows_view(gone@),
                ids.len() == i,
                forall|j: int| 0 <= j < i ==> (#[trigger] ids@[j])@ == own[j].id,
            decreases gone.len() - i,
        {
            assert(own[i as int] == gone@[i as int]@);
            ids.push(gone[i].id.clone());
            i = i + 1;
        }
        assert(names_view(ids@) =~= structure_ids(s.structures, plot_id@));
        let k: usize = find_character(&self.characters, former_owner);
        if k < self.characters.len() {
            let homeless: bool = match &self.characters.get(k).respawn_structure_id {
                Some(bed) => {
                    let g = |t: &Structure| -> (b: bool)
                        ensures
                            b == (t@.plot_id == plot_id@ && t@.id == bed@),
                        { same(t.plot_id.as_str(), plot_id) && same(t.id.as_str(), bed.as_str()) };
                    let ghost p = |t: StructureView| t.plot_id == plot_id@ && t.id == bed@;
                    let b: usize = self.structures.find(g, Ghost(p));
                    proof {
                        lemma_find(self@.structures, p);
                        if b < self@.structures.len() {
                            assert(self@.structures[b as int].plot_id == plot_id@);
                        } else {
                            assert forall|i: int| 0 <= i < s.structures.len() implies !((
                            #[trigger] s.structures[i]).plot_id == plot_id@ && s.structures[i].id == bed@) by {
                                assert(!p(s.structures[i]));
                            }
                        }
                    }
                    b < self.structures.len()
                },
                None => false,
            };
            assert(homeless == sleeps_on(s.structures, s.characters[k as int], plot_id@));
            if homeless {
                let row = self.characters.get_mut(k);
                row.respawn_structure_id = None;
            }
        }
        let f = |t: &Structure| -> (b: bool)
            ensures
                b == stands_on(plot_id@)(t@),
            { same(t.plot_id.as_str(), plot_id) };
        self.structures.delete_where(f, Ghost(stands_on(plot_id@)));
        ids
    }
}

/// Taking a plot back destroys no flair: every piece stays with its owner, and none is left on the plot.
pub proof fn law_reclaiming_keeps_flair(s: DbView, plot: Seq<char>, owner: Seq<char>)
    ensures
        ({
            let t = cleared_away(s, plot, owner);
            &&& t.flair.len() == s.flair.len()
            &&& forall|i: int|
                0 <= i < s.flair.len() ==> (#[trigger] t.flair[i]).id == s.flair[i].id
                    && t.flair[i].owner_character_id == s.flair[i].owner_character_id && t.flair[i].item_id
                    == s.flair[i].item_id && t.flair[i].plot_id != Some(plot)
            &&& t.storage == s.storage
            &&& t.plots == s.plots
        }),
{
}

/// Taking a plot back leaves what stands on other plots, decorates them, or belongs to other characters.
pub proof fn law_reclaiming_leaves_other_plots(s: DbView, plot: Seq<char>, owner: Seq<char>, other: Seq<char>)
    requires
        other != plot,
    ensures
        cleared_away(s, plot, owner).structures.filter(stands_on(other)) == s.structures.filter(stands_on(other)),
        cleared_away(s, plot, owner).structures.filter(stands_on(plot)).len() == 0,
        forall|i: int|
            0 <= i < s.flair.len() && (#[trigger] s.flair[i]).plot_id != Some(plot) ==> cleared_away(
                s,
                plot,
                owner,
            ).flair[i] == s.flair[i],
        forall|i: int|
            0 <= i < s.characters.len() && (#[trigger] s.characters[i]).character.id != owner ==> cleared_away(
                s,
                plot,
                owner,
            ).characters[i] == s.characters[i],
{
    lemma_filter_filter(s.structures, not(stands_on(plot)), stands_on(other));
    let left = s.structures.filter(not(stands_on(plot)));
    lemma_filter_all(s.structures, not(stands_on(plot)));
    lemma_filter_all(left, stands_on(plot));
    if left.filter(stands_on(plot)).len() > 0 {
        let t = left.filter(stands_on(plot))[0];
        assert(stands_on(plot)(t));
        assert(left.contains(t));
        let i = choose|i: int| 0 <= i < left.len() && left[i] == t;
        assert(not(stands_on(plot))(left[i]));
    }
    lemma_find(s.characters, is_character(owner));
}

/// A bed that goes with a plot is nobody's respawn point any more: no dangling reference stays with the owner.
pub proof fn law_a_reclaimed_bed_is_forgotten(s: DbView, plot: Seq<char>, owner: Seq<char>)
    requires
        ({
            let k = find(s.characters, is_character(owner));
            k < s.characters.len() && sleeps_on(s.structures, s.characters[k], plot)
        }),
    ensures
        respawn_point(cleared_away(s, plot, owner), owner) is None,
{
    let k = find(s.characters, is_character(owner));
    let t = cleared_away(s, plot, owner);
    lemma_find(s.characters, is_character(owner));
    assert forall|i: int| 0 <= i < k implies !is_character(owner)(#[trigger] t.characters[i]) by {
        assert(t.characters[i] == s.characters[i]);
    }
    lemma_find_is(t.characters, is_character(owner), k);
}

/// Selecting out of a selection that keeps all of it selects the same.
proof fn lemma_filter_filter<A>(s: Seq<A>, p: spec_fn(A) -> bool, q: spec_fn(A) -> bool)
    requires
        forall|a: A| #[trigger] q(a) ==> p(a),
    ensures
        s.filter(p).filter(q) == s.filter(q),
    decreases s.len(),
{
    reveal(Seq::filter);
    if s.len() > 0 {
        lemma_filter_filter(s.drop_last(), p, q);
        let head = s.drop_last().filter(p);
        if p(s.last()) {
            assert(head.push(s.last()).drop_last() =~= head);
        }
    }
}

} // verus!
