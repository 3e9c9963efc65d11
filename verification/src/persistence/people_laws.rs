//! What a new account starts with, what is saved of a character, and what practice brings.

use vstd::prelude::*;

use crate::persistence::accounts::{is_account_id, opened, saved, touched, Opening};
use crate::persistence::building::is_completed;
use crate::persistence::db::DbView;
use crate::persistence::home_laws::{lemma_not_before, lemma_shown};
use crate::persistence::purse::{gold_of, is_character};
use crate::persistence::rows::{
    AccountRecordView, BuildOrderView, LedgerRecordView, SkillView, StationJobView,
};
use crate::persistence::seeding::{is_posted, is_unlocked, order_seeded, plots_laid};
use crate::persistence::skills::{
    is_skill, is_skill_of, law_a_level_is_a_square, skill_before, trained, xp_of,
};
use crate::persistence::stations::{is_job_at, slot_before, started_before};
use crate::table::{find, law_page, lemma_find, lemma_find_is, limited, ordered, orders_rows};
use crate::text::lemma_text_before;
use crate::world::geometry::PlotCellView;
use crate::world::spawns::SeedBuildOrderView;

verus! {

/// A new account comes with one character, with five hundred gold that is on the ledger, where and as it was asked for, and
/// nobody else changes.
pub proof fn law_what_a_new_account_comes_with(
    s: DbView,
    o: Opening,
    account: Seq<char>,
    character: Seq<char>,
    now: int,
    i: int,
)
    ensures
        ({
            let t = opened(s, o, account, character, now);
            let a = t.accounts.last();
            let c = t.characters.last();
            &&& t.accounts.len() == s.accounts.len() + 1 && t.characters.len() == s.characters.len() + 1
            &&& 0 <= i < s.accounts.len() ==> t.accounts[i] == s.accounts[i]
            &&& 0 <= i < s.characters.len() ==> t.characters[i] == s.characters[i]
            &&& a.account.id == account && a.account.email == o.email && a.account.pw_hash == o.pw_hash && a.account.role == o.role
            &&& a.last_login == now
            &&& c.character.id == character && c.character.account_id == account && c.character.name == o.name
            &&& c.character.x == o.x && c.character.y == o.y && c.character.hp == o.hp && c.character.district.len() == 0
            &&& c.gold == 500 && c.last_seen == now && c.respawn_structure_id is None
            &&& t.ledger == s.ledger.push(
                LedgerRecordView { character_id: character, amount: 500, reason: "character_start"@, created_at: now },
            )
            &&& t == (DbView { accounts: t.accounts, characters: t.characters, ledger: t.ledger, ..s })
        }),
{
}

/// Saving a character keeps where they are, how they are and when they were seen, and changes nothing else of theirs and
/// nobody else.
pub proof fn law_what_is_saved_of_a_character(
    s: DbView,
    id: Seq<char>,
    x: int,
    y: int,
    hp: int,
    district: Seq<char>,
    now: int,
    k: int,
    i: int,
)
    requires
        0 <= k < s.characters.len(),
        s.characters[k].character.id == id,
        forall|j: int| 0 <= j < k ==> (#[trigger] s.characters[j]).character.id != id,
        0 <= i < s.characters.len(),
    ensures
        ({
            let t = saved(s, id, x, y, hp, district, now);
            let was = s.characters[k];
            let c = t.characters[k];
            &&& t.characters.len() == s.characters.len()
            &&& i != k ==> t.characters[i] == s.characters[i]
            &&& c.character.x == x && c.character.y == y && c.character.hp == hp && c.character.district == district
            &&& c.last_seen == now
            &&& c.character.id == id && c.character.account_id == was.character.account_id && c.character.name == was.character.name
            &&& c.gold == was.gold && c.respawn_structure_id == was.respawn_structure_id
            &&& gold_of(t.characters, id) == gold_of(s.characters, id)
        }),
{
    lemma_find_is(s.characters, is_character(id), k);
    let t = saved(s, id, x, y, hp, district, now);
    assert forall|j: int| 0 <= j < k implies !is_character(id)(#[trigger] t.characters[j]) by {
        assert(s.characters[j].character.id != id);
    }
    lemma_find_is(t.characters, is_character(id), k);
}

/// A login is noted on its account and on no other.
pub proof fn law_a_login_is_noted(s: DbView, account: Seq<char>, now: int, k: int, i: int)
    requires
        0 <= k < s.accounts.len(),
        s.accounts[k].account.id == account,
        forall|j: int| 0 <= j < k ==> (#[trigger] s.accounts[j]).account.id != account,
        0 <= i < s.accounts.len(),
    ensures
        ({
            let t = touched(s, account, now);
            &&& t.accounts.len() == s.accounts.len()
            &&& t.accounts[k] == (AccountRecordView { last_login: now, ..s.accounts[k] })
            &&& i != k ==> t.accounts[i] == s.accounts[i]
        }),
{
    lemma_find_is(s.accounts, is_account_id(account), k);
}

/// Practice adds its experience to a skill, which never falls below nothing, and sets the level that it reaches: a hundred
/// times the square of the level is covered, and the next is not. No other skill of anyone's changes.
pub proof fn law_what_practice_brings(
    skills: Seq<SkillView>,
    character: Seq<char>,
    skill: Seq<char>,
    gained: int,
    who: Seq<char>,
    other: Seq<char>,
)
    ensures
        ({
            let t = trained(skills, character, skill, gained);
            let was = xp_of(skills, character, skill);
            let xp = xp_of(t, character, skill);
            let row = t[find(t, is_skill(character, skill))];
            &&& was + gained >= 0 ==> xp == was + gained
            &&& was + gained < 0 ==> xp == 0
            &&& find(t, is_skill(character, skill)) < t.len()
            &&& row.xp == xp && row.character_id == character && row.skill_id == skill
            &&& 100 * (row.level * row.level) <= xp < 100 * ((row.level + 1) * (row.level + 1)) && row.level >= 0
            &&& who != character || other != skill ==> xp_of(t, who, other) == xp_of(skills, who, other)
        }),
{
    let p = is_skill(character, skill);
    let q = is_skill(who, other);
    let t = trained(skills, character, skill, gained);
    let k = find(skills, p);
    let m = find(skills, q);
    lemma_find(skills, p);
    lemma_find(skills, q);
    assert forall|i: int| 0 <= i < k implies !p(#[trigger] t[i]) by {
        assert(!p(skills[i]));
    }
    lemma_find_is(t, p, k);
    law_a_level_is_a_square(xp_of(t, character, skill), 1);
    if who != character || other != skill {
        let m1 = if m < skills.len() {
            m
        } else {
            t.len() as int
        };
        assert forall|i: int| 0 <= i < m1 implies !q(#[trigger] t[i]) by {
            if i < skills.len() && i != k {
                assert(!q(skills[i]));
            }
        }
        lemma_find_is(t, q, m1);
    }
}

/// A character's skills are all shown and no others, by name.
pub proof fn law_skills_are_shown_by_name(skills: Seq<SkillView>, character: Seq<char>, x: SkillView)
    ensures
        ordered(skills.filter(is_skill_of(character)), skill_before()).contains(x) <==> skills.contains(x) && x.character_id
            == character,
{
    let before = skill_before();
    assert forall|a: SkillView, b: SkillView| #[trigger] before(a, b) implies !before(b, a) by {
        lemma_text_before(a.skill_id, b.skill_id, a.skill_id);
    }
    assert forall|a: SkillView, b: SkillView, c: SkillView|
        !(#[trigger] before(a, b)) && !(#[trigger] before(b, c)) implies !before(a, c) by {
        lemma_not_before(a.skill_id, b.skill_id, c.skill_id);
    }
    lemma_shown(skills, is_skill_of(character), before, x);
}

/// A station shows a character's own jobs at it by slot, all of them and no others; all jobs are shown from the oldest on.
pub proof fn law_jobs_are_shown(
    jobs: Seq<StationJobView>,
    station: Seq<char>,
    character: Seq<char>,
    x: StationJobView,
    i: int,
    j: int,
)
    ensures
        ({
            let own = ordered(jobs.filter(is_job_at(station, character)), slot_before());
            let all = ordered(jobs, started_before());
            &&& own.contains(x) <==> jobs.contains(x) && x.station_id == station && x.character_id == character
            &&& 0 <= i < j < own.len() ==> own[i].slot <= own[j].slot
            &&& all.contains(x) <==> jobs.contains(x)
            &&& 0 <= i < j < all.len() ==> all[i].started_at <= all[j].started_at
        }),
{
    let f = jobs.filter(is_job_at(station, character));
    let own = ordered(f, slot_before());
    let all = ordered(jobs, started_before());
    assert(orders_rows(slot_before()));
    assert(orders_rows(started_before()));
    lemma_shown(jobs, is_job_at(station, character), slot_before(), x);
    law_page(f, slot_before(), -1, x);
    law_page(jobs, started_before(), -1, x);
    assert(limited(own, -1) == own);
    assert(limited(all, -1) == all);
    if all.contains(x) {
        let k = choose|k: int| 0 <= k < all.len() && all[k] == x;
        assert(jobs.contains(all[k]));
    }
    if 0 <= i < j < own.len() {
        assert(!slot_before()(own[j], own[i]));
    }
    if 0 <= i < j < all.len() {
        assert(!started_before()(all[j], all[i]));
    }
}

/// An order of the capital's is posted once for its district and kind. It is open if what it waits for is built, or if it
/// waits for nothing, and locked otherwise, with nothing put in.
pub proof fn law_how_an_order_is_posted(orders: Seq<BuildOrderView>, o: SeedBuildOrderView, now: int, id: Seq<char>)
    ensures
        ({
            let t = order_seeded(orders, o, now, id);
            let posted = exists|i: int|
                0 <= i < orders.len() && (#[trigger] orders[i]).district == o.district && orders[i].kind == o.kind;
            let ready = o.prereq is None || exists|i: int|
                0 <= i < orders.len() && (#[trigger] orders[i]).kind == o.prereq->0 && orders[i].state == "completed"@;
            &&& posted ==> t == orders
            &&& !posted ==> {
                let n = t.last();
                &&& t.len() == orders.len() + 1 && t.drop_last() == orders
                &&& n.id == id && n.district == o.district && n.kind == o.kind && n.required_json == o.required_json
                &&& n.progress_json == "{}"@ && n.issued_at == now && n.completed_at is None && n.path_json is None
                &&& n.required_skill == o.required_skill && n.required_level == o.required_level
                &&& n.structure_kind == Some(o.structure_kind) && n.x == Some(o.structure_x) && n.y == Some(o.structure_y)
                &&& ready ==> n.state == "open"@
                &&& !ready ==> n.state == "locked"@
            }
        }),
{
    let t = order_seeded(orders, o, now, id);
    assert(is_posted(orders, o.district, o.kind) || t.drop_last() =~= orders);
    if o.prereq is Some {
        let p = is_completed(o.prereq->0);
        if exists|i: int| 0 <= i < orders.len() && p(#[trigger] orders[i]) {
            let i = choose|i: int| 0 <= i < orders.len() && p(#[trigger] orders[i]);
            assert(orders[i].kind == o.prereq->0);
        }
        if exists|i: int| 0 <= i < orders.len() && (#[trigger] orders[i]).kind == o.prereq->0 && orders[i].state == "completed"@ {
            let i = choose|i: int|
                0 <= i < orders.len() && (#[trigger] orders[i]).kind == o.prereq->0 && orders[i].state == "completed"@;
            assert(p(orders[i]));
        }
        assert(is_unlocked(orders, o.prereq) == exists|i: int| 0 <= i < orders.len() && p(#[trigger] orders[i]));
    }
}

/// A plot of the capital starts out as nobody's, where its cell lies.
pub proof fn law_plots_start_out_unowned(cells: Seq<(Seq<char>, PlotCellView)>, ids: Seq<Seq<char>>, i: int)
    requires
        0 <= i < cells.len(),
    ensures
        ({
            let p = plots_laid(cells, ids)[i];
            &&& plots_laid(cells, ids).len() == cells.len()
            &&& p.owner_character_id is None && p.rent_due_at is None && p.rent_paid_through is None && p.state == "unowned"@
            &&& !p.auto_pay && !p.warned
            &&& p.district == cells[i].0 && p.grid_x == cells[i].1.grid_x && p.grid_y == cells[i].1.grid_y
            &&& p.w == cells[i].1.w && p.h == cells[i].1.h && p.tier == cells[i].1.tier
        }),
{
}

} // verus!
