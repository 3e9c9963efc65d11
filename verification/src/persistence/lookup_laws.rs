//! What is looked up and counted: whose row it is, and which rows add to it.

use vstd::prelude::*;

use crate::persistence::costs::{covered, still_needed, whole_members};
use crate::persistence::db::DbView;
use crate::persistence::home_laws::{lemma_not_before, lemma_shown};
use crate::persistence::inventory::{
    carried, carried_order, carried_qty, carried_total, is_carried, is_carried_by, next_carried,
};
use crate::persistence::purse::{gold_of, has_character, is_character};
use crate::persistence::rows::{
    CharacterRecordView, InventoryItemView, SkillView, StationFuelView, StorageItemView,
    WarehouseAccountView, WarehouseItemView,
};
use crate::persistence::seeding::seeded;
use crate::persistence::skills::{is_skill, xp_of};
use crate::persistence::stations::{fuel_at, is_station};
use crate::persistence::storage::{is_stored, is_stored_by, item_before, stored, stored_before, stored_qty};
use crate::persistence::storage_fees::{arrears_of, charged_at, is_account, seen_at};
use crate::persistence::warehouse::{is_slot, is_stock, next_slot, slot_order, stock, stock_qty, StockKey};
use crate::table::{
    law_least, law_ordered, lemma_filter_contains, lemma_find, lemma_find_is, lemma_least, lemma_sum_same,
    ordered, qty_if, sum,
};
use crate::tally::amount;
use crate::text::{lemma_text_before, text_before};
use crate::world::capital::{all_plots, CapitalView};

verus! {

/// What is known of a character is what their own row says, the first under their id; of nobody, nothing.
pub proof fn law_a_character_is_their_row(characters: Seq<CharacterRecordView>, id: Seq<char>, k: int)
    ensures
        0 <= k < characters.len() && characters[k].character.id == id && (forall|i: int|
            0 <= i < k ==> (#[trigger] characters[i]).character.id != id) ==> has_character(characters, id) && gold_of(
            characters,
            id,
        ) == characters[k].gold && seen_at(characters, id) == characters[k].last_seen,
        (forall|i: int| 0 <= i < characters.len() ==> (#[trigger] characters[i]).character.id != id) ==> !has_character(
            characters,
            id,
        ) && gold_of(characters, id) == 0 && seen_at(characters, id) == 0,
{
    let p = is_character(id);
    lemma_find(characters, p);
    if 0 <= k < characters.len() && characters[k].character.id == id && (forall|i: int|
        0 <= i < k ==> (#[trigger] characters[i]).character.id != id) {
        lemma_find_is(characters, p, k);
    }
}

/// An account for storage is the row of its market and its holder; without one, nothing is owed and nothing was charged.
pub proof fn law_an_account_is_its_row(accounts: Seq<WarehouseAccountView>, market: Seq<char>, who: Seq<char>, k: int)
    ensures
        0 <= k < accounts.len() && accounts[k].market_id == market && accounts[k].character_id == who && (forall|i: int|
            0 <= i < k ==> !((#[trigger] accounts[i]).market_id == market && accounts[i].character_id == who)) ==> arrears_of(
            accounts,
            market,
            who,
        ) == accounts[k].arrears && charged_at(accounts, market, who) == accounts[k].last_charged_at,
        (forall|i: int|
            0 <= i < accounts.len() ==> !((#[trigger] accounts[i]).market_id == market && accounts[i].character_id == who))
            ==> arrears_of(accounts, market, who) == 0 && charged_at(accounts, market, who) == 0,
{
    let p = is_account(market, who);
    lemma_find(accounts, p);
    if 0 <= k < accounts.len() && accounts[k].market_id == market && accounts[k].character_id == who && (forall|i: int|
        0 <= i < k ==> !((#[trigger] accounts[i]).market_id == market && accounts[i].character_id == who)) {
        lemma_find_is(accounts, p, k);
    }
}

/// A skill's experience is its row's, and a station's fuel is its row's; without one there is none.
pub proof fn law_skills_and_fuel_are_their_rows(
    skills: Seq<SkillView>,
    character: Seq<char>,
    skill: Seq<char>,
    fuel: Seq<StationFuelView>,
    station: Seq<char>,
    k: int,
)
    ensures
        0 <= k < skills.len() && skills[k].character_id == character && skills[k].skill_id == skill && (forall|i: int|
            0 <= i < k ==> !((#[trigger] skills[i]).character_id == character && skills[i].skill_id == skill)) ==> xp_of(
            skills,
            character,
            skill,
        ) == skills[k].xp,
        (forall|i: int|
            0 <= i < skills.len() ==> !((#[trigger] skills[i]).character_id == character && skills[i].skill_id == skill))
            ==> xp_of(skills, character, skill) == 0,
        0 <= k < fuel.len() && fuel[k].station_id == station && (forall|i: int|
            0 <= i < k ==> (#[trigger] fuel[i]).station_id != station) ==> fuel_at(fuel, station) == fuel[k].units,
        (forall|i: int| 0 <= i < fuel.len() ==> (#[trigger] fuel[i]).station_id != station) ==> fuel_at(fuel, station) == 0,
{
    let p = is_skill(character, skill);
    let q = is_station(station);
    lemma_find(skills, p);
    lemma_find(fuel, q);
    if 0 <= k < skills.len() && skills[k].character_id == character && skills[k].skill_id == skill && (forall|i: int|
        0 <= i < k ==> !((#[trigger] skills[i]).character_id == character && skills[i].skill_id == skill)) {
        lemma_find_is(skills, p, k);
    }
    if 0 <= k < fuel.len() && fuel[k].station_id == station && (forall|i: int|
        0 <= i < k ==> (#[trigger] fuel[i]).station_id != station) {
        lemma_find_is(fuel, q, k);
    }
}

/// What is carried, stored or lies at a market of an item is the sum over all rows of that owner and that item, and what is
/// carried in all is the sum over all of the owner's rows.
pub proof fn law_what_is_held_is_the_sum(s: DbView, who: Seq<char>, what: Seq<char>, market: Seq<char>, state: Seq<char>)
    ensures
        carried(s.inventory, who, what) == sum(
            s.inventory,
            |r: InventoryItemView|
                if r.character_id == who && r.item_id == what {
                    r.qty
                } else {
                    0
                },
        ),
        carried_total(s.inventory, who) == sum(
            s.inventory,
            |r: InventoryItemView|
                if r.character_id == who {
                    r.qty
                } else {
                    0
                },
        ),
        stored(s.storage, who, what) == sum(
            s.storage,
            |r: StorageItemView|
                if r.character_id == who && r.item_id == what {
                    r.qty
                } else {
                    0
                },
        ),
        stock(s.warehouse, StockKey { market, character: who, item: what }, state) == sum(
            s.warehouse,
            |r: WarehouseItemView|
                if r.market_id == market && r.character_id == who && r.item_id == what && r.state == state {
                    r.qty
                } else {
                    0
                },
        ),
{
    lemma_sum_same(
        s.inventory,
        |r: InventoryItemView|
            if r.character_id == who && r.item_id == what {
                r.qty
            } else {
                0
            },
        qty_if(is_carried(who, what), carried_qty()),
    );
    lemma_sum_same(
        s.inventory,
        |r: InventoryItemView|
            if r.character_id == who {
                r.qty
            } else {
                0
            },
        qty_if(is_carried_by(who), carried_qty()),
    );
    lemma_sum_same(
        s.storage,
        |r: StorageItemView|
            if r.character_id == who && r.item_id == what {
                r.qty
            } else {
                0
            },
        qty_if(is_stored(who, what), stored_qty()),
    );
    lemma_sum_same(
        s.warehouse,
        |r: WarehouseItemView|
            if r.market_id == market && r.character_id == who && r.item_id == what && r.state == state {
                r.qty
            } else {
                0
            },
        stock_qty(StockKey { market, character: who, item: what }, state),
    );
}

/// Goods leave in the order of their ids: of what matches, none has an id before that of the row that is next.
pub proof fn law_goods_leave_by_id(
    rows: Seq<InventoryItemView>,
    slots: Seq<WarehouseItemView>,
    who: Seq<char>,
    what: Seq<char>,
    market: Seq<char>,
    state: Seq<char>,
    i: int,
)
    ensures
        ({
            let k = next_carried(rows, who, what);
            0 <= i < rows.len() && rows[i].character_id == who && rows[i].item_id == what ==> {
                &&& 0 <= k < rows.len() && rows[k].character_id == who && rows[k].item_id == what
                &&& !text_before(rows[i].id, rows[k].id)
            }
        }),
        ({
            let k = next_slot(slots, StockKey { market, character: who, item: what }, state);
            0 <= i < slots.len() && slots[i].market_id == market && slots[i].character_id == who && slots[i].item_id == what
                && slots[i].state == state ==> {
                &&& 0 <= k < slots.len() && slots[k].market_id == market && slots[k].character_id == who && slots[k].item_id == what
                    && slots[k].state == state
                &&& !text_before(slots[i].id, slots[k].id)
            }
        }),
{
    let a = carried_order();
    let b = slot_order();
    assert forall|x: InventoryItemView, y: InventoryItemView| #[trigger] a(x, y) implies !a(y, x) by {
        lemma_text_before(x.id, y.id, x.id);
    }
    assert forall|x: InventoryItemView, y: InventoryItemView, z: InventoryItemView|
        !(#[trigger] a(x, y)) && !(#[trigger] a(y, z)) implies !a(x, z) by {
        lemma_not_before(x.id, y.id, z.id);
    }
    assert forall|x: WarehouseItemView, y: WarehouseItemView| #[trigger] b(x, y) implies !b(y, x) by {
        lemma_text_before(x.id, y.id, x.id);
    }
    assert forall|x: WarehouseItemView, y: WarehouseItemView, z: WarehouseItemView|
        !(#[trigger] b(x, y)) && !(#[trigger] b(y, z)) implies !b(x, z) by {
        lemma_not_before(x.id, y.id, z.id);
    }
    let p = is_carried(who, what);
    let q = is_stock(StockKey { market, character: who, item: what }, state);
    law_least(rows, p, a);
    lemma_least(rows, p, a);
    law_least(slots, q, b);
    lemma_least(slots, q, b);
    if 0 <= i < rows.len() {
        assert(p(rows[i]) == (rows[i].character_id == who && rows[i].item_id == what));
    }
    if 0 <= i < slots.len() {
        assert(q(slots[i]) == (slots[i].market_id == market && slots[i].character_id == who && slots[i].item_id == what
            && slots[i].state == state));
    }
}

/// Of what is written down as a cost, exactly the members that are whole numbers count, as they stand and in their order.
pub proof fn law_whole_numbers_count(s: Seq<(Seq<char>, Option<int>)>, name: Seq<char>, n: int)
    ensures
        whole_members(s).contains((name, n)) <==> s.contains((name, Some(n))),
        whole_members(s).len() == s.filter(|m: (Seq<char>, Option<int>)| m.1 is Some).len(),
    decreases s.len(),
{
    reveal(Seq::filter);
    let out = whole_members(s);
    if s.len() > 0 {
        let head = s.drop_last();
        let before = whole_members(head);
        let z = s.len() - 1;
        law_whole_numbers_count(head, name, n);
        if out.contains((name, n)) {
            let i = choose|i: int| 0 <= i < out.len() && out[i] == (name, n);
            if i < before.len() {
                assert(before[i] == (name, n));
                let j = choose|j: int| 0 <= j < head.len() && head[j] == (name, Some(n));
                assert(s[j] == (name, Some(n)));
            } else {
                assert(s[z] == (name, Some(n)));
            }
        }
        if s.contains((name, Some(n))) {
            let j = choose|j: int| 0 <= j < s.len() && s[j] == (name, Some(n));
            if j < z {
                assert(head[j] == (name, Some(n)));
                let i = choose|i: int| 0 <= i < before.len() && before[i] == (name, n);
                assert(out[i] == (name, n));
            } else {
                assert(out[out.len() - 1] == (name, n));
            }
        }
    }
}

/// A cost still needs of an item what is missing of it, and nothing of what there is enough of; it is covered exactly when
/// it needs nothing of any item that it names.
pub proof fn law_what_a_cost_still_needs(required: Seq<(Seq<char>, int)>, progress: Seq<(Seq<char>, int)>, item: Seq<char>)
    ensures
        ({
            let missing = amount(required, item) - amount(progress, item);
            &&& missing <= 0 ==> still_needed(required, progress, item) == 0
            &&& 0 < missing <= i64::MAX ==> still_needed(required, progress, item) == missing
        }),
        covered(required, progress) <==> forall|i: int|
            0 <= i < required.len() ==> (#[trigger] required[i]).1 - amount(progress, required[i].0) <= 0,
{
    if covered(required, progress) {
        assert forall|i: int| 0 <= i < required.len() implies (#[trigger] required[i]).1 - amount(progress, required[i].0) <= 0 by {
            assert(amount(progress, required[i].0) >= required[i].1);
        }
    }
}

/// Plots are laid out where there are none yet, one for each of the capital's, and never again.
pub proof fn law_plots_are_laid_out_once(
    s: DbView,
    c: CapitalView,
    now: int,
    plot_ids: Seq<Seq<char>>,
    order_ids: Seq<Seq<char>>,
)
    ensures
        s.plots.len() == 0 ==> seeded(s, c, now, plot_ids, order_ids).plots.len() == all_plots(c.districts).len(),
        s.plots.len() > 0 ==> seeded(s, c, now, plot_ids, order_ids).plots == s.plots,
{
}

/// What a character carries, stores or has at a market is shown whole, and nobody else's with it; what is carried and what
/// is stored is shown by item.
pub proof fn law_holdings_are_shown(
    s: DbView,
    who: Seq<char>,
    market: Seq<char>,
    x: InventoryItemView,
    y: StorageItemView,
    z: WarehouseItemView,
    i: int,
    j: int,
)
    ensures
        ({
            let pack = ordered(s.inventory.filter(is_carried_by(who)), item_before());
            let shelf = ordered(s.storage.filter(is_stored_by(who)), stored_before());
            &&& pack.contains(x) <==> s.inventory.contains(x) && x.character_id == who
            &&& shelf.contains(y) <==> s.storage.contains(y) && y.character_id == who
            &&& s.warehouse.filter(is_slot(market, who)).contains(z) <==> s.warehouse.contains(z) && z.market_id == market
                && z.character_id == who
            &&& 0 <= i < j < pack.len() ==> !text_before(pack[j].item_id, pack[i].item_id)
            &&& 0 <= i < j < shelf.len() ==> !text_before(shelf[j].item_id, shelf[i].item_id)
        }),
{
    let a = item_before();
    let b = stored_before();
    assert forall|x: InventoryItemView, y: InventoryItemView| #[trigger] a(x, y) implies !a(y, x) by {
        lemma_text_before(x.item_id, y.item_id, x.item_id);
    }
    assert forall|x: InventoryItemView, y: InventoryItemView, z: InventoryItemView|
        !(#[trigger] a(x, y)) && !(#[trigger] a(y, z)) implies !a(x, z) by {
        lemma_not_before(x.item_id, y.item_id, z.item_id);
    }
    assert forall|x: StorageItemView, y: StorageItemView| #[trigger] b(x, y) implies !b(y, x) by {
        lemma_text_before(x.item_id, y.item_id, x.item_id);
    }
    assert forall|x: StorageItemView, y: StorageItemView, z: StorageItemView|
        !(#[trigger] b(x, y)) && !(#[trigger] b(y, z)) implies !b(x, z) by {
        lemma_not_before(x.item_id, y.item_id, z.item_id);
    }
    let pack = ordered(s.inventory.filter(is_carried_by(who)), a);
    let shelf = ordered(s.storage.filter(is_stored_by(who)), b);
    lemma_shown(s.inventory, is_carried_by(who), a, x);
    lemma_shown(s.storage, is_stored_by(who), b, y);
    lemma_filter_contains(s.warehouse, is_slot(market, who), z);
    law_ordered(s.inventory.filter(is_carried_by(who)), a);
    law_ordered(s.storage.filter(is_stored_by(who)), b);
    if 0 <= i < j < pack.len() {
        assert(!a(pack[j], pack[i]));
    }
    if 0 <= i < j < shelf.len() {
        assert(!b(shelf[j], shelf[i]));
    }
}

} // verus!
