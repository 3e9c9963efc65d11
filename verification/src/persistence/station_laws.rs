//! What jobs take, what they give, and when.

use vstd::prelude::*;

use crate::crafting_config::{ingredients_view, StationRecipe};
use crate::persistence::db::DbView;
use crate::persistence::inventory::{
    carried, carried_qty, carried_total, dropped, lemma_carried_bound, lemma_dropped, lemma_sum_constant,
    packed,
};
use crate::persistence::purse::{gold_of, has_character, lemma_paid};
use crate::persistence::rows::{StationFuelView, StationJobView};
use crate::persistence::stations::{
    bounty_paid, burned_fuel, can_load, collect_refused, fuel_at, fuelled, ids_for_payout, is_failable,
    is_job_in, is_job_of, is_station, job_collected, job_sound, job_started, jobs_sound, lemma_inputs_taken,
    lemma_paid_out, lemma_took_all, named_qty, pair_qty, payout_of, ripened, start_refused, took,
    CollectRefusal, JobTerms, StartRefusal,
};
use crate::table::{find, lemma_find, lemma_find_is, lemma_sum_remove, sum};

verus! {

/// A job that did not fail pays its owner exactly its output and the bonus, of that item and of no other, and gives no fuel
/// back. A negative bonus counts as none.
pub proof fn law_a_finished_job_pays_its_output(
    s: DbView,
    k: int,
    bonus: int,
    now: int,
    ids: Seq<Seq<Seq<char>>>,
    who: Seq<char>,
    what: Seq<char>,
)
    requires
        packed(s.inventory),
        jobs_sound(s),
        0 <= k < s.jobs.len(),
        s.jobs[k].state != "failed"@,
        ids_for_payout(payout_of(s.jobs[k], bonus), ids),
        s.jobs[k].output_qty + bonus + sum(s.inventory, carried_qty()) <= i64::MAX,
        s.jobs[k].output_qty + sum(s.inventory, carried_qty()) <= i64::MAX,
    ensures
        ({
            let j = s.jobs[k];
            let t = job_collected(s, k, bonus, now, ids);
            let owed = j.output_qty + if bonus > 0 {
                bonus
            } else {
                0
            };
            &&& payout_of(j, bonus).len() == 1
            &&& payout_of(j, bonus)[0] == (j.output_item, owed)
            &&& carried(t.inventory, who, what) == carried(s.inventory, who, what) + if who == j.character_id && what
                == j.output_item {
                owed
            } else {
                0
            }
            &&& t.fuel == s.fuel
            &&& t.jobs == s.jobs.remove(k)
        }),
{
    let j = s.jobs[k];
    assert(job_sound(j));
    let owed = j.output_qty + if bonus > 0 {
        bonus
    } else {
        0
    };
    let pay = payout_of(j, bonus);
    assert(pay =~= seq![(j.output_item, owed)]);
    lemma_one_pair(pay, pair_qty());
    lemma_one_pair(pay, named_qty(what));
    lemma_paid_out(s.inventory, j.character_id, pay, ids, who, what);
}

/// A failed job pays its owner back exactly what it holds, of each item as much as it took, and gives the station back the
/// fuel that it reserved.
pub proof fn law_a_failed_job_pays_back(
    s: DbView,
    k: int,
    bonus: int,
    now: int,
    ids: Seq<Seq<Seq<char>>>,
    who: Seq<char>,
    what: Seq<char>,
)
    requires
        packed(s.inventory),
        jobs_sound(s),
        0 <= k < s.jobs.len(),
        s.jobs[k].state == "failed"@,
        ids_for_payout(payout_of(s.jobs[k], bonus), ids),
        sum(s.inventory, carried_qty()) + sum(s.jobs[k].inputs, |p: (Seq<char>, int)| p.1) <= i64::MAX,
    ensures
        ({
            let j = s.jobs[k];
            let t = job_collected(s, k, bonus, now, ids);
            let owed = sum(
                j.inputs,
                |p: (Seq<char>, int)|
                    if p.0 == what {
                        p.1
                    } else {
                        0
                    },
            );
            &&& payout_of(j, bonus) == j.inputs
            &&& carried(t.inventory, who, what) == carried(s.inventory, who, what) + if who == j.character_id {
                owed
            } else {
                0
            }
            &&& fuel_at(t.fuel, j.station_id) == fuel_at(s.fuel, j.station_id) + if j.fuel_units > 0 {
                j.fuel_units
            } else {
                0
            }
            &&& t.jobs == s.jobs.remove(k)
        }),
{
    let j = s.jobs[k];
    assert(job_sound(j));
    let q = |p: (Seq<char>, int)| p.1;
    let f = |p: (Seq<char>, int)|
        if p.0 == what {
            p.1
        } else {
            0
        };
    lemma_same_pairs(j.inputs, q, pair_qty());
    lemma_same_pairs(j.inputs, f, named_qty(what));
    lemma_paid_out(s.inventory, j.character_id, j.inputs, ids, who, what);
    law_fuel_is_shared(s.fuel, j.station_id, j.fuel_units, now, j.station_id);
}

proof fn lemma_one_pair(s: Seq<(Seq<char>, int)>, f: spec_fn((Seq<char>, int)) -> int)
    requires
        s.len() == 1,
    ensures
        sum(s, f) == f(s[0]),
{
    assert(s.drop_last() =~= Seq::empty());
    assert(sum(s.drop_last(), f) == 0);
}

proof fn lemma_same_pairs(
    s: Seq<(Seq<char>, int)>,
    f: spec_fn((Seq<char>, int)) -> int,
    g: spec_fn((Seq<char>, int)) -> int,
)
    requires
        forall|p: (Seq<char>, int)| #[trigger] f(p) == g(p),
    ensures
        sum(s, f) == sum(s, g),
    decreases s.len(),
{
    if s.len() > 0 {
        lemma_same_pairs(s.drop_last(), f, g);
    }
}

/// A station's fuel is one pool: what is added to it, or taken from it, changes its level by exactly that, and no other
/// station's.
pub proof fn law_fuel_is_shared(fuel: Seq<StationFuelView>, station: Seq<char>, units: int, now: int, other: Seq<char>)
    ensures
        fuel_at(fuelled(fuel, station, units, now), other) == fuel_at(fuel, other) + if other == station {
            units
        } else {
            0
        },
        fuel_at(fuel, station) >= units > 0 ==> fuel_at(burned_fuel(fuel, station, units, now), other) == fuel_at(
            fuel,
            other,
        ) - if other == station {
            units
        } else {
            0
        },
{
    let p = is_station(station);
    let q = is_station(other);
    let k = find(fuel, p);
    let m = find(fuel, q);
    let more = fuelled(fuel, station, units, now);
    let less = burned_fuel(fuel, station, units, now);
    lemma_find(fuel, p);
    lemma_find(fuel, q);
    let m1 = if m < fuel.len() {
        m
    } else if other == station {
        fuel.len() as int
    } else {
        more.len() as int
    };
    assert forall|i: int| 0 <= i < m1 implies !q(#[trigger] more[i]) by {
        if i < fuel.len() {
            assert(!q(fuel[i]));
        }
    }
    lemma_find_is(more, q, m1);
    assert forall|i: int| 0 <= i < m implies !q(#[trigger] less[i]) by {
        assert(!q(fuel[i]));
    }
    if k < fuel.len() {
        lemma_find_is(less, q, m);
    }
}

/// When a job is collected: there is one with this id of this character, it is not running, and what it owes fits into the
/// pack. Otherwise the first of these that fails is the reason.
pub proof fn law_when_a_job_is_collected(s: DbView, job: Seq<char>, character: Seq<char>, bonus: int)
    ensures
        ({
            let k = find(s.jobs, is_job_of(job, character));
            let why = collect_refused(s, job, character, bonus);
            let load = carried_total(s.inventory, character);
            let room = if load >= 50 {
                0
            } else {
                50 - load
            };
            let need = if s.jobs[k].state == "failed"@ {
                sum(s.jobs[k].inputs, |p: (Seq<char>, int)| p.1)
            } else {
                s.jobs[k].output_qty + if bonus > 0 {
                    bonus
                } else {
                    0
                }
            };
            if forall|i: int| 0 <= i < s.jobs.len() ==> !((#[trigger] s.jobs[i]).id == job && s.jobs[i].character_id == character) {
                why == Some(CollectRefusal::NoSuchJob)
            } else {
                &&& 0 <= k < s.jobs.len() && s.jobs[k].id == job && s.jobs[k].character_id == character
                &&& s.jobs[k].state == "running"@ ==> why == Some(CollectRefusal::NotReady { ready_at: s.jobs[k].ready_at })
                &&& s.jobs[k].state != "running"@ && need > room ==> why == Some(CollectRefusal::NoRoom { need, room })
                &&& s.jobs[k].state != "running"@ && need <= room ==> why is None
            }
        }),
{
    let p = is_job_of(job, character);
    let k = find(s.jobs, p);
    lemma_find(s.jobs, p);
    if k < s.jobs.len() {
        let j = s.jobs[k];
        let q = |p: (Seq<char>, int)| p.1;
        lemma_same_pairs(j.inputs, q, pair_qty());
        let pay = payout_of(j, bonus);
        if j.state != "failed"@ {
            lemma_one_pair(pay, pair_qty());
        }
        assert(s.jobs[k].id == job);
    }
}

/// When a job starts: the slot is free, the purse covers the fee, each input is carried and the station holds the fuel.
/// Otherwise the first of these that fails is the reason.
pub proof fn law_when_a_job_starts(s: DbView, t: JobTerms, recipe: StationRecipe)
    ensures
        ({
            let why = start_refused(s, t, recipe);
            let gold = gold_of(s.characters, t.character);
            let fuel = fuel_at(s.fuel, t.station);
            let busy = exists|i: int|
                0 <= i < s.jobs.len() && (#[trigger] s.jobs[i]).station_id == t.station && s.jobs[i].character_id == t.character
                    && s.jobs[i].slot == t.slot;
            let lacks = exists|i: int|
                0 <= i < recipe.inputs@.len() && carried(
                    s.inventory,
                    t.character,
                    (#[trigger] recipe.inputs@[i]).item@,
                ) < recipe.inputs@[i].qty;
            if busy {
                why == Some(StartRefusal::SlotBusy)
            } else if gold < t.fee {
                why == Some(StartRefusal::NotEnoughGold { need: t.fee, have: gold })
            } else if lacks {
                why matches Some(StartRefusal::MissingInput { item, need, have }) && have == carried(
                    s.inventory,
                    t.character,
                    item,
                ) && have < need
            } else if recipe.fuel_units > 0 && fuel < recipe.fuel_units {
                why == Some(StartRefusal::NotEnoughFuel { need: recipe.fuel_units as int, have: fuel })
            } else {
                why is None
            }
        }),
{
    let p = is_job_in(t.station, t.character, t.slot);
    lemma_find(s.jobs, p);
    let inputs = ingredients_view(recipe.inputs@);
    let short = |i: (Seq<char>, int)| carried(s.inventory, t.character, i.0) < i.1;
    lemma_find(inputs, short);
    let k = find(inputs, short);
    if find(s.jobs, p) < s.jobs.len() {
        assert(s.jobs[find(s.jobs, p)].station_id == t.station);
    }
    assert forall|i: int| 0 <= i < s.jobs.len() && find(s.jobs, p) == s.jobs.len() implies !((#[trigger] s.jobs[i]).station_id
        == t.station && s.jobs[i].character_id == t.character && s.jobs[i].slot == t.slot) by {
        assert(!p(s.jobs[i]));
    }
    if k < inputs.len() {
        assert(short(inputs[k]));
        assert(inputs[k] == (recipe.inputs@[k].item@, recipe.inputs@[k].qty as int));
    }
    assert forall|i: int| 0 <= i < recipe.inputs@.len() && k == inputs.len() implies !(carried(
        s.inventory,
        t.character,
        (#[trigger] recipe.inputs@[i]).item@,
    ) < recipe.inputs@[i].qty) by {
        assert(!short(inputs[i]));
    }
}

/// What starting a job does: the fee leaves the purse, the fuel leaves the station, what the job records as its inputs leaves
/// what its owner carries, and the job is there: its owner's, in its slot, with the recipe's output, running, and ready after
/// its duration in whole seconds, rounded up and at least one.
pub proof fn law_what_starting_a_job_does(
    s: DbView,
    t: JobTerms,
    recipe: StationRecipe,
    id: Seq<char>,
    ids: Seq<Seq<char>>,
    what: Seq<char>,
)
    requires
        packed(s.inventory),
        has_character(s.characters, t.character),
        start_refused(s, t, recipe) is None,
    ensures
        ({
            let u = job_started(s, t, recipe, id, ids);
            let j = u.jobs[s.jobs.len() as int];
            let ms = if t.duration_ms > 1 {
                t.duration_ms
            } else {
                1
            };
            &&& u.jobs.len() == s.jobs.len() + 1
            &&& u.jobs.take(s.jobs.len() as int) == s.jobs
            &&& j.id == id && j.station_id == t.station && j.character_id == t.character && j.slot == t.slot
            &&& j.recipe_id == t.recipe_id && j.state == "running"@ && j.fail_reason is None
            &&& j.output_item == recipe.output_item@ && j.output_qty == recipe.output_qty
            &&& j.xp == recipe.xp && j.skill == recipe.skill@ && j.fuel_units == recipe.fuel_units
            &&& j.started_at == t.now
            &&& (j.ready_at - t.now) * 1000 >= ms > (j.ready_at - t.now - 1) * 1000
            &&& j.inputs.len() == recipe.inputs@.len()
            &&& forall|i: int|
                0 <= i < j.inputs.len() ==> (#[trigger] j.inputs[i]).0 == recipe.inputs@[i].item@ && j.inputs[i].1 >= 0
            &&& carried(u.inventory, t.character, what) == carried(s.inventory, t.character, what) - sum(
                j.inputs,
                |p: (Seq<char>, int)|
                    if p.0 == what {
                        p.1
                    } else {
                        0
                    },
            )
            &&& gold_of(u.characters, t.character) == gold_of(s.characters, t.character) - if t.fee > 0 {
                t.fee
            } else {
                0
            }
            &&& fuel_at(u.fuel, t.station) == fuel_at(s.fuel, t.station) - if recipe.fuel_units > 0 {
                recipe.fuel_units as int
            } else {
                0
            }
        }),
{
    let u = job_started(s, t, recipe, id, ids);
    let inputs = ingredients_view(recipe.inputs@);
    let f = |p: (Seq<char>, int)|
        if p.0 == what {
            p.1
        } else {
            0
        };
    lemma_inputs_taken(s.inventory, t.character, inputs, ids, t.character, what);
    let taken = took(s.inventory, t.character, inputs, ids);
    lemma_same_pairs(taken, f, named_qty(what));
    lemma_paid(s.characters, t.character, -t.fee);
    law_fuel_is_shared(s.fuel, t.station, recipe.fuel_units as int, t.now, t.station);
    assert(u.jobs.take(s.jobs.len() as int) =~= s.jobs);
    let j = u.jobs[s.jobs.len() as int];
    assert forall|i: int| 0 <= i < j.inputs.len() implies (#[trigger] j.inputs[i]).0 == recipe.inputs@[i].item@ && j.inputs[i].1
        >= 0 by {
        assert(inputs[i].0 == recipe.inputs@[i].item@);
    }
}

/// A job takes all of its inputs: where a recipe names each item once, the job records exactly the recipe's inputs, and what
/// its owner carries falls by exactly those.
pub proof fn law_a_job_takes_its_inputs(
    s: DbView,
    t: JobTerms,
    recipe: StationRecipe,
    id: Seq<char>,
    ids: Seq<Seq<char>>,
    i: int,
)
    requires
        packed(s.inventory),
        start_refused(s, t, recipe) is None,
        forall|a: int, b: int|
            0 <= a < b < recipe.inputs@.len() ==> (#[trigger] recipe.inputs@[a]).item@ != (#[trigger] recipe.inputs@[b]).item@,
        forall|a: int| 0 <= a < recipe.inputs@.len() ==> (#[trigger] recipe.inputs@[a]).qty >= 0,
        0 <= i < recipe.inputs@.len(),
    ensures
        ({
            let u = job_started(s, t, recipe, id, ids);
            let j = u.jobs[s.jobs.len() as int];
            let item = recipe.inputs@[i].item@;
            &&& j.inputs[i] == (item, recipe.inputs@[i].qty as int)
            &&& carried(u.inventory, t.character, item) == carried(s.inventory, t.character, item) - recipe.inputs@[i].qty
        }),
{
    let inputs = ingredients_view(recipe.inputs@);
    let item = inputs[i].0;
    law_when_a_job_starts(s, t, recipe);
    assert forall|a: int| 0 <= a < inputs.len() implies 0 <= (#[trigger] inputs[a]).1 <= carried(
        s.inventory,
        t.character,
        inputs[a].0,
    ) by {
        assert(recipe.inputs@[a].qty >= 0);
    }
    assert forall|a: int, b: int| 0 <= a < b < inputs.len() implies (#[trigger] inputs[a]).0 != (#[trigger] inputs[b]).0 by {
        assert(recipe.inputs@[a].item@ != recipe.inputs@[b].item@);
    }
    lemma_took_all(s.inventory, t.character, inputs, ids);
    lemma_inputs_taken(s.inventory, t.character, inputs, ids, t.character, item);
    lemma_sum_of_one(inputs, named_qty(item), i);
}

/// Where only one entry counts, the sum is what it counts.
proof fn lemma_sum_of_one(s: Seq<(Seq<char>, int)>, f: spec_fn((Seq<char>, int)) -> int, i: int)
    requires
        0 <= i < s.len(),
        forall|j: int| 0 <= j < s.len() && j != i ==> f(#[trigger] s[j]) == 0,
    ensures
        sum(s, f) == f(s[i]),
{
    lemma_sum_remove(s, f, i);
    let rest = s.remove(i);
    assert forall|j: int| 0 <= j < rest.len() implies f(#[trigger] rest[j]) == 0 by {
        assert(rest[j] == s[if j < i {
            j
        } else {
            j + 1
        }]);
    }
    lemma_sum_constant(rest, f, 0);
    assert(rest.len() * 0 == 0) by (nonlinear_arith);
}

/// A job ripens when its time has come: one that runs and is due is ready, and every other stays as it is.
pub proof fn law_jobs_ripen_when_due(jobs: Seq<StationJobView>, now: int, i: int)
    requires
        0 <= i < jobs.len(),
    ensures
        ripened(jobs, now).len() == jobs.len(),
        jobs[i].state == "running"@ && jobs[i].ready_at <= now ==> ripened(jobs, now)[i] == (StationJobView {
            state: "ready"@,
            ..jobs[i]
        }),
        jobs[i].state != "running"@ || jobs[i].ready_at > now ==> ripened(jobs, now)[i] == jobs[i],
{
}

/// Loading fuel takes place exactly where the items burn, some are offered and all that are offered are carried.
pub proof fn law_fuel_is_loaded_whole(
    s: DbView,
    station: Seq<char>,
    character: Seq<char>,
    item: Seq<char>,
    qty: int,
    units: int,
    now: int,
    id: Seq<char>,
)
    requires
        packed(s.inventory),
    ensures
        can_load(s, character, item, qty, units) <==> qty > 0 && units > 0 && carried(s.inventory, character, item) >= qty,
        can_load(s, character, item, qty, units) ==> {
            &&& carried(dropped(s.inventory, character, item, qty, id), character, item) == carried(
                s.inventory,
                character,
                item,
            ) - qty
            &&& fuel_at(fuelled(s.fuel, station, qty * units, now), station) == fuel_at(s.fuel, station) + qty * units
        },
{
    lemma_carried_bound(s.inventory, character, item);
    lemma_dropped(s.inventory, character, item, qty, id, character, item);
    law_fuel_is_shared(s.fuel, station, qty * units, now, station);
}

/// A bounty is all or nothing: what is required leaves what the hunter carries, and the gold for it is in the purse. Nobody
/// else gains or loses anything.
pub proof fn law_a_bounty_is_paid_whole(
    s: DbView,
    character: Seq<char>,
    item: Seq<char>,
    required: int,
    gold: int,
    now: int,
    id: Seq<char>,
    who: Seq<char>,
    what: Seq<char>,
)
    requires
        packed(s.inventory),
        has_character(s.characters, character),
        0 <= required <= carried(s.inventory, character, item),
        gold >= 0,
    ensures
        ({
            let t = bounty_paid(s, character, item, required, gold, now, id);
            &&& carried(t.inventory, who, what) == carried(s.inventory, who, what) - if who == character && what == item {
                required
            } else {
                0
            }
            &&& gold_of(t.characters, who) == gold_of(s.characters, who) + if who == character {
                gold
            } else {
                0
            }
        }),
{
    lemma_carried_bound(s.inventory, character, item);
    lemma_dropped(s.inventory, character, item, required, id, who, what);
    lemma_paid(s.characters, character, gold);
}

/// A job can fail while it has not failed yet, running or ready, and only under its own id.
pub proof fn law_a_job_fails_once(jobs: Seq<StationJobView>, id: Seq<char>, k: int)
    requires
        0 <= k < jobs.len(),
        jobs[k].id == id,
        forall|i: int| 0 <= i < jobs.len() && i != k ==> (#[trigger] jobs[i]).id != id,
    ensures
        jobs[k].state != "failed"@ ==> find(jobs, is_failable(id)) == k,
        jobs[k].state == "failed"@ ==> find(jobs, is_failable(id)) == jobs.len(),
{
    let p = is_failable(id);
    let m = if jobs[k].state != "failed"@ {
        k
    } else {
        jobs.len() as int
    };
    assert forall|i: int| 0 <= i < m implies !p(#[trigger] jobs[i]) by {
        if i == k {
            assert(jobs[i].state == "failed"@);
        }
    }
    lemma_find_is(jobs, p, m);
}

} // verus!
