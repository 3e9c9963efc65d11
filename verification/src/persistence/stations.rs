//! Stations: shared fuel, and timed jobs that hold what they were given until they are collected.

use vstd::prelude::*;

use crate::crafting_config::{ingredients_view, StationRecipe};
use crate::market_config::BountyConfig;
use crate::persistence::db::{Db, DbView};
use crate::persistence::ids::new_id;
use crate::persistence::inventory::{
    add_inventory_in_tx, carried, carried_qty, drop_qty, dropped, ids_for, inventory_qty_in_tx,
    lemma_carried_bound, lemma_dropped, lemma_picked_up, lemma_sum_constant, packed, picked_up,
    remove_inventory_in_tx, MAX_CARRY,
};
use crate::persistence::purse::{
    claimed, fresh_command, gold_of, has_character, law_minting_is_ledgered, ledger_gold_in_tx, ledgered,
    lemma_ledgered, lemma_paid, lemma_purse_bound, minted, paid, pay_in_tx, solvent, supply_gap, wealth,
};
use crate::persistence::rows::{InventoryItemView, StationFuel, StationFuelView, StationJob, StationJobView};
use crate::persistence::storage::carry_room;
use crate::table::{
    find, lemma_filter_all, lemma_find, lemma_find_is, lemma_sum_nonneg, lemma_sum_prefix, lemma_sum_push,
    order_rows, ordered, rows_view, sum, Row, Table,
};
use crate::text::{copy_pairs, opt_text, pairs_view, same};

verus! {

pub open spec fn is_station(id: Seq<char>) -> spec_fn(StationFuelView) -> bool {
    |f: StationFuelView| f.station_id == id
}

/// The fuel that a station holds; 0 before any was loaded.
pub open spec fn fuel_at(fuel: Seq<StationFuelView>, station: Seq<char>) -> int {
    let k = find(fuel, is_station(station));
    if k < fuel.len() {
        fuel[k].units
    } else {
        0
    }
}

/// The fuel after units are added to a station.
pub open spec fn fuelled(fuel: Seq<StationFuelView>, station: Seq<char>, units: int, now: int) -> Seq<
    StationFuelView,
> {
    let k = find(fuel, is_station(station));
    if k < fuel.len() {
        fuel.update(k, StationFuelView { units: fuel[k].units + units, updated_at: now, ..fuel[k] })
    } else {
        fuel.push(StationFuelView { station_id: station, units, updated_at: now })
    }
}

/// The fuel after units are taken from a station that has them.
pub open spec fn burned_fuel(fuel: Seq<StationFuelView>, station: Seq<char>, units: int, now: int) -> Seq<
    StationFuelView,
> {
    let k = find(fuel, is_station(station));
    if k < fuel.len() {
        fuel.update(k, StationFuelView { units: fuel[k].units - units, updated_at: now, ..fuel[k] })
    } else {
        fuel
    }
}

/// Whether fuel can be loaded: something that burns, and the character carries it.
pub open spec fn can_load(s: DbView, character: Seq<char>, item: Seq<char>, qty: int, units: int) -> bool {
    qty > 0 && units > 0 && carried(s.inventory, character, item) >= qty
}

pub open spec fn is_job_in(station: Seq<char>, character: Seq<char>, slot: int) -> spec_fn(StationJobView) -> bool {
    |j: StationJobView| j.station_id == station && j.character_id == character && j.slot == slot
}

pub open spec fn is_job_at(station: Seq<char>, character: Seq<char>) -> spec_fn(StationJobView) -> bool {
    |j: StationJobView| j.station_id == station && j.character_id == character
}

pub open spec fn is_job_of(id: Seq<char>, character: Seq<char>) -> spec_fn(StationJobView) -> bool {
    |j: StationJobView| j.id == id && j.character_id == character
}

/// Whether a job is this one and has not failed.
pub open spec fn is_failable(id: Seq<char>) -> spec_fn(StationJobView) -> bool {
    |j: StationJobView| j.id == id && j.state != "failed"@
}

/// Whether a running job's time has come.
pub open spec fn is_ripe(now: int) -> spec_fn(StationJobView) -> bool {
    |j: StationJobView| j.state == "running"@ && j.ready_at <= now
}

/// Why a job could not start.
#[derive(Debug, Clone, PartialEq, Eq)]
pub enum StartJobError {
    SlotBusy,
    NotEnoughGold { need: i64, have: i64 },
    NotEnoughFuel { need: i64, have: i64 },
    MissingInput { item: String, need: i64, have: i64 },
}

/// The view of a [`StartJobError`].
pub enum StartRefusal {
    SlotBusy,
    NotEnoughGold { need: int, have: int },
    NotEnoughFuel { need: int, have: int },
    MissingInput { item: Seq<char>, need: int, have: int },
}

impl View for StartJobError {
    type V = StartRefusal;

    open spec fn view(&self) -> StartRefusal {
        match self {
            StartJobError::SlotBusy => StartRefusal::SlotBusy,
            StartJobError::NotEnoughGold { need, have } => StartRefusal::NotEnoughGold {
                need: *need as int,
                have: *have as int,
            },
            StartJobError::NotEnoughFuel { need, have } => StartRefusal::NotEnoughFuel {
                need: *need as int,
                have: *have as int,
            },
            StartJobError::MissingInput { item, need, have } => StartRefusal::MissingInput {
                item: item@,
                need: *need as int,
                have: *have as int,
            },
        }
    }
}

impl StartJobError {
    pub open spec fn spec_code(self) -> Seq<char> {
        match self {
            StartJobError::SlotBusy => "slot_busy"@,
            StartJobError::NotEnoughGold { .. } => "not_enough_gold"@,
            StartJobError::NotEnoughFuel { .. } => "not_enough_fuel"@,
            StartJobError::MissingInput { .. } => "missing_input"@,
        }
    }

    /// A short reason code.
    pub fn code(&self) -> (text: &'static str)
        ensures
            text@ == self.spec_code(),
    {
        match self {
            StartJobError::SlotBusy => "slot_busy",
            StartJobError::NotEnoughGold { .. } => "not_enough_gold",
            StartJobError::NotEnoughFuel { .. } => "not_enough_fuel",
            StartJobError::MissingInput { .. } => "missing_input",
        }
    }
}

/// Why a job was not collected.
#[derive(Debug, Clone, PartialEq, Eq)]
pub enum CollectError {
    NoSuchJob,
    NotReady { ready_at: i64 },
    /// The pack has no room. The job is untouched and still holds the goods.
    NoRoom { need: i64, room: i64 },
}

/// What a collected job handed over.
#[derive(Debug, Clone, PartialEq, Eq)]
pub struct CollectedJob {
    pub station_id: String,
    pub slot: i64,
    pub failed: bool,
    pub fail_reason: Option<String>,
    pub payout: Vec<(String, i64)>,
    pub xp: i64,
    pub skill: String,
}

/// The first input that a character does not carry enough of.
pub open spec fn first_missing(
    rows: Seq<InventoryItemView>,
    character: Seq<char>,
    inputs: Seq<(Seq<char>, int)>,
) -> int {
    find(inputs, |i: (Seq<char>, int)| carried(rows, character, i.0) < i.1)
}

/// The rows after each input in turn is taken from what a character carries.
pub open spec fn inputs_taken(
    rows: Seq<InventoryItemView>,
    character: Seq<char>,
    inputs: Seq<(Seq<char>, int)>,
    ids: Seq<Seq<char>>,
) -> Seq<InventoryItemView>
    decreases inputs.len(),
{
    if inputs.len() == 0 {
        rows
    } else {
        let n = inputs.len() - 1;
        dropped(inputs_taken(rows, character, inputs.take(n), ids.take(n)), character, inputs[n].0, inputs[n].1, ids[n])
    }
}

/// What is taken as each input in turn is taken from what a character carries.
pub open spec fn took(
    rows: Seq<InventoryItemView>,
    character: Seq<char>,
    inputs: Seq<(Seq<char>, int)>,
    ids: Seq<Seq<char>>,
) -> Seq<(Seq<char>, int)>
    decreases inputs.len(),
{
    if inputs.len() == 0 {
        Seq::empty()
    } else {
        let n = inputs.len() - 1;
        let before = inputs_taken(rows, character, inputs.take(n), ids.take(n));
        took(rows, character, inputs.take(n), ids.take(n)).push(
            (inputs[n].0, drop_qty(before, character, inputs[n].0, inputs[n].1)),
        )
    }
}

/// What starting a job asks for.
pub struct JobTerms {
    pub station: Seq<char>,
    pub character: Seq<char>,
    pub slot: int,
    pub recipe_id: Seq<char>,
    pub fee: int,
    pub duration_ms: int,
    pub now: int,
}

/// Why a job cannot start, if it cannot. Everything is looked at before anything is taken.
pub open spec fn start_refused(s: DbView, t: JobTerms, recipe: StationRecipe) -> Option<StartRefusal> {
    let inputs = ingredients_view(recipe.inputs@);
    let gold = gold_of(s.characters, t.character);
    let k = first_missing(s.inventory, t.character, inputs);
    let fuel = fuel_at(s.fuel, t.station);
    if find(s.jobs, is_job_in(t.station, t.character, t.slot)) < s.jobs.len() {
        Some(StartRefusal::SlotBusy)
    } else if gold < t.fee {
        Some(StartRefusal::NotEnoughGold { need: t.fee, have: gold })
    } else if k < inputs.len() {
        Some(
            StartRefusal::MissingInput {
                item: inputs[k].0,
                need: inputs[k].1,
                have: carried(s.inventory, t.character, inputs[k].0),
            },
        )
    } else if recipe.fuel_units > 0 && fuel < recipe.fuel_units {
        Some(StartRefusal::NotEnoughFuel { need: recipe.fuel_units as int, have: fuel })
    } else {
        None
    }
}

/// The job that starts: it holds what was taken, and is ready when its time, in whole seconds, is up.
pub open spec fn started_job(
    s: DbView,
    t: JobTerms,
    recipe: StationRecipe,
    id: Seq<char>,
    ids: Seq<Seq<char>>,
) -> StationJobView {
    StationJobView {
        id,
        station_id: t.station,
        character_id: t.character,
        slot: t.slot,
        recipe_id: t.recipe_id,
        inputs: took(s.inventory, t.character, ingredients_view(recipe.inputs@), ids),
        fuel_units: recipe.fuel_units as int,
        output_item: recipe.output_item@,
        output_qty: recipe.output_qty as int,
        xp: recipe.xp as int,
        skill: recipe.skill@,
        started_at: t.now,
        ready_at: t.now + whole_secs(t.duration_ms),
        state: "running"@,
        fail_reason: None,
    }
}

/// A duration in whole seconds, rounded up, and at least one.
pub open spec fn whole_secs(ms: int) -> int {
    if ms > 1 {
        (ms + 999) / 1000
    } else {
        1
    }
}

/// The state after a job starts: fuel and inputs are taken, the fee is burned, and the job is there.
pub open spec fn job_started(s: DbView, t: JobTerms, recipe: StationRecipe, id: Seq<char>, ids: Seq<Seq<char>>) -> DbView {
    DbView {
        fuel: if recipe.fuel_units > 0 {
            burned_fuel(s.fuel, t.station, recipe.fuel_units as int, t.now)
        } else {
            s.fuel
        },
        inventory: inputs_taken(s.inventory, t.character, ingredients_view(recipe.inputs@), ids),
        characters: if t.fee > 0 {
            paid(s.characters, t.character, -t.fee)
        } else {
            s.characters
        },
        ledger: if t.fee > 0 {
            ledgered(s.ledger, t.character, -t.fee, "station_fee"@, t.now)
        } else {
            s.ledger
        },
        jobs: s.jobs.push(started_job(s, t, recipe, id, ids)),
        ..s
    }
}

pub open spec fn pair_qty() -> spec_fn((Seq<char>, int)) -> int {
    |p: (Seq<char>, int)| p.1
}

/// What a job that is collected owes: its output with the bonus, or what it took if it failed.
pub open spec fn payout_of(j: StationJobView, bonus: int) -> Seq<(Seq<char>, int)> {
    if j.state == "failed"@ {
        j.inputs
    } else {
        seq![
            (
                j.output_item,
                j.output_qty + if bonus > 0 {
                    bonus
                } else {
                    0
                },
            ),
        ]
    }
}

/// The rows after each payment in turn is added to what a character carries.
pub open spec fn paid_out(
    rows: Seq<InventoryItemView>,
    character: Seq<char>,
    payout: Seq<(Seq<char>, int)>,
    ids: Seq<Seq<Seq<char>>>,
) -> Seq<InventoryItemView>
    decreases payout.len(),
{
    if payout.len() == 0 {
        rows
    } else {
        let n = payout.len() - 1;
        picked_up(
            paid_out(rows, character, payout.take(n), ids.take(n)),
            character,
            payout[n].0,
            payout[n].1,
            ids[n],
        )
    }
}

/// Whether there are ids for every payment.
pub open spec fn ids_for_payout(payout: Seq<(Seq<char>, int)>, ids: Seq<Seq<Seq<char>>>) -> bool {
    &&& ids.len() == payout.len()
    &&& forall|i: int| 0 <= i < ids.len() ==> ids_for(payout[i].0, payout[i].1, #[trigger] ids[i])
}

/// Why a job is not collected, if it is not.
pub open spec fn collect_refused(s: DbView, job: Seq<char>, character: Seq<char>, bonus: int) -> Option<CollectRefusal> {
    let k = find(s.jobs, is_job_of(job, character));
    let j = s.jobs[k];
    let want = sum(payout_of(j, bonus), pair_qty());
    let room = carry_room(s.inventory, character);
    if k >= s.jobs.len() {
        Some(CollectRefusal::NoSuchJob)
    } else if j.state == "running"@ {
        Some(CollectRefusal::NotReady { ready_at: j.ready_at })
    } else if want > room {
        Some(CollectRefusal::NoRoom { need: want, room })
    } else {
        None
    }
}

/// The view of a [`CollectError`].
pub enum CollectRefusal {
    NoSuchJob,
    NotReady { ready_at: int },
    NoRoom { need: int, room: int },
}

impl View for CollectError {
    type V = CollectRefusal;

    open spec fn view(&self) -> CollectRefusal {
        match self {
            CollectError::NoSuchJob => CollectRefusal::NoSuchJob,
            CollectError::NotReady { ready_at } => CollectRefusal::NotReady { ready_at: *ready_at as int },
            CollectError::NoRoom { need, room } => CollectRefusal::NoRoom {
                need: *need as int,
                room: *room as int,
            },
        }
    }
}

/// The state after a job is collected: it is gone, its payout is carried, and the fuel that a failed one
/// reserved is back in the fire.
pub open spec fn job_collected(
    s: DbView,
    k: int,
    bonus: int,
    now: int,
    ids: Seq<Seq<Seq<char>>>,
) -> DbView {
    let j = s.jobs[k];
    DbView {
        jobs: s.jobs.remove(k),
        inventory: paid_out(s.inventory, j.character_id, payout_of(j, bonus), ids),
        fuel: if j.state == "failed"@ && j.fuel_units > 0 {
            fuelled(s.fuel, j.station_id, j.fuel_units, now)
        } else {
            s.fuel
        },
        ..s
    }
}

/// Nothing that a job holds is negative, and all of it can be counted.
pub open spec fn job_sound(j: StationJobView) -> bool {
    &&& j.output_qty >= 0
    &&& forall|i: int| 0 <= i < j.inputs.len() ==> (#[trigger] j.inputs[i]).1 >= 0
    &&& sum(j.inputs, pair_qty()) <= i64::MAX
}

pub open spec fn jobs_sound(s: DbView) -> bool {
    forall|i: int| 0 <= i < s.jobs.len() ==> job_sound(#[trigger] s.jobs[i])
}

/// The jobs after those whose time has come are ready.
pub open spec fn ripened(jobs: Seq<StationJobView>, now: int) -> Seq<StationJobView> {
    Seq::new(
        jobs.len(),
        |i: int|
            if is_ripe(now)(jobs[i]) {
                StationJobView { state: "ready"@, ..jobs[i] }
            } else {
                jobs[i]
            },
    )
}

pub open spec fn slot_before() -> spec_fn(StationJobView, StationJobView) -> bool {
    |a: StationJobView, b: StationJobView| a.slot < b.slot
}

pub open spec fn started_before() -> spec_fn(StationJobView, StationJobView) -> bool {
    |a: StationJobView, b: StationJobView| a.started_at < b.started_at
}

/// How much of an item a list names in all.
pub open spec fn named_qty(item: Seq<char>) -> spec_fn((Seq<char>, int)) -> int {
    |p: (Seq<char>, int)|
        if p.0 == item {
            p.1
        } else {
            0
        }
}

/// Whether a recipe names each of its inputs once, and none by a negative quantity.
pub open spec fn all_named_once(recipe: StationRecipe) -> bool {
    &&& distinct_names(ingredients_view(recipe.inputs@))
    &&& forall|i: int| 0 <= i < recipe.inputs@.len() ==> (#[trigger] recipe.inputs@[i]).qty >= 0
}

/// Whether each item is named once.
pub open spec fn distinct_names(list: Seq<(Seq<char>, int)>) -> bool {
    forall|i: int, j: int| 0 <= i < j < list.len() ==> (#[trigger] list[i]).0 != (#[trigger] list[j]).0
}

/// What is taken leaves who carried it, and nobody else.
pub proof fn lemma_inputs_taken(
    rows: Seq<InventoryItemView>,
    character: Seq<char>,
    inputs: Seq<(Seq<char>, int)>,
    ids: Seq<Seq<char>>,
    who: Seq<char>,
    what: Seq<char>,
)
    requires
        packed(rows),
    ensures
        packed(inputs_taken(rows, character, inputs, ids)),
        ({
            let t = took(rows, character, inputs, ids);
            &&& t.len() == inputs.len()
            &&& forall|i: int| 0 <= i < t.len() ==> (#[trigger] t[i]).1 >= 0 && t[i].0 == inputs[i].0
            &&& sum(inputs_taken(rows, character, inputs, ids), carried_qty()) + sum(t, pair_qty()) == sum(
                rows,
                carried_qty(),
            )
            &&& carried(inputs_taken(rows, character, inputs, ids), who, what) == carried(rows, who, what) - if who
                == character {
                sum(t, named_qty(what))
            } else {
                0
            }
        }),
    decreases inputs.len(),
{
    if inputs.len() > 0 {
        let n = inputs.len() - 1;
        let head = inputs.take(n);
        let item = inputs[n].0;
        lemma_inputs_taken(rows, character, head, ids.take(n), who, what);
        let before = inputs_taken(rows, character, head, ids.take(n));
        let t = took(rows, character, inputs, ids);
        let was = took(rows, character, head, ids.take(n));
        lemma_dropped(before, character, item, inputs[n].1, ids[n], who, what);
        lemma_carried_bound(before, character, item);
        lemma_sum_push(was, pair_qty(), t[n]);
        lemma_sum_push(was, named_qty(what), t[n]);
        assert forall|i: int| 0 <= i < t.len() implies (#[trigger] t[i]).1 >= 0 && t[i].0 == inputs[i].0 by {
            if i < n {
                assert(t[i] == was[i]);
                assert(head[i] == inputs[i]);
            }
        }
    }
}

/// Where each item is named once and there is enough of it, what is taken is what is named.
pub proof fn lemma_took_all(
    rows: Seq<InventoryItemView>,
    character: Seq<char>,
    inputs: Seq<(Seq<char>, int)>,
    ids: Seq<Seq<char>>,
)
    requires
        packed(rows),
        distinct_names(inputs),
        forall|i: int|
            0 <= i < inputs.len() ==> 0 <= (#[trigger] inputs[i]).1 <= carried(rows, character, inputs[i].0),
    ensures
        took(rows, character, inputs, ids) == inputs,
    decreases inputs.len(),
{
    if inputs.len() > 0 {
        let n = inputs.len() - 1;
        let head = inputs.take(n);
        let item = inputs[n].0;
        assert forall|i: int, j: int| 0 <= i < j < head.len() implies (#[trigger] head[i]).0 != (#[trigger] head[j]).0 by {
            assert(head[i] == inputs[i] && head[j] == inputs[j]);
        }
        assert forall|i: int| 0 <= i < head.len() implies 0 <= (#[trigger] head[i]).1 <= carried(
            rows,
            character,
            head[i].0,
        ) by {
            assert(head[i] == inputs[i]);
        }
        lemma_took_all(rows, character, head, ids.take(n));
        lemma_inputs_taken(rows, character, head, ids.take(n), character, item);
        assert forall|i: int| 0 <= i < head.len() implies named_qty(item)(#[trigger] head[i]) == 0 by {
            assert(head[i] == inputs[i]);
            assert(inputs[i].0 != inputs[n].0);
        }
        lemma_sum_constant(head, named_qty(item), 0);
        assert(head.len() * 0 == 0) by (nonlinear_arith);
        let before = inputs_taken(rows, character, head, ids.take(n));
        lemma_dropped(before, character, item, inputs[n].1, ids[n], character, item);
        assert(0 <= inputs[n].1 <= carried(rows, character, inputs[n].0));
    }
    assert(took(rows, character, inputs, ids) =~= inputs);
}

/// Paying out adds exactly what is named.
pub proof fn lemma_paid_out(
    rows: Seq<InventoryItemView>,
    character: Seq<char>,
    payout: Seq<(Seq<char>, int)>,
    ids: Seq<Seq<Seq<char>>>,
    who: Seq<char>,
    what: Seq<char>,
)
    requires
        packed(rows),
        ids_for_payout(payout, ids),
        forall|i: int| 0 <= i < payout.len() ==> (#[trigger] payout[i]).1 >= 0,
        sum(rows, carried_qty()) + sum(payout, pair_qty()) <= i64::MAX,
    ensures
        packed(paid_out(rows, character, payout, ids)),
        sum(paid_out(rows, character, payout, ids), carried_qty()) == sum(rows, carried_qty()) + sum(
            payout,
            pair_qty(),
        ),
        carried(paid_out(rows, character, payout, ids), who, what) == carried(rows, who, what) + if who
            == character {
            sum(payout, named_qty(what))
        } else {
            0
        },
    decreases payout.len(),
{
    if payout.len() > 0 {
        let n = payout.len() - 1;
        let head = payout.take(n);
        assert(payout.drop_last() =~= head);
        assert forall|i: int| 0 <= i < head.len() implies (#[trigger] head[i]).1 >= 0 by {
            assert(head[i] == payout[i]);
        }
        assert(ids_for_payout(head, ids.take(n))) by {
            assert forall|i: int| 0 <= i < ids.take(n).len() implies ids_for(
                head[i].0,
                head[i].1,
                #[trigger] ids.take(n)[i],
            ) by {
                assert(ids.take(n)[i] == ids[i]);
                assert(head[i] == payout[i]);
            }
        }
        lemma_paid_out(rows, character, head, ids.take(n), who, what);
        let before = paid_out(rows, character, head, ids.take(n));
        assert(ids_for(payout[n].0, payout[n].1, ids[n]));
        lemma_picked_up(before, character, payout[n].0, payout[n].1, ids[n], who, what);
    }
}

/// Starting a job burns its fee on the ledger and makes or loses no other gold.
pub proof fn law_the_station_fee_is_ledgered(
    s: DbView,
    t: JobTerms,
    recipe: StationRecipe,
    id: Seq<char>,
    ids: Seq<Seq<char>>,
)
    requires
        start_refused(s, t, recipe) is None,
        has_character(s.characters, t.character),
    ensures
        supply_gap(job_started(s, t, recipe, id, ids)) == supply_gap(s),
        t.fee > 0 ==> wealth(job_started(s, t, recipe, id, ids)) == wealth(s) - t.fee,
        solvent(s.characters) ==> solvent(job_started(s, t, recipe, id, ids).characters),
{
    lemma_paid(s.characters, t.character, -t.fee);
    lemma_ledgered(s.ledger, t.character, -t.fee, "station_fee"@, t.now);
}

/// A failed job gives back exactly what it took: after a job is started, failed and collected, its owner
/// carries as much of everything as before, and the station has its fuel back.
pub proof fn law_a_failed_job_refunds_its_escrow(
    s: DbView,
    t: JobTerms,
    recipe: StationRecipe,
    id: Seq<char>,
    ids: Seq<Seq<char>>,
    reason: Seq<char>,
    bonus: int,
    later: int,
    refund_ids: Seq<Seq<Seq<char>>>,
    what: Seq<char>,
)
    requires
        packed(s.inventory),
        start_refused(s, t, recipe) is None,
        ids_for_payout(took(s.inventory, t.character, ingredients_view(recipe.inputs@), ids), refund_ids),
    ensures
        ({
            let begun = job_started(s, t, recipe, id, ids);
            let k = s.jobs.len() as int;
            let failed = DbView {
                jobs: begun.jobs.update(
                    k,
                    StationJobView { state: "failed"@, fail_reason: Some(reason), ..begun.jobs[k] },
                ),
                ..begun
            };
            let done = job_collected(failed, k, bonus, later, refund_ids);
            &&& carried(done.inventory, t.character, what) == carried(s.inventory, t.character, what)
            &&& done.jobs == s.jobs
            &&& recipe.fuel_units > 0 ==> fuel_at(done.fuel, t.station) == fuel_at(s.fuel, t.station)
        }),
{
    let inputs = ingredients_view(recipe.inputs@);
    let begun = job_started(s, t, recipe, id, ids);
    let k = s.jobs.len() as int;
    let failed = DbView {
        jobs: begun.jobs.update(
            k,
            StationJobView { state: "failed"@, fail_reason: Some(reason), ..begun.jobs[k] },
        ),
        ..begun
    };
    let done = job_collected(failed, k, bonus, later, refund_ids);
    let taken = took(s.inventory, t.character, inputs, ids);
    lemma_inputs_taken(s.inventory, t.character, inputs, ids, t.character, what);
    assert forall|i: int| 0 <= i < taken.len() implies (#[trigger] taken[i]).1 >= 0 by {}
    lemma_paid_out(begun.inventory, t.character, taken, refund_ids, t.character, what);
    assert(done.jobs =~= s.jobs);
    lemma_find(s.fuel, is_station(t.station));
    if recipe.fuel_units > 0 {
        let f = find(s.fuel, is_station(t.station));
        let mid = begun.fuel;
        if f < s.fuel.len() {
            assert forall|i: int| 0 <= i < f implies !is_station(t.station)(#[trigger] mid[i]) by {
                assert(!is_station(t.station)(s.fuel[i]));
            }
            lemma_find_is(mid, is_station(t.station), f);
            assert forall|i: int| 0 <= i < f implies !is_station(t.station)(#[trigger] done.fuel[i]) by {
                assert(!is_station(t.station)(s.fuel[i]));
            }
            lemma_find_is(done.fuel, is_station(t.station), f);
        } else {
            assert(fuel_at(s.fuel, t.station) == 0);
        }
    }
}

/// Collecting a job pays out exactly what it owes: its owner carries that much more of each item, and the job is gone.
pub proof fn law_collecting_pays_what_is_owed(
    s: DbView,
    k: int,
    bonus: int,
    now: int,
    ids: Seq<Seq<Seq<char>>>,
    what: Seq<char>,
)
    requires
        packed(s.inventory),
        jobs_sound(s),
        0 <= k < s.jobs.len(),
        ids_for_payout(payout_of(s.jobs[k], bonus), ids),
        sum(s.inventory, carried_qty()) + sum(payout_of(s.jobs[k], bonus), pair_qty()) <= i64::MAX,
    ensures
        ({
            let j = s.jobs[k];
            let t = job_collected(s, k, bonus, now, ids);
            &&& carried(t.inventory, j.character_id, what) == carried(s.inventory, j.character_id, what) + sum(
                payout_of(j, bonus),
                named_qty(what),
            )
            &&& t.jobs == s.jobs.remove(k)
            &&& t.characters == s.characters && t.warehouse == s.warehouse && t.storage == s.storage
        }),
{
    let j = s.jobs[k];
    assert(job_sound(j));
    lemma_paid_out(s.inventory, j.character_id, payout_of(j, bonus), ids, j.character_id, what);
}

/// A job is collected once: with its id its own, a second collect finds nothing.
pub proof fn law_a_job_is_collected_once(
    s: DbView,
    k: int,
    bonus: int,
    now: int,
    ids: Seq<Seq<Seq<char>>>,
    again: int,
)
    requires
        0 <= k < s.jobs.len(),
        forall|i: int| 0 <= i < s.jobs.len() && i != k ==> (#[trigger] s.jobs[i]).id != s.jobs[k].id,
    ensures
        collect_refused(job_collected(s, k, bonus, now, ids), s.jobs[k].id, s.jobs[k].character_id, again) == Some(
            CollectRefusal::NoSuchJob,
        ),
{
    let left = s.jobs.remove(k);
    let p = is_job_of(s.jobs[k].id, s.jobs[k].character_id);
    assert forall|i: int| 0 <= i < left.len() implies !p(#[trigger] left[i]) by {
        let j = if i < k {
            i
        } else {
            i + 1
        };
        assert(left[i] == s.jobs[j]);
    }
    lemma_find_is(left, p, left.len() as int);
}

fn find_fuel(fuel: &Table<StationFuel>, station_id: &str) -> (k: usize)
    ensures
        k == find(fuel@, is_station(station_id@)),
        k <= fuel@.len(),
{
    let f = |r: &StationFuel| -> (b: bool)
        ensures
            b == is_station(station_id@)(r@),
        { same(r.station_id.as_str(), station_id) };
    fuel.find(f, Ghost(is_station(station_id@)))
}

/// Add fuel to a station.
fn add_fuel(fuel: &mut Table<StationFuel>, station_id: &str, units: i64, now: i64)
    requires
        i64::MIN <= fuel_at(old(fuel)@, station_id@) + units <= i64::MAX,
    ensures
        final(fuel)@ == fuelled(old(fuel)@, station_id@, units as int, now as int),
{
    let k: usize = find_fuel(fuel, station_id);
    if k < fuel.len() {
        let r = fuel.get_mut(k);
        r.units = r.units + units;
        r.updated_at = now;
    } else {
        fuel.push(StationFuel { station_id: station_id.to_string(), units, updated_at: now });
    }
}

/// The sum of the quantities of a list.
fn total_of(list: &Vec<(String, i64)>) -> (n: i64)
    requires
        forall|i: int| 0 <= i < list@.len() ==> (#[trigger] pairs_view(list@)[i]).1 >= 0,
        sum(pairs_view(list@), pair_qty()) <= i64::MAX,
    ensures
        n == sum(pairs_view(list@), pair_qty()),
{
    let ghost all = pairs_view(list@);
    let mut n: i64 = 0;
    let mut i: usize = 0;
    proof {
        assert(all.take(0) =~= Seq::empty());
    }
    while i < list.len()
        invariant
            i <= list.len(),
            all == pairs_view(list@),
            forall|i: int| 0 <= i < all.len() ==> (#[trigger] all[i]).1 >= 0,
            sum(all, pair_qty()) <= i64::MAX,
            n >= 0,
            n == sum(all.take(i as int), pair_qty()),
        decreases list.len() - i,
    {
        proof {
            assert(all.take(i + 1).drop_last() =~= all.take(i as int));
            lemma_sum_prefix(all, pair_qty(), i + 1);
            assert(all[i as int].1 >= 0);
        }
        n = n + list[i].1;
        i = i + 1;
    }
    assert(all.take(i as int) =~= all);
    n
}

impl Db {
    /// How much fuel a station holds.
    pub fn station_fuel(&self, station_id: &str) -> (units: i64)
        ensures
            units == fuel_at(self@.fuel, station_id@),
    {
        let k: usize = find_fuel(&self.fuel, station_id);
        if k < self.fuel.len() {
            self.fuel.get(k).units
        } else {
            0
        }
    }

    /// Load fuel into a station: the items leave the character and their units are in the fire. Returns
    /// the new total, or `None` if nothing burns or the character does not carry that much.
    pub fn load_station_fuel(
        &mut self,
        station_id: &str,
        character_id: &str,
        item_id: &str,
        qty: i64,
        units_per_item: i64,
        now: i64,
    ) -> (total: Option<i64>)
        requires
            packed(old(self)@.inventory),
            qty > 0 && units_per_item > 0 ==> fuel_at(old(self)@.fuel, station_id@) + qty * units_per_item
                <= i64::MAX && qty * units_per_item <= i64::MAX,
        ensures
            packed(final(self)@.inventory),
            total is Some == can_load(old(self)@, character_id@, item_id@, qty as int, units_per_item as int),
            total is None ==> final(self)@ == old(self)@,
            total matches Some(n) ==> {
                &&& n == fuel_at(old(self)@.fuel, station_id@) + qty * units_per_item
                &&& exists|id: Seq<char>|
                    final(self)@ == (DbView {
                        inventory: #[trigger] dropped(
                            old(self)@.inventory,
                            character_id@,
                            item_id@,
                            qty as int,
                            id,
                        ),
                        fuel: fuelled(old(self)@.fuel, station_id@, qty * units_per_item, now as int),
                        ..old(self)@
                    })
            },
    {
        if qty <= 0 || units_per_item <= 0 {
            return None;
        }
        let have: i64 = inventory_qty_in_tx(&self.inventory, character_id, item_id);
        if have < qty {
            return None;
        }
        let id = new_id();
        assert(qty * units_per_item > 0) by (nonlinear_arith)
            requires
                qty > 0,
                units_per_item > 0,
        ;
        remove_inventory_in_tx(&mut self.inventory, character_id, item_id, qty, id);
        let units: i64 = qty * units_per_item;
        let total: i64 = self.station_fuel(station_id) + units;
        add_fuel(&mut self.fuel, station_id, units, now);
        Some(total)
    }

    /// Start a timed job: charge the fee, take the inputs and the fuel, and write the job down. Everything
    /// that can refuse is looked at before anything is taken.
    pub fn start_station_job(
        &mut self,
        station_id: &str,
        character_id: &str,
        slot: i64,
        recipe_id: &str,
        recipe: &StationRecipe,
        fee_gold: i64,
        duration_ms: i64,
        now: i64,
    ) -> (out: Result<StationJob, StartJobError>)
        requires
            packed(old(self)@.inventory),
            solvent(old(self)@.characters),
            duration_ms + 999 <= i64::MAX,
            now + whole_secs(duration_ms as int) <= i64::MAX,
        ensures
            packed(final(self)@.inventory),
            ({
                let t = job_terms(
                    station_id@,
                    character_id@,
                    slot as int,
                    recipe_id@,
                    fee_gold as int,
                    duration_ms as int,
                    now as int,
                );
                let refused = start_refused(old(self)@, t, *recipe);
                &&& out matches Err(e) ==> refused == Some(e@) && final(self)@ == old(self)@
                &&& out matches Ok(job) ==> {
                    &&& refused is None
                    &&& exists|ids: Seq<Seq<char>>|
                        {
                            &&& ids.len() == recipe.inputs@.len()
                            &&& job@ == started_job(old(self)@, t, *recipe, job@.id, ids)
                            &&& final(self)@ == #[trigger] job_started(old(self)@, t, *recipe, job@.id, ids)
                        }
                    &&& all_named_once(*recipe) ==> job@.inputs == ingredients_view(recipe.inputs@)
                    &&& jobs_sound(old(self)@) && recipe.output_qty >= 0 ==> jobs_sound(final(self)@)
                }
            }),
    {
        let ghost s = self@;
        let ghost t = job_terms(
            station_id@,
            character_id@,
            slot as int,
            recipe_id@,
            fee_gold as int,
            duration_ms as int,
            now as int,
        );
        let ghost inputs_v = ingredients_view(recipe.inputs@);
        let f = |j: &StationJob| -> (b: bool)
            ensures
                b == is_job_in(station_id@, character_id@, slot as int)(j@),
            {
                same(j.station_id.as_str(), station_id) && same(j.character_id.as_str(), character_id) && j.slot
                    == slot
            };
        let busy: usize = self.jobs.find(f, Ghost(is_job_in(station_id@, character_id@, slot as int)));
        if busy < self.jobs.len() {
            return Err(StartJobError::SlotBusy);
        }
        let gold: i64 = self.character_gold(character_id);
        if gold < fee_gold {
            return Err(StartJobError::NotEnoughGold { need: fee_gold, have: gold });
        }
        let ghost p = |i: (Seq<char>, int)| carried(s.inventory, character_id@, i.0) < i.1;
        let mut i: usize = 0;
        while i < recipe.inputs.len()
            invariant
                i <= recipe.inputs.len(),
                self@ == s,
                packed(s.inventory),
                inputs_v == ingredients_view(recipe.inputs@),
                t.character == character_id@,
                p == (|i: (Seq<char>, int)| carried(s.inventory, character_id@, i.0) < i.1),
                forall|j: int| 0 <= j < i ==> !p(#[trigger] inputs_v[j]),
                find(s.jobs, is_job_in(t.station, t.character, t.slot)) == s.jobs.len(),
                gold_of(s.characters, t.character) >= t.fee,
                s == old(self)@,
                t == job_terms(
                    station_id@,
                    character_id@,
                    slot as int,
                    recipe_id@,
                    fee_gold as int,
                    duration_ms as int,
                    now as int,
                ),
            decreases recipe.inputs.len() - i,
        {
            let need: i64 = recipe.inputs[i].qty;
            let have: i64 = inventory_qty_in_tx(&self.inventory, character_id, recipe.inputs[i].item.as_str());
            assert(inputs_v[i as int] == (recipe.inputs@[i as int].item@, need as int));
            if have < need {
                proof {
                    assert(p(inputs_v[i as int]));
                    lemma_find_is(inputs_v, p, i as int);
                }
                return Err(
                    StartJobError::MissingInput { item: recipe.inputs[i].item.clone(), need, have },
                );
            }
            i = i + 1;
        }
        proof {
            lemma_find_is(inputs_v, p, i as int);
        }
        if recipe.fuel_units > 0 {
            let k: usize = find_fuel(&self.fuel, station_id);
            let units: i64 = if k < self.fuel.len() {
                self.fuel.get(k).units
            } else {
                0
            };
            if units < recipe.fuel_units {
                return Err(StartJobError::NotEnoughFuel { need: recipe.fuel_units, have: units });
            }
            let r = self.fuel.get_mut(k);
            r.units = units - recipe.fuel_units;
            r.updated_at = now;
        }
        let ghost mid = self@;
        let ghost mut ids = Seq::<Seq<char>>::empty();
        let mut inputs: Vec<(String, i64)> = Vec::new();
        let mut n: usize = 0;
        proof {
            assert(inputs_v.take(0) =~= Seq::empty());
            assert(pairs_view(inputs@) =~= took(s.inventory, character_id@, inputs_v.take(0), ids));
        }
        while n < recipe.inputs.len()
            invariant
                n <= recipe.inputs.len(),
                inputs_v == ingredients_view(recipe.inputs@),
                ids.len() == n,
                packed(self@.inventory),
                self@ == (DbView {
                    inventory: inputs_taken(s.inventory, character_id@, inputs_v.take(n as int), ids),
                    ..mid
                }),
                pairs_view(inputs@) == took(s.inventory, character_id@, inputs_v.take(n as int), ids),
            decreases recipe.inputs.len() - n,
        {
            let id = new_id();
            let ghost was = inputs@;
            let ghost next = inputs_v.take(n + 1);
            let item = recipe.inputs[n].item.clone();
            let qty: i64 = recipe.inputs[n].qty;
            proof {
                assert(next.take(n as int) =~= inputs_v.take(n as int));
                assert(next[n as int] == (item@, qty as int));
                assert(ids.push(id@).take(n as int) =~= ids);
                ids = ids.push(id@);
            }
            let taken: i64 = remove_inventory_in_tx(&mut self.inventory, character_id, item.as_str(), qty, id);
            inputs.push((item, taken));
            assert(pairs_view(inputs@) =~= pairs_view(was).push((item@, taken as int)));
            n = n + 1;
        }
        proof {
            assert(inputs_v.take(n as int) =~= inputs_v);
            lemma_purse_bound(s.characters, character_id@);
            lemma_inputs_taken(s.inventory, character_id@, inputs_v, ids, character_id@, recipe_id@);
            lemma_sum_nonneg(self@.inventory, carried_qty());
            if all_named_once(*recipe) {
                assert forall|j: int| 0 <= j < inputs_v.len() implies 0 <= (#[trigger] inputs_v[j]).1 <= carried(
                    s.inventory,
                    character_id@,
                    inputs_v[j].0,
                ) by {
                    assert(!p(inputs_v[j]));
                    assert(recipe.inputs@[j].qty >= 0);
                }
                lemma_took_all(s.inventory, character_id@, inputs_v, ids);
            }
        }
        if fee_gold > 0 {
            pay_in_tx(&mut self.characters, character_id, -fee_gold);
            ledger_gold_in_tx(&mut self.ledger, character_id, -fee_gold, "station_fee", now);
        }
        let ms: i64 = if duration_ms > 1 {
            duration_ms
        } else {
            1
        };
        let job = StationJob {
            id: new_id(),
            station_id: station_id.to_string(),
            character_id: character_id.to_string(),
            slot,
            recipe_id: recipe_id.to_string(),
            inputs,
            fuel_units: recipe.fuel_units,
            output_item: recipe.output_item.clone(),
            output_qty: recipe.output_qty,
            xp: recipe.xp,
            skill: recipe.skill.clone(),
            started_at: now,
            ready_at: now + (ms + 999) / 1000,
            state: "running".to_string(),
            fail_reason: None,
        };
        self.jobs.push(job.copy());
        assert(self@ == job_started(s, t, *recipe, job@.id, ids));
        proof {
            if jobs_sound(s) && recipe.output_qty >= 0 {
                assert(job_sound(job@));
                assert forall|j: int| 0 <= j < self@.jobs.len() implies job_sound(#[trigger] self@.jobs[j]) by {
                    if j < s.jobs.len() {
                        assert(job_sound(s.jobs[j]));
                    }
                }
            }
        }
        Ok(job)
    }

    /// Every job that a character has at a station, by slot.
    pub fn station_jobs(&self, station_id: &str, character_id: &str) -> (out: Vec<StationJob>)
        ensures
            rows_view(out@) == ordered(self@.jobs.filter(is_job_at(station_id@, character_id@)), slot_before()),
    {
        let f = |j: &StationJob| -> (b: bool)
            ensures
                b == is_job_at(station_id@, character_id@)(j@),
            { same(j.station_id.as_str(), station_id) && same(j.character_id.as_str(), character_id) };
        let rows = self.jobs.select(f, Ghost(is_job_at(station_id@, character_id@)));
        let g = |a: &StationJob, b: &StationJob| -> (r: bool)
            ensures
                r == slot_before()(a@, b@),
            { a.slot < b.slot };
        order_rows(rows, g, Ghost(slot_before()))
    }

    /// Every job that has not been collected, oldest first.
    pub fn all_station_jobs(&self) -> (out: Vec<StationJob>)
        ensures
            rows_view(out@) == ordered(self@.jobs, started_before()),
    {
        let rows = self.jobs.copy_all();
        let g = |a: &StationJob, b: &StationJob| -> (r: bool)
            ensures
                r == started_before()(a@, b@),
            { a.started_at < b.started_at };
        order_rows(rows, g, Ghost(started_before()))
    }

    /// Make every running job whose time has come ready, and return them. The output waits in the slot.
    pub fn ripen_station_jobs(&mut self, now: i64) -> (out: Vec<StationJob>)
        ensures
            final(self)@ == (DbView { jobs: ripened(old(self)@.jobs, now as int), ..old(self)@ }),
            rows_view(out@) == ripened(old(self)@.jobs.filter(is_ripe(now as int)), now as int),
    {
        let ghost s = self@;
        let ghost p = is_ripe(now as int);
        let mut out: Vec<StationJob> = Vec::new();
        let mut i: usize = 0;
        proof {
            assert(s.jobs.take(0) =~= Seq::empty());
            assert(s.jobs.take(0).filter(p) =~= Seq::empty()) by {
                reveal(Seq::filter);
            }
            assert(rows_view(out@) =~= ripened(s.jobs.take(0).filter(p), now as int));
        }
        while i < self.jobs.len()
            invariant
                p == is_ripe(now as int),
                i <= s.jobs.len(),
                self@ == (DbView { jobs: self@.jobs, ..s }),
                self@.jobs.len() == s.jobs.len(),
                forall|j: int| 0 <= j < i ==> (#[trigger] self@.jobs[j]) == ripened(s.jobs, now as int)[j],
                forall|j: int| i <= j < s.jobs.len() ==> (#[trigger] self@.jobs[j]) == s.jobs[j],
                rows_view(out@) == ripened(s.jobs.take(i as int).filter(p), now as int),
            decreases s.jobs.len() - i,
        {
            let ghost part = s.jobs.take(i as int);
            let ghost j = s.jobs[i as int];
            proof {
                assert(s.jobs.take(i + 1) =~= part.push(j));
                part.lemma_filter_push(j, p);
            }
            let row = self.jobs.get(i);
            if same(row.state.as_str(), "running") && row.ready_at <= now {
                let r = self.jobs.get_mut(i);
                r.state = "ready".to_string();
                let ghost was = out@;
                let c = self.jobs.get(i).copy();
                out.push(c);
                proof {
                    lemma_filter_all(part, p);
                    assert(rows_view(out@) =~= rows_view(was).push(c@));
                    assert(rows_view(out@) =~= ripened(part.filter(p).push(j), now as int));
                }
            }
            i = i + 1;
        }
        proof {
            assert(s.jobs.take(i as int) =~= s.jobs);
            assert(self@.jobs =~= ripened(s.jobs, now as int));
        }
        out
    }

    /// Fail a job: it keeps what it took, to be given back when it is collected. Returns whether there
    /// was such a job that had not failed already.
    pub fn fail_station_job(&mut self, job_id: &str, reason: &str) -> (failed: bool)
        ensures
            ({
                let k = find(old(self)@.jobs, is_failable(job_id@));
                &&& failed == (k < old(self)@.jobs.len())
                &&& !failed ==> final(self)@ == old(self)@
                &&& failed ==> final(self)@ == (DbView {
                    jobs: old(self)@.jobs.update(
                        k,
                        StationJobView {
                            state: "failed"@,
                            fail_reason: Some(reason@),
                            ..old(self)@.jobs[k]
                        },
                    ),
                    ..old(self)@
                })
            }),
    {
        let f = |j: &StationJob| -> (b: bool)
            ensures
                b == is_failable(job_id@)(j@),
            { same(j.id.as_str(), job_id) && !same(j.state.as_str(), "failed") };
        let k: usize = self.jobs.find(f, Ghost(is_failable(job_id@)));
        if k >= self.jobs.len() {
            return false;
        }
        let j = self.jobs.get_mut(k);
        j.state = "failed".to_string();
        j.fail_reason = Some(reason.to_string());
        true
    }

    /// Collect a finished job: its output, or what a failed one took, goes to the owner, and the slot is
    /// free. A pack without room for all of it leaves the job as it is.
    pub fn collect_station_job(&mut self, job_id: &str, character_id: &str, bonus_qty: i64, now: i64) -> (out: Result<
        CollectedJob,
        CollectError,
    >)
        requires
            packed(old(self)@.inventory),
            jobs_sound(old(self)@),
            sum(old(self)@.inventory, carried_qty()) + MAX_CARRY <= i64::MAX,
            ({
                let k = find(old(self)@.jobs, is_job_of(job_id@, character_id@));
                k < old(self)@.jobs.len() ==> {
                    let j = old(self)@.jobs[k];
                    &&& j.output_qty + bonus_qty <= i64::MAX
                    &&& i64::MIN <= fuel_at(old(self)@.fuel, j.station_id) + j.fuel_units <= i64::MAX
                }
            }),
        ensures
            packed(final(self)@.inventory),
            ({
                let s = old(self)@;
                let k = find(s.jobs, is_job_of(job_id@, character_id@));
                let j = s.jobs[k];
                let refused = collect_refused(s, job_id@, character_id@, bonus_qty as int);
                &&& out matches Err(e) ==> refused == Some(e@) && final(self)@ == s
                &&& out matches Ok(c) ==> {
                    &&& refused is None
                    &&& c.station_id@ == j.station_id
                    &&& c.slot == j.slot
                    &&& c.failed == (j.state == "failed"@)
                    &&& opt_text(c.fail_reason) == j.fail_reason
                    &&& pairs_view(c.payout@) == payout_of(j, bonus_qty as int)
                    &&& c.xp == if c.failed {
                        0
                    } else {
                        j.xp
                    }
                    &&& c.skill@ == j.skill
                    &&& exists|ids: Seq<Seq<Seq<char>>>|
                        ids_for_payout(payout_of(j, bonus_qty as int), ids) && final(self)@
                            == #[trigger] job_collected(s, k, bonus_qty as int, now as int, ids)
                }
            }),
    {
        let ghost s = self@;
        let f = |j: &StationJob| -> (b: bool)
            ensures
                b == is_job_of(job_id@, character_id@)(j@),
            { same(j.id.as_str(), job_id) && same(j.character_id.as_str(), character_id) };
        let k: usize = self.jobs.find(f, Ghost(is_job_of(job_id@, character_id@)));
        if k >= self.jobs.len() {
            return Err(CollectError::NoSuchJob);
        }
        let job = self.jobs.get(k).copy();
        if same(job.state.as_str(), "running") {
            return Err(CollectError::NotReady { ready_at: job.ready_at });
        }
        let failed: bool = same(job.state.as_str(), "failed");
        let ghost j = job@;
        let bonus: i64 = if bonus_qty > 0 {
            bonus_qty
        } else {
            0
        };
        assert(job_sound(s.jobs[k as int]));
        let payout: Vec<(String, i64)> = if failed {
            copy_pairs(&job.inputs)
        } else {
            let item = job.output_item.clone();
            let mut one: Vec<(String, i64)> = Vec::new();
            one.push((item, job.output_qty + bonus));
            one
        };
        let ghost pay = payout_of(j, bonus_qty as int);
        proof {
            assert(pairs_view(payout@) =~= pay);
            assert forall|i: int| 0 <= i < payout@.len() implies (#[trigger] pairs_view(payout@)[i]).1 >= 0 by {
                if failed {
                    assert(j.inputs[i].1 >= 0);
                }
            }
            if !failed {
                assert(pay.drop_last() =~= Seq::empty());
                assert(sum(pay.drop_last(), pair_qty()) == 0);
                assert(sum(pay, pair_qty()) == pay.last().1);
            }
        }
        let room: i64 = self.room_to_carry(character_id);
        let want: i64 = total_of(&payout);
        if want > room {
            return Err(CollectError::NoRoom { need: want, room });
        }
        let gone = self.jobs.remove(k);
        let ghost mut ids = Seq::<Seq<Seq<char>>>::empty();
        let ghost mid = self@;
        let mut n: usize = 0;
        proof {
            assert(pay.take(0) =~= Seq::empty());
            lemma_carried_bound(s.inventory, character_id@, character_id@);
        }
        while n < payout.len()
            invariant
                n <= payout.len(),
                pay == pairs_view(payout@),
                forall|i: int| 0 <= i < pay.len() ==> (#[trigger] pay[i]).1 >= 0,
                sum(s.inventory, carried_qty()) + sum(pay, pair_qty()) <= i64::MAX,
                packed(s.inventory),
                packed(self@.inventory),
                ids_for_payout(pay.take(n as int), ids),
                self@ == (DbView {
                    inventory: paid_out(s.inventory, character_id@, pay.take(n as int), ids),
                    ..mid
                }),
            decreases payout.len() - n,
        {
            let ghost part = pay.take(n as int);
            let ghost next = pay.take(n + 1);
            proof {
                assert(next.take(n as int) =~= part);
                assert(next.drop_last() =~= part);
                assert(next[n as int] == pay[n as int]);
                assert forall|i: int| 0 <= i < part.len() implies (#[trigger] part[i]).1 >= 0 by {
                    assert(part[i] == pay[i]);
                }
                lemma_sum_prefix(pay, pair_qty(), n as int);
                lemma_sum_prefix(pay, pair_qty(), n + 1);
                lemma_paid_out(s.inventory, character_id@, part, ids, character_id@, character_id@);
                assert(pay[n as int].1 >= 0);
            }
            let made = add_inventory_in_tx(
                &mut self.inventory,
                character_id,
                payout[n].0.as_str(),
                payout[n].1,
            );
            proof {
                assert(ids.push(made@).take(n as int) =~= ids);
                assert(ids_for_payout(next, ids.push(made@))) by {
                    assert forall|i: int| 0 <= i < ids.push(made@).len() implies ids_for(
                        next[i].0,
                        next[i].1,
                        #[trigger] ids.push(made@)[i],
                    ) by {
                        if i < n {
                            assert(ids.push(made@)[i] == ids[i]);
                            assert(next[i] == part[i]);
                            assert(ids_for(part[i].0, part[i].1, ids[i]));
                        }
                    }
                }
                ids = ids.push(made@);
            }
            n = n + 1;
        }
        assert(pay.take(n as int) =~= pay);
        if failed && job.fuel_units > 0 {
            add_fuel(&mut self.fuel, job.station_id.as_str(), job.fuel_units, now);
        }
        assert(self@ == job_collected(s, k as int, bonus_qty as int, now as int, ids));
        Ok(
            CollectedJob {
                station_id: job.station_id,
                slot: job.slot,
                failed,
                fail_reason: job.fail_reason,
                payout,
                xp: if failed {
                    0
                } else {
                    job.xp
                },
                skill: job.skill,
            },
        )
    }

    /// Hand in trophies for a bounty: all that is required for all of its gold, or nothing. A command seen
    /// before pays nothing. Returns the gold and how many trophies are left.
    pub fn turn_in_bounty(&mut self, character_id: &str, cfg: &BountyConfig, command_id: &str, now: i64) -> (out: (
        i64,
        i64,
    ))
        requires
            packed(old(self)@.inventory),
            gold_of(old(self)@.characters, character_id@) + cfg.gold <= i64::MAX,
            carried(old(self)@.inventory, character_id@, cfg.item_id@) - cfg.required <= i64::MAX,
        ensures
            packed(final(self)@.inventory),
            ({
                let s = old(self)@;
                let held = carried(s.inventory, character_id@, cfg.item_id@);
                let begun = DbView {
                    commands: claimed(s.commands, command_id@, character_id@, now as int),
                    ..s
                };
                if !fresh_command(s.commands, command_id@) {
                    out.0 == 0 && out.1 == held && final(self)@ == s
                } else if held < cfg.required {
                    out.0 == 0 && out.1 == held && final(self)@ == begun
                } else {
                    &&& out.0 == cfg.gold
                    &&& out.1 == held - cfg.required
                    &&& exists|id: Seq<char>|
                        final(self)@ == #[trigger] bounty_paid(
                            begun,
                            character_id@,
                            cfg.item_id@,
                            cfg.required as int,
                            cfg.gold as int,
                            now as int,
                            id,
                        )
                }
            }),
    {
        let held: i64 = inventory_qty_in_tx(&self.inventory, character_id, cfg.item_id.as_str());
        if !self.claim_command_in_tx(command_id, character_id, now) {
            return (0, held);
        }
        if held < cfg.required {
            return (0, held);
        }
        let ghost begun = self@;
        let id = new_id();
        let ghost idv = id@;
        remove_inventory_in_tx(&mut self.inventory, character_id, cfg.item_id.as_str(), cfg.required, id);
        self.mint_gold_in_tx(character_id, cfg.gold, "bounty", now);
        assert(self@ == bounty_paid(
            begun,
            character_id@,
            cfg.item_id@,
            cfg.required as int,
            cfg.gold as int,
            now as int,
            idv,
        ));
        (cfg.gold, held - cfg.required)
    }
}

pub open spec fn job_terms(
    station: Seq<char>,
    character: Seq<char>,
    slot: int,
    recipe_id: Seq<char>,
    fee: int,
    duration_ms: int,
    now: int,
) -> JobTerms {
    JobTerms { station, character, slot, recipe_id, fee, duration_ms, now }
}

/// The state after a bounty is paid: the trophies are gone and the gold is made.
pub open spec fn bounty_paid(
    s: DbView,
    character: Seq<char>,
    item: Seq<char>,
    required: int,
    gold: int,
    now: int,
    id: Seq<char>,
) -> DbView {
    minted(
        DbView { inventory: dropped(s.inventory, character, item, required, id), ..s },
        character,
        gold,
        "bounty"@,
        now,
    )
}

/// A bounty takes exactly its trophies and makes exactly its gold, on the ledger.
pub proof fn law_a_bounty_is_ledgered(
    s: DbView,
    character: Seq<char>,
    item: Seq<char>,
    required: int,
    gold: int,
    now: int,
    id: Seq<char>,
)
    requires
        packed(s.inventory),
        has_character(s.characters, character),
        0 <= required <= carried(s.inventory, character, item),
        gold >= 0,
    ensures
        ({
            let t = bounty_paid(s, character, item, required, gold, now, id);
            &&& supply_gap(t) == supply_gap(s)
            &&& wealth(t) == wealth(s) + gold
            &&& gold_of(t.characters, character) == gold_of(s.characters, character) + gold
            &&& carried(t.inventory, character, item) == carried(s.inventory, character, item) - required
        }),
{
    let mid = DbView { inventory: dropped(s.inventory, character, item, required, id), ..s };
    lemma_dropped(s.inventory, character, item, required, id, character, item);
    law_minting_is_ledgered(mid, character, gold, "bounty"@, now);
    lemma_paid(s.characters, character, gold);
}

} // verus!
