//! Crafting, and the tools that one wears, wears down and mends.

use vstd::prelude::*;

use crate::persistence::db::{Db, DbView};
use crate::persistence::ids::new_id;
use crate::persistence::inventory::{
    add_inventory_in_tx, carried, carried_qty, carried_total, dropped, ids_for, inventory_qty_in_tx,
    is_carried, lemma_carried_bound, lemma_dropped, lemma_picked_up, lemma_sum_constant, packed, picked_up,
    remove_inventory_in_tx, MAX_CARRY,
};
use crate::persistence::market::DbError;
use crate::persistence::rows::{Equipment, EquipmentView, InventoryItem, InventoryItemView};
use crate::persistence::stations::distinct_names;
use crate::persistence::storage::fits;
use crate::table::{
    find, lemma_filter_all, lemma_find, lemma_find_is, lemma_sum_prefix, lemma_sum_update, not, sum, Table,
};
use crate::text::{opt_text, pairs_view, same};
use crate::world::registry::{inputs_view, makes_item, recipe_registry};
use crate::world::tools::{
    equippable_slot, is_tool, repair_cost, repair_price, slot_of, tool_durability, tool_max_durability,
};

verus! {

/// The view of a list of ingredients.
pub open spec fn parts_view(parts: Seq<(&str, i64)>) -> Seq<(Seq<char>, int)> {
    Seq::new(parts.len(), |i: int| (parts[i].0@, parts[i].1 as int))
}

/// Whether a character carries every part, each taken alone.
pub open spec fn carries_each(rows: Seq<InventoryItemView>, character: Seq<char>, parts: Seq<(Seq<char>, int)>) -> bool {
    forall|i: int|
        0 <= i < parts.len() ==> carried(rows, character, (#[trigger] parts[i]).0) >= parts[i].1
}

/// What a part asks of an item.
pub open spec fn asked_qty(item: Seq<char>) -> spec_fn((Seq<char>, int)) -> int {
    |p: (Seq<char>, int)|
        if p.0 == item && p.1 > 0 {
            p.1
        } else {
            0
        }
}

/// How much of an item the parts ask for together.
pub open spec fn asked(parts: Seq<(Seq<char>, int)>, item: Seq<char>) -> int {
    sum(parts, asked_qty(item))
}

/// Whether what a character carries covers every part, all of them together.
pub open spec fn affordable(rows: Seq<InventoryItemView>, character: Seq<char>, parts: Seq<(Seq<char>, int)>) -> bool {
    forall|i: int|
        0 <= i < parts.len() ==> carried(rows, character, (#[trigger] parts[i]).0) >= asked(parts, parts[i].0)
}

/// The rows after each part is taken in turn; what is left of a stack goes under the id of that turn.
pub open spec fn spent(
    rows: Seq<InventoryItemView>,
    character: Seq<char>,
    parts: Seq<(Seq<char>, int)>,
    ids: Seq<Seq<char>>,
) -> Seq<InventoryItemView>
    decreases parts.len(),
{
    if parts.len() == 0 {
        rows
    } else {
        dropped(
            spent(rows, character, parts.drop_last(), ids.drop_last()),
            character,
            parts.last().0,
            parts.last().1,
            ids.last(),
        )
    }
}

/// The rows after something is made: every part is taken, and of what is made as much is added as can still
/// be carried.
pub open spec fn crafted(
    rows: Seq<InventoryItemView>,
    character: Seq<char>,
    parts: Seq<(Seq<char>, int)>,
    item: Seq<char>,
    qty: int,
    ids: Seq<Seq<char>>,
    new_ids: Seq<Seq<char>>,
) -> Seq<InventoryItemView> {
    let left = spent(rows, character, parts, ids);
    let made = fits(left, character, qty);
    if made > 0 {
        picked_up(left, character, item, made, new_ids)
    } else {
        left
    }
}

/// The ids that making something needs.
pub open spec fn craft_ids(
    rows: Seq<InventoryItemView>,
    character: Seq<char>,
    parts: Seq<(Seq<char>, int)>,
    item: Seq<char>,
    qty: int,
    ids: Seq<Seq<char>>,
    new_ids: Seq<Seq<char>>,
) -> bool {
    let made = fits(spent(rows, character, parts, ids), character, qty);
    ids.len() == parts.len() && (made > 0 ==> ids_for(item, made, new_ids))
}

/// Taking parts takes from one character's parts only.
pub proof fn lemma_spent(
    rows: Seq<InventoryItemView>,
    character: Seq<char>,
    parts: Seq<(Seq<char>, int)>,
    ids: Seq<Seq<char>>,
    who: Seq<char>,
    what: Seq<char>,
)
    requires
        packed(rows),
    ensures
        packed(spent(rows, character, parts, ids)),
        sum(spent(rows, character, parts, ids), carried_qty()) <= sum(rows, carried_qty()),
        carried_total(spent(rows, character, parts, ids), who) <= carried_total(rows, who),
        carried(spent(rows, character, parts, ids), who, what) <= carried(rows, who, what),
        who != character || (forall|i: int| 0 <= i < parts.len() ==> (#[trigger] parts[i]).0 != what) ==> carried(
            spent(rows, character, parts, ids),
            who,
            what,
        ) == carried(rows, who, what),
    decreases parts.len(),
{
    if parts.len() > 0 {
        let before = spent(rows, character, parts.drop_last(), ids.drop_last());
        lemma_spent(rows, character, parts.drop_last(), ids.drop_last(), who, what);
        lemma_dropped(before, character, parts.last().0, parts.last().1, ids.last(), who, what);
        lemma_carried_bound(before, character, parts.last().0);
        if forall|i: int| 0 <= i < parts.len() ==> (#[trigger] parts[i]).0 != what {
            assert forall|i: int| 0 <= i < parts.drop_last().len() implies (#[trigger] parts.drop_last()[i]).0
                != what by {
                assert(parts.drop_last()[i] == parts[i]);
            }
            assert(parts[parts.len() - 1].0 != what);
        }
    }
}

/// Take parts from what a character carries. Returns the ids of what is left.
fn spend_in_tx(rows: &mut Table<InventoryItem>, character_id: &str, parts: &[(&str, i64)]) -> (ids: Ghost<
    Seq<Seq<char>>,
>)
    requires
        packed(old(rows)@),
    ensures
        ids@.len() == parts@.len(),
        final(rows)@ == spent(old(rows)@, character_id@, parts_view(parts@), ids@),
        packed(final(rows)@),
{
    let ghost start = rows@;
    let ghost all = parts_view(parts@);
    let ghost mut ids = Seq::<Seq<char>>::empty();
    let mut i: usize = 0;
    while i < parts.len()
        invariant
            i <= parts.len(),
            all == parts_view(parts@),
            ids.len() == i,
            packed(rows@),
            rows@ == spent(start, character_id@, all.take(i as int), ids),
        decreases parts.len() - i,
    {
        let (item_id, qty) = parts[i];
        let id = new_id();
        proof {
            assert(all[i as int] == (item_id@, qty as int));
            assert(all.take(i + 1).drop_last() =~= all.take(i as int));
            assert(all.take(i + 1).last() == all[i as int]);
            assert(ids.push(id@).drop_last() =~= ids);
            ids = ids.push(id@);
        }
        remove_inventory_in_tx(rows, character_id, item_id, qty, id);
        i = i + 1;
    }
    assert(all.take(i as int) =~= all);
    Ghost(ids)
}

/// Where each item is named once, the parts are covered together where each is covered alone.
pub proof fn lemma_affordable(rows: Seq<InventoryItemView>, character: Seq<char>, parts: Seq<(Seq<char>, int)>)
    requires
        packed(rows),
        distinct_names(parts),
    ensures
        affordable(rows, character, parts) == carries_each(rows, character, parts),
{
    assert forall|i: int| 0 <= i < parts.len() implies asked(parts, (#[trigger] parts[i]).0) == asked_qty(parts[i].0)(
        parts[i],
    ) by {
        lemma_asked_once(parts, i);
    }
    assert forall|i: int| 0 <= i < parts.len() implies carried(rows, character, (#[trigger] parts[i]).0) >= 0 by {
        lemma_carried_bound(rows, character, parts[i].0);
    }
    if affordable(rows, character, parts) {
        assert forall|i: int| 0 <= i < parts.len() implies carried(rows, character, (#[trigger] parts[i]).0)
            >= parts[i].1 by {
            assert(carried(rows, character, parts[i].0) >= asked(parts, parts[i].0));
        }
    }
    if carries_each(rows, character, parts) {
        assert forall|i: int| 0 <= i < parts.len() implies carried(rows, character, (#[trigger] parts[i]).0) >= asked(
            parts,
            parts[i].0,
        ) by {
            assert(carried(rows, character, parts[i].0) >= parts[i].1);
        }
    }
}

proof fn lemma_asked_once(parts: Seq<(Seq<char>, int)>, i: int)
    requires
        distinct_names(parts),
        0 <= i < parts.len(),
    ensures
        asked(parts, parts[i].0) == asked_qty(parts[i].0)(parts[i]),
{
    let f = asked_qty(parts[i].0);
    let blank = (parts[i].0, 0int);
    let rest = parts.update(i, blank);
    lemma_sum_update(parts, f, i, blank);
    assert forall|j: int| 0 <= j < rest.len() implies f(#[trigger] rest[j]) == 0 by {
        if j < i {
            assert(parts[j].0 != parts[i].0);
        } else if j > i {
            assert(parts[i].0 != parts[j].0);
        }
    }
    lemma_sum_constant(rest, f, 0);
    assert(rest.len() * 0 == 0) by (nonlinear_arith);
}

/// Parts that are covered are taken exactly.
pub proof fn lemma_spent_exactly(
    rows: Seq<InventoryItemView>,
    character: Seq<char>,
    parts: Seq<(Seq<char>, int)>,
    ids: Seq<Seq<char>>,
    what: Seq<char>,
)
    requires
        packed(rows),
        forall|x: Seq<char>| #[trigger] asked(parts, x) <= carried(rows, character, x),
    ensures
        carried(spent(rows, character, parts, ids), character, what) == carried(rows, character, what) - asked(parts, what),
    decreases parts.len(),
{
    if parts.len() > 0 {
        let head = parts.drop_last();
        let item = parts.last().0;
        assert forall|x: Seq<char>| #[trigger] asked(head, x) <= carried(rows, character, x) by {
            assert(asked(parts, x) == asked(head, x) + asked_qty(x)(parts.last()));
            assert(asked(parts, x) <= carried(rows, character, x));
        }
        lemma_spent_exactly(rows, character, head, ids.drop_last(), what);
        lemma_spent_exactly(rows, character, head, ids.drop_last(), item);
        lemma_spent(rows, character, head, ids.drop_last(), character, item);
        let before = spent(rows, character, head, ids.drop_last());
        lemma_dropped(before, character, item, parts.last().1, ids.last(), character, what);
        lemma_carried_bound(before, character, item);
        assert(asked(parts, item) == asked(head, item) + asked_qty(item)(parts.last()));
        assert(asked(parts, item) <= carried(rows, character, item));
        assert(asked(parts, what) == asked(head, what) + asked_qty(what)(parts.last()));
    }
}

/// What is affordable covers whatever is asked of any item.
pub proof fn lemma_covers_all(rows: Seq<InventoryItemView>, character: Seq<char>, parts: Seq<(Seq<char>, int)>)
    requires
        packed(rows),
        affordable(rows, character, parts),
    ensures
        forall|x: Seq<char>| #[trigger] asked(parts, x) <= carried(rows, character, x),
{
    assert forall|x: Seq<char>| #[trigger] asked(parts, x) <= carried(rows, character, x) by {
        lemma_carried_bound(rows, character, x);
        if exists|i: int| 0 <= i < parts.len() && (#[trigger] parts[i]).0 == x {
            let i = choose|i: int| 0 <= i < parts.len() && (#[trigger] parts[i]).0 == x;
            assert(carried(rows, character, parts[i].0) >= asked(parts, parts[i].0));
        } else {
            assert forall|i: int| 0 <= i < parts.len() implies asked_qty(x)(#[trigger] parts[i]) == 0 by {}
            lemma_sum_constant(parts, asked_qty(x), 0);
            assert(parts.len() * 0 == 0) by (nonlinear_arith);
        }
    }
}

/// Whether what a character carries covers every part, all of them together.
fn covers_all(rows: &Table<InventoryItem>, character_id: &str, parts: &[(&str, i64)]) -> (yes: bool)
    requires
        packed(rows@),
    ensures
        yes == affordable(rows@, character_id@, parts_view(parts@)),
{
    let ghost all = parts_view(parts@);
    let mut i: usize = 0;
    while i < parts.len()
        invariant
            i <= parts.len(),
            all == parts_view(parts@),
            packed(rows@),
            forall|j: int|
                0 <= j < i ==> carried(rows@, character_id@, (#[trigger] all[j]).0) >= asked(all, all[j].0),
        decreases parts.len() - i,
    {
        let item_id: &str = parts[i].0;
        let ghost f = asked_qty(item_id@);
        assert(all[i as int].0 == item_id@);
        let have: i64 = inventory_qty_in_tx(rows, character_id, item_id);
        proof {
            lemma_carried_bound(rows@, character_id@, item_id@);
            assert(all.take(0) =~= Seq::empty());
        }
        let mut need: i64 = 0;
        let mut j: usize = 0;
        while j < parts.len()
            invariant
                i < parts.len(),
                j <= parts.len(),
                all == parts_view(parts@),
                all[i as int].0 == item_id@,
                f == asked_qty(item_id@),
                have == carried(rows@, character_id@, item_id@),
                0 <= need <= have,
                need == sum(all.take(j as int), f),
            decreases parts.len() - j,
        {
            let (other, qty) = parts[j];
            proof {
                assert(all[j as int] == (other@, qty as int));
                assert(all.take(j + 1).drop_last() =~= all.take(j as int));
                assert(all.take(j + 1).last() == all[j as int]);
            }
            if qty > 0 && same(other, item_id) {
                if qty > have - need {
                    proof {
                        assert forall|k: int| 0 <= k < all.len() implies f(#[trigger] all[k]) >= 0 by {}
                        lemma_sum_prefix(all, f, j + 1);
                        assert(carried(rows@, character_id@, all[i as int].0) < asked(all, all[i as int].0));
                    }
                    return false;
                }
                need = need + qty;
            }
            j = j + 1;
        }
        assert(all.take(j as int) =~= all);
        i = i + 1;
    }
    true
}

/// Whether a character carries every part, each taken alone.
fn can_afford(rows: &Table<InventoryItem>, character_id: &str, parts: &[(&str, i64)]) -> (yes: bool)
    requires
        packed(rows@),
    ensures
        yes == carries_each(rows@, character_id@, parts_view(parts@)),
{
    let ghost all = parts_view(parts@);
    let mut i: usize = 0;
    while i < parts.len()
        invariant
            i <= parts.len(),
            all == parts_view(parts@),
            packed(rows@),
            forall|j: int| 0 <= j < i ==> carried(rows@, character_id@, (#[trigger] all[j]).0) >= all[j].1,
        decreases parts.len() - i,
    {
        let (item_id, qty) = parts[i];
        assert(all[i as int] == (item_id@, qty as int));
        let have: i64 = inventory_qty_in_tx(rows, character_id, item_id);
        if have < qty {
            return false;
        }
        i = i + 1;
    }
    true
}

pub open spec fn is_instance(id: Seq<char>) -> spec_fn(InventoryItemView) -> bool {
    |i: InventoryItemView| i.id == id
}

pub open spec fn is_worn(character: Seq<char>, slot: Seq<char>) -> spec_fn(EquipmentView) -> bool {
    |e: EquipmentView| e.character_id == character && e.slot == slot
}

fn find_instance(rows: &Table<InventoryItem>, id: &str) -> (k: usize)
    ensures
        k == find(rows@, is_instance(id@)),
        k <= rows@.len(),
        k < rows@.len() ==> rows@[k as int].id == id@,
{
    let f = |i: &InventoryItem| -> (b: bool)
        ensures
            b == is_instance(id@)(i@),
        { same(i.id.as_str(), id) };
    rows.find(f, Ghost(is_instance(id@)))
}

fn find_worn(rows: &Table<Equipment>, character_id: &str, slot: &str) -> (k: usize)
    ensures
        k == find(rows@, is_worn(character_id@, slot@)),
        k <= rows@.len(),
{
    let f = |e: &Equipment| -> (b: bool)
        ensures
            b == is_worn(character_id@, slot@)(e@),
        { same(e.character_id.as_str(), character_id) && same(e.slot.as_str(), slot) };
    rows.find(f, Ghost(is_worn(character_id@, slot@)))
}

/// What is worn after an instance is put into a slot: one thing to a slot.
pub open spec fn worn(
    rows: Seq<EquipmentView>,
    character: Seq<char>,
    slot: Seq<char>,
    item: Seq<char>,
    instance: Seq<char>,
) -> Seq<EquipmentView> {
    let k = find(rows, is_worn(character, slot));
    let row = EquipmentView { character_id: character, slot, item_id: item, instance_id: instance };
    if k < rows.len() {
        rows.update(k, row)
    } else {
        rows.push(row)
    }
}

/// Whether an instance can be worn by a character: it is there, it is theirs, and it fits a slot.
pub open spec fn wearable(s: DbView, character: Seq<char>, instance: Seq<char>) -> bool {
    let k = find(s.inventory, is_instance(instance));
    k < s.inventory.len() && s.inventory[k].character_id == character && slot_of(s.inventory[k].item_id) is Some
}

/// The instance worn in a slot, as its position in what is carried.
pub open spec fn worn_instance(s: DbView, character: Seq<char>, slot: Seq<char>) -> Option<int> {
    let e = find(s.equipment, is_worn(character, slot));
    let k = find(s.inventory, is_instance(s.equipment[e].instance_id));
    if e < s.equipment.len() && k < s.inventory.len() {
        Some(k)
    } else {
        None
    }
}

/// A worn tool with its wear.
#[derive(Debug, Clone, PartialEq, Eq)]
pub struct EquippedTool {
    pub instance_id: String,
    pub item_id: String,
    pub durability: i64,
    pub max_durability: i64,
}

/// The view of an [`EquippedTool`].
pub struct EquippedToolView {
    pub instance_id: Seq<char>,
    pub item_id: Seq<char>,
    pub durability: int,
    pub max_durability: int,
}

impl View for EquippedTool {
    type V = EquippedToolView;

    open spec fn view(&self) -> EquippedToolView {
        EquippedToolView {
            instance_id: self.instance_id@,
            item_id: self.item_id@,
            durability: self.durability as int,
            max_durability: self.max_durability as int,
        }
    }
}

/// What wearing a tool down came to.
#[derive(Debug, Clone, PartialEq, Eq)]
pub struct WearOutcome {
    pub remaining: i64,
    /// Whether this swing broke it: it is no longer worn, and stays in the bag with no durability left.
    pub broke: bool,
}

/// What mending a tool cost.
#[derive(Debug, Clone, PartialEq, Eq)]
pub struct RepairOutcome {
    pub item_id: String,
    pub cost: Vec<(String, i64)>,
}

/// An instance with a given durability.
pub open spec fn with_durability(rows: Seq<InventoryItemView>, k: int, durability: int) -> Seq<InventoryItemView> {
    rows.update(k, InventoryItemView { durability: Some(durability), ..rows[k] })
}

pub open spec fn wear_left(durability: int, loss: int) -> int {
    if durability - loss > 0 {
        durability - loss
    } else {
        0
    }
}

/// The state after the tool worn in a slot, at position `k`, loses durability. One that breaks is no longer worn.
pub open spec fn worn_down(s: DbView, character: Seq<char>, slot: Seq<char>, k: int, loss: int) -> DbView {
    let left = wear_left(s.inventory[k].durability->0, loss);
    DbView {
        inventory: with_durability(s.inventory, k, left),
        equipment: if left <= 0 {
            s.equipment.filter(not(is_worn(character, slot)))
        } else {
            s.equipment
        },
        ..s
    }
}

/// What mending an instance costs its owner; `None` for what cannot be mended: what is not there, is someone
/// else's, is no tool or misses no durability.
pub open spec fn mending_price(s: DbView, character: Seq<char>, instance: Seq<char>) -> Option<
    Seq<(Seq<char>, int)>,
> {
    let k = find(s.inventory, is_instance(instance));
    let i = s.inventory[k];
    if k < s.inventory.len() && i.character_id == character && is_tool(i.item_id) {
        repair_price(
            i.item_id,
            tool_durability(i.item_id)->0 - i.durability->0,
            tool_durability(i.item_id)->0,
        )
    } else {
        None
    }
}

/// Whether an instance can be mended by a character, who carries what it costs.
pub open spec fn mendable(s: DbView, character: Seq<char>, instance: Seq<char>) -> bool {
    mending_price(s, character, instance) is Some && carries_each(
        s.inventory,
        character,
        mending_price(s, character, instance)->0,
    )
}

/// The state after an instance is mended.
pub open spec fn mended(s: DbView, character: Seq<char>, instance: Seq<char>, ids: Seq<Seq<char>>) -> DbView {
    let item = s.inventory[find(s.inventory, is_instance(instance))].item_id;
    let left = spent(s.inventory, character, mending_price(s, character, instance)->0, ids);
    let k = find(left, is_instance(instance));
    DbView {
        inventory: if k < left.len() {
            with_durability(left, k, tool_durability(item)->0)
        } else {
            left
        },
        ..s
    }
}

impl Db {
    /// Make an item out of others: only where what is carried covers every input are they all taken, and as much of
    /// the output is added as can still be carried; otherwise nothing changes. Returns whether it was made.
    pub fn craft(&mut self, character_id: &str, inputs: &[(&str, i64)], output_item: &str, output_qty: i64) -> (made:
        bool)
        requires
            packed(old(self)@.inventory),
            sum(old(self)@.inventory, carried_qty()) + MAX_CARRY <= i64::MAX,
        ensures
            made == affordable(old(self)@.inventory, character_id@, parts_view(inputs@)),
            distinct_names(parts_view(inputs@)) ==> made == carries_each(
                old(self)@.inventory,
                character_id@,
                parts_view(inputs@),
            ),
            packed(final(self)@.inventory),
            !made ==> final(self)@ == old(self)@,
            made ==> exists|ids: Seq<Seq<char>>, new_ids: Seq<Seq<char>>|
                craft_ids(
                    old(self)@.inventory,
                    character_id@,
                    parts_view(inputs@),
                    output_item@,
                    output_qty as int,
                    ids,
                    new_ids,
                ) && final(self)@ == (DbView {
                    inventory: #[trigger] crafted(
                        old(self)@.inventory,
                        character_id@,
                        parts_view(inputs@),
                        output_item@,
                        output_qty as int,
                        ids,
                        new_ids,
                    ),
                    ..old(self)@
                }),
    {
        let ghost s = self@;
        let ghost parts = parts_view(inputs@);
        proof {
            if distinct_names(parts) {
                lemma_affordable(s.inventory, character_id@, parts);
            }
        }
        if !covers_all(&self.inventory, character_id, inputs) {
            return false;
        }
        let ids = spend_in_tx(&mut self.inventory, character_id, inputs);
        let ghost left = self@.inventory;
        proof {
            lemma_spent(s.inventory, character_id@, parts, ids@, character_id@, output_item@);
            lemma_carried_bound(left, character_id@, output_item@);
        }
        let room: i64 = self.room_to_carry(character_id);
        let add: i64 = if output_qty <= 0 {
            0
        } else if output_qty <= room {
            output_qty
        } else {
            room
        };
        assert(add == fits(left, character_id@, output_qty as int));
        if add > 0 {
            let new_ids = add_inventory_in_tx(&mut self.inventory, character_id, output_item, add);
            assert(craft_ids(
                s.inventory,
                character_id@,
                parts,
                output_item@,
                output_qty as int,
                ids@,
                new_ids@,
            ));
            assert(self@.inventory == crafted(
                s.inventory,
                character_id@,
                parts,
                output_item@,
                output_qty as int,
                ids@,
                new_ids@,
            ));
        } else {
            assert(craft_ids(
                s.inventory,
                character_id@,
                parts,
                output_item@,
                output_qty as int,
                ids@,
                Seq::empty(),
            ));
            assert(self@.inventory == crafted(
                s.inventory,
                character_id@,
                parts,
                output_item@,
                output_qty as int,
                ids@,
                Seq::empty(),
            ));
        }
        true
    }

    /// Wear an instance in the slot that its item belongs in. Returns the slot and the item, or `None` where
    /// the instance is not there, is not the character's or cannot be worn.
    pub fn equip_instance(&mut self, character_id: &str, instance_id: &str) -> (out: Option<
        (&'static str, String),
    >)
        ensures
            out is Some <==> wearable(old(self)@, character_id@, instance_id@),
            ({
                let s = old(self)@;
                let item = s.inventory[find(s.inventory, is_instance(instance_id@))].item_id;
                match out {
                    Some((slot, item_id)) => slot_of(item) == Some(slot@) && item_id@ == item && final(self)@
                        == (DbView {
                        equipment: worn(s.equipment, character_id@, slot@, item, instance_id@),
                        ..s
                    }),
                    None => final(self)@ == s,
                }
            }),
    {
        let k: usize = find_instance(&self.inventory, instance_id);
        if k >= self.inventory.len() {
            return None;
        }
        let item_id = self.inventory.get(k).item_id.clone();
        let slot = match equippable_slot(item_id.as_str()) {
            Some(slot) => slot,
            None => {
                return None;
            },
        };
        if !same(self.inventory.get(k).character_id.as_str(), character_id) {
            return None;
        }
        let e: usize = find_worn(&self.equipment, character_id, slot);
        let row = Equipment {
            character_id: character_id.to_string(),
            slot: slot.to_string(),
            item_id: item_id.clone(),
            instance_id: instance_id.to_string(),
        };
        if e < self.equipment.len() {
            let place = self.equipment.get_mut(e);
            *place = row;
        } else {
            self.equipment.push(row);
        }
        Some((slot, item_id))
    }

    /// Take off what is worn in a slot, if anything.
    pub fn unequip(&mut self, character_id: &str, slot: &str)
        ensures
            final(self)@ == (DbView {
                equipment: old(self)@.equipment.filter(not(is_worn(character_id@, slot@))),
                ..old(self)@
            }),
    {
        let f = |e: &Equipment| -> (b: bool)
            ensures
                b == is_worn(character_id@, slot@)(e@),
            { same(e.character_id.as_str(), character_id) && same(e.slot.as_str(), slot) };
        self.equipment.delete_where(f, Ghost(is_worn(character_id@, slot@)));
    }

    /// The item worn in a slot, if any.
    pub fn equipped(&self, character_id: &str, slot: &str) -> (item: Option<String>)
        ensures
            ({
                let e = find(self@.equipment, is_worn(character_id@, slot@));
                opt_text(item) == if e < self@.equipment.len() {
                    Some(self@.equipment[e].item_id)
                } else {
                    None
                }
            }),
    {
        let e: usize = find_worn(&self.equipment, character_id, slot);
        if e < self.equipment.len() {
            Some(self.equipment.get(e).item_id.clone())
        } else {
            None
        }
    }

    /// The position of the instance worn in a slot.
    fn worn_at(&self, character_id: &str, slot: &str) -> (k: Option<usize>)
        ensures
            k is Some == worn_instance(self@, character_id@, slot@) is Some,
            k matches Some(i) ==> worn_instance(self@, character_id@, slot@) == Some(i as int) && i
                < self@.inventory.len(),
    {
        let e: usize = find_worn(&self.equipment, character_id, slot);
        if e >= self.equipment.len() {
            return None;
        }
        let k: usize = find_instance(&self.inventory, self.equipment.get(e).instance_id.as_str());
        if k >= self.inventory.len() {
            return None;
        }
        Some(k)
    }

    /// The tool worn in a slot with its wear; `None` where nothing is worn.
    pub fn equipped_tool(&self, character_id: &str, slot: &str) -> (out: Result<Option<EquippedTool>, DbError>)
        ensures
            match worn_instance(self@, character_id@, slot@) {
                None => out == Ok::<Option<EquippedTool>, DbError>(None),
                Some(k) => match self@.inventory[k].durability {
                    None => out == Err::<Option<EquippedTool>, DbError>(DbError::ColumnDecode),
                    Some(durability) => out is Ok && out->Ok_0 is Some && out->Ok_0->0@ == (EquippedToolView {
                        instance_id: self@.inventory[k].id,
                        item_id: self@.inventory[k].item_id,
                        durability,
                        max_durability: match tool_durability(self@.inventory[k].item_id) {
                            Some(max) => max,
                            None => durability,
                        },
                    }),
                },
            },
    {
        let k: usize = match self.worn_at(character_id, slot) {
            Some(k) => k,
            None => {
                return Ok(None);
            },
        };
        let row = self.inventory.get(k);
        let durability: i64 = match row.durability {
            Some(d) => d,
            None => {
                return Err(DbError::ColumnDecode);
            },
        };
        let max_durability: i64 = match tool_max_durability(row.item_id.as_str()) {
            Some(max) => max,
            None => durability,
        };
        Ok(
            Some(
                EquippedTool {
                    instance_id: row.id.clone(),
                    item_id: row.item_id.clone(),
                    durability,
                    max_durability,
                },
            ),
        )
    }

    /// Spend durability of the tool worn in a slot. What has none left is no longer worn, and stays in the bag
    /// to be mended. `None` where nothing is worn.
    pub fn wear_equipped_tool(&mut self, character_id: &str, slot: &str, loss: i64) -> (out: Result<
        Option<WearOutcome>,
        DbError,
    >)
        requires
            ({
                let k = worn_instance(old(self)@, character_id@, slot@);
                k is Some && old(self)@.inventory[k->0].durability is Some ==> i64::MIN
                    <= old(self)@.inventory[k->0].durability->0 - loss <= i64::MAX
            }),
        ensures
            match worn_instance(old(self)@, character_id@, slot@) {
                None => out == Ok::<Option<WearOutcome>, DbError>(None) && final(self)@ == old(self)@,
                Some(k) => match old(self)@.inventory[k].durability {
                    None => out == Err::<Option<WearOutcome>, DbError>(DbError::ColumnDecode) && final(self)@
                        == old(self)@,
                    Some(durability) => {
                        &&& out is Ok && out->Ok_0 is Some
                        &&& out->Ok_0->0.remaining == wear_left(durability, loss as int)
                        &&& out->Ok_0->0.broke == (out->Ok_0->0.remaining == 0)
                        &&& final(self)@ == worn_down(old(self)@, character_id@, slot@, k, loss as int)
                    },
                },
            },
    {
        let k: usize = match self.worn_at(character_id, slot) {
            Some(k) => k,
            None => {
                return Ok(None);
            },
        };
        let durability: i64 = match self.inventory.get(k).durability {
            Some(d) => d,
            None => {
                return Err(DbError::ColumnDecode);
            },
        };
        let left: i64 = durability - loss;
        let remaining: i64 = if left > 0 {
            left
        } else {
            0
        };
        let row = self.inventory.get_mut(k);
        row.durability = Some(remaining);
        let broke: bool = remaining <= 0;
        if broke {
            self.unequip(character_id, slot);
        }
        Ok(Some(WearOutcome { remaining, broke }))
    }

    /// Mend a tool to its full durability, at a cost that grows with its wear, whether it is worn or in the
    /// bag. `None`, with nothing changed, where the instance is not there, is not the character's, is no tool,
    /// misses no durability, or costs more than the character carries.
    pub fn repair_instance(&mut self, character_id: &str, instance_id: &str) -> (out: Option<RepairOutcome>)
        requires
            packed(old(self)@.inventory),
        ensures
            out is Some <==> mendable(old(self)@, character_id@, instance_id@),
            out is None ==> final(self)@ == old(self)@,
            out matches Some(r) ==> r.item_id@ == old(self)@.inventory[find(
                old(self)@.inventory,
                is_instance(instance_id@),
            )].item_id && pairs_view(r.cost@) == mending_price(old(self)@, character_id@, instance_id@)->0,
            out is Some ==> exists|ids: Seq<Seq<char>>|
                ids.len() == mending_price(old(self)@, character_id@, instance_id@)->0.len() && final(self)@
                    == #[trigger] mended(old(self)@, character_id@, instance_id@, ids),
    {
        let ghost s = self@;
        let k: usize = find_instance(&self.inventory, instance_id);
        if k >= self.inventory.len() {
            return None;
        }
        let item_id = self.inventory.get(k).item_id.clone();
        let max: i64 = match tool_max_durability(item_id.as_str()) {
            Some(max) => max,
            None => {
                return None;
            },
        };
        if !same(self.inventory.get(k).character_id.as_str(), character_id) {
            return None;
        }
        assert(is_tool(s.inventory[k as int].item_id));
        let durability: i64 = match self.inventory.get(k).durability {
            Some(d) => d,
            None => 0,
        };
        let missing: i64 = if durability < 0 {
            max
        } else {
            max - durability
        };
        let ghost price = repair_price(item_id@, missing as int, max as int);
        assert(price == mending_price(s, character_id@, instance_id@)) by {
            if durability < 0 {
                assert(repair_price(item_id@, max - durability, max as int)->0 =~= price->0);
            }
        }
        let cost = match repair_cost(item_id.as_str(), missing, max) {
            Some(cost) => cost,
            None => {
                return None;
            },
        };
        assert(parts_view(cost@) =~= price->0);
        if !can_afford(&self.inventory, character_id, cost.as_slice()) {
            return None;
        }
        let ids = spend_in_tx(&mut self.inventory, character_id, cost.as_slice());
        let j: usize = find_instance(&self.inventory, instance_id);
        if j < self.inventory.len() {
            let row = self.inventory.get_mut(j);
            row.durability = Some(max);
        }
        assert(self@ == mended(s, character_id@, instance_id@, ids@));
        Some(RepairOutcome { item_id, cost: owned_parts(&cost) })
    }
}

/// Ingredients with their names owned.
fn owned_parts(parts: &Vec<(&'static str, i64)>) -> (out: Vec<(String, i64)>)
    ensures
        pairs_view(out@) == inputs_view(parts@),
{
    let mut out: Vec<(String, i64)> = Vec::new();
    let mut i: usize = 0;
    while i < parts.len()
        invariant
            i <= parts.len(),
            out.len() == i,
            forall|j: int| 0 <= j < i ==> (#[trigger] out@[j]).0@ == parts@[j].0@ && out@[j].1 == parts@[j].1,
        decreases parts.len() - i,
    {
        let (name, qty) = parts[i];
        out.push((name.to_string(), qty));
        i = i + 1;
    }
    assert(pairs_view(out@) =~= inputs_view(parts@));
    out
}

/// Making something touches nobody else, and of the maker's goods only the parts and what is made; and it
/// never makes a load that fits too large to carry.
pub proof fn law_crafting_is_bounded(
    rows: Seq<InventoryItemView>,
    character: Seq<char>,
    parts: Seq<(Seq<char>, int)>,
    item: Seq<char>,
    qty: int,
    ids: Seq<Seq<char>>,
    new_ids: Seq<Seq<char>>,
    who: Seq<char>,
    what: Seq<char>,
)
    requires
        packed(rows),
        sum(rows, carried_qty()) + MAX_CARRY <= i64::MAX,
        craft_ids(rows, character, parts, item, qty, ids, new_ids),
    ensures
        ({
            let t = crafted(rows, character, parts, item, qty, ids, new_ids);
            &&& packed(t)
            &&& who != character ==> carried(t, who, what) == carried(rows, who, what)
            &&& what != item && (forall|i: int| 0 <= i < parts.len() ==> (#[trigger] parts[i]).0 != what)
                ==> carried(t, who, what) == carried(rows, who, what)
            &&& carried_total(rows, character) <= MAX_CARRY ==> carried_total(t, character) <= MAX_CARRY
        }),
{
    let left = spent(rows, character, parts, ids);
    lemma_spent(rows, character, parts, ids, who, what);
    lemma_spent(rows, character, parts, ids, character, what);
    lemma_carried_bound(left, character, what);
    let made = fits(left, character, qty);
    if made > 0 {
        lemma_picked_up(left, character, item, made, new_ids, who, what);
        lemma_picked_up(left, character, item, made, new_ids, character, what);
    }
}

/// Where the parts are covered, exactly what they ask for is gone, and what is made is there as far as it can be carried.
pub proof fn law_crafting_takes_and_gives(
    rows: Seq<InventoryItemView>,
    character: Seq<char>,
    parts: Seq<(Seq<char>, int)>,
    item: Seq<char>,
    qty: int,
    ids: Seq<Seq<char>>,
    new_ids: Seq<Seq<char>>,
    what: Seq<char>,
)
    requires
        packed(rows),
        sum(rows, carried_qty()) + MAX_CARRY <= i64::MAX,
        affordable(rows, character, parts),
        craft_ids(rows, character, parts, item, qty, ids, new_ids),
    ensures
        carried(crafted(rows, character, parts, item, qty, ids, new_ids), character, what) == carried(
            rows,
            character,
            what,
        ) - asked(parts, what) + if what == item {
            fits(spent(rows, character, parts, ids), character, qty)
        } else {
            0
        },
{
    let left = spent(rows, character, parts, ids);
    lemma_covers_all(rows, character, parts);
    lemma_spent_exactly(rows, character, parts, ids, what);
    lemma_spent(rows, character, parts, ids, character, what);
    lemma_carried_bound(left, character, what);
    let made = fits(left, character, qty);
    if made > 0 {
        lemma_picked_up(left, character, item, made, new_ids, character, what);
    }
}

/// Wear never goes below nothing. A tool that breaks is worn no more, and stays in the bag.
pub proof fn law_a_broken_tool_stays_in_the_bag(s: DbView, character: Seq<char>, slot: Seq<char>, k: int, loss: int)
    requires
        worn_instance(s, character, slot) == Some(k),
        s.inventory[k].durability is Some,
    ensures
        ({
            let t = worn_down(s, character, slot, k, loss);
            &&& t.inventory.len() == s.inventory.len()
            &&& t.inventory[k] == (InventoryItemView { durability: t.inventory[k].durability, ..s.inventory[k] })
            &&& t.inventory[k].durability->0 >= 0
            &&& t.inventory[k].durability->0 == 0 ==> worn_instance(t, character, slot) is None
            &&& t.inventory[k].durability->0 > 0 ==> worn_instance(t, character, slot) == Some(k)
        }),
{
    let t = worn_down(s, character, slot, k, loss);
    let e = find(s.equipment, is_worn(character, slot));
    let p = not(is_worn(character, slot));
    lemma_find(s.inventory, is_instance(s.equipment[e].instance_id));
    lemma_filter_all(s.equipment, p);
    lemma_find(t.equipment, is_worn(character, slot));
    if t.inventory[k].durability->0 == 0 {
        if find(t.equipment, is_worn(character, slot)) < t.equipment.len() {
            let i = find(t.equipment, is_worn(character, slot));
            assert(p(s.equipment.filter(p)[i]));
        }
    } else {
        assert forall|i: int| 0 <= i < k implies !is_instance(s.equipment[e].instance_id)(
            #[trigger] t.inventory[i],
        ) by {
            assert(t.inventory[i] == s.inventory[i]);
        }
        lemma_find_is(t.inventory, is_instance(s.equipment[e].instance_id), k);
    }
}

/// One thing is worn in a slot: putting another in replaces it, and other slots keep what they have.
pub proof fn law_one_thing_to_a_slot(
    rows: Seq<EquipmentView>,
    character: Seq<char>,
    slot: Seq<char>,
    item: Seq<char>,
    instance: Seq<char>,
    who: Seq<char>,
    other: Seq<char>,
)
    ensures
        ({
            let t = worn(rows, character, slot, item, instance);
            let e = find(t, is_worn(character, slot));
            let b = find(rows, is_worn(who, other));
            &&& e < t.len() && t[e].item_id == item && t[e].instance_id == instance
            &&& who != character || other != slot ==> {
                &&& find(t, is_worn(who, other)) < t.len() <==> b < rows.len()
                &&& b < rows.len() ==> t[find(t, is_worn(who, other))] == rows[b]
            }
        }),
{
    let t = worn(rows, character, slot, item, instance);
    let k = find(rows, is_worn(character, slot));
    lemma_find(rows, is_worn(character, slot));
    assert forall|i: int| 0 <= i < k implies !is_worn(character, slot)(#[trigger] t[i]) by {
        assert(t[i] == rows[i]);
    }
    lemma_find_is(t, is_worn(character, slot), k);
    if who != character || other != slot {
        let b = find(rows, is_worn(who, other));
        lemma_find(rows, is_worn(who, other));
        let e = if b < rows.len() {
            b
        } else {
            t.len() as int
        };
        assert forall|i: int| 0 <= i < e implies !is_worn(who, other)(#[trigger] t[i]) by {
            if i < rows.len() && i != k {
                assert(t[i] == rows[i]);
            }
        }
        lemma_find_is(t, is_worn(who, other), e);
    }
}

/// The first of its kind stays the first among those that are kept.
proof fn lemma_find_kept<A>(s: Seq<A>, p: spec_fn(A) -> bool, q: spec_fn(A) -> bool)
    requires
        find(s, q) < s.len(),
        p(s[find(s, q)]),
    ensures
        find(s.filter(p), q) < s.filter(p).len(),
        s.filter(p)[find(s.filter(p), q)] == s[find(s, q)],
    decreases s.len(),
{
    reveal(Seq::filter);
    let t = s.drop_last();
    let kept = t.filter(p);
    lemma_find(s, q);
    lemma_find(t, q);
    if find(t, q) < t.len() {
        assert(s[find(t, q)] == t[find(t, q)]);
        lemma_find_kept(t, p, q);
        assert(kept.push(s.last()).drop_last() =~= kept);
        lemma_find(kept, q);
        assert(kept.push(s.last())[find(kept, q)] == kept[find(kept, q)]);
    } else {
        assert forall|i: int| 0 <= i < kept.len() implies !q(#[trigger] kept[i]) by {
            lemma_filter_all(t, p);
            assert(t.contains(kept[i]));
            let j = choose|j: int| 0 <= j < t.len() && t[j] == kept[i];
            assert(!q(t[j]));
        }
        lemma_find_is(kept.push(s.last()), q, kept.len() as int);
    }
}

/// Taking what is no tool leaves every tool where it is.
proof fn lemma_spent_keeps_tools(
    rows: Seq<InventoryItemView>,
    character: Seq<char>,
    parts: Seq<(Seq<char>, int)>,
    ids: Seq<Seq<char>>,
    instance: Seq<char>,
)
    requires
        forall|i: int| 0 <= i < parts.len() ==> !is_tool((#[trigger] parts[i]).0),
        find(rows, is_instance(instance)) < rows.len(),
        is_tool(rows[find(rows, is_instance(instance))].item_id),
    ensures
        ({
            let left = spent(rows, character, parts, ids);
            let k = find(left, is_instance(instance));
            k < left.len() && left[k] == rows[find(rows, is_instance(instance))]
        }),
    decreases parts.len(),
{
    if parts.len() > 0 {
        let head = parts.drop_last();
        assert forall|i: int| 0 <= i < head.len() implies !is_tool((#[trigger] head[i]).0) by {
            assert(head[i] == parts[i]);
        }
        lemma_spent_keeps_tools(rows, character, head, ids.drop_last(), instance);
        let before = spent(rows, character, head, ids.drop_last());
        let item = parts.last().0;
        assert(parts[parts.len() - 1] == parts.last());
        let q = is_instance(instance);
        lemma_find(before, q);
        lemma_find_kept(before, not(is_carried(character, item)), q);
        let rest = before.filter(not(is_carried(character, item)));
        let left = spent(rows, character, parts, ids);
        if left != before && left != rest {
            assert(left.drop_last() =~= rest);
            lemma_find(rest, q);
            assert(left[find(rest, q)] == rest[find(rest, q)]);
        }
    }
}

/// Mending brings a tool back to its full durability.
pub proof fn law_mending_restores(s: DbView, character: Seq<char>, instance: Seq<char>, ids: Seq<Seq<char>>)
    requires
        mendable(s, character, instance),
    ensures
        ({
            let was = s.inventory[find(s.inventory, is_instance(instance))];
            let t = mended(s, character, instance, ids);
            let k = find(t.inventory, is_instance(instance));
            &&& k < t.inventory.len()
            &&& t.inventory[k] == (InventoryItemView { durability: tool_durability(was.item_id), ..was })
            &&& mending_price(t, character, instance) is None
        }),
{
    let was = s.inventory[find(s.inventory, is_instance(instance))];
    let price = mending_price(s, character, instance)->0;
    lemma_find(s.inventory, is_instance(instance));
    lemma_tools_are_made_of_goods();
    lemma_find(recipe_registry(), makes_item(was.item_id));
    assert forall|i: int| 0 <= i < price.len() implies !is_tool((#[trigger] price[i]).0) by {
        assert(price[i].0 == recipe_registry()[find(
            recipe_registry(),
            makes_item(was.item_id),
        )].inputs[i].0);
    }
    lemma_spent_keeps_tools(s.inventory, character, price, ids, instance);
    let left = spent(s.inventory, character, price, ids);
    let j = find(left, is_instance(instance));
    let t = mended(s, character, instance, ids);
    lemma_find(left, is_instance(instance));
    assert forall|i: int| 0 <= i < j implies !is_instance(instance)(#[trigger] t.inventory[i]) by {
        assert(t.inventory[i] == left[i]);
    }
    lemma_find_is(t.inventory, is_instance(instance), j);
}

/// No recipe takes a tool.
proof fn lemma_tools_are_made_of_goods()
    ensures
        forall|k: int, j: int|
            0 <= k < recipe_registry().len() && 0 <= j
                < recipe_registry()[k].inputs.len() ==> !is_tool(
                (#[trigger] recipe_registry()[k].inputs[j]).0,
            ),
{
    reveal_strlit("wood");
    reveal_strlit("stone");
    reveal_strlit("pickaxe");
    reveal_strlit("axe");
    reveal_strlit("sword");
    assert("wood"@.len() == 4 && "stone"@.len() == 5 && "pickaxe"@.len() == 7 && "axe"@.len() == 3
        && "sword"@.len() == 5);
    assert("stone"@[1] != "sword"@[1]);
}

} // verus!
