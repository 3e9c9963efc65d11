//! What crafting takes and makes, who may wear what, and what wear and mending come to.

use vstd::prelude::*;

use crate::persistence::db::DbView;
use crate::persistence::equipment::{
    affordable, asked, asked_qty, craft_ids, crafted, is_instance, is_worn, law_crafting_takes_and_gives,
    lemma_affordable, lemma_covers_all, lemma_spent, lemma_spent_exactly, mendable, mended, mending_price,
    spent, wearable, worn_down, worn_instance,
};
use crate::persistence::inventory::{
    carried, carried_qty, carried_total, is_carried, lemma_carried_bound, lemma_dropped, packed,
};
use crate::persistence::rows::{EquipmentView, InventoryItemView};
use crate::persistence::stations::distinct_names;
use crate::table::{find, lemma_find, lemma_find_is, lemma_sum_same, lemma_sum_update, not, qty_if, sum};
use crate::world::registry::{makes_item, recipe_registry};
use crate::world::tools::{repair_price, slot_of};

verus! {

/// How much of an item some parts name in all. Nothing is asked for by a part without a quantity.
pub open spec fn named_in(parts: Seq<(Seq<char>, int)>, what: Seq<char>) -> int {
    sum(
        parts,
        |p: (Seq<char>, int)|
            if p.0 == what && p.1 > 0 {
                p.1
            } else {
                0
            },
    )
}

/// How much some parts name in all.
pub open spec fn bulk_of(parts: Seq<(Seq<char>, int)>) -> int {
    sum(
        parts,
        |p: (Seq<char>, int)|
            if p.1 > 0 {
                p.1
            } else {
                0
            },
    )
}

/// Something can be made exactly when as much of every item is carried as its parts ask for in all. The parts are then gone,
/// and as much is made as was to be made, or as there is room for.
pub proof fn law_crafting_needs_takes_and_makes(
    rows: Seq<InventoryItemView>,
    character: Seq<char>,
    parts: Seq<(Seq<char>, int)>,
    item: Seq<char>,
    qty: int,
    ids: Seq<Seq<char>>,
    new_ids: Seq<Seq<char>>,
    what: Seq<char>,
)
    requires
        packed(rows),
        sum(rows, carried_qty()) + 50 <= i64::MAX,
    ensures
        affordable(rows, character, parts) <==> forall|x: Seq<char>| #[trigger]
            named_in(parts, x) <= carried(rows, character, x),
        affordable(rows, character, parts) && craft_ids(rows, character, parts, item, qty, ids, new_ids) ==> {
            let t = crafted(rows, character, parts, item, qty, ids, new_ids);
            let load = carried_total(rows, character) - bulk_of(parts);
            let made = carried(t, character, item) - carried(rows, character, item) + named_in(parts, item);
            &&& qty <= 0 || load >= 50 ==> made == 0
            &&& qty > 0 && load < 50 ==> made <= qty && made <= 50 - load && (made == qty || made == 50 - load)
            &&& what != item ==> carried(t, character, what) == carried(rows, character, what) - named_in(parts, what)
        },
{
    assert forall|x: Seq<char>| #[trigger] named_in(parts, x) == asked(parts, x) by {
        let f = |p: (Seq<char>, int)|
            if p.0 == x && p.1 > 0 {
                p.1
            } else {
                0
            };
        lemma_sum_same(parts, f, asked_qty(x));
    }
    if affordable(rows, character, parts) {
        lemma_covers_all(rows, character, parts);
        assert forall|x: Seq<char>| #[trigger] named_in(parts, x) <= carried(rows, character, x) by {
            assert(asked(parts, x) <= carried(rows, character, x));
        }
        if craft_ids(rows, character, parts, item, qty, ids, new_ids) {
            law_crafting_takes_and_gives(rows, character, parts, item, qty, ids, new_ids, item);
            law_crafting_takes_and_gives(rows, character, parts, item, qty, ids, new_ids, what);
            lemma_load(rows, character, parts, ids);
            assert(named_in(parts, item) == asked(parts, item));
            assert(named_in(parts, what) == asked(parts, what));
        }
    }
    if forall|x: Seq<char>| #[trigger] named_in(parts, x) <= carried(rows, character, x) {
        assert forall|i: int| 0 <= i < parts.len() implies carried(rows, character, (#[trigger] parts[i]).0) >= asked(
            parts,
            parts[i].0,
        ) by {
            assert(named_in(parts, parts[i].0) == asked(parts, parts[i].0));
        }
    }
}

proof fn lemma_load(rows: Seq<InventoryItemView>, character: Seq<char>, parts: Seq<(Seq<char>, int)>, ids: Seq<Seq<char>>)
    requires
        packed(rows),
        forall|x: Seq<char>| #[trigger] asked(parts, x) <= carried(rows, character, x),
    ensures
        carried_total(spent(rows, character, parts, ids), character) == carried_total(rows, character) - bulk_of(
            parts,
        ),
    decreases parts.len(),
{
    if parts.len() > 0 {
        let head = parts.drop_last();
        let item = parts.last().0;
        assert forall|x: Seq<char>| #[trigger] asked(head, x) <= carried(rows, character, x) by {
            assert(asked(parts, x) == asked(head, x) + asked_qty(x)(parts.last()));
            assert(asked(parts, x) <= carried(rows, character, x));
        }
        lemma_load(rows, character, head, ids.drop_last());
        lemma_spent_exactly(rows, character, head, ids.drop_last(), item);
        lemma_spent(rows, character, head, ids.drop_last(), character, item);
        let before = spent(rows, character, head, ids.drop_last());
        lemma_dropped(before, character, item, parts.last().1, ids.last(), character, item);
        lemma_carried_bound(before, character, item);
        assert(asked(parts, item) == asked(head, item) + asked_qty(item)(parts.last()));
        assert(asked(parts, item) <= carried(rows, character, item));
    }
}

/// Whoever carries a thing may wear it if it is a tool or a weapon, each in its own slot; nobody may wear what another
/// carries, or what nobody does.
pub proof fn law_what_can_be_worn(s: DbView, character: Seq<char>, instance: Seq<char>, i: int)
    requires
        0 <= i < s.inventory.len(),
        forall|j: int, k: int|
            0 <= j < k < s.inventory.len() ==> (#[trigger] s.inventory[j]).id != (#[trigger] s.inventory[k]).id,
    ensures
        s.inventory[i].id == instance ==> {
            let item = s.inventory[i].item_id;
            &&& wearable(s, character, instance) <==> s.inventory[i].character_id == character && (item == "pickaxe"@ || item
                == "axe"@ || item == "sword"@)
            &&& item == "pickaxe"@ || item == "axe"@ ==> slot_of(item) == Some("tool"@)
            &&& item == "sword"@ ==> slot_of(item) == Some("weapon"@)
        },
        (forall|j: int| 0 <= j < s.inventory.len() ==> (#[trigger] s.inventory[j]).id != instance) ==> !wearable(
            s,
            character,
            instance,
        ),
{
    reveal_strlit("pickaxe");
    reveal_strlit("axe");
    reveal_strlit("sword");
    assert("pickaxe"@.len() == 7 && "axe"@.len() == 3 && "sword"@.len() == 5);
    let p = is_instance(instance);
    lemma_find(s.inventory, p);
    if s.inventory[i].id == instance {
        lemma_find_is(s.inventory, p, i);
    }
}

/// Use wears a tool down by exactly the loss, to 0 at the least. A tool with nothing left is broken and leaves its slot, and
/// one with something left stays there. No other thing wears, and nothing else leaves a slot.
pub proof fn law_use_wears_a_tool_down(
    s: DbView,
    character: Seq<char>,
    slot: Seq<char>,
    k: int,
    loss: int,
    i: int,
    who: Seq<char>,
    other: Seq<char>,
)
    requires
        worn_instance(s, character, slot) == Some(k),
        s.inventory[k].durability is Some,
        0 <= i < s.inventory.len(),
    ensures
        ({
            let t = worn_down(s, character, slot, k, loss);
            let was = s.inventory[k].durability->0;
            let left = t.inventory[k].durability->0;
            let e = find(t.equipment, is_worn(who, other));
            let b = find(s.equipment, is_worn(who, other));
            &&& t.inventory.len() == s.inventory.len()
            &&& i != k ==> t.inventory[i] == s.inventory[i]
            &&& t.inventory[k].durability is Some
            &&& was > loss ==> left == was - loss
            &&& was <= loss ==> left == 0
            &&& left > 0 ==> t.equipment == s.equipment
            &&& left == 0 && who == character && other == slot ==> e == t.equipment.len()
            &&& who != character || other != slot ==> {
                &&& (e < t.equipment.len()) == (b < s.equipment.len())
                &&& b < s.equipment.len() ==> t.equipment[e] == s.equipment[b]
            }
        }),
{
    let e = find(s.equipment, is_worn(character, slot));
    lemma_find(s.equipment, is_worn(character, slot));
    lemma_find(s.inventory, is_instance(s.equipment[e].instance_id));
    law_taking_off_empties_one_slot(s.equipment, character, slot, who, other);
}

/// Taking off what is worn in a slot leaves that slot empty and every other as it was.
pub proof fn law_taking_off_empties_one_slot(
    rows: Seq<EquipmentView>,
    character: Seq<char>,
    slot: Seq<char>,
    who: Seq<char>,
    other: Seq<char>,
)
    ensures
        ({
            let t = rows.filter(not(is_worn(character, slot)));
            let e = find(t, is_worn(who, other));
            let b = find(rows, is_worn(who, other));
            &&& who == character && other == slot ==> e == t.len()
            &&& who != character || other != slot ==> {
                &&& (e < t.len()) == (b < rows.len())
                &&& b < rows.len() ==> t[e] == rows[b]
            }
        }),
    decreases rows.len(),
{
    let p = is_worn(who, other);
    let q = not(is_worn(character, slot));
    let t = rows.filter(q);
    reveal(Seq::filter);
    lemma_find(rows, p);
    lemma_find(t, p);
    if rows.len() > 0 {
        let head = rows.drop_last();
        let u = head.filter(q);
        law_taking_off_empties_one_slot(head, character, slot, who, other);
        lemma_find(head, p);
        lemma_find(u, p);
        lemma_find_in_prefix(rows, p);
        if q(rows.last()) {
            assert(t.drop_last() =~= u);
            lemma_find_in_prefix(t, p);
        }
    }
}

/// Where the first match stands, as the last row is added.
proof fn lemma_find_in_prefix<A>(s: Seq<A>, p: spec_fn(A) -> bool)
    requires
        s.len() > 0,
    ensures
        ({
            let head = s.drop_last();
            let k = find(head, p);
            find(s, p) == if k < head.len() {
                k
            } else if p(s.last()) {
                s.len() - 1
            } else {
                s.len() as int
            }
        }),
{
    let head = s.drop_last();
    let k = find(head, p);
    lemma_find(head, p);
    let m = if k < head.len() {
        k
    } else if p(s.last()) {
        s.len() - 1
    } else {
        s.len() as int
    };
    assert forall|i: int| 0 <= i < m implies !p(#[trigger] s[i]) by {
        if i < head.len() {
            assert(s[i] == head[i]);
        }
    }
    lemma_find_is(s, p, m);
}

/// What mending costs: of each part that the tool is made of, its share of the wear in whole units, and at least 1. A tool
/// that misses nothing, or that no recipe makes, is not mended.
pub proof fn law_mending_costs_its_share(item: Seq<char>, missing: int, max: int, i: int)
    ensures
        ({
            let k = find(recipe_registry(), makes_item(item));
            let parts = recipe_registry()[k].inputs;
            let price = repair_price(item, missing, max);
            let worn = if missing <= max {
                missing
            } else {
                max
            };
            &&& price is Some <==> missing > 0 && max > 0 && k < recipe_registry().len()
            &&& price is Some ==> price->0.len() == parts.len()
            &&& price is Some && 0 <= i < parts.len() ==> {
                let n = price->0[i].1;
                &&& price->0[i].0 == parts[i].0
                &&& n >= 1
                &&& parts[i].1 * worn >= max ==> n * max <= parts[i].1 * worn < (n + 1) * max
                &&& parts[i].1 * worn < max ==> n == 1
            }
        }),
{
    let k = find(recipe_registry(), makes_item(item));
    let parts = recipe_registry()[k].inputs;
    let worn = if missing <= max {
        missing
    } else {
        max
    };
    if missing > 0 && max > 0 && k < recipe_registry().len() && 0 <= i < parts.len() {
        let a = parts[i].1 * worn;
        let n = a / max;
        assert(n * max <= a < (n + 1) * max) by (nonlinear_arith)
            requires
                n == a / max,
                max > 0,
        ;
        if a < max && n >= 1 {
            assert(n * max >= max) by (nonlinear_arith)
                requires
                    n >= 1,
                    max > 0,
            ;
        }
        if a >= max && n < 1 {
            assert((n + 1) * max <= max) by (nonlinear_arith)
                requires
                    n < 1,
                    max > 0,
            ;
        }
    }
}

/// When a tool is mended: it is carried by whoever mends it, it is worn, and each part of the price is carried.
pub proof fn law_when_a_tool_is_mended(s: DbView, character: Seq<char>, instance: Seq<char>)
    ensures
        ({
            let k = find(s.inventory, is_instance(instance));
            let i = s.inventory[k];
            let tool = i.item_id == "pickaxe"@ || i.item_id == "axe"@ || i.item_id == "sword"@;
            let missing = 30 - i.durability->0;
            let price = repair_price(i.item_id, missing, 30);
            mendable(s, character, instance) <==> {
                &&& k < s.inventory.len() && i.character_id == character && tool
                &&& price is Some
                &&& forall|j: int|
                    0 <= j < price->0.len() ==> carried(s.inventory, character, (#[trigger] price->0[j]).0) >= price->0[j].1
            }
        }),
{
}

/// Mending takes exactly its price out of what its owner carries, and nothing else of anyone's.
pub proof fn law_mending_takes_its_price(
    s: DbView,
    character: Seq<char>,
    instance: Seq<char>,
    ids: Seq<Seq<char>>,
    what: Seq<char>,
)
    requires
        packed(s.inventory),
        mendable(s, character, instance),
        distinct_names(mending_price(s, character, instance)->0),
    ensures
        carried(mended(s, character, instance, ids).inventory, character, what) == carried(s.inventory, character, what) - named_in(
            mending_price(s, character, instance)->0,
            what,
        ),
{
    let price = mending_price(s, character, instance)->0;
    let left = spent(s.inventory, character, price, ids);
    let t = mended(s, character, instance, ids);
    let k = find(left, is_instance(instance));
    let f = qty_if(is_carried(character, what), carried_qty());
    let g = |p: (Seq<char>, int)|
        if p.0 == what && p.1 > 0 {
            p.1
        } else {
            0
        };
    lemma_affordable(s.inventory, character, price);
    lemma_covers_all(s.inventory, character, price);
    lemma_spent_exactly(s.inventory, character, price, ids, what);
    lemma_sum_same(price, g, asked_qty(what));
    lemma_find(left, is_instance(instance));
    if k < left.len() {
        lemma_sum_update(left, f, k, t.inventory[k]);
    }
}

} // verus!
