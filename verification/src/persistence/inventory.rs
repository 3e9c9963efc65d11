//! What characters carry, and what they keep in storage.

use vstd::prelude::*;

use crate::persistence::ids::new_id;
use crate::persistence::rows::{InventoryItem, InventoryItemView};
use crate::table::{
    find, least, lemma_filter_all, lemma_find, lemma_least, lemma_sum_add, lemma_sum_le, lemma_sum_nonneg,
    lemma_sum_push, lemma_sum_remove, lemma_sum_same, lemma_sum_split, lemma_sum_update, not, qty_if, sum,
    Table,
};
use crate::text::{before, same, text_before};
use crate::world::tools::{is_tool, tool_durability, tool_max_durability};

verus! {

/// The most that a character may carry, over all items. Storage does not count toward it.
pub const MAX_CARRY: i64 = 50;

/// Whether a row is carried by this character.
pub open spec fn is_carried_by(character: Seq<char>) -> spec_fn(InventoryItemView) -> bool {
    |r: InventoryItemView| r.character_id == character
}

/// Whether a row is of this item, carried by this character.
pub open spec fn is_carried(character: Seq<char>, item: Seq<char>) -> spec_fn(InventoryItemView) -> bool {
    |r: InventoryItemView| r.character_id == character && r.item_id == item
}

pub open spec fn carried_qty() -> spec_fn(InventoryItemView) -> int {
    |r: InventoryItemView| r.qty
}

/// How many of an item a character carries.
pub open spec fn carried(rows: Seq<InventoryItemView>, character: Seq<char>, item: Seq<char>) -> int {
    sum(rows, qty_if(is_carried(character, item), carried_qty()))
}

/// How much a character carries in all.
pub open spec fn carried_total(rows: Seq<InventoryItemView>, character: Seq<char>) -> int {
    sum(rows, qty_if(is_carried_by(character), carried_qty()))
}

/// No row is negative, a tool is one of its own with its own wear, and all that is carried can be
/// counted.
pub open spec fn packed(rows: Seq<InventoryItemView>) -> bool {
    &&& forall|i: int|
        0 <= i < rows.len() ==> {
            &&& (#[trigger] rows[i]).qty >= 0
            &&& is_tool(rows[i].item_id) ==> rows[i].qty == 1 && rows[i].durability is Some
            &&& !is_tool(rows[i].item_id) ==> rows[i].durability is None
        }
    &&& sum(rows, carried_qty()) <= i64::MAX
}

/// A fresh stack.
pub open spec fn stack(character: Seq<char>, item: Seq<char>, qty: int, id: Seq<char>) -> InventoryItemView {
    InventoryItemView { id, character_id: character, item_id: item, qty, slot: None, durability: None }
}

/// A fresh tool.
pub open spec fn fresh_tool(character: Seq<char>, item: Seq<char>, id: Seq<char>) -> InventoryItemView {
    InventoryItemView {
        id,
        character_id: character,
        item_id: item,
        qty: 1,
        slot: None,
        durability: tool_durability(item),
    }
}

/// Fresh tools, one for each id.
pub open spec fn fresh_tools(character: Seq<char>, item: Seq<char>, ids: Seq<Seq<char>>) -> Seq<InventoryItemView> {
    Seq::new(ids.len(), |i: int| fresh_tool(character, item, ids[i]))
}

/// Carried rows are taken in the order of their ids.
pub open spec fn carried_order() -> spec_fn(InventoryItemView, InventoryItemView) -> bool {
    |a: InventoryItemView, b: InventoryItemView| text_before(a.id, b.id)
}

/// The row of an item that a character carries that comes first.
pub open spec fn next_carried(rows: Seq<InventoryItemView>, character: Seq<char>, item: Seq<char>) -> int {
    least(rows, is_carried(character, item), carried_order())
}

/// The rows after `qty` of an item is added to what a character carries: onto the stack if there is
/// one, else as a new stack. Tools do not stack: each is a row of its own. `ids` are the ids of the
/// new rows, one for each tool.
pub open spec fn picked_up(
    rows: Seq<InventoryItemView>,
    character: Seq<char>,
    item: Seq<char>,
    qty: int,
    ids: Seq<Seq<char>>,
) -> Seq<InventoryItemView> {
    let k = next_carried(rows, character, item);
    if is_tool(item) {
        rows + fresh_tools(character, item, ids)
    } else if k < rows.len() {
        rows.update(k, InventoryItemView { qty: rows[k].qty + qty, ..rows[k] })
    } else {
        rows.push(stack(character, item, qty, ids[0]))
    }
}

/// How many ids [`picked_up`] needs.
pub open spec fn ids_for(item: Seq<char>, qty: int, ids: Seq<Seq<char>>) -> bool {
    if is_tool(item) {
        ids.len() == if qty > 0 {
            qty
        } else {
            0
        }
    } else {
        ids.len() == 1
    }
}

/// The rows without the first `n` that satisfy a predicate.
pub open spec fn without_first<A>(rows: Seq<A>, p: spec_fn(A) -> bool, n: int) -> Seq<A>
    decreases n,
{
    let k = find(rows, p);
    if n <= 0 || k >= rows.len() {
        rows
    } else {
        without_first(rows.remove(k), p, n - 1)
    }
}

/// How many rows [`without_first`] takes away.
pub open spec fn first_count<A>(rows: Seq<A>, p: spec_fn(A) -> bool, n: int) -> int
    decreases n,
{
    let k = find(rows, p);
    if n <= 0 || k >= rows.len() {
        0
    } else {
        1 + first_count(rows.remove(k), p, n - 1)
    }
}

pub open spec fn clamp_take(qty: int, held: int) -> int {
    if qty <= 0 || held <= 0 {
        0
    } else if qty <= held {
        qty
    } else {
        held
    }
}

/// How much of an item can be taken from what a character carries, up to `qty`.
pub open spec fn drop_qty(rows: Seq<InventoryItemView>, character: Seq<char>, item: Seq<char>, qty: int) -> int {
    if is_tool(item) {
        first_count(rows, is_carried(character, item), qty)
    } else {
        clamp_take(qty, carried(rows, character, item))
    }
}

/// The rows after up to `qty` of an item is taken from what a character carries. Tools go oldest
/// first; what is left of a stack goes under `id`.
pub open spec fn dropped(
    rows: Seq<InventoryItemView>,
    character: Seq<char>,
    item: Seq<char>,
    qty: int,
    id: Seq<char>,
) -> Seq<InventoryItemView> {
    let held = carried(rows, character, item);
    let take = clamp_take(qty, held);
    let rest = rows.filter(not(is_carried(character, item)));
    if is_tool(item) {
        without_first(rows, is_carried(character, item), qty)
    } else if take <= 0 {
        rows
    } else if held - take > 0 {
        rest.push(stack(character, item, held - take, id))
    } else {
        rest
    }
}

/// Picking up adds to what one character carries of one item, and to nothing else.
pub proof fn lemma_picked_up(
    rows: Seq<InventoryItemView>,
    character: Seq<char>,
    item: Seq<char>,
    qty: int,
    ids: Seq<Seq<char>>,
    who: Seq<char>,
    what: Seq<char>,
)
    requires
        packed(rows),
        qty >= 0,
        ids_for(item, qty, ids),
        sum(rows, carried_qty()) + qty <= i64::MAX,
    ensures
        packed(picked_up(rows, character, item, qty, ids)),
        carried(picked_up(rows, character, item, qty, ids), who, what) == carried(rows, who, what) + if who
            == character && what == item {
            qty
        } else {
            0
        },
        carried_total(picked_up(rows, character, item, qty, ids), who) == carried_total(rows, who) + if who
            == character {
            qty
        } else {
            0
        },
        sum(picked_up(rows, character, item, qty, ids), carried_qty()) == sum(rows, carried_qty()) + qty,
{
    let f = qty_if(is_carried(who, what), carried_qty());
    let g = qty_if(is_carried_by(who), carried_qty());
    let k = next_carried(rows, character, item);
    lemma_least(rows, is_carried(character, item), carried_order());
    if is_tool(item) {
        let more = fresh_tools(character, item, ids);
        lemma_sum_add(rows, more, f);
        lemma_sum_add(rows, more, g);
        lemma_sum_add(rows, more, carried_qty());
        lemma_sum_constant(
            more,
            f,
            if who == character && what == item {
                1
            } else {
                0
            },
        );
        lemma_sum_constant(
            more,
            g,
            if who == character {
                1
            } else {
                0
            },
        );
        lemma_sum_constant(more, carried_qty(), 1);
    } else if k < rows.len() {
        let row = InventoryItemView { qty: rows[k].qty + qty, ..rows[k] };
        lemma_sum_update(rows, f, k, row);
        lemma_sum_update(rows, g, k, row);
        lemma_sum_update(rows, carried_qty(), k, row);
    } else {
        let row = stack(character, item, qty, ids[0]);
        lemma_sum_push(rows, f, row);
        lemma_sum_push(rows, g, row);
        lemma_sum_push(rows, carried_qty(), row);
    }
}

/// The sum of a number that is the same on every row.
pub proof fn lemma_sum_constant<A>(s: Seq<A>, f: spec_fn(A) -> int, n: int)
    requires
        forall|i: int| 0 <= i < s.len() ==> f(#[trigger] s[i]) == n,
    ensures
        sum(s, f) == s.len() * n,
    decreases s.len(),
{
    if s.len() > 0 {
        assert forall|i: int| 0 <= i < s.drop_last().len() implies f(#[trigger] s.drop_last()[i]) == n by {
            assert(s.drop_last()[i] == s[i]);
        }
        lemma_sum_constant(s.drop_last(), f, n);
        assert(f(s[s.len() - 1]) == n);
        assert(s.len() * n == (s.len() - 1) * n + n) by (nonlinear_arith);
    } else {
        assert(0 * n == 0) by (nonlinear_arith);
    }
}

/// Dropping takes from what one character carries of one item, and from nothing else; and it takes
/// what is asked for as far as there is any.
pub proof fn lemma_dropped(
    rows: Seq<InventoryItemView>,
    character: Seq<char>,
    item: Seq<char>,
    qty: int,
    id: Seq<char>,
    who: Seq<char>,
    what: Seq<char>,
)
    requires
        packed(rows),
    ensures
        packed(dropped(rows, character, item, qty, id)),
        drop_qty(rows, character, item, qty) == clamp_take(qty, carried(rows, character, item)),
        carried(dropped(rows, character, item, qty, id), who, what) == carried(rows, who, what) - if who == character
            && what == item {
            drop_qty(rows, character, item, qty)
        } else {
            0
        },
        carried_total(dropped(rows, character, item, qty, id), who) == carried_total(rows, who) - if who
            == character {
            drop_qty(rows, character, item, qty)
        } else {
            0
        },
        sum(dropped(rows, character, item, qty, id), carried_qty()) == sum(rows, carried_qty()) - drop_qty(
            rows,
            character,
            item,
            qty,
        ),
        carried(rows, who, what) >= 0,
{
    let p = is_carried(character, item);
    let f = qty_if(is_carried(who, what), carried_qty());
    let g = qty_if(is_carried_by(who), carried_qty());
    lemma_carried_bound(rows, who, what);
    lemma_carried_bound(rows, character, item);
    if is_tool(item) {
        lemma_without_first(rows, character, item, qty, who, what);
    } else {
        let held = carried(rows, character, item);
        let take = clamp_take(qty, held);
        let rest = rows.filter(not(p));
        lemma_sum_split(rows, p, f);
        lemma_sum_split(rows, p, g);
        lemma_sum_split(rows, p, carried_qty());
        assert(sum(rows, qty_if(p, f)) == if who == character && what == item {
            held
        } else {
            0
        }) by {
            if who == character && what == item {
                lemma_sum_same(rows, qty_if(p, f), qty_if(p, carried_qty()));
            } else {
                lemma_sum_constant(rows, qty_if(p, f), 0);
                assert(rows.len() * 0 == 0) by (nonlinear_arith);
            }
        }
        assert(sum(rows, qty_if(p, g)) == if who == character {
            held
        } else {
            0
        }) by {
            if who == character {
                lemma_sum_same(rows, qty_if(p, g), qty_if(p, carried_qty()));
            } else {
                lemma_sum_constant(rows, qty_if(p, g), 0);
                assert(rows.len() * 0 == 0) by (nonlinear_arith);
            }
        }
        if take > 0 {
            lemma_filter_all(rows, not(p));
            assert forall|i: int| 0 <= i < rest.len() implies {
                &&& (#[trigger] rest[i]).qty >= 0
                &&& is_tool(rest[i].item_id) ==> rest[i].qty == 1 && rest[i].durability is Some
                &&& !is_tool(rest[i].item_id) ==> rest[i].durability is None
            } by {
                assert(rows.contains(rest[i]));
                let j = choose|j: int| 0 <= j < rows.len() && rows[j] == rest[i];
                assert(rows[j].qty >= 0);
            }
            let row = stack(character, item, held - take, id);
            lemma_sum_push(rest, f, row);
            lemma_sum_push(rest, g, row);
            lemma_sum_push(rest, carried_qty(), row);
        }
    }
}

/// What a character carries of an item is not negative, and part of what is carried in all.
pub proof fn lemma_carried_bound(rows: Seq<InventoryItemView>, who: Seq<char>, what: Seq<char>)
    requires
        packed(rows),
    ensures
        0 <= carried(rows, who, what) <= carried_total(rows, who) <= sum(rows, carried_qty()) <= i64::MAX,
{
    let f = qty_if(is_carried(who, what), carried_qty());
    let g = qty_if(is_carried_by(who), carried_qty());
    assert forall|i: int| 0 <= i < rows.len() implies {
        &&& f(#[trigger] rows[i]) >= 0
        &&& f(rows[i]) <= g(rows[i])
        &&& g(rows[i]) <= carried_qty()(rows[i])
    } by {
        assert(rows[i].qty >= 0);
    }
    lemma_sum_nonneg(rows, f);
    lemma_sum_le(rows, f, g);
    lemma_sum_le(rows, g, carried_qty());
}

/// Taking tools away takes one for each row.
proof fn lemma_without_first(
    rows: Seq<InventoryItemView>,
    character: Seq<char>,
    item: Seq<char>,
    n: int,
    who: Seq<char>,
    what: Seq<char>,
)
    requires
        packed(rows),
        is_tool(item),
    ensures
        ({
            let p = is_carried(character, item);
            let after = without_first(rows, p, n);
            let taken = first_count(rows, p, n);
            &&& packed(after)
            &&& taken == clamp_take(n, carried(rows, character, item))
            &&& carried(after, who, what) == carried(rows, who, what) - if who == character && what == item {
                taken
            } else {
                0
            }
            &&& carried_total(after, who) == carried_total(rows, who) - if who == character {
                taken
            } else {
                0
            }
            &&& sum(after, carried_qty()) == sum(rows, carried_qty()) - taken
        }),
    decreases
        if n > 0 {
            n
        } else {
            0
        },
{
    let p = is_carried(character, item);
    let k = find(rows, p);
    lemma_find(rows, p);
    lemma_carried_bound(rows, character, item);
    if n <= 0 {
    } else if k >= rows.len() {
        assert forall|i: int| 0 <= i < rows.len() implies qty_if(p, carried_qty())(#[trigger] rows[i]) == 0 by {
            assert(!p(rows[i]));
        }
        lemma_sum_constant(rows, qty_if(p, carried_qty()), 0);
        assert(rows.len() * 0 == 0) by (nonlinear_arith);
    } else {
        let next = rows.remove(k);
        assert(rows[k].qty == 1);
        lemma_sum_remove(rows, qty_if(is_carried(who, what), carried_qty()), k);
        lemma_sum_remove(rows, qty_if(is_carried_by(who), carried_qty()), k);
        lemma_sum_remove(rows, qty_if(p, carried_qty()), k);
        lemma_sum_remove(rows, carried_qty(), k);
        assert forall|i: int| 0 <= i < next.len() implies {
            &&& (#[trigger] next[i]).qty >= 0
            &&& is_tool(next[i].item_id) ==> next[i].qty == 1 && next[i].durability is Some
            &&& !is_tool(next[i].item_id) ==> next[i].durability is None
        } by {
            let j = if i < k {
                i
            } else {
                i + 1
            };
            assert(next[i] == rows[j]);
            assert(rows[j].qty >= 0);
        }
        lemma_carried_bound(next, character, item);
        lemma_without_first(next, character, item, n - 1, who, what);
    }
}

/// Whether a row is of this item, carried by this character.
fn carries_item(r: &InventoryItem, character_id: &str, item_id: &str) -> (b: bool)
    ensures
        b == is_carried(character_id@, item_id@)(r@),
{
    same(r.character_id.as_str(), character_id) && same(r.item_id.as_str(), item_id)
}

/// The row of an item that a character carries that comes first, or the number of rows.
pub fn carried_to_take(rows: &Table<InventoryItem>, character_id: &str, item_id: &str) -> (k: usize)
    ensures
        k == next_carried(rows@, character_id@, item_id@),
        k <= rows@.len(),
        k < rows@.len() ==> is_carried(character_id@, item_id@)(rows@[k as int]),
{
    let f = |r: &InventoryItem| -> (b: bool)
        ensures
            b == is_carried(character_id@, item_id@)(r@),
        { carries_item(r, character_id, item_id) };
    let g = |a: &InventoryItem, b: &InventoryItem| -> (r: bool)
        ensures
            r == carried_order()(a@, b@),
        { before(a.id.as_str(), b.id.as_str()) };
    rows.least(f, g, Ghost(is_carried(character_id@, item_id@)), Ghost(carried_order()))
}

/// How many of an item a character carries.
pub fn inventory_qty_in_tx(rows: &Table<InventoryItem>, character_id: &str, item_id: &str) -> (n: i64)
    requires
        packed(rows@),
    ensures
        n == carried(rows@, character_id@, item_id@),
        n >= 0,
{
    proof {
        lemma_carried_bound(rows@, character_id@, item_id@);
    }
    let f = |r: &InventoryItem| -> (n: i64)
        ensures
            n == qty_if(is_carried(character_id@, item_id@), carried_qty())(r@),
        {
            if carries_item(r, character_id, item_id) {
                r.qty
            } else {
                0
            }
        };
    rows.sum(f, Ghost(qty_if(is_carried(character_id@, item_id@), carried_qty())))
}

/// Add `qty` of an item to what a character carries. A tool is not stacked: each becomes a row of
/// its own, unworn.
pub fn add_inventory_in_tx(
    rows: &mut Table<InventoryItem>,
    character_id: &str,
    item_id: &str,
    qty: i64,
) -> (ids: Ghost<Seq<Seq<char>>>)
    requires
        packed(old(rows)@),
        qty >= 0,
        sum(old(rows)@, carried_qty()) + qty <= i64::MAX,
    ensures
        ids_for(item_id@, qty as int, ids@),
        final(rows)@ == picked_up(old(rows)@, character_id@, item_id@, qty as int, ids@),
        packed(final(rows)@),
{
    let ghost start = rows@;
    let ghost mut ids = Seq::<Seq<char>>::empty();
    let max = tool_max_durability(item_id);
    match max {
        Some(durability) => {
            let mut i: i64 = 0;
            proof {
                assert(start + fresh_tools(character_id@, item_id@, ids) =~= start);
            }
            while i < qty
                invariant
                    0 <= i <= qty,
                    is_tool(item_id@),
                    tool_durability(item_id@) == Some(durability as int),
                    ids.len() == i,
                    rows@ == start + fresh_tools(character_id@, item_id@, ids),
                decreases qty - i,
            {
                let id = new_id();
                let ghost was = ids;
                proof {
                    ids = ids.push(id@);
                }
                rows.push(
                    InventoryItem {
                        id,
                        character_id: character_id.to_string(),
                        item_id: item_id.to_string(),
                        qty: 1,
                        slot: None,
                        durability: Some(durability),
                    },
                );
                proof {
                    assert(fresh_tools(character_id@, item_id@, ids) =~= fresh_tools(character_id@, item_id@, was).push(
                        fresh_tool(character_id@, item_id@, id@),
                    ));
                    assert(rows@ =~= start + fresh_tools(character_id@, item_id@, ids));
                }
                i = i + 1;
            }
        },
        None => {
            let k: usize = carried_to_take(rows, character_id, item_id);
            let id = new_id();
            proof {
                ids = ids.push(id@);
            }
            if k < rows.len() {
                proof {
                    lemma_sum_nonneg(rows@, carried_qty());
                    assert(carried_qty()(rows@[k as int]) == rows@[k as int].qty);
                }
                let r = rows.get_mut(k);
                r.qty = r.qty + qty;
            } else {
                rows.push(
                    InventoryItem {
                        id,
                        character_id: character_id.to_string(),
                        item_id: item_id.to_string(),
                        qty,
                        slot: None,
                        durability: None,
                    },
                );
            }
        },
    }
    proof {
        lemma_picked_up(start, character_id@, item_id@, qty as int, ids, character_id@, item_id@);
    }
    Ghost(ids)
}

/// Take up to `qty` of an item from what a character carries. Returns how much was taken.
pub fn remove_inventory_in_tx(
    rows: &mut Table<InventoryItem>,
    character_id: &str,
    item_id: &str,
    qty: i64,
    id: String,
) -> (taken: i64)
    requires
        packed(old(rows)@),
    ensures
        final(rows)@ == dropped(old(rows)@, character_id@, item_id@, qty as int, id@),
        taken == drop_qty(old(rows)@, character_id@, item_id@, qty as int),
        taken == clamp_take(qty as int, carried(old(rows)@, character_id@, item_id@)),
        packed(final(rows)@),
{
    let ghost start = rows@;
    let ghost p = is_carried(character_id@, item_id@);
    proof {
        lemma_dropped(start, character_id@, item_id@, qty as int, id@, character_id@, item_id@);
    }
    if tool_max_durability(item_id).is_some() {
        let mut taken: i64 = 0;
        while taken < qty
            invariant_except_break
                0 <= taken,
                taken <= qty || taken == 0,
                p == is_carried(character_id@, item_id@),
                without_first(start, p, qty as int) == without_first(rows@, p, qty - taken),
                first_count(start, p, qty as int) == taken + first_count(rows@, p, qty - taken),
            ensures
                without_first(start, p, qty as int) == rows@,
                first_count(start, p, qty as int) == taken,
            decreases qty - taken,
        {
            let f = |r: &InventoryItem| -> (b: bool)
                ensures
                    b == is_carried(character_id@, item_id@)(r@),
                { carries_item(r, character_id, item_id) };
            let k: usize = rows.find(f, Ghost(is_carried(character_id@, item_id@)));
            if k >= rows.len() {
                break ;
            }
            let gone = rows.remove(k);
            taken = taken + 1;
        }
        return taken;
    }
    let held: i64 = inventory_qty_in_tx(rows, character_id, item_id);
    let take: i64 = if qty <= 0 || held <= 0 {
        0
    } else if qty <= held {
        qty
    } else {
        held
    };
    if take > 0 {
        let f = |r: &InventoryItem| -> (b: bool)
            ensures
                b == is_carried(character_id@, item_id@)(r@),
            { carries_item(r, character_id, item_id) };
        rows.delete_where(f, Ghost(is_carried(character_id@, item_id@)));
        if held - take > 0 {
            rows.push(
                InventoryItem {
                    id,
                    character_id: character_id.to_string(),
                    item_id: item_id.to_string(),
                    qty: held - take,
                    slot: None,
                    durability: None,
                },
            );
        }
    }
    take
}

} // verus!
