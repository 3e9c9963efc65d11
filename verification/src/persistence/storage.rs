//! The safe home stash, and moving goods between it and what a character carries.

use vstd::prelude::*;

use crate::persistence::db::{Db, DbView};
use crate::persistence::ids::new_id;
use crate::persistence::inventory::{
    add_inventory_in_tx, carried, carried_qty, carried_total, clamp_take, dropped, first_count, ids_for,
    inventory_qty_in_tx, is_carried, is_carried_by, lemma_carried_bound, lemma_dropped, lemma_picked_up,
    lemma_sum_constant, packed, picked_up, remove_inventory_in_tx, without_first, MAX_CARRY,
};
use crate::persistence::rows::{InventoryItem, InventoryItemView, StorageItem, StorageItemView};
use crate::table::{
    find, lemma_filter_all, lemma_find, lemma_sum_le, lemma_sum_nonneg, lemma_sum_push, lemma_sum_same,
    lemma_sum_split, lemma_sum_update, not, order_rows, ordered, qty_if, rows_view, sum, Row, Table,
};
use crate::text::{before, same, text_before};
use crate::world::tools::is_tool;

verus! {

pub open spec fn is_stored(character: Seq<char>, item: Seq<char>) -> spec_fn(StorageItemView) -> bool {
    |r: StorageItemView| r.character_id == character && r.item_id == item
}

pub open spec fn is_stored_by(character: Seq<char>) -> spec_fn(StorageItemView) -> bool {
    |r: StorageItemView| r.character_id == character
}

pub open spec fn stored_qty() -> spec_fn(StorageItemView) -> int {
    |r: StorageItemView| r.qty
}

/// How many of an item a character has in storage.
pub open spec fn stored(rows: Seq<StorageItemView>, character: Seq<char>, item: Seq<char>) -> int {
    sum(rows, qty_if(is_stored(character, item), stored_qty()))
}

/// No row is negative, and all that is stored can be counted.
pub open spec fn shelved(rows: Seq<StorageItemView>) -> bool {
    &&& forall|i: int| 0 <= i < rows.len() ==> (#[trigger] rows[i]).qty >= 0
    &&& sum(rows, stored_qty()) <= i64::MAX
}

/// The rows after goods are put into storage: onto the stack if there is one, else as a new stack.
pub open spec fn put_away(
    rows: Seq<StorageItemView>,
    character: Seq<char>,
    item: Seq<char>,
    qty: int,
    id: Seq<char>,
) -> Seq<StorageItemView> {
    let k = find(rows, is_stored(character, item));
    if k < rows.len() {
        rows.update(k, StorageItemView { qty: rows[k].qty + qty, ..rows[k] })
    } else {
        rows.push(StorageItemView { id, character_id: character, item_id: item, qty })
    }
}

/// The rows after up to `qty` is taken out of storage; what is left goes under `id`.
pub open spec fn taken_out(
    rows: Seq<StorageItemView>,
    character: Seq<char>,
    item: Seq<char>,
    qty: int,
    id: Seq<char>,
) -> Seq<StorageItemView> {
    let held = stored(rows, character, item);
    let take = clamp_take(qty, held);
    let rest = rows.filter(not(is_stored(character, item)));
    if take <= 0 {
        rows
    } else if held - take > 0 {
        rest.push(StorageItemView { id, character_id: character, item_id: item, qty: held - take })
    } else {
        rest
    }
}

/// Putting goods away adds to what one character stores of one item, and to nothing else.
pub proof fn lemma_put_away(
    rows: Seq<StorageItemView>,
    character: Seq<char>,
    item: Seq<char>,
    qty: int,
    id: Seq<char>,
    who: Seq<char>,
    what: Seq<char>,
)
    requires
        shelved(rows),
        qty >= 0,
        sum(rows, stored_qty()) + qty <= i64::MAX,
    ensures
        shelved(put_away(rows, character, item, qty, id)),
        stored(put_away(rows, character, item, qty, id), who, what) == stored(rows, who, what) + if who == character
            && what == item {
            qty
        } else {
            0
        },
        sum(put_away(rows, character, item, qty, id), stored_qty()) == sum(rows, stored_qty()) + qty,
{
    let f = qty_if(is_stored(who, what), stored_qty());
    let k = find(rows, is_stored(character, item));
    lemma_find(rows, is_stored(character, item));
    if k < rows.len() {
        let row = StorageItemView { qty: rows[k].qty + qty, ..rows[k] };
        lemma_sum_update(rows, f, k, row);
        lemma_sum_update(rows, stored_qty(), k, row);
    } else {
        let row = StorageItemView { id, character_id: character, item_id: item, qty };
        lemma_sum_push(rows, f, row);
        lemma_sum_push(rows, stored_qty(), row);
    }
}

/// What a character stores of an item is not negative, and part of all that is stored.
pub proof fn lemma_stored_bound(rows: Seq<StorageItemView>, who: Seq<char>, what: Seq<char>)
    requires
        shelved(rows),
    ensures
        0 <= stored(rows, who, what) <= sum(rows, stored_qty()) <= i64::MAX,
{
    let f = qty_if(is_stored(who, what), stored_qty());
    assert forall|i: int| 0 <= i < rows.len() implies f(#[trigger] rows[i]) >= 0 && f(rows[i]) <= stored_qty()(
        rows[i],
    ) by {
        assert(rows[i].qty >= 0);
    }
    lemma_sum_nonneg(rows, f);
    lemma_sum_le(rows, f, stored_qty());
}

/// Taking goods out takes from what one character stores of one item, and from nothing else.
pub proof fn lemma_taken_out(
    rows: Seq<StorageItemView>,
    character: Seq<char>,
    item: Seq<char>,
    qty: int,
    id: Seq<char>,
    who: Seq<char>,
    what: Seq<char>,
)
    requires
        shelved(rows),
    ensures
        shelved(taken_out(rows, character, item, qty, id)),
        stored(taken_out(rows, character, item, qty, id), who, what) == stored(rows, who, what) - if who
            == character && what == item {
            clamp_take(qty, stored(rows, character, item))
        } else {
            0
        },
        sum(taken_out(rows, character, item, qty, id), stored_qty()) == sum(rows, stored_qty()) - clamp_take(
            qty,
            stored(rows, character, item),
        ),
{
    let p = is_stored(character, item);
    let f = qty_if(is_stored(who, what), stored_qty());
    let held = stored(rows, character, item);
    let take = clamp_take(qty, held);
    let rest = rows.filter(not(p));
    lemma_stored_bound(rows, character, item);
    lemma_sum_split(rows, p, f);
    lemma_sum_split(rows, p, stored_qty());
    assert(sum(rows, qty_if(p, f)) == if who == character && what == item {
        held
    } else {
        0
    }) by {
        if who == character && what == item {
            lemma_sum_same(rows, qty_if(p, f), qty_if(p, stored_qty()));
        } else {
            lemma_sum_constant(rows, qty_if(p, f), 0);
            assert(rows.len() * 0 == 0) by (nonlinear_arith);
        }
    }
    if take > 0 {
        lemma_filter_all(rows, not(p));
        assert forall|i: int| 0 <= i < rest.len() implies (#[trigger] rest[i]).qty >= 0 by {
            assert(rows.contains(rest[i]));
            let j = choose|j: int| 0 <= j < rows.len() && rows[j] == rest[i];
            assert(rows[j].qty >= 0);
        }
        let row = StorageItemView { id, character_id: character, item_id: item, qty: held - take };
        lemma_sum_push(rest, f, row);
        lemma_sum_push(rest, stored_qty(), row);
    }
}

fn stores_item(r: &StorageItem, character_id: &str, item_id: &str) -> (b: bool)
    ensures
        b == is_stored(character_id@, item_id@)(r@),
{
    same(r.character_id.as_str(), character_id) && same(r.item_id.as_str(), item_id)
}

/// How many of an item a character has in storage.
pub fn storage_qty(rows: &Table<StorageItem>, character_id: &str, item_id: &str) -> (n: i64)
    requires
        shelved(rows@),
    ensures
        n == stored(rows@, character_id@, item_id@),
        n >= 0,
{
    proof {
        lemma_stored_bound(rows@, character_id@, item_id@);
    }
    let f = |r: &StorageItem| -> (n: i64)
        ensures
            n == qty_if(is_stored(character_id@, item_id@), stored_qty())(r@),
        {
            if stores_item(r, character_id, item_id) {
                r.qty
            } else {
                0
            }
        };
    rows.sum(f, Ghost(qty_if(is_stored(character_id@, item_id@), stored_qty())))
}

/// Put goods into storage.
pub fn add_storage_in_tx(rows: &mut Table<StorageItem>, character_id: &str, item_id: &str, qty: i64, id: String)
    requires
        shelved(old(rows)@),
        qty >= 0,
        sum(old(rows)@, stored_qty()) + qty <= i64::MAX,
    ensures
        final(rows)@ == put_away(old(rows)@, character_id@, item_id@, qty as int, id@),
        shelved(final(rows)@),
{
    proof {
        lemma_put_away(rows@, character_id@, item_id@, qty as int, id@, character_id@, item_id@);
    }
    let f = |r: &StorageItem| -> (b: bool)
        ensures
            b == is_stored(character_id@, item_id@)(r@),
        { stores_item(r, character_id, item_id) };
    let k: usize = rows.find(f, Ghost(is_stored(character_id@, item_id@)));
    if k < rows.len() {
        proof {
            lemma_sum_nonneg(rows@, stored_qty());
            assert(stored_qty()(rows@[k as int]) == rows@[k as int].qty);
        }
        let r = rows.get_mut(k);
        r.qty = r.qty + qty;
    } else {
        rows.push(
            StorageItem { id, character_id: character_id.to_string(), item_id: item_id.to_string(), qty },
        );
    }
}

/// Take up to `qty` out of storage. Returns how much was taken.
pub fn remove_storage_in_tx(
    rows: &mut Table<StorageItem>,
    character_id: &str,
    item_id: &str,
    qty: i64,
    id: String,
) -> (taken: i64)
    requires
        shelved(old(rows)@),
    ensures
        final(rows)@ == taken_out(old(rows)@, character_id@, item_id@, qty as int, id@),
        taken == clamp_take(qty as int, stored(old(rows)@, character_id@, item_id@)),
        shelved(final(rows)@),
{
    proof {
        lemma_taken_out(rows@, character_id@, item_id@, qty as int, id@, character_id@, item_id@);
    }
    let held: i64 = storage_qty(rows, character_id, item_id);
    let take: i64 = if qty <= 0 || held <= 0 {
        0
    } else if qty <= held {
        qty
    } else {
        held
    };
    if take > 0 {
        let f = |r: &StorageItem| -> (b: bool)
            ensures
                b == is_stored(character_id@, item_id@)(r@),
            { stores_item(r, character_id, item_id) };
        rows.delete_where(f, Ghost(is_stored(character_id@, item_id@)));
        if held - take > 0 {
            rows.push(
                StorageItem {
                    id,
                    character_id: character_id.to_string(),
                    item_id: item_id.to_string(),
                    qty: held - take,
                },
            );
        }
    }
    take
}

/// How much more a character may carry.
pub open spec fn carry_room(rows: Seq<InventoryItemView>, character: Seq<char>) -> int {
    if carried_total(rows, character) < MAX_CARRY {
        MAX_CARRY - carried_total(rows, character)
    } else {
        0
    }
}

/// How much of `qty` fits into what a character may still carry.
pub open spec fn fits(rows: Seq<InventoryItemView>, character: Seq<char>, qty: int) -> int {
    let room = carry_room(rows, character);
    if qty <= 0 {
        0
    } else if qty <= room {
        qty
    } else {
        room
    }
}

pub open spec fn item_before() -> spec_fn(InventoryItemView, InventoryItemView) -> bool {
    |a: InventoryItemView, b: InventoryItemView| text_before(a.item_id, b.item_id)
}

pub open spec fn stored_before() -> spec_fn(StorageItemView, StorageItemView) -> bool {
    |a: StorageItemView, b: StorageItemView| text_before(a.item_id, b.item_id)
}

impl Db {
    /// How much a character carries in all. Storage does not count.
    pub fn inventory_total(&self, character_id: &str) -> (n: i64)
        requires
            packed(self@.inventory),
        ensures
            n == carried_total(self@.inventory, character_id@),
            n >= 0,
    {
        proof {
            lemma_carried_bound(self@.inventory, character_id@, character_id@);
        }
        let f = |r: &InventoryItem| -> (n: i64)
            ensures
                n == qty_if(is_carried_by(character_id@), carried_qty())(r@),
            {
                if same(r.character_id.as_str(), character_id) {
                    r.qty
                } else {
                    0
                }
            };
        self.inventory.sum(f, Ghost(qty_if(is_carried_by(character_id@), carried_qty())))
    }

    /// How many of an item a character carries.
    pub fn inventory_qty(&self, character_id: &str, item_id: &str) -> (n: i64)
        requires
            packed(self@.inventory),
        ensures
            n == carried(self@.inventory, character_id@, item_id@),
    {
        inventory_qty_in_tx(&self.inventory, character_id, item_id)
    }

    /// How much more a character may carry.
    pub fn room_to_carry(&self, character_id: &str) -> (n: i64)
        requires
            packed(self@.inventory),
        ensures
            n == carry_room(self@.inventory, character_id@),
    {
        let total: i64 = self.inventory_total(character_id);
        if total < MAX_CARRY {
            MAX_CARRY - total
        } else {
            0
        }
    }

    /// Add up to `qty` of an item to what a character carries, as far as it fits. Returns how much
    /// was added.
    pub fn add_to_inventory(&mut self, character_id: &str, item_id: &str, qty: i64) -> (added: i64)
        requires
            packed(old(self)@.inventory),
            sum(old(self)@.inventory, carried_qty()) + MAX_CARRY <= i64::MAX,
        ensures
            added == fits(old(self)@.inventory, character_id@, qty as int),
            packed(final(self)@.inventory),
            added == 0 ==> final(self)@ == old(self)@,
            added > 0 ==> exists|ids: Seq<Seq<char>>|
                ids_for(item_id@, added as int, ids) && final(self)@ == (DbView {
                    inventory: #[trigger] picked_up(
                        old(self)@.inventory,
                        character_id@,
                        item_id@,
                        added as int,
                        ids,
                    ),
                    ..old(self)@
                }),
    {
        if qty <= 0 {
            return 0;
        }
        let room: i64 = self.room_to_carry(character_id);
        let add: i64 = if qty <= room {
            qty
        } else {
            room
        };
        proof {
            lemma_carried_bound(self@.inventory, character_id@, item_id@);
        }
        if add > 0 {
            let ids = add_inventory_in_tx(&mut self.inventory, character_id, item_id, add);
        }
        add
    }

    /// Take up to `qty` of an item from what a character carries. Returns how much was taken.
    pub fn remove_from_inventory(&mut self, character_id: &str, item_id: &str, qty: i64) -> (removed: i64)
        requires
            packed(old(self)@.inventory),
        ensures
            removed == clamp_take(qty as int, carried(old(self)@.inventory, character_id@, item_id@)),
            packed(final(self)@.inventory),
            exists|id: Seq<char>|
                final(self)@ == (DbView {
                    inventory: #[trigger] dropped(
                        old(self)@.inventory,
                        character_id@,
                        item_id@,
                        qty as int,
                        id,
                    ),
                    ..old(self)@
                }),
    {
        let id = new_id();
        remove_inventory_in_tx(&mut self.inventory, character_id, item_id, qty, id)
    }

    /// Move up to `qty` of an item from what a character carries into storage. Returns how much moved.
    pub fn deposit(&mut self, character_id: &str, item_id: &str, qty: i64) -> (moved: i64)
        requires
            packed(old(self)@.inventory),
            shelved(old(self)@.storage),
            sum(old(self)@.storage, stored_qty()) + sum(old(self)@.inventory, carried_qty()) <= i64::MAX,
        ensures
            moved == clamp_take(qty as int, carried(old(self)@.inventory, character_id@, item_id@)),
            packed(final(self)@.inventory),
            shelved(final(self)@.storage),
            exists|a: Seq<char>, b: Seq<char>|
                final(self)@ == #[trigger] deposited(old(self)@, character_id@, item_id@, moved as int, a, b),
    {
        let ghost s = self@;
        let a = new_id();
        let b = new_id();
        let ghost av = a@;
        let ghost bv = b@;
        proof {
            lemma_carried_bound(s.inventory, character_id@, item_id@);
        }
        let moved: i64 = remove_inventory_in_tx(&mut self.inventory, character_id, item_id, qty, a);
        if moved > 0 {
            add_storage_in_tx(&mut self.storage, character_id, item_id, moved, b);
        }
        proof {
            lemma_drop_again(s.inventory, character_id@, item_id@, qty as int, av);
            assert(self@ == deposited(s, character_id@, item_id@, moved as int, av, bv));
        }
        moved
    }

    /// Move up to `qty` of an item from storage into what a character carries, as far as it fits.
    /// Returns how much moved.
    pub fn withdraw(&mut self, character_id: &str, item_id: &str, qty: i64) -> (moved: i64)
        requires
            packed(old(self)@.inventory),
            shelved(old(self)@.storage),
            sum(old(self)@.inventory, carried_qty()) + MAX_CARRY <= i64::MAX,
        ensures
            moved == fits(
                old(self)@.inventory,
                character_id@,
                clamp_take(qty as int, stored(old(self)@.storage, character_id@, item_id@)),
            ),
            packed(final(self)@.inventory),
            shelved(final(self)@.storage),
            moved == 0 ==> final(self)@ == old(self)@,
            moved > 0 ==> exists|a: Seq<char>, ids: Seq<Seq<char>>|
                ids_for(item_id@, moved as int, ids) && final(self)@ == #[trigger] withdrawn(
                    old(self)@,
                    character_id@,
                    item_id@,
                    moved as int,
                    a,
                    ids,
                ),
    {
        if qty <= 0 {
            return 0;
        }
        let ghost s = self@;
        let held: i64 = storage_qty(&self.storage, character_id, item_id);
        let room: i64 = self.room_to_carry(character_id);
        let most: i64 = if qty <= held {
            qty
        } else {
            held
        };
        let moved: i64 = if most <= room {
            most
        } else {
            room
        };
        proof {
            lemma_carried_bound(s.inventory, character_id@, item_id@);
        }
        if moved > 0 {
            let a = new_id();
            let ghost av = a@;
            remove_storage_in_tx(&mut self.storage, character_id, item_id, moved, a);
            let ids = add_inventory_in_tx(&mut self.inventory, character_id, item_id, moved);
            assert(self@ == withdrawn(s, character_id@, item_id@, moved as int, av, ids@));
        }
        moved
    }

    /// Put goods straight into a character's storage and return the stack they went to.
    pub fn deposit_to_storage(&mut self, character_id: &str, item_id: &str, qty: i64) -> (row: StorageItem)
        requires
            shelved(old(self)@.storage),
            qty >= 0,
            sum(old(self)@.storage, stored_qty()) + qty <= i64::MAX,
        ensures
            shelved(final(self)@.storage),
            exists|id: Seq<char>|
                final(self)@ == (DbView {
                    storage: #[trigger] put_away(
                        old(self)@.storage,
                        character_id@,
                        item_id@,
                        qty as int,
                        id,
                    ),
                    ..old(self)@
                }),
            ({
                let k = find(old(self)@.storage, is_stored(character_id@, item_id@));
                k < final(self)@.storage.len() && row@ == final(self)@.storage[k]
            }),
    {
        let f = |r: &StorageItem| -> (b: bool)
            ensures
                b == is_stored(character_id@, item_id@)(r@),
            { stores_item(r, character_id, item_id) };
        let k: usize = self.storage.find(f, Ghost(is_stored(character_id@, item_id@)));
        let id = new_id();
        add_storage_in_tx(&mut self.storage, character_id, item_id, qty, id);
        self.storage.get(k).copy()
    }

    /// Give a character goods straight into storage, which the carry limit does not bound.
    pub fn grant_storage(&mut self, character_id: &str, item_id: &str, qty: i64)
        requires
            shelved(old(self)@.storage),
            qty >= 0,
            sum(old(self)@.storage, stored_qty()) + qty <= i64::MAX,
        ensures
            shelved(final(self)@.storage),
            exists|id: Seq<char>|
                final(self)@ == (DbView {
                    storage: #[trigger] put_away(
                        old(self)@.storage,
                        character_id@,
                        item_id@,
                        qty as int,
                        id,
                    ),
                    ..old(self)@
                }),
    {
        let id = new_id();
        add_storage_in_tx(&mut self.storage, character_id, item_id, qty, id);
    }

    /// What a character carries, by item.
    pub fn inventory_for_character(&self, character_id: &str) -> (out: Vec<InventoryItem>)
        ensures
            rows_view(out@) == ordered(self@.inventory.filter(is_carried_by(character_id@)), item_before()),
    {
        let f = |r: &InventoryItem| -> (b: bool)
            ensures
                b == is_carried_by(character_id@)(r@),
            { same(r.character_id.as_str(), character_id) };
        let rows = self.inventory.select(f, Ghost(is_carried_by(character_id@)));
        let g = |a: &InventoryItem, b: &InventoryItem| -> (r: bool)
            ensures
                r == item_before()(a@, b@),
            { before(a.item_id.as_str(), b.item_id.as_str()) };
        order_rows(rows, g, Ghost(item_before()))
    }

    /// What a character has in storage, by item.
    pub fn storage_for_character(&self, character_id: &str) -> (out: Vec<StorageItem>)
        ensures
            rows_view(out@) == ordered(self@.storage.filter(is_stored_by(character_id@)), stored_before()),
    {
        let f = |r: &StorageItem| -> (b: bool)
            ensures
                b == is_stored_by(character_id@)(r@),
            { same(r.character_id.as_str(), character_id) };
        let rows = self.storage.select(f, Ghost(is_stored_by(character_id@)));
        let g = |a: &StorageItem, b: &StorageItem| -> (r: bool)
            ensures
                r == stored_before()(a@, b@),
            { before(a.item_id.as_str(), b.item_id.as_str()) };
        order_rows(rows, g, Ghost(stored_before()))
    }
}

/// The state after `moved` of an item goes from what a character carries into storage.
pub open spec fn deposited(
    s: DbView,
    character: Seq<char>,
    item: Seq<char>,
    moved: int,
    a: Seq<char>,
    b: Seq<char>,
) -> DbView {
    DbView {
        inventory: dropped(s.inventory, character, item, moved, a),
        storage: if moved > 0 {
            put_away(s.storage, character, item, moved, b)
        } else {
            s.storage
        },
        ..s
    }
}

/// The state after `moved` of an item goes from storage into what a character carries.
pub open spec fn withdrawn(
    s: DbView,
    character: Seq<char>,
    item: Seq<char>,
    moved: int,
    a: Seq<char>,
    ids: Seq<Seq<char>>,
) -> DbView {
    DbView {
        inventory: picked_up(s.inventory, character, item, moved, ids),
        storage: taken_out(s.storage, character, item, moved, a),
        ..s
    }
}

/// Asking for more than there is takes what there is.
proof fn lemma_drop_again(rows: Seq<InventoryItemView>, character: Seq<char>, item: Seq<char>, qty: int, id: Seq<char>)
    requires
        packed(rows),
    ensures
        dropped(rows, character, item, qty, id) == dropped(
            rows,
            character,
            item,
            clamp_take(qty, carried(rows, character, item)),
            id,
        ),
{
    let p = is_carried(character, item);
    lemma_carried_bound(rows, character, item);
    lemma_dropped(rows, character, item, qty, id, character, item);
    if is_tool(item) {
        lemma_without_first_again(rows, p, qty);
    }
}

proof fn lemma_without_first_again<A>(rows: Seq<A>, p: spec_fn(A) -> bool, n: int)
    ensures
        without_first(rows, p, n) == without_first(
            rows,
            p,
            first_count(rows, p, n),
        ),
        first_count(rows, p, n) >= 0,
    decreases
        if n > 0 {
            n
        } else {
            0
        },
{
    let k = find(rows, p);
    if n > 0 && k < rows.len() {
        lemma_without_first_again(rows.remove(k), p, n - 1);
    }
}

/// Depositing and withdrawing move goods and neither make nor lose any: what a character carries and
/// stores of an item, together, stays the same.
pub proof fn law_storage_conserves(
    s: DbView,
    character: Seq<char>,
    item: Seq<char>,
    moved: int,
    a: Seq<char>,
    b: Seq<char>,
    ids: Seq<Seq<char>>,
    who: Seq<char>,
    what: Seq<char>,
)
    requires
        packed(s.inventory),
        shelved(s.storage),
        moved >= 0,
        ids_for(item, moved, ids),
        sum(s.storage, stored_qty()) + sum(s.inventory, carried_qty()) + moved <= i64::MAX,
    ensures
        moved <= carried(s.inventory, character, item) ==> ({
            let t = deposited(s, character, item, moved, a, b);
            carried(t.inventory, who, what) + stored(t.storage, who, what) == carried(s.inventory, who, what) + stored(
                s.storage,
                who,
                what,
            )
        }),
        moved <= stored(s.storage, character, item) ==> ({
            let t = withdrawn(s, character, item, moved, a, ids);
            carried(t.inventory, who, what) + stored(t.storage, who, what) == carried(s.inventory, who, what) + stored(
                s.storage,
                who,
                what,
            )
        }),
{
    lemma_carried_bound(s.inventory, character, item);
    lemma_stored_bound(s.storage, character, item);
    lemma_dropped(s.inventory, character, item, moved, a, who, what);
    lemma_put_away(s.storage, character, item, moved, b, who, what);
    lemma_picked_up(s.inventory, character, item, moved, ids, who, what);
    lemma_taken_out(s.storage, character, item, moved, a, who, what);
}

/// Picking up as much as fits never takes anyone over the carry limit.
pub proof fn law_carrying_is_bounded(
    rows: Seq<InventoryItemView>,
    character: Seq<char>,
    item: Seq<char>,
    qty: int,
    ids: Seq<Seq<char>>,
)
    requires
        packed(rows),
        carried_total(rows, character) <= MAX_CARRY,
        ids_for(item, fits(rows, character, qty), ids),
        sum(rows, carried_qty()) + MAX_CARRY <= i64::MAX,
    ensures
        carried_total(picked_up(rows, character, item, fits(rows, character, qty), ids), character) <= MAX_CARRY,
        qty >= 0 ==> fits(rows, character, qty) <= qty,
{
    lemma_carried_bound(rows, character, item);
    lemma_picked_up(rows, character, item, fits(rows, character, qty), ids, character, item);
}

} // verus!
