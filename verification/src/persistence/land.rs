//! What grows and stands in the world outside the plots: resource nodes, seams and placed objects.

use vstd::prelude::*;

use crate::persistence::db::{Db, DbView};
use crate::persistence::ids::new_id;
use crate::persistence::rows::{
    DepositState, DepositStateView, ResourceNode, ResourceNodeView, WorldObject, WorldObjectView,
};
use crate::table::{
    find, lemma_filter_all, lemma_find, lemma_find_is, not, order_rows, ordered, rows_view, Row,
};
use crate::text::{before, pairs_view, same, text_before};

verus! {

pub open spec fn is_node(id: Seq<char>) -> spec_fn(ResourceNodeView) -> bool {
    |n: ResourceNodeView| n.id == id
}

pub open spec fn is_node_in(district: Seq<char>) -> spec_fn(ResourceNodeView) -> bool {
    |n: ResourceNodeView| n.district == district
}

pub open spec fn node_before() -> spec_fn(ResourceNodeView, ResourceNodeView) -> bool {
    |a: ResourceNodeView, b: ResourceNodeView| text_before(a.id, b.id)
}

/// What is left of a quantity after an amount is taken.
pub open spec fn left_over(qty: int, amount: int) -> int {
    if qty - amount > 0 {
        qty - amount
    } else {
        0
    }
}

/// How much a node holds; nothing where there is no such node.
pub open spec fn node_qty(nodes: Seq<ResourceNodeView>, id: Seq<char>) -> int {
    let k = find(nodes, is_node(id));
    if k < nodes.len() {
        nodes[k].qty
    } else {
        0
    }
}

/// The nodes after an amount is taken from one: an empty one gets a time at which it comes back.
pub open spec fn depleted_nodes(nodes: Seq<ResourceNodeView>, id: Seq<char>, amount: int, respawn_at: int) -> Seq<
    ResourceNodeView,
> {
    let k = find(nodes, is_node(id));
    let left = left_over(nodes[k].qty, amount);
    if k < nodes.len() {
        nodes.update(
            k,
            ResourceNodeView {
                qty: left,
                respawn_at: if left == 0 {
                    Some(respawn_at)
                } else {
                    None
                },
                ..nodes[k]
            },
        )
    } else {
        nodes
    }
}

pub open spec fn is_deposit(id: Seq<char>) -> spec_fn(DepositStateView) -> bool {
    |d: DepositStateView| d.deposit_id == id
}

pub open spec fn deposit_before() -> spec_fn(DepositStateView, DepositStateView) -> bool {
    |a: DepositStateView, b: DepositStateView| text_before(a.deposit_id, b.deposit_id)
}

/// When a seam was worked out; `None` for one that is full.
pub open spec fn worked_out_at(rows: Seq<DepositStateView>, id: Seq<char>) -> Option<int> {
    let k = find(rows, is_deposit(id));
    if k < rows.len() {
        Some(rows[k].depleted_at)
    } else {
        None
    }
}

/// The seams after one is worked out.
pub open spec fn worked_out(rows: Seq<DepositStateView>, id: Seq<char>, at: int) -> Seq<DepositStateView> {
    let k = find(rows, is_deposit(id));
    let row = DepositStateView { deposit_id: id, depleted_at: at };
    if k < rows.len() {
        rows.update(k, row)
    } else {
        rows.push(row)
    }
}

/// The seams that are worked out, by id.
pub open spec fn worked_out_list(rows: Seq<DepositStateView>) -> Seq<(Seq<char>, int)> {
    let sorted = ordered(rows, deposit_before());
    Seq::new(sorted.len(), |i: int| (sorted[i].deposit_id, sorted[i].depleted_at))
}

pub open spec fn is_object(id: Seq<char>) -> spec_fn(WorldObjectView) -> bool {
    |o: WorldObjectView| o.id == id
}

/// Objects by age, then by id.
pub open spec fn object_before() -> spec_fn(WorldObjectView, WorldObjectView) -> bool {
    |a: WorldObjectView, b: WorldObjectView|
        a.created_at < b.created_at || a.created_at == b.created_at && text_before(a.id, b.id)
}

impl Db {
    /// Add a resource node.
    pub fn insert_resource_node(&mut self, district: &str, item_id: &str, x: i64, y: i64, qty: i64) -> (n:
        ResourceNode)
        ensures
            n@ == (ResourceNodeView {
                id: n@.id,
                district: district@,
                item_id: item_id@,
                x: x as int,
                y: y as int,
                qty: qty as int,
                respawn_at: None,
            }),
            final(self)@ == (DbView { nodes: old(self)@.nodes.push(n@), ..old(self)@ }),
    {
        let n = ResourceNode {
            id: new_id(),
            district: district.to_string(),
            item_id: item_id.to_string(),
            x,
            y,
            qty,
            respawn_at: None,
        };
        self.nodes.push(n.copy());
        n
    }

    /// The resource nodes of a district, by id.
    pub fn resource_nodes_for_district(&self, district: &str) -> (out: Vec<ResourceNode>)
        ensures
            rows_view(out@) == ordered(self@.nodes.filter(is_node_in(district@)), node_before()),
    {
        let f = |n: &ResourceNode| -> (b: bool)
            ensures
                b == is_node_in(district@)(n@),
            { same(n.district.as_str(), district) };
        let rows = self.nodes.select(f, Ghost(is_node_in(district@)));
        let g = |a: &ResourceNode, b: &ResourceNode| -> (r: bool)
            ensures
                r == node_before()(a@, b@),
            { before(a.id.as_str(), b.id.as_str()) };
        order_rows(rows, g, Ghost(node_before()))
    }

    /// Take an amount from a node, and set when it comes back where that empties it. Returns what is left.
    pub fn deplete_resource_node(&mut self, node_id: &str, amount: i64, respawn_at: i64) -> (remaining: i64)
        requires
            i64::MIN <= node_qty(old(self)@.nodes, node_id@) - amount <= i64::MAX,
        ensures
            remaining == left_over(node_qty(old(self)@.nodes, node_id@), amount as int),
            final(self)@ == (DbView {
                nodes: depleted_nodes(old(self)@.nodes, node_id@, amount as int, respawn_at as int),
                ..old(self)@
            }),
    {
        let f = |n: &ResourceNode| -> (b: bool)
            ensures
                b == is_node(node_id@)(n@),
            { same(n.id.as_str(), node_id) };
        let k: usize = self.nodes.find(f, Ghost(is_node(node_id@)));
        let qty: i64 = if k < self.nodes.len() {
            self.nodes.get(k).qty
        } else {
            0
        };
        let left: i64 = qty - amount;
        let remaining: i64 = if left > 0 {
            left
        } else {
            0
        };
        if k < self.nodes.len() {
            let row = self.nodes.get_mut(k);
            row.qty = remaining;
            row.respawn_at = if remaining == 0 {
                Some(respawn_at)
            } else {
                None
            };
        }
        remaining
    }

    /// Record that a seam was worked out, so that its timer outlives a restart.
    pub fn mark_deposit_depleted(&mut self, deposit_id: &str, at: i64)
        ensures
            final(self)@ == (DbView {
                deposits: worked_out(old(self)@.deposits, deposit_id@, at as int),
                ..old(self)@
            }),
    {
        let f = |d: &DepositState| -> (b: bool)
            ensures
                b == is_deposit(deposit_id@)(d@),
            { same(d.deposit_id.as_str(), deposit_id) };
        let k: usize = self.deposits.find(f, Ghost(is_deposit(deposit_id@)));
        if k < self.deposits.len() {
            let row = self.deposits.get_mut(k);
            row.depleted_at = at;
        } else {
            self.deposits.push(DepositState { deposit_id: deposit_id.to_string(), depleted_at: at });
        }
    }

    /// Forget that a seam was worked out: it has come back.
    pub fn clear_deposit_depleted(&mut self, deposit_id: &str)
        ensures
            final(self)@ == (DbView {
                deposits: old(self)@.deposits.filter(not(is_deposit(deposit_id@))),
                ..old(self)@
            }),
    {
        let f = |d: &DepositState| -> (b: bool)
            ensures
                b == is_deposit(deposit_id@)(d@),
            { same(d.deposit_id.as_str(), deposit_id) };
        self.deposits.delete_where(f, Ghost(is_deposit(deposit_id@)));
    }

    /// Every seam that is worked out, by id, with when that was. A seam that is not named is full.
    pub fn depleted_deposits(&self) -> (out: Vec<(String, i64)>)
        ensures
            pairs_view(out@) == worked_out_list(self@.deposits),
    {
        let rows = self.deposits.copy_all();
        let g = |a: &DepositState, b: &DepositState| -> (r: bool)
            ensures
                r == deposit_before()(a@, b@),
            { before(a.deposit_id.as_str(), b.deposit_id.as_str()) };
        let sorted = order_rows(rows, g, Ghost(deposit_before()));
        let mut out: Vec<(String, i64)> = Vec::new();
        let mut i: usize = 0;
        while i < sorted.len()
            invariant
                i <= sorted.len(),
                out.len() == i,
                forall|j: int|
                    0 <= j < i ==> (#[trigger] out@[j]).0@ == sorted@[j]@.deposit_id && out@[j].1
                        == sorted@[j]@.depleted_at,
            decreases sorted.len() - i,
        {
            out.push((sorted[i].deposit_id.clone(), sorted[i].depleted_at));
            i = i + 1;
        }
        assert(pairs_view(out@) =~= worked_out_list(self@.deposits));
        out
    }

    /// Persist a newly placed world object, under a new id.
    pub fn insert_world_object(&mut self, kind: &str, x: i32, y: i32, author: &str, created_at: i64) -> (o:
        WorldObject)
        ensures
            o@ == (WorldObjectView {
                id: o@.id,
                kind: kind@,
                x: x as int,
                y: y as int,
                author: author@,
                created_at: created_at as int,
            }),
            final(self)@ == (DbView { objects: old(self)@.objects.push(o@), ..old(self)@ }),
    {
        let o = WorldObject {
            id: new_id(),
            kind: kind.to_string(),
            x,
            y,
            author: author.to_string(),
            created_at,
        };
        self.objects.push(o.copy());
        o
    }

    /// Delete a placed world object. Returns whether there was one.
    pub fn delete_world_object(&mut self, id: &str) -> (gone: bool)
        ensures
            gone == exists|i: int|
                0 <= i < old(self)@.objects.len() && (#[trigger] old(self)@.objects[i]).id == id@,
            final(self)@ == (DbView {
                objects: old(self)@.objects.filter(not(is_object(id@))),
                ..old(self)@
            }),
    {
        let f = |o: &WorldObject| -> (b: bool)
            ensures
                b == is_object(id@)(o@),
            { same(o.id.as_str(), id) };
        let k: usize = self.objects.find(f, Ghost(is_object(id@)));
        let gone: bool = k < self.objects.len();
        proof {
            lemma_find(self@.objects, is_object(id@));
            if !gone {
                assert forall|i: int| 0 <= i < self@.objects.len() implies (#[trigger] self@.objects[i]).id
                    != id@ by {
                    assert(!is_object(id@)(self@.objects[i]));
                }
            }
        }
        let g = |o: &WorldObject| -> (b: bool)
            ensures
                b == is_object(id@)(o@),
            { same(o.id.as_str(), id) };
        self.objects.delete_where(g, Ghost(is_object(id@)));
        gone
    }

    /// Every placed world object, by age.
    pub fn list_world_objects(&self) -> (out: Vec<WorldObject>)
        ensures
            rows_view(out@) == ordered(self@.objects, object_before()),
    {
        let rows = self.objects.copy_all();
        let g = |a: &WorldObject, b: &WorldObject| -> (r: bool)
            ensures
                r == object_before()(a@, b@),
            {
                a.created_at < b.created_at || (a.created_at == b.created_at && before(
                    a.id.as_str(),
                    b.id.as_str(),
                ))
            };
        order_rows(rows, g, Ghost(object_before()))
    }
}

/// A seam that is worked out is recorded with its time, one that came back is full again, and no other seam
/// changes.
pub proof fn law_seams_are_independent(rows: Seq<DepositStateView>, id: Seq<char>, at: int, other: Seq<char>)
    ensures
        worked_out_at(worked_out(rows, id, at), id) == Some(at),
        worked_out_at(rows.filter(not(is_deposit(id))), id) is None,
        other != id ==> worked_out_at(worked_out(rows, id, at), other) == worked_out_at(rows, other),
{
    let t = worked_out(rows, id, at);
    let k = find(rows, is_deposit(id));
    lemma_find(rows, is_deposit(id));
    assert forall|i: int| 0 <= i < k implies !is_deposit(id)(#[trigger] t[i]) by {
        assert(t[i] == rows[i]);
    }
    lemma_find_is(t, is_deposit(id), k);
    let left = rows.filter(not(is_deposit(id)));
    lemma_filter_all(rows, not(is_deposit(id)));
    lemma_find(left, is_deposit(id));
    if find(left, is_deposit(id)) < left.len() {
        assert(not(is_deposit(id))(left[find(left, is_deposit(id))]));
    }
    if other != id {
        let b = find(rows, is_deposit(other));
        lemma_find(rows, is_deposit(other));
        let e = if b < rows.len() {
            b
        } else {
            t.len() as int
        };
        assert forall|i: int| 0 <= i < e implies !is_deposit(other)(#[trigger] t[i]) by {
            if i < rows.len() && i != k {
                assert(t[i] == rows[i]);
            }
        }
        lemma_find_is(t, is_deposit(other), e);
    }
}

} // verus!
