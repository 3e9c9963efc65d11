//! Edits of the terrain: each chunk's delta with its revision, and the log that takes edits back.

use vstd::prelude::*;

use crate::persistence::db::{Db, DbView};
use crate::persistence::rows::{EditBlock, EditBlockView, EditOp, EditOpView, TerrainDelta, TerrainDeltaView};
use crate::table::{find, lemma_find, lemma_find_is, rows_view, Row};
use crate::text::{copy_opt_bytes, opt_bytes, same};

verus! {

pub open spec fn is_chunk(tx: int, ty: int) -> spec_fn(TerrainDeltaView) -> bool {
    |d: TerrainDeltaView| d.chunk_tx == tx && d.chunk_ty == ty
}

/// The delta of a chunk; `None` for one that was never edited.
pub open spec fn delta_of(rows: Seq<TerrainDeltaView>, tx: int, ty: int) -> Option<TerrainDeltaView> {
    let k = find(rows, is_chunk(tx, ty));
    if k < rows.len() {
        Some(rows[k])
    } else {
        None
    }
}

/// The revision that the next edit of a chunk gets.
pub open spec fn next_revision(rows: Seq<TerrainDeltaView>, tx: int, ty: int) -> int {
    match delta_of(rows, tx, ty) {
        Some(d) => d.revision + 1,
        None => 1,
    }
}

/// The deltas after one is saved. Its own revision does not count.
pub open spec fn delta_saved(rows: Seq<TerrainDeltaView>, d: TerrainDeltaView) -> Seq<TerrainDeltaView> {
    let k = find(rows, is_chunk(d.chunk_tx, d.chunk_ty));
    let row = TerrainDeltaView { revision: next_revision(rows, d.chunk_tx, d.chunk_ty), ..d };
    if k < rows.len() {
        rows.update(k, row)
    } else {
        rows.push(row)
    }
}

pub open spec fn opt_delta(d: Option<TerrainDelta>) -> Option<TerrainDeltaView> {
    match d {
        Some(v) => Some(v@),
        None => None,
    }
}

/// An edit that can still be taken back.
pub open spec fn is_standing(id: Seq<char>) -> spec_fn(EditOpView) -> bool {
    |o: EditOpView| o.id == id && !o.reverted
}

pub open spec fn is_block_of(id: Seq<char>) -> spec_fn(EditBlockView) -> bool {
    |b: EditBlockView| b.op_id == id
}

/// The view of the blocks that an edit touches: chunk, block, and what was there before.
pub open spec fn blocks_view(v: Seq<(i32, i32, i64, Option<Vec<u8>>)>) -> Seq<
    (int, int, int, Option<Seq<u8>>),
> {
    Seq::new(v.len(), |i: int| (v[i].0 as int, v[i].1 as int, v[i].2 as int, opt_bytes(v[i].3)))
}

/// The rows that record an edit's blocks.
pub open spec fn block_rows(op: Seq<char>, blocks: Seq<(int, int, int, Option<Seq<u8>>)>) -> Seq<EditBlockView> {
    Seq::new(
        blocks.len(),
        |i: int|
            EditBlockView {
                op_id: op,
                chunk_tx: blocks[i].0,
                chunk_ty: blocks[i].1,
                block_idx: blocks[i].2,
                prev_block: blocks[i].3,
            },
    )
}

/// What an edit's rows record.
pub open spec fn blocks_of(rows: Seq<EditBlockView>, op: Seq<char>) -> Seq<(int, int, int, Option<Seq<u8>>)> {
    let own = rows.filter(is_block_of(op));
    Seq::new(
        own.len(),
        |i: int| (own[i].chunk_tx, own[i].chunk_ty, own[i].block_idx, own[i].prev_block),
    )
}

impl Db {
    /// The delta of a chunk, or `None` where it was never edited.
    pub fn load_terrain_delta(&self, chunk_tx: i32, chunk_ty: i32) -> (d: Option<TerrainDelta>)
        ensures
            opt_delta(d) == delta_of(self@.terrain, chunk_tx as int, chunk_ty as int),
    {
        let f = |d: &TerrainDelta| -> (b: bool)
            ensures
                b == is_chunk(chunk_tx as int, chunk_ty as int)(d@),
            { d.chunk_tx == chunk_tx && d.chunk_ty == chunk_ty };
        let k: usize = self.terrain.find(f, Ghost(is_chunk(chunk_tx as int, chunk_ty as int)));
        if k < self.terrain.len() {
            Some(self.terrain.get(k).copy())
        } else {
            None
        }
    }

    /// Save a chunk's delta and return its new revision: 1 for the first edit of a chunk, one more for each
    /// later one. The revision that the delta names does not count, so editors need not agree on one.
    pub fn save_terrain_delta(&mut self, delta: &TerrainDelta) -> (revision: i64)
        requires
            next_revision(old(self)@.terrain, delta@.chunk_tx, delta@.chunk_ty) <= i64::MAX,
        ensures
            revision == next_revision(old(self)@.terrain, delta@.chunk_tx, delta@.chunk_ty),
            final(self)@ == (DbView { terrain: delta_saved(old(self)@.terrain, delta@), ..old(self)@ }),
    {
        let f = |d: &TerrainDelta| -> (b: bool)
            ensures
                b == is_chunk(delta.chunk_tx as int, delta.chunk_ty as int)(d@),
            { d.chunk_tx == delta.chunk_tx && d.chunk_ty == delta.chunk_ty };
        let k: usize = self.terrain.find(f, Ghost(is_chunk(delta.chunk_tx as int, delta.chunk_ty as int)));
        let mut row = delta.copy();
        if k < self.terrain.len() {
            let revision: i64 = self.terrain.get(k).revision + 1;
            row.revision = revision;
            let place = self.terrain.get_mut(k);
            *place = row;
            revision
        } else {
            row.revision = 1;
            self.terrain.push(row);
            1
        }
    }

    /// Log an accepted edit, with what each block that it touched held before.
    pub fn log_terrain_edit_op(
        &mut self,
        op_id: &str,
        author: &str,
        brush: &str,
        created_at: i64,
        blocks: &[(i32, i32, i64, Option<Vec<u8>>)],
    )
        ensures
            final(self)@ == (DbView {
                edit_ops: old(self)@.edit_ops.push(
                    EditOpView {
                        id: op_id@,
                        author: author@,
                        brush: brush@,
                        created_at: created_at as int,
                        reverted: false,
                    },
                ),
                edit_blocks: old(self)@.edit_blocks + block_rows(op_id@, blocks_view(blocks@)),
                ..old(self)@
            }),
    {
        let ghost was = self@.edit_blocks;
        self.edit_ops.push(
            EditOp {
                id: op_id.to_string(),
                author: author.to_string(),
                brush: brush.to_string(),
                created_at,
                reverted: false,
            },
        );
        let ghost s = self@;
        let ghost want = block_rows(op_id@, blocks_view(blocks@));
        let mut i: usize = 0;
        assert(was + want.take(0) =~= was);
        while i < blocks.len()
            invariant
                i <= blocks.len(),
                want == block_rows(op_id@, blocks_view(blocks@)),
                self@ == (DbView { edit_blocks: was + want.take(i as int), ..s }),
            decreases blocks.len() - i,
        {
            let b = &blocks[i];
            let row = EditBlock {
                op_id: op_id.to_string(),
                chunk_tx: b.0,
                chunk_ty: b.1,
                block_idx: b.2,
                prev_block: copy_opt_bytes(&b.3),
            };
            assert(row@ == want[i as int]);
            self.edit_blocks.push(row);
            assert(self@.edit_blocks =~= was + want.take(i + 1));
            i = i + 1;
        }
        assert(want.take(i as int) =~= want);
    }

    /// Claim an edit to take it back: returns what its blocks held before, or `None` where there is no such
    /// edit or it was taken back already.
    pub fn take_revertable_edit_op(&mut self, op_id: &str) -> (out: Option<Vec<(i32, i32, i64, Option<Vec<u8>>)>>)
        ensures
            ({
                let s = old(self)@;
                let k = find(s.edit_ops, is_standing(op_id@));
                match out {
                    Some(blocks) => k < s.edit_ops.len() && blocks_view(blocks@) == blocks_of(
                        s.edit_blocks,
                        op_id@,
                    ) && final(self)@ == (DbView {
                        edit_ops: s.edit_ops.update(k, EditOpView { reverted: true, ..s.edit_ops[k] }),
                        ..s
                    }),
                    None => k >= s.edit_ops.len() && final(self)@ == s,
                }
            }),
    {
        let f = |o: &EditOp| -> (b: bool)
            ensures
                b == is_standing(op_id@)(o@),
            { !o.reverted && same(o.id.as_str(), op_id) };
        let k: usize = self.edit_ops.find(f, Ghost(is_standing(op_id@)));
        if k >= self.edit_ops.len() {
            return None;
        }
        let row = self.edit_ops.get_mut(k);
        row.reverted = true;
        let g = |b: &EditBlock| -> (r: bool)
            ensures
                r == is_block_of(op_id@)(b@),
            { same(b.op_id.as_str(), op_id) };
        let rows = self.edit_blocks.select(g, Ghost(is_block_of(op_id@)));
        let ghost own = rows_view(rows@);
        let mut out: Vec<(i32, i32, i64, Option<Vec<u8>>)> = Vec::new();
        let mut i: usize = 0;
        while i < rows.len()
            invariant
                i <= rows.len(),
                own == rows_view(rows@),
                out.len() == i,
                forall|j: int|
                    0 <= j < i ==> {
                        &&& (#[trigger] out@[j]).0 == own[j].chunk_tx
                        &&& out@[j].1 == own[j].chunk_ty
                        &&& out@[j].2 == own[j].block_idx
                        &&& opt_bytes(out@[j].3) == own[j].prev_block
                    },
            decreases rows.len() - i,
        {
            let b = &rows[i];
            assert(own[i as int] == b@);
            out.push((b.chunk_tx, b.chunk_ty, b.block_idx, copy_opt_bytes(&b.prev_block)));
            i = i + 1;
        }
        assert(blocks_view(out@) =~= blocks_of(self@.edit_blocks, op_id@));
        Some(out)
    }
}

/// What was saved is loaded, with the next revision of its chunk; no other chunk changes.
pub proof fn law_deltas_are_saved_by_chunk(rows: Seq<TerrainDeltaView>, d: TerrainDeltaView, tx: int, ty: int)
    ensures
        delta_of(delta_saved(rows, d), d.chunk_tx, d.chunk_ty) == Some(
            TerrainDeltaView { revision: next_revision(rows, d.chunk_tx, d.chunk_ty), ..d },
        ),
        next_revision(delta_saved(rows, d), d.chunk_tx, d.chunk_ty) == next_revision(rows, d.chunk_tx, d.chunk_ty)
            + 1,
        tx != d.chunk_tx || ty != d.chunk_ty ==> delta_of(delta_saved(rows, d), tx, ty) == delta_of(rows, tx, ty),
{
    let t = delta_saved(rows, d);
    let p = is_chunk(d.chunk_tx, d.chunk_ty);
    let k = find(rows, p);
    lemma_find(rows, p);
    assert forall|i: int| 0 <= i < k implies !p(#[trigger] t[i]) by {
        assert(t[i] == rows[i]);
    }
    lemma_find_is(t, p, k);
    if tx != d.chunk_tx || ty != d.chunk_ty {
        let q = is_chunk(tx, ty);
        let b = find(rows, q);
        lemma_find(rows, q);
        let e = if b < rows.len() {
            b
        } else {
            t.len() as int
        };
        assert forall|i: int| 0 <= i < e implies !q(#[trigger] t[i]) by {
            if i < rows.len() && i != k {
                assert(t[i] == rows[i]);
            }
        }
        lemma_find_is(t, q, e);
    }
}

/// An edit is taken back once: with its only record taken back, there is nothing left to claim.
pub proof fn law_an_edit_is_reverted_once(ops: Seq<EditOpView>, id: Seq<char>)
    requires
        find(ops, is_standing(id)) < ops.len(),
        forall|i: int, j: int| 0 <= i < j < ops.len() ==> (#[trigger] ops[i]).id != (#[trigger] ops[j]).id,
    ensures
        ({
            let k = find(ops, is_standing(id));
            let t = ops.update(k, EditOpView { reverted: true, ..ops[k] });
            find(t, is_standing(id)) == t.len()
        }),
{
    let k = find(ops, is_standing(id));
    let t = ops.update(k, EditOpView { reverted: true, ..ops[k] });
    lemma_find(ops, is_standing(id));
    assert forall|i: int| 0 <= i < t.len() implies !is_standing(id)(#[trigger] t[i]) by {
        if i != k {
            assert(t[i] == ops[i]);
            assert(ops[k].id == id);
        }
    }
    lemma_find_is(t, is_standing(id), t.len() as int);
}

} // verus!
