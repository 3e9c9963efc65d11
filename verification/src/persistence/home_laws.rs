//! Where one wakes up, what a lost plot takes along, what is left of a node, and what the land shows.

use vstd::prelude::*;

use crate::persistence::db::DbView;
use crate::persistence::homes::{
    cleared_away, decorates, flair_before, is_flair_of, is_structure, respawn_point, sleeps_on, stands_in,
    stands_on, structure_before,
};
use crate::persistence::land::{
    depleted_nodes, is_node, is_node_in, is_object, left_over, node_before, node_qty, object_before,
};
use crate::persistence::plots::is_plot;
use crate::persistence::purse::is_character;
use crate::persistence::rows::{
    CharacterRecordView, EditBlockView, FlairView, ResourceNodeView, StructureView, WorldObjectView,
};
use crate::persistence::terrain::{block_rows, blocks_of, is_block_of};
use crate::table::{
    find, law_page, lemma_filter_contains, lemma_find, lemma_find_is, limited, not, ordered, orders_rows,
};
use crate::text::{lemma_text_before, text_before};

verus! {

/// A character wakes up where their bed stands, and nowhere in particular without one.
pub proof fn law_one_wakes_up_in_bed(s: DbView, character: Seq<char>, c: int, b: int)
    requires
        0 <= c < s.characters.len(),
        s.characters[c].character.id == character,
        forall|i: int| 0 <= i < c ==> (#[trigger] s.characters[i]).character.id != character,
    ensures
        s.characters[c].respawn_structure_id is None ==> respawn_point(s, character) is None,
        0 <= b < s.structures.len() && s.characters[c].respawn_structure_id == Some(s.structures[b].id) && (forall|i: int|
            0 <= i < b ==> (#[trigger] s.structures[i]).id != s.structures[b].id) ==> respawn_point(s, character) == Some(
            (s.structures[b].x, s.structures[b].y),
        ),
        s.characters[c].respawn_structure_id is Some && (forall|i: int|
            0 <= i < s.structures.len() ==> Some((#[trigger] s.structures[i]).id) != s.characters[c].respawn_structure_id)
            ==> respawn_point(s, character) is None,
{
    lemma_find_is(s.characters, is_character(character), c);
    if s.characters[c].respawn_structure_id is Some {
        let id = s.characters[c].respawn_structure_id->0;
        lemma_find(s.structures, is_structure(id));
        let k = find(s.structures, is_structure(id));
        if k < s.structures.len() {
            assert(s.structures[k].id == id);
        }
        if 0 <= b < s.structures.len() && s.structures[b].id == id && (forall|i: int|
            0 <= i < b ==> (#[trigger] s.structures[i]).id != s.structures[b].id) {
            lemma_find_is(s.structures, is_structure(id), b);
        }
    }
}

/// A lost plot loses its structures and no other does; its flair comes off it and is kept; and its owner forgets a bed that
/// stood on it, and no other.
pub proof fn law_what_a_lost_plot_takes_along(
    s: DbView,
    plot: Seq<char>,
    owner: Seq<char>,
    x: StructureView,
    i: int,
    c: int,
)
    requires
        0 <= c < s.characters.len(),
    ensures
        ({
            let t = cleared_away(s, plot, owner);
            &&& t.structures.contains(x) <==> s.structures.contains(x) && x.plot_id != plot
            &&& t.flair.len() == s.flair.len()
            &&& 0 <= i < s.flair.len() && s.flair[i].plot_id == Some(plot) ==> t.flair[i] == (FlairView {
                plot_id: None,
                ..s.flair[i]
            })
            &&& 0 <= i < s.flair.len() && s.flair[i].plot_id != Some(plot) ==> t.flair[i] == s.flair[i]
            &&& t.characters.len() == s.characters.len()
            &&& s.characters[c].character.id != owner ==> t.characters[c] == s.characters[c]
            &&& s.characters[c].character.id == owner && (forall|j: int|
                0 <= j < c ==> (#[trigger] s.characters[j]).character.id != owner) ==> {
                let bed = s.characters[c].respawn_structure_id;
                let here = exists|j: int|
                    0 <= j < s.structures.len() && (#[trigger] s.structures[j]).plot_id == plot && Some(s.structures[j].id) == bed;
                &&& here ==> t.characters[c] == (CharacterRecordView { respawn_structure_id: None, ..s.characters[c] })
                &&& !here ==> t.characters[c] == s.characters[c]
            }
        }),
{
    lemma_filter_contains(s.structures, not(stands_on(plot)), x);
    lemma_find(s.characters, is_character(owner));
    if s.characters[c].character.id == owner && (forall|j: int|
        0 <= j < c ==> (#[trigger] s.characters[j]).character.id != owner) {
        lemma_find_is(s.characters, is_character(owner), c);
        let bed = s.characters[c].respawn_structure_id;
        if exists|j: int|
            0 <= j < s.structures.len() && (#[trigger] s.structures[j]).plot_id == plot && Some(s.structures[j].id) == bed {
            let j = choose|j: int|
                0 <= j < s.structures.len() && (#[trigger] s.structures[j]).plot_id == plot && Some(s.structures[j].id) == bed;
            assert(s.structures[j].id == bed->0);
            assert(sleeps_on(s.structures, s.characters[c], plot));
        }
    }
}

/// Gathering takes as much from a node as is gathered, down to nothing; an empty node comes back at the time given, and one
/// that is not empty has no such time. No other node changes.
pub proof fn law_gathering_depletes_a_node(
    nodes: Seq<ResourceNodeView>,
    id: Seq<char>,
    gathered: int,
    respawn_at: int,
    k: int,
    i: int,
)
    requires
        0 <= k < nodes.len(),
        nodes[k].id == id,
        forall|j: int| 0 <= j < k ==> (#[trigger] nodes[j]).id != id,
        0 <= i < nodes.len(),
    ensures
        ({
            let t = depleted_nodes(nodes, id, gathered, respawn_at);
            let left = left_over(node_qty(nodes, id), gathered);
            &&& t.len() == nodes.len()
            &&& nodes[k].qty > gathered ==> left == nodes[k].qty - gathered && t[k] == (ResourceNodeView {
                qty: left,
                respawn_at: None,
                ..nodes[k]
            })
            &&& nodes[k].qty <= gathered ==> left == 0 && t[k] == (ResourceNodeView {
                qty: 0,
                respawn_at: Some(respawn_at),
                ..nodes[k]
            })
            &&& i != k ==> t[i] == nodes[i]
        }),
{
    lemma_find_is(nodes, is_node(id), k);
}

/// What an edit logs comes back with it, in order, behind what was logged under its id before; other edits keep theirs.
pub proof fn law_an_edit_gives_its_blocks_back(
    rows: Seq<EditBlockView>,
    op: Seq<char>,
    blocks: Seq<(int, int, int, Option<Seq<u8>>)>,
    other: Seq<char>,
)
    ensures
        blocks_of(rows + block_rows(op, blocks), op) == blocks_of(rows, op) + blocks,
        other != op ==> blocks_of(rows + block_rows(op, blocks), other) == blocks_of(rows, other),
    decreases blocks.len(),
{
    let all = rows + block_rows(op, blocks);
    reveal(Seq::filter);
    if blocks.len() == 0 {
        assert(all =~= rows);
        assert(blocks_of(rows, op) + blocks =~= blocks_of(rows, op));
    } else {
        let head = blocks.drop_last();
        law_an_edit_gives_its_blocks_back(rows, op, head, other);
        assert(all.drop_last() =~= rows + block_rows(op, head));
        let before = (rows + block_rows(op, head)).filter(is_block_of(op));
        assert(all.filter(is_block_of(op)) =~= before.push(all.last()));
        assert(blocks_of(all, op) =~= blocks_of(rows, op) + blocks) by {
            assert(blocks_of(all, op) =~= blocks_of(rows + block_rows(op, head), op).push(blocks.last()));
            assert((blocks_of(rows, op) + head).push(blocks.last()) =~= blocks_of(rows, op) + blocks);
        }
        if other != op {
            assert(all.filter(is_block_of(other)) =~= (rows + block_rows(op, head)).filter(is_block_of(other)));
        }
    }
}

/// A plot shows the structures that stand on it and the flair that decorates it, all of them and no others, and a character
/// the flair that is theirs.
pub proof fn law_a_home_shows_what_is_there(s: DbView, plot: Seq<char>, owner: Seq<char>, x: StructureView, y: FlairView)
    ensures
        ordered(s.structures.filter(stands_on(plot)), structure_before()).contains(x) <==> s.structures.contains(x) && x.plot_id
            == plot,
        ordered(s.flair.filter(decorates(plot)), flair_before()).contains(y) <==> s.flair.contains(y) && y.plot_id == Some(plot),
        ordered(s.flair.filter(is_flair_of(owner)), flair_before()).contains(y) <==> s.flair.contains(y)
            && y.owner_character_id == owner,
{
    let by_id = structure_before();
    let by_flair = flair_before();
    assert forall|a: StructureView, b: StructureView| #[trigger] by_id(a, b) implies !by_id(b, a) by {
        lemma_text_before(a.id, b.id, a.id);
    }
    assert forall|a: StructureView, b: StructureView, c: StructureView|
        !(#[trigger] by_id(a, b)) && !(#[trigger] by_id(b, c)) implies !by_id(a, c) by {
        lemma_not_before(a.id, b.id, c.id);
    }
    assert forall|a: FlairView, b: FlairView| #[trigger] by_flair(a, b) implies !by_flair(b, a) by {
        lemma_text_before(a.id, b.id, a.id);
    }
    assert forall|a: FlairView, b: FlairView, c: FlairView|
        !(#[trigger] by_flair(a, b)) && !(#[trigger] by_flair(b, c)) implies !by_flair(a, c) by {
        lemma_not_before(a.id, b.id, c.id);
    }
    lemma_shown(s.structures, stands_on(plot), by_id, x);
    lemma_shown(s.flair, decorates(plot), by_flair, y);
    lemma_shown(s.flair, is_flair_of(owner), by_flair, y);
}

/// What is selected and put in order is exactly what was there and satisfies the predicate.
pub proof fn lemma_shown<A>(s: Seq<A>, p: spec_fn(A) -> bool, before: spec_fn(A, A) -> bool, x: A)
    requires
        orders_rows(before),
    ensures
        ordered(s.filter(p), before).contains(x) <==> s.contains(x) && p(x),
{
    let f = s.filter(p);
    let out = ordered(f, before);
    law_page(f, before, -1, x);
    assert(limited(out, -1) == out);
    lemma_filter_contains(s, p, x);
    if out.contains(x) {
        let k = choose|k: int| 0 <= k < out.len() && out[k] == x;
        assert(f.contains(out[k]));
    }
}

/// What does not come before the next does not come before the one after.
pub proof fn lemma_not_before(a: Seq<char>, b: Seq<char>, c: Seq<char>)
    ensures
        !text_before(a, b) && !text_before(b, c) ==> !text_before(a, c),
{
    lemma_text_before(a, b, c);
    lemma_text_before(c, b, a);
    lemma_text_before(a, c, b);
}

/// A district shows the nodes that lie in it, by id, and no others; the structures shown in it are those on its plots.
pub proof fn law_a_district_shows_what_lies_in_it(
    s: DbView,
    district: Seq<char>,
    n: ResourceNodeView,
    x: StructureView,
    k: int,
)
    requires
        forall|i: int, j: int| 0 <= i < j < s.plots.len() ==> (#[trigger] s.plots[i]).id != (#[trigger] s.plots[j]).id,
    ensures
        ordered(s.nodes.filter(is_node_in(district)), node_before()).contains(n) <==> s.nodes.contains(n) && n.district == district,
        0 <= k < s.plots.len() && s.plots[k].id == x.plot_id ==> (ordered(
            s.structures.filter(stands_in(s.plots, district)),
            structure_before(),
        ).contains(x) <==> s.structures.contains(x) && s.plots[k].district == district),
{
    let by_id = structure_before();
    let by_node = node_before();
    assert forall|a: StructureView, b: StructureView| #[trigger] by_id(a, b) implies !by_id(b, a) by {
        lemma_text_before(a.id, b.id, a.id);
    }
    assert forall|a: StructureView, b: StructureView, c: StructureView|
        !(#[trigger] by_id(a, b)) && !(#[trigger] by_id(b, c)) implies !by_id(a, c) by {
        lemma_not_before(a.id, b.id, c.id);
    }
    assert forall|a: ResourceNodeView, b: ResourceNodeView| #[trigger] by_node(a, b) implies !by_node(b, a) by {
        lemma_text_before(a.id, b.id, a.id);
    }
    assert forall|a: ResourceNodeView, b: ResourceNodeView, c: ResourceNodeView|
        !(#[trigger] by_node(a, b)) && !(#[trigger] by_node(b, c)) implies !by_node(a, c) by {
        lemma_not_before(a.id, b.id, c.id);
    }
    lemma_shown(s.nodes, is_node_in(district), by_node, n);
    lemma_shown(s.structures, stands_in(s.plots, district), by_id, x);
    if 0 <= k < s.plots.len() && s.plots[k].id == x.plot_id {
        assert forall|i: int| 0 <= i < k implies !is_plot(x.plot_id)(#[trigger] s.plots[i]) by {
            assert(s.plots[i].id != s.plots[k].id);
        }
        lemma_find_is(s.plots, is_plot(x.plot_id), k);
    }
}

/// The world's objects are shown from the oldest on, all that were not deleted; deleting one deletes all under its id and no
/// other.
pub proof fn law_objects_are_shown_oldest_first(objects: Seq<WorldObjectView>, id: Seq<char>, x: WorldObjectView, i: int, j: int)
    ensures
        ({
            let out = ordered(objects, object_before());
            &&& out.contains(x) <==> objects.contains(x)
            &&& 0 <= i < j < out.len() ==> out[i].created_at <= out[j].created_at
        }),
        objects.filter(not(is_object(id))).contains(x) <==> objects.contains(x) && x.id != id,
{
    let before = object_before();
    assert forall|a: WorldObjectView, b: WorldObjectView| #[trigger] before(a, b) implies !before(b, a) by {
        lemma_text_before(a.id, b.id, a.id);
    }
    assert forall|a: WorldObjectView, b: WorldObjectView, c: WorldObjectView|
        !(#[trigger] before(a, b)) && !(#[trigger] before(b, c)) implies !before(a, c) by {
        lemma_not_before(a.id, b.id, c.id);
    }
    let out = ordered(objects, before);
    law_page(objects, before, -1, x);
    assert(limited(out, -1) == out);
    if out.contains(x) {
        let k = choose|k: int| 0 <= k < out.len() && out[k] == x;
        assert(objects.contains(out[k]));
    }
    if 0 <= i < j < out.len() {
        assert(!before(out[j], out[i]));
    }
    lemma_filter_contains(objects, not(is_object(id)), x);
}

} // verus!
