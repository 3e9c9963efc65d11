//! Named quantities, kept in the order of their names.

use vstd::prelude::*;

use crate::table::{find, lemma_find, lemma_find_is, sum};
use crate::text::{before, lemma_text_before, pairs_view, same, text_before};

verus! {

/// Whether an entry has this name.
pub open spec fn named(name: Seq<char>) -> spec_fn((Seq<char>, int)) -> bool {
    |e: (Seq<char>, int)| e.0 == name
}

/// Whether names are in order, each once.
pub open spec fn in_name_order(s: Seq<(Seq<char>, int)>) -> bool {
    forall|i: int, j: int| 0 <= i < j < s.len() ==> text_before((#[trigger] s[i]).0, (#[trigger] s[j]).0)
}

/// The quantity under a name, if it is there.
pub open spec fn lookup(s: Seq<(Seq<char>, int)>, name: Seq<char>) -> Option<int> {
    let k = find(s, named(name));
    if k < s.len() {
        Some(s[k].1)
    } else {
        None
    }
}

/// The quantity under a name, or 0.
pub open spec fn amount(s: Seq<(Seq<char>, int)>, name: Seq<char>) -> int {
    match lookup(s, name) {
        Some(n) => n,
        None => 0,
    }
}

/// Whether an entry belongs behind a name.
pub open spec fn behind(name: Seq<char>) -> spec_fn((Seq<char>, int)) -> bool {
    |e: (Seq<char>, int)| !text_before(e.0, name)
}

/// The quantities after `d` is added under a name.
pub open spec fn added(s: Seq<(Seq<char>, int)>, name: Seq<char>, d: int) -> Seq<(Seq<char>, int)> {
    let k = find(s, behind(name));
    if k < s.len() && s[k].0 == name {
        s.update(k, (name, s[k].1 + d))
    } else {
        s.insert(k, (name, d))
    }
}

/// The quantities of rows added up by name.
pub open spec fn tallied_by<A>(
    rows: Seq<A>,
    name: spec_fn(A) -> Seq<char>,
    qty: spec_fn(A) -> int,
) -> Seq<(Seq<char>, int)>
    decreases rows.len(),
{
    if rows.len() == 0 {
        Seq::empty()
    } else {
        added(tallied_by(rows.drop_last(), name, qty), name(rows.last()), qty(rows.last()))
    }
}

/// What a row adds under a name.
pub open spec fn qty_under<A>(
    name: spec_fn(A) -> Seq<char>,
    qty: spec_fn(A) -> int,
    key: Seq<char>,
) -> spec_fn(A) -> int {
    |a: A|
        if name(a) == key {
            qty(a)
        } else {
            0
        }
}

/// In name order, a name is found where the entries behind it begin.
pub proof fn lemma_added(s: Seq<(Seq<char>, int)>, name: Seq<char>, d: int)
    requires
        in_name_order(s),
    ensures
        in_name_order(added(s, name, d)),
        amount(added(s, name, d), name) == amount(s, name) + d,
        lookup(added(s, name, d), name) is Some,
        forall|other: Seq<char>|
            other != name ==> #[trigger] lookup(added(s, name, d), other) == lookup(s, other),
        find(s, named(name)) < s.len() ==> find(s, named(name)) == find(s, behind(name)),
{
    let k = find(s, behind(name));
    let t = added(s, name, d);
    lemma_find(s, behind(name));
    lemma_find(s, named(name));
    assert forall|i: int| 0 <= i < k implies text_before((#[trigger] s[i]).0, name) by {
        assert(!behind(name)(s[i]));
    }
    assert forall|i: int| 0 <= i < k implies !named(name)(#[trigger] s[i]) by {
        assert(text_before(s[i].0, name));
        lemma_text_before(s[i].0, name, name);
    }
    if k < s.len() {
        lemma_text_before(s[k].0, name, name);
    }
    let present = k < s.len() && s[k].0 == name;
    assert forall|i: int| k <= i < s.len() && (!present || i > k) implies text_before(
        name,
        (#[trigger] s[i]).0,
    ) by {
        if i > k {
            assert(text_before(s[k].0, s[i].0));
            lemma_text_before(name, s[k].0, s[i].0);
        }
    }
    if present {
        lemma_find_is(s, named(name), k);
        lemma_find_is(t, named(name), k);
    } else {
        assert forall|i: int| 0 <= i < s.len() implies !named(name)(#[trigger] s[i]) by {
            if i >= k {
                assert(text_before(name, s[i].0));
                lemma_text_before(name, s[i].0, name);
            }
        }
        lemma_find_is(s, named(name), s.len() as int);
        assert forall|i: int| 0 <= i < k implies !named(name)(#[trigger] t[i]) by {
            assert(t[i] == s[i]);
        }
        lemma_find_is(t, named(name), k);
    }
    assert forall|i: int, j: int| 0 <= i < j < t.len() implies text_before(
        (#[trigger] t[i]).0,
        (#[trigger] t[j]).0,
    ) by {
        if present {
            assert(t[i].0 == s[i].0 && t[j].0 == s[j].0);
        } else {
            let i0 = if i < k {
                i
            } else {
                i - 1
            };
            let j0 = if j < k {
                j
            } else {
                j - 1
            };
            if i == k {
                assert(t[j] == s[j0]);
            } else if j == k {
                assert(t[i] == s[i0]);
            } else {
                assert(t[i] == s[i0] && t[j] == s[j0]);
            }
        }
    }
    assert forall|other: Seq<char>| other != name implies #[trigger] lookup(t, other) == lookup(s, other) by {
        lemma_find(s, named(other));
        let m = find(s, named(other));
        if present {
            assert forall|i: int| 0 <= i < m implies !named(other)(#[trigger] t[i]) by {
                assert(!named(other)(s[i]));
            }
            lemma_find_is(t, named(other), m);
        } else {
            let m1 = if m < k {
                m
            } else {
                m + 1
            };
            assert forall|i: int| 0 <= i < m1 implies !named(other)(#[trigger] t[i]) by {
                if i < k {
                    assert(t[i] == s[i]);
                    assert(!named(other)(s[i]));
                } else if i > k {
                    assert(t[i] == s[i - 1]);
                    assert(!named(other)(s[i - 1]));
                }
            }
            if m < s.len() {
                assert(t[m1] == s[m]);
            }
            lemma_find_is(t, named(other), m1);
        }
    }
}

/// Under each name stands the sum of what the rows of that name add.
pub proof fn law_tally_sums_by_name<A>(
    rows: Seq<A>,
    name: spec_fn(A) -> Seq<char>,
    qty: spec_fn(A) -> int,
    key: Seq<char>,
)
    ensures
        in_name_order(tallied_by(rows, name, qty)),
        amount(tallied_by(rows, name, qty), key) == sum(rows, qty_under(name, qty, key)),
        lookup(tallied_by(rows, name, qty), key) is Some <==> exists|i: int|
            0 <= i < rows.len() && name(#[trigger] rows[i]) == key,
    decreases rows.len(),
{
    if rows.len() == 0 {
        lemma_find(Seq::<(Seq<char>, int)>::empty(), named(key));
    } else {
        let head = rows.drop_last();
        law_tally_sums_by_name(head, name, qty, key);
        lemma_added(tallied_by(head, name, qty), name(rows.last()), qty(rows.last()));
        if exists|i: int| 0 <= i < head.len() && name(#[trigger] head[i]) == key {
            let i = choose|i: int| 0 <= i < head.len() && name(#[trigger] head[i]) == key;
            assert(rows[i] == head[i]);
        }
        if exists|i: int| 0 <= i < rows.len() && name(#[trigger] rows[i]) == key {
            let i = choose|i: int| 0 <= i < rows.len() && name(#[trigger] rows[i]) == key;
            if i < head.len() {
                assert(rows[i] == head[i]);
            } else {
                assert(rows[i] == rows.last());
            }
        }
        assert(rows[rows.len() - 1] == rows.last());
    }
}

/// Where a name is, or would be.
fn place_of(v: &Vec<(String, i64)>, name: &str) -> (k: usize)
    ensures
        k == find(pairs_view(v@), behind(name@)),
        k <= v.len(),
{
    let mut k: usize = 0;
    while k < v.len()
        invariant_except_break
            k <= v.len(),
            forall|i: int| 0 <= i < k ==> !behind(name@)(#[trigger] pairs_view(v@)[i]),
        ensures
            k <= v.len(),
            forall|i: int| 0 <= i < k ==> !behind(name@)(#[trigger] pairs_view(v@)[i]),
            k < v.len() ==> behind(name@)(pairs_view(v@)[k as int]),
        decreases v.len() - k,
    {
        if !before(v[k].0.as_str(), name) {
            break ;
        }
        k = k + 1;
    }
    proof {
        lemma_find_is(pairs_view(v@), behind(name@), k as int);
    }
    k
}

/// Add a quantity under a name.
pub fn add_named(v: &mut Vec<(String, i64)>, name: &str, d: i64)
    requires
        in_name_order(pairs_view(old(v)@)),
        i64::MIN <= amount(pairs_view(old(v)@), name@) + d <= i64::MAX,
    ensures
        pairs_view(final(v)@) == added(pairs_view(old(v)@), name@, d as int),
        in_name_order(pairs_view(final(v)@)),
{
    let ghost s = pairs_view(v@);
    let k: usize = place_of(v, name);
    proof {
        lemma_added(s, name@, d as int);
        lemma_find(s, named(name@));
    }
    if k < v.len() && same(v[k].0.as_str(), name) {
        proof {
            assert(named(name@)(s[k as int]));
            assert(find(s, named(name@)) < s.len()) by {
                if find(s, named(name@)) == s.len() {
                    assert(!named(name@)(s[k as int]));
                }
            }
        }
        let n: i64 = v[k].1;
        let key = v[k].0.clone();
        v.set(k, (key, n + d));
        assert(pairs_view(v@) =~= added(s, name@, d as int));
    } else {
        v.insert(k, (name.to_string(), d));
        assert(pairs_view(v@) =~= added(s, name@, d as int));
    }
}

/// Names in order, each once.
pub open spec fn sorted_names(names: Seq<Seq<char>>) -> Seq<(Seq<char>, int)> {
    tallied_by(names, |n: Seq<char>| n, |n: Seq<char>| 0int)
}

/// Note a name among those noted so far.
pub fn note_name(names: &mut Vec<(String, i64)>, name: &str, all: Ghost<Seq<Seq<char>>>)
    requires
        pairs_view(old(names)@) == sorted_names(all@),
    ensures
        pairs_view(final(names)@) == sorted_names(all@.push(name@)),
{
    proof {
        let f = |n: Seq<char>| n;
        let g = |n: Seq<char>| 0int;
        law_tally_sums_by_name(all@, f, g, name@);
        lemma_zero(all@, f, g, name@);
        assert(all@.push(name@).drop_last() =~= all@);
    }
    add_named(names, name, 0);
}

proof fn lemma_zero(names: Seq<Seq<char>>, f: spec_fn(Seq<char>) -> Seq<char>, g: spec_fn(Seq<char>) -> int, key: Seq<char>)
    requires
        forall|n: Seq<char>| #[trigger] g(n) == 0,
    ensures
        sum(names, qty_under(f, g, key)) == 0,
    decreases names.len(),
{
    if names.len() > 0 {
        lemma_zero(names.drop_last(), f, g, key);
    }
}

/// A name is among the sorted ones exactly if it is among the names.
pub proof fn law_sorted_names(names: Seq<Seq<char>>, key: Seq<char>)
    ensures
        (exists|i: int| 0 <= i < sorted_names(names).len() && (#[trigger] sorted_names(names)[i]).0 == key)
            <==> names.contains(key),
{
    let f = |n: Seq<char>| n;
    let g = |n: Seq<char>| 0int;
    law_tally_sums_by_name(names, f, g, key);
    let t = sorted_names(names);
    lemma_find(t, named(key));
    if names.contains(key) {
        let i = choose|i: int| 0 <= i < names.len() && names[i] == key;
        assert(f(names[i]) == key);
        assert(t[find(t, named(key))].0 == key);
    }
    if exists|i: int| 0 <= i < t.len() && (#[trigger] t[i]).0 == key {
        let i = choose|i: int| 0 <= i < t.len() && (#[trigger] t[i]).0 == key;
        assert(named(key)(t[i]));
        let j = choose|j: int| 0 <= j < names.len() && f(#[trigger] names[j]) == key;
        assert(names[j] == key);
    }
}

} // verus!
