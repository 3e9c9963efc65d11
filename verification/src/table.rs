//! Ordered tables of rows, and the searches, sums and selections made over them.

use vstd::prelude::*;

verus! {

/// The position of the first element that satisfies `p`, or the length when none does.
pub open spec fn find<A>(s: Seq<A>, p: spec_fn(A) -> bool) -> int
    decreases s.len(),
{
    if s.len() == 0 {
        0
    } else if find(s.drop_last(), p) < s.len() - 1 {
        find(s.drop_last(), p)
    } else if p(s.last()) {
        s.len() - 1
    } else {
        s.len() as int
    }
}

/// The sum of `f` over a sequence.
pub open spec fn sum<A>(s: Seq<A>, f: spec_fn(A) -> int) -> int
    decreases s.len(),
{
    if s.len() == 0 {
        0
    } else {
        sum(s.drop_last(), f) + f(s.last())
    }
}

/// The number of elements that satisfy `p`.
pub open spec fn count<A>(s: Seq<A>, p: spec_fn(A) -> bool) -> int {
    sum(s, |a: A| if p(a) { 1int } else { 0int })
}

pub proof fn lemma_find<A>(s: Seq<A>, p: spec_fn(A) -> bool)
    ensures
        0 <= find(s, p) <= s.len(),
        find(s, p) < s.len() ==> p(s[find(s, p)]),
        forall|i: int| 0 <= i < find(s, p) ==> !p(#[trigger] s[i]),
    decreases s.len(),
{
    if s.len() > 0 {
        lemma_find(s.drop_last(), p);
        assert forall|i: int| 0 <= i < find(s, p) implies !p(#[trigger] s[i]) by {
            if i < s.len() - 1 {
                assert(s.drop_last()[i] == s[i]);
            }
        }
    }
}

pub proof fn lemma_find_is<A>(s: Seq<A>, p: spec_fn(A) -> bool, k: int)
    requires
        0 <= k <= s.len(),
        k < s.len() ==> p(s[k]),
        forall|i: int| 0 <= i < k ==> !p(#[trigger] s[i]),
    ensures
        find(s, p) == k,
{
    lemma_find(s, p);
}

pub proof fn lemma_sum_push<A>(s: Seq<A>, f: spec_fn(A) -> int, a: A)
    ensures
        sum(s.push(a), f) == sum(s, f) + f(a),
{
    assert(s.push(a).drop_last() =~= s);
}

pub proof fn lemma_sum_update<A>(s: Seq<A>, f: spec_fn(A) -> int, i: int, a: A)
    requires
        0 <= i < s.len(),
    ensures
        sum(s.update(i, a), f) == sum(s, f) - f(s[i]) + f(a),
    decreases s.len(),
{
    let t = s.update(i, a);
    if i == s.len() - 1 {
        assert(t.drop_last() =~= s.drop_last());
    } else {
        assert(t.drop_last() =~= s.drop_last().update(i, a));
        lemma_sum_update(s.drop_last(), f, i, a);
    }
}

pub proof fn lemma_sum_remove<A>(s: Seq<A>, f: spec_fn(A) -> int, i: int)
    requires
        0 <= i < s.len(),
    ensures
        sum(s.remove(i), f) == sum(s, f) - f(s[i]),
    decreases s.len(),
{
    let t = s.remove(i);
    if i == s.len() - 1 {
        assert(t =~= s.drop_last());
    } else {
        assert(t.drop_last() =~= s.drop_last().remove(i));
        lemma_sum_remove(s.drop_last(), f, i);
    }
}

/// A sum of terms that are never negative is never negative, and is at least each term.
pub proof fn lemma_sum_nonneg<A>(s: Seq<A>, f: spec_fn(A) -> int)
    requires
        forall|i: int| 0 <= i < s.len() ==> f(#[trigger] s[i]) >= 0,
    ensures
        sum(s, f) >= 0,
        forall|i: int| 0 <= i < s.len() ==> f(#[trigger] s[i]) <= sum(s, f),
    decreases s.len(),
{
    if s.len() > 0 {
        assert forall|i: int| 0 <= i < s.drop_last().len() implies f(#[trigger] s.drop_last()[i]) >= 0 by {
            assert(s.drop_last()[i] == s[i]);
        }
        lemma_sum_nonneg(s.drop_last(), f);
        assert forall|i: int| 0 <= i < s.len() implies f(#[trigger] s[i]) <= sum(s, f) by {
            if i < s.len() - 1 {
                assert(s.drop_last()[i] == s[i]);
            }
        }
    }
}

/// Fewer terms that are never negative give a smaller sum.
pub proof fn lemma_sum_prefix<A>(s: Seq<A>, f: spec_fn(A) -> int, i: int)
    requires
        0 <= i <= s.len(),
        forall|j: int| 0 <= j < s.len() ==> f(#[trigger] s[j]) >= 0,
    ensures
        sum(s.take(i), f) <= sum(s, f),
    decreases s.len(),
{
    if i == s.len() {
        assert(s.take(i) =~= s);
    } else {
        assert(s.drop_last().take(i) =~= s.take(i));
        assert forall|j: int| 0 <= j < s.drop_last().len() implies f(#[trigger] s.drop_last()[j]) >= 0 by {
            assert(s.drop_last()[j] == s[j]);
        }
        lemma_sum_prefix(s.drop_last(), f, i);
        assert(f(s[s.len() - 1]) >= 0);
    }
}

/// Summing smaller terms gives a smaller sum.
pub proof fn lemma_sum_le<A>(s: Seq<A>, f: spec_fn(A) -> int, g: spec_fn(A) -> int)
    requires
        forall|i: int| 0 <= i < s.len() ==> f(#[trigger] s[i]) <= g(s[i]),
    ensures
        sum(s, f) <= sum(s, g),
    decreases s.len(),
{
    if s.len() > 0 {
        assert forall|i: int| 0 <= i < s.drop_last().len() implies f(#[trigger] s.drop_last()[i]) <= g(
            s.drop_last()[i],
        ) by {
            assert(s.drop_last()[i] == s[i]);
        }
        lemma_sum_le(s.drop_last(), f, g);
    }
}

/// A sequence with one more element, put after every element that it does not come before.
pub open spec fn put_in<A>(s: Seq<A>, a: A, before: spec_fn(A, A) -> bool) -> Seq<A>
    decreases s.len(),
{
    if s.len() == 0 || !before(a, s.last()) {
        s.push(a)
    } else {
        put_in(s.drop_last(), a, before).push(s.last())
    }
}

/// A sequence put in order; elements of which neither comes before the other keep their order.
pub open spec fn ordered<A>(s: Seq<A>, before: spec_fn(A, A) -> bool) -> Seq<A>
    decreases s.len(),
{
    if s.len() == 0 {
        s
    } else {
        put_in(ordered(s.drop_last(), before), s.last(), before)
    }
}

/// At most `limit` elements from the front; all of them when the limit is negative.
pub open spec fn limited<A>(s: Seq<A>, limit: int) -> Seq<A> {
    if 0 <= limit < s.len() {
        s.take(limit)
    } else {
        s
    }
}

/// Whether no element comes before an earlier one.
pub open spec fn in_order<A>(s: Seq<A>, before: spec_fn(A, A) -> bool) -> bool {
    forall|i: int, j: int| 0 <= i < j < s.len() ==> !before(#[trigger] s[j], #[trigger] s[i])
}

/// Whether `before` is a strict order in which what is not before either way is interchangeable.
pub open spec fn orders_rows<A>(before: spec_fn(A, A) -> bool) -> bool {
    &&& forall|a: A, b: A| #[trigger] before(a, b) ==> !before(b, a)
    &&& forall|a: A, b: A, c: A|
        !(#[trigger] before(a, b)) && !(#[trigger] before(b, c)) ==> !before(a, c)
}

proof fn lemma_put_in<A>(s: Seq<A>, a: A, before: spec_fn(A, A) -> bool)
    requires
        orders_rows(before),
        in_order(s, before),
    ensures
        in_order(put_in(s, a, before), before),
        put_in(s, a, before).to_multiset() == s.push(a).to_multiset(),
        put_in(s, a, before).len() == s.len() + 1,
        forall|i: int|
            0 <= i < put_in(s, a, before).len() ==> (#[trigger] put_in(s, a, before)[i]) == a || s.contains(
                put_in(s, a, before)[i],
            ),
    decreases s.len(),
{
    broadcast use vstd::seq_lib::group_to_multiset_ensures;

    if s.len() == 0 || !before(a, s.last()) {
        let t = s.push(a);
        assert forall|i: int, j: int| 0 <= i < j < t.len() implies !before(#[trigger] t[j], #[trigger] t[i]) by {
            if j == s.len() && i < s.len() - 1 {
                assert(!before(s.last(), s[i]));
                assert(!before(a, s.last()));
            }
        }
        assert forall|i: int| 0 <= i < t.len() implies (#[trigger] t[i]) == a || s.contains(t[i]) by {
            if i < s.len() {
                assert(t[i] == s[i]);
            }
        }
    } else {
        let u = s.drop_last();
        assert forall|i: int, j: int| 0 <= i < j < u.len() implies !before(#[trigger] u[j], #[trigger] u[i]) by {
            assert(u[i] == s[i] && u[j] == s[j]);
        }
        lemma_put_in(u, a, before);
        let v = put_in(u, a, before);
        let t = v.push(s.last());
        assert forall|i: int, j: int| 0 <= i < j < t.len() implies !before(#[trigger] t[j], #[trigger] t[i]) by {
            if j == v.len() {
                assert(v[i] == a || u.contains(v[i]));
                if v[i] != a {
                    let m = choose|m: int| 0 <= m < u.len() && u[m] == v[i];
                    assert(u[m] == s[m]);
                    assert(!before(s.last(), s[m]));
                }
            } else {
                assert(t[i] == v[i] && t[j] == v[j]);
            }
        }
        assert(s =~= u.push(s.last()));
        assert forall|i: int| 0 <= i < t.len() implies (#[trigger] t[i]) == a || s.contains(t[i]) by {
            if i < v.len() {
                assert(t[i] == v[i]);
                if v[i] != a {
                    let m = choose|m: int| 0 <= m < u.len() && u[m] == v[i];
                    assert(s[m] == v[i]);
                }
            } else {
                assert(t[i] == s[s.len() - 1]);
            }
        }
        assert(t.to_multiset() =~= s.push(a).to_multiset());
    }
}

/// The position of the element that comes first in an order among those that satisfy `p`, or the length when none does.
pub open spec fn least<A>(s: Seq<A>, p: spec_fn(A) -> bool, before: spec_fn(A, A) -> bool) -> int
    decreases s.len(),
{
    if s.len() == 0 {
        0
    } else {
        let k = least(s.drop_last(), p, before);
        let last = s.len() - 1;
        if k < last {
            if p(s.last()) && before(s.last(), s[k]) {
                last
            } else {
                k
            }
        } else if p(s.last()) {
            last
        } else {
            s.len() as int
        }
    }
}

pub proof fn lemma_least<A>(s: Seq<A>, p: spec_fn(A) -> bool, before: spec_fn(A, A) -> bool)
    ensures
        0 <= least(s, p, before) <= s.len(),
        least(s, p, before) < s.len() ==> p(s[least(s, p, before)]),
        least(s, p, before) == s.len() ==> forall|i: int| 0 <= i < s.len() ==> !p(#[trigger] s[i]),
    decreases s.len(),
{
    if s.len() > 0 {
        lemma_least(s.drop_last(), p, before);
        if least(s, p, before) == s.len() {
            assert forall|i: int| 0 <= i < s.len() implies !p(#[trigger] s[i]) by {
                if i < s.len() - 1 {
                    assert(s.drop_last()[i] == s[i]);
                }
            }
        }
    }
}

/// Nothing that satisfies a predicate comes before the least that does.
pub proof fn law_least<A>(s: Seq<A>, p: spec_fn(A) -> bool, before: spec_fn(A, A) -> bool)
    requires
        orders_rows(before),
    ensures
        forall|i: int|
            0 <= i < s.len() && p(#[trigger] s[i]) ==> least(s, p, before) < s.len() && !before(
                s[i],
                s[least(s, p, before)],
            ),
    decreases s.len(),
{
    lemma_least(s, p, before);
    if s.len() > 0 {
        let u = s.drop_last();
        law_least(u, p, before);
        lemma_least(u, p, before);
        let k = least(s, p, before);
        let j = least(u, p, before);
        assert forall|i: int| 0 <= i < s.len() && p(#[trigger] s[i]) implies k < s.len() && !before(s[i], s[k]) by {
            if i < u.len() {
                assert(u[i] == s[i]);
                assert(!before(u[i], u[j]));
                assert(u[j] == s[j]);
                if k != j {
                    assert(!before(s[j], s.last()));
                }
            } else if k == s.len() - 1 {
                assert(before(s[i], s[i]) ==> !before(s[i], s[i]));
            }
        }
    }
}

/// Putting rows in order loses none and adds none, and puts none behind one it comes before.
pub proof fn law_ordered<A>(s: Seq<A>, before: spec_fn(A, A) -> bool)
    requires
        orders_rows(before),
    ensures
        in_order(ordered(s, before), before),
        ordered(s, before).to_multiset() == s.to_multiset(),
        ordered(s, before).len() == s.len(),
    decreases s.len(),
{
    broadcast use vstd::seq_lib::group_to_multiset_ensures;

    if s.len() > 0 {
        law_ordered(s.drop_last(), before);
        lemma_put_in(ordered(s.drop_last(), before), s.last(), before);
        assert(s =~= s.drop_last().push(s.last()));
    }
}

/// Every row in order was there before.
pub proof fn lemma_ordered_contains<A>(s: Seq<A>, before: spec_fn(A, A) -> bool)
    requires
        orders_rows(before),
    ensures
        forall|i: int| 0 <= i < ordered(s, before).len() ==> s.contains(#[trigger] ordered(s, before)[i]),
{
    law_ordered(s, before);
    let t = ordered(s, before);
    t.to_multiset_ensures();
    s.to_multiset_ensures();
    assert forall|i: int| 0 <= i < t.len() implies s.contains(#[trigger] t[i]) by {
        assert(t.contains(t[i]));
        assert(t.to_multiset().count(t[i]) > 0);
    }
}

/// A page of some rows holds only those, no more than the limit, and nothing behind what it comes before; what is not on the
/// page comes before nothing on it, and is left out only by a full page.
pub proof fn law_page<A>(f: Seq<A>, before: spec_fn(A, A) -> bool, limit: int, x: A)
    requires
        orders_rows(before),
    ensures
        ({
            let out = limited(ordered(f, before), limit);
            &&& forall|i: int| 0 <= i < out.len() ==> f.contains(#[trigger] out[i])
            &&& in_order(out, before)
            &&& limit >= 0 ==> out.len() <= limit
            &&& limit < 0 || out.len() < limit ==> out.len() == f.len()
            &&& f.contains(x) && !out.contains(x) ==> {
                &&& limit >= 0 && out.len() == limit
                &&& forall|i: int| 0 <= i < out.len() ==> !before(x, #[trigger] out[i])
            }
        }),
{
    let o = ordered(f, before);
    let out = limited(o, limit);
    law_ordered(f, before);
    lemma_ordered_contains(f, before);
    assert forall|i: int| 0 <= i < out.len() implies f.contains(#[trigger] out[i]) by {
        assert(f.contains(o[i]));
    }
    if f.contains(x) && !out.contains(x) {
        o.to_multiset_ensures();
        f.to_multiset_ensures();
        assert(f.to_multiset().count(x) > 0);
        assert(o.contains(x));
        let j = choose|j: int| 0 <= j < o.len() && o[j] == x;
        if j < out.len() {
            assert(out[j] == x);
        }
        assert forall|i: int| 0 <= i < out.len() implies !before(x, #[trigger] out[i]) by {
            assert(!before(o[j], o[i]));
        }
    }
}

/// The places of the rows of a sequence, in the order of the rows.
pub open spec fn places<A>(s: Seq<A>, before: spec_fn(A, A) -> bool, n: int) -> Seq<int>
    decreases n,
{
    if n <= 0 {
        Seq::empty()
    } else {
        put_in(places(s, before, n - 1), n - 1, |i: int, j: int| before(s[i], s[j]))
    }
}

/// Putting rows in order only moves them: each stands at its own place of before, one that comes before another stands ahead
/// of it, and of two that are equal the earlier one does.
pub proof fn law_equals_keep_their_order<A>(s: Seq<A>, before: spec_fn(A, A) -> bool, i: int, j: int)
    requires
        orders_rows(before),
    ensures
        ({
            let out = ordered(s, before);
            let at = places(s, before, s.len() as int);
            &&& out.len() == s.len() && at.len() == s.len()
            &&& 0 <= i < s.len() ==> 0 <= at[i] < s.len() && out[i] == s[at[i]]
            &&& 0 <= i < j < s.len() ==> at[i] != at[j]
            &&& 0 <= i < j < s.len() ==> before(out[i], out[j]) || (!before(out[j], out[i]) && at[i] < at[j])
        }),
{
    lemma_places(s, before, s.len() as int);
    assert(s.take(s.len() as int) =~= s);
}

proof fn lemma_places<A>(s: Seq<A>, before: spec_fn(A, A) -> bool, n: int)
    requires
        orders_rows(before),
        0 <= n <= s.len(),
    ensures
        ({
            let at = places(s, before, n);
            let out = ordered(s.take(n), before);
            &&& at.len() == n && out.len() == n
            &&& forall|i: int| 0 <= i < n ==> 0 <= #[trigger] at[i] < n
            &&& forall|i: int| 0 <= i < n ==> #[trigger] out[i] == s[at[i]]
            &&& forall|i: int, j: int|
                0 <= i < j < n ==> (#[trigger] at[i]) != (#[trigger] at[j]) && (before(s[at[i]], s[at[j]]) || (!before(
                    s[at[j]],
                    s[at[i]],
                ) && at[i] < at[j]))
        }),
    decreases n,
{
    if n > 0 {
        lemma_places(s, before, n - 1);
        let at = places(s, before, n - 1);
        let out = ordered(s.take(n - 1), before);
        assert(s.take(n).drop_last() =~= s.take(n - 1));
        assert(s.take(n).last() == s[n - 1]);
        lemma_put_in_place(s, before, at, out, n - 1);
    }
}

proof fn lemma_put_in_place<A>(s: Seq<A>, before: spec_fn(A, A) -> bool, at: Seq<int>, out: Seq<A>, n: int)
    requires
        orders_rows(before),
        0 <= n < s.len(),
        at.len() == out.len(),
        forall|i: int| 0 <= i < at.len() ==> 0 <= #[trigger] at[i] < n,
        forall|i: int| 0 <= i < at.len() ==> #[trigger] out[i] == s[at[i]],
        forall|i: int, j: int|
            0 <= i < j < at.len() ==> (#[trigger] at[i]) != (#[trigger] at[j]) && (before(s[at[i]], s[at[j]]) || (!before(
                s[at[j]],
                s[at[i]],
            ) && at[i] < at[j])),
    ensures
        ({
            let at1 = put_in(at, n, |i: int, j: int| before(s[i], s[j]));
            let out1 = put_in(out, s[n], before);
            &&& at1.len() == at.len() + 1 && out1.len() == at.len() + 1
            &&& forall|i: int| 0 <= i < at1.len() ==> 0 <= #[trigger] at1[i] <= n
            &&& forall|i: int| 0 <= i < at1.len() ==> at1[i] == n || exists|j: int| 0 <= j < at.len() && at[j] == #[trigger] at1[i]
            &&& forall|i: int| 0 <= i < at1.len() ==> #[trigger] out1[i] == s[at1[i]]
            &&& forall|i: int, j: int|
                0 <= i < j < at1.len() ==> (#[trigger] at1[i]) != (#[trigger] at1[j]) && (before(s[at1[i]], s[at1[j]]) || (
                !before(s[at1[j]], s[at1[i]]) && at1[i] < at1[j]))
        }),
    decreases at.len(),
{
    let by_row = |i: int, j: int| before(s[i], s[j]);
    let at1 = put_in(at, n, by_row);
    let out1 = put_in(out, s[n], before);
    if at.len() == 0 || !before(s[n], out.last()) {
        if at.len() > 0 {
            let z = at.len() - 1;
            assert(out[z] == s[at[z]]);
            assert forall|i: int, j: int| 0 <= i < j < at1.len() implies (#[trigger] at1[i]) != (#[trigger] at1[j]) && (before(
                s[at1[i]],
                s[at1[j]],
            ) || (!before(s[at1[j]], s[at1[i]]) && at1[i] < at1[j])) by {
                if j == at.len() {
                    assert(at1[i] == at[i]);
                    if i < z {
                        assert(before(s[at[i]], s[at[z]]) || !before(s[at[z]], s[at[i]]));
                        assert(!before(s[at[z]], s[at[i]]));
                    }
                    assert(!before(s[n], s[at[i]]));
                } else {
                    assert(at1[i] == at[i] && at1[j] == at[j]);
                }
            }
            assert forall|i: int| 0 <= i < at1.len() implies at1[i] == n || exists|j: int|
                0 <= j < at.len() && at[j] == #[trigger] at1[i] by {
                if i < at.len() {
                    assert(at[i] == at1[i]);
                }
            }
        }
    } else {
        let z = at.len() - 1;
        let head = at.drop_last();
        let outs = out.drop_last();
        assert(out[z] == s[at[z]]);
        assert forall|i: int| 0 <= i < head.len() implies 0 <= #[trigger] head[i] < n by {
            assert(head[i] == at[i]);
        }
        assert forall|i: int| 0 <= i < head.len() implies #[trigger] outs[i] == s[head[i]] by {
            assert(outs[i] == out[i]);
        }
        assert forall|i: int, j: int| 0 <= i < j < head.len() implies (#[trigger] head[i]) != (#[trigger] head[j]) && (before(
            s[head[i]],
            s[head[j]],
        ) || (!before(s[head[j]], s[head[i]]) && head[i] < head[j])) by {
            assert(head[i] == at[i] && head[j] == at[j]);
        }
        lemma_put_in_place(s, before, head, outs, n);
        let at0 = put_in(head, n, by_row);
        assert(at1 =~= at0.push(at[z]));
        assert(out1 =~= put_in(outs, s[n], before).push(out[z]));
        assert forall|i: int| 0 <= i < at1.len() implies at1[i] == n || exists|j: int|
            0 <= j < at.len() && at[j] == #[trigger] at1[i] by {
            if i < at0.len() {
                if at0[i] != n {
                    let j = choose|j: int| 0 <= j < head.len() && head[j] == at0[i];
                    assert(at[j] == at1[i]);
                }
            } else {
                assert(at[z] == at1[i]);
            }
        }
        assert forall|i: int, j: int| 0 <= i < j < at1.len() implies (#[trigger] at1[i]) != (#[trigger] at1[j]) && (before(
            s[at1[i]],
            s[at1[j]],
        ) || (!before(s[at1[j]], s[at1[i]]) && at1[i] < at1[j])) by {
            if j < at0.len() {
                assert(at1[i] == at0[i] && at1[j] == at0[j]);
            } else {
                assert(at1[i] == at0[i]);
                if at0[i] != n {
                    let m = choose|m: int| 0 <= m < head.len() && head[m] == at0[i];
                    assert(head[m] == at[m]);
                    assert(at[m] != at[z]);
                }
            }
        }
    }
}

/// What is selected is exactly what was there and satisfies the predicate.
pub proof fn lemma_filter_contains<A>(s: Seq<A>, p: spec_fn(A) -> bool, x: A)
    ensures
        s.filter(p).contains(x) <==> s.contains(x) && p(x),
{
    broadcast use vstd::seq_lib::group_filter_ensures;

    lemma_filter_all(s, p);
    if s.filter(p).contains(x) {
        let i = choose|i: int| 0 <= i < s.filter(p).len() && s.filter(p)[i] == x;
        assert(p(s.filter(p)[i]));
    }
    if s.contains(x) && p(x) {
        let k = choose|k: int| 0 <= k < s.len() && s[k] == x;
        assert(s.filter(p).contains(s[k]));
    }
}

/// Put rows in order.
pub fn order_rows<T: View, F: Fn(&T, &T) -> bool>(
    rows: Vec<T>,
    f: F,
    before: Ghost<spec_fn(T::V, T::V) -> bool>,
) -> (out: Vec<T>)
    requires
        forall|a: &T, b: &T| f.requires((a, b)),
        forall|a: &T, b: &T, r: bool| f.ensures((a, b), r) ==> r == before@(a@, b@),
    ensures
        rows_view(out@) == ordered(rows_view(rows@), before@),
{
    let ghost all = rows_view(rows@);
    let mut rest = rows;
    let mut out: Vec<T> = Vec::new();
    let ghost mut done: int = 0;
    proof {
        assert(rows_view(rest@) =~= all.skip(0));
        assert(rows_view(out@) =~= ordered(all.take(0), before@));
    }
    while rest.len() > 0
        invariant
            forall|a: &T, b: &T| f.requires((a, b)),
            forall|a: &T, b: &T, r: bool| f.ensures((a, b), r) ==> r == before@(a@, b@),
            0 <= done <= all.len(),
            rows_view(rest@) == all.skip(done),
            rows_view(out@) == ordered(all.take(done), before@),
        decreases rest.len(),
    {
        let ghost rest0 = rest@;
        let ghost out0 = rows_view(out@);
        let row = rest.remove(0);
        let ghost a = row@;
        proof {
            assert(rows_view(rest0).len() == rest0.len());
            assert(done < all.len());
            assert(rows_view(rest0)[0] == a);
            assert(all.skip(done)[0] == all[done]);
            assert forall|i: int| 0 <= i < rest@.len() implies rows_view(rest@)[i] == #[trigger] all.skip(
                done + 1,
            )[i] by {
                assert(rows_view(rest@)[i] == rows_view(rest0)[i + 1]);
                assert(all.skip(done)[i + 1] == all[done + i + 1]);
            }
            assert(rows_view(rest@) =~= all.skip(done + 1));
            assert(all.take(done + 1).drop_last() =~= all.take(done));
        }
        let mut at: usize = out.len();
        proof {
            assert(out0.take(at as int) =~= out0);
            assert(out0.skip(at as int) =~= Seq::empty());
            assert(put_in(out0, a, before@) =~= put_in(out0.take(at as int), a, before@) + out0.skip(at as int));
        }
        while at > 0 && f(&row, &out[at - 1])
            invariant
                forall|a: &T, b: &T| f.requires((a, b)),
                forall|a: &T, b: &T, r: bool| f.ensures((a, b), r) ==> r == before@(a@, b@),
                at <= out.len(),
                a == row@,
                out0 == rows_view(out@),
                put_in(out0, a, before@) == put_in(out0.take(at as int), a, before@) + out0.skip(at as int),
            ensures
                at == 0 || !before@(a, out0[at - 1]),
            decreases at,
        {
            proof {
                let part = out0.take(at as int);
                assert(part.last() == out0[at - 1]);
                assert(part.drop_last() =~= out0.take(at - 1));
                assert(out0.skip(at - 1) =~= seq![out0[at - 1]] + out0.skip(at as int));
                assert(put_in(part, a, before@) == put_in(out0.take(at - 1), a, before@).push(out0[at - 1]));
                assert(put_in(out0, a, before@) =~= put_in(out0.take(at - 1), a, before@) + out0.skip(at - 1));
            }
            at = at - 1;
        }
        proof {
            let part = out0.take(at as int);
            assert(put_in(part, a, before@) == part.push(a));
        }
        out.insert(at, row);
        proof {
            assert(rows_view(out@) =~= put_in(out0, a, before@));
            done = done + 1;
        }
    }
    proof {
        assert(done == all.len()) by {
            assert(rows_view(rest@).len() == 0);
        }
        assert(all.take(done) =~= all);
    }
    out
}

/// Rows back to front.
pub fn reverse_rows<T: View>(rows: Vec<T>) -> (out: Vec<T>)
    ensures
        rows_view(out@) == rows_view(rows@).reverse(),
{
    let ghost all = rows_view(rows@);
    let mut rest = rows;
    let mut out: Vec<T> = Vec::new();
    while rest.len() > 0
        invariant
            rest.len() <= all.len(),
            rows_view(rest@) == all.take(rest.len() as int),
            rows_view(out@) == all.skip(rest.len() as int).reverse(),
        decreases rest.len(),
    {
        let ghost n = rest.len() as int;
        let ghost rest0 = rest@;
        let ghost out0 = rows_view(out@);
        let row = rest.pop().unwrap();
        proof {
            assert(rows_view(rest0)[n - 1] == row@);
            assert(all.take(n)[n - 1] == all[n - 1]);
            assert forall|i: int| 0 <= i < n - 1 implies rows_view(rest@)[i] == #[trigger] all.take(n - 1)[i] by {
                assert(rows_view(rest@)[i] == rows_view(rest0)[i]);
                assert(all.take(n)[i] == all[i]);
            }
            assert(rows_view(rest@) =~= all.take(n - 1));
            assert(all.skip(n - 1) =~= seq![all[n - 1]] + all.skip(n));
        }
        out.push(row);
        proof {
            assert(rows_view(out@) =~= out0.push(row@));
            assert(rows_view(out@) =~= all.skip(n - 1).reverse());
        }
    }
    proof {
        assert(all.skip(0) =~= all);
    }
    out
}

/// Keep at most `limit` rows from the front; all of them when the limit is negative.
pub fn limit_rows<T: View>(rows: Vec<T>, limit: i64) -> (out: Vec<T>)
    ensures
        rows_view(out@) == limited(rows_view(rows@), limit as int),
{
    let mut out = rows;
    if limit >= 0 && (limit as u64) < (out.len() as u64) {
        out.truncate(limit as usize);
    }
    assert(rows_view(out@) =~= limited(rows_view(rows@), limit as int));
    out
}

/// The opposite of a predicate.
pub open spec fn not<A>(p: spec_fn(A) -> bool) -> spec_fn(A) -> bool {
    |a: A| !p(a)
}

/// A number where a predicate holds, else 0.
pub open spec fn qty_if<A>(p: spec_fn(A) -> bool, f: spec_fn(A) -> int) -> spec_fn(A) -> int {
    |a: A|
        if p(a) {
            f(a)
        } else {
            0
        }
}

/// The sum over selected rows is the sum of what the selected rows add.
pub proof fn lemma_sum_filter<A>(s: Seq<A>, p: spec_fn(A) -> bool, f: spec_fn(A) -> int)
    ensures
        sum(s.filter(p), f) == sum(s, qty_if(p, f)),
    decreases s.len(),
{
    reveal(Seq::filter);
    if s.len() > 0 {
        lemma_sum_filter(s.drop_last(), p, f);
        if p(s.last()) {
            lemma_sum_push(s.drop_last().filter(p), f, s.last());
        }
    }
}

/// What is selected and what is not add up to the whole.
pub proof fn lemma_sum_split<A>(s: Seq<A>, p: spec_fn(A) -> bool, f: spec_fn(A) -> int)
    ensures
        sum(s, qty_if(p, f)) + sum(s, qty_if(not(p), f)) == sum(s, f),
        sum(s.filter(not(p)), f) == sum(s, f) - sum(s, qty_if(p, f)),
    decreases s.len(),
{
    lemma_sum_filter(s, not(p), f);
    if s.len() > 0 {
        lemma_sum_split(s.drop_last(), p, f);
    }
}

/// Terms that agree on every row have the same sum.
pub proof fn lemma_sum_same<A>(s: Seq<A>, f: spec_fn(A) -> int, g: spec_fn(A) -> int)
    requires
        forall|i: int| 0 <= i < s.len() ==> f(#[trigger] s[i]) == g(s[i]),
    ensures
        sum(s, f) == sum(s, g),
{
    lemma_sum_le(s, f, g);
    lemma_sum_le(s, g, f);
}

/// The sum over two sequences, one after the other.
pub proof fn lemma_sum_add<A>(s: Seq<A>, t: Seq<A>, f: spec_fn(A) -> int)
    ensures
        sum(s + t, f) == sum(s, f) + sum(t, f),
    decreases t.len(),
{
    if t.len() == 0 {
        assert(s + t =~= s);
    } else {
        assert((s + t).drop_last() =~= s + t.drop_last());
        lemma_sum_add(s, t.drop_last(), f);
    }
}

/// What is selected satisfies the predicate and was there.
pub proof fn lemma_filter_all<A>(s: Seq<A>, p: spec_fn(A) -> bool)
    ensures
        s.filter(p).len() <= s.len(),
        forall|i: int| 0 <= i < s.filter(p).len() ==> p(#[trigger] s.filter(p)[i]) && s.contains(s.filter(p)[i]),
{
    broadcast use vstd::seq_lib::group_filter_ensures;
    s.lemma_filter_len(p);
    assert forall|i: int| 0 <= i < s.filter(p).len() implies s.contains(#[trigger] s.filter(p)[i]) by {
        let a = s.filter(p)[i];
        assert(s.filter(p).contains(a));
        s.lemma_filter_contains_rev(p, a);
    }
}

/// The views of a sequence of rows.
pub open spec fn rows_view<T: View>(rows: Seq<T>) -> Seq<T::V> {
    Seq::new(rows.len(), |i: int| rows[i]@)
}

/// A row that can be copied.
pub trait Row: View + Sized {
    fn copy(&self) -> (r: Self)
        ensures
            r@ == self@,
    ;
}

/// Rows in the order in which they were inserted.
pub struct Table<T> {
    pub rows: Vec<T>,
}

impl<T: View> View for Table<T> {
    type V = Seq<T::V>;

    open spec fn view(&self) -> Seq<T::V> {
        rows_view(self.rows@)
    }
}

impl<T: View> Table<T> {
    /// A table without rows.
    pub fn new() -> (t: Self)
        ensures
            t@ == Seq::<T::V>::empty(),
    {
        Table { rows: Vec::new() }
    }

    pub fn len(&self) -> (n: usize)
        ensures
            n == self@.len(),
    {
        self.rows.len()
    }

    pub fn get(&self, i: usize) -> (r: &T)
        requires
            i < self@.len(),
        ensures
            r@ == self@[i as int],
    {
        &self.rows[i]
    }

    pub fn get_mut(&mut self, i: usize) -> (r: &mut T)
        requires
            i < old(self)@.len(),
        ensures
            (*r)@ == old(self)@[i as int],
            final(self)@ == old(self)@.update(i as int, (*final(r))@),
    {
        &mut self.rows[i]
    }

    pub fn push(&mut self, row: T)
        ensures
            final(self)@ == old(self)@.push(row@),
    {
        self.rows.push(row);
    }

    pub fn remove(&mut self, i: usize) -> (row: T)
        requires
            i < old(self)@.len(),
        ensures
            row@ == old(self)@[i as int],
            final(self)@ == old(self)@.remove(i as int),
    {
        self.rows.remove(i)
    }

    /// Add the rows of another table behind these.
    pub fn append(&mut self, other: Table<T>)
        ensures
            final(self)@ == old(self)@ + other@,
    {
        let mut rows = other.rows;
        self.rows.append(&mut rows);
        assert(self@ =~= old(self)@ + other@);
    }

    /// Delete the rows that satisfy a predicate.
    pub fn delete_where<F: Fn(&T) -> bool>(&mut self, f: F, p: Ghost<spec_fn(T::V) -> bool>)
        requires
            forall|r: &T| f.requires((r,)),
            forall|r: &T, b: bool| f.ensures((r,), b) ==> b == p@(r@),
        ensures
            final(self)@ == old(self)@.filter(not(p@)),
    {
        let ghost all = self@;
        let ghost mut done: int = 0;
        let mut i: usize = 0;
        proof {
            assert(all.take(0).filter(not(p@)) =~= Seq::empty()) by {
                reveal(Seq::filter);
            }
            assert(self@ =~= all.take(0).filter(not(p@)) + all.skip(0));
        }
        while i < self.rows.len()
            invariant
                forall|r: &T| f.requires((r,)),
                forall|r: &T, b: bool| f.ensures((r,), b) ==> b == p@(r@),
                0 <= done <= all.len(),
                i == all.take(done).filter(not(p@)).len(),
                self@ == all.take(done).filter(not(p@)) + all.skip(done),
            decreases all.len() - done,
        {
            let ghost kept = all.take(done).filter(not(p@));
            proof {
                assert(self@.len() == kept.len() + (all.len() - done));
                assert(self@[i as int] == all[done]);
                assert(all.take(done + 1) =~= all.take(done).push(all[done]));
                all.take(done).lemma_filter_push(all[done], not(p@));
                assert(all.skip(done) =~= seq![all[done]] + all.skip(done + 1));
            }
            if f(&self.rows[i]) {
                let ghost was = self@;
                let gone = self.rows.remove(i);
                proof {
                    assert(self@ =~= was.remove(i as int));
                    assert(self@ =~= kept + all.skip(done + 1));
                    done = done + 1;
                }
            } else {
                i = i + 1;
                proof {
                    assert(self@ =~= kept.push(all[done]) + all.skip(done + 1));
                    done = done + 1;
                }
            }
        }
        proof {
            assert(done == all.len());
            assert(all.take(done) =~= all);
            assert(self@ =~= all.filter(not(p@)));
        }
    }

    /// The position of the first row that satisfies a predicate, or the number of rows.
    pub fn find<F: Fn(&T) -> bool>(&self, f: F, p: Ghost<spec_fn(T::V) -> bool>) -> (k: usize)
        requires
            forall|r: &T| f.requires((r,)),
            forall|r: &T, b: bool| f.ensures((r,), b) ==> b == p@(r@),
        ensures
            k == find(self@, p@),
            k <= self@.len(),
            k < self@.len() ==> p@(self@[k as int]),
    {
        let mut i: usize = 0;
        while i < self.rows.len()
            invariant
                i <= self@.len(),
                forall|r: &T| f.requires((r,)),
                forall|r: &T, b: bool| f.ensures((r,), b) ==> b == p@(r@),
                forall|j: int| 0 <= j < i ==> !p@(#[trigger] self@[j]),
            decreases self.rows.len() - i,
        {
            if f(&self.rows[i]) {
                proof {
                    lemma_find_is(self@, p@, i as int);
                }
                return i;
            }
            assert(!p@(self@[i as int]));
            i = i + 1;
        }
        proof {
            lemma_find_is(self@, p@, i as int);
        }
        i
    }

    /// The position of the row that comes first in an order among those that satisfy a predicate, or the number of rows.
    pub fn least<F: Fn(&T) -> bool, G: Fn(&T, &T) -> bool>(
        &self,
        f: F,
        g: G,
        p: Ghost<spec_fn(T::V) -> bool>,
        before: Ghost<spec_fn(T::V, T::V) -> bool>,
    ) -> (k: usize)
        requires
            forall|r: &T| f.requires((r,)),
            forall|r: &T, b: bool| f.ensures((r,), b) ==> b == p@(r@),
            forall|a: &T, b: &T| g.requires((a, b)),
            forall|a: &T, b: &T, r: bool| g.ensures((a, b), r) ==> r == before@(a@, b@),
        ensures
            k == least(self@, p@, before@),
            k <= self@.len(),
            k < self@.len() ==> p@(self@[k as int]),
    {
        let mut k: usize = 0;
        let mut i: usize = 0;
        assert(self@.take(0) =~= Seq::empty());
        while i < self.rows.len()
            invariant
                i <= self@.len(),
                k <= i,
                k == least(self@.take(i as int), p@, before@),
                forall|r: &T| f.requires((r,)),
                forall|r: &T, b: bool| f.ensures((r,), b) ==> b == p@(r@),
                forall|a: &T, b: &T| g.requires((a, b)),
                forall|a: &T, b: &T, r: bool| g.ensures((a, b), r) ==> r == before@(a@, b@),
            decreases self.rows.len() - i,
        {
            let ghost upto = self@.take(i + 1);
            assert(upto.drop_last() =~= self@.take(i as int));
            assert(upto.last() == self@[i as int]);
            let meets: bool = f(&self.rows[i]);
            if k == i {
                if !meets {
                    k = i + 1;
                }
            } else {
                assert(upto[k as int] == self@[k as int]);
                if meets && g(&self.rows[i], &self.rows[k]) {
                    k = i;
                }
            }
            i = i + 1;
        }
        proof {
            assert(self@.take(i as int) =~= self@);
            lemma_least(self@, p@, before@);
        }
        k
    }

    /// The sum of a number over all rows.
    pub fn total<F: Fn(&T) -> i64>(&self, f: F, g: Ghost<spec_fn(T::V) -> int>) -> (n: i128)
        requires
            forall|r: &T| f.requires((r,)),
            forall|r: &T, x: i64| f.ensures((r,), x) ==> x == g@(r@),
        ensures
            n == sum(self@, g@),
    {
        let mut i: usize = 0;
        let mut n: i128 = 0;
        while i < self.rows.len()
            invariant
                i <= self@.len(),
                -(i * 0x8000_0000_0000_0000) <= n <= i * 0x8000_0000_0000_0000,
                forall|r: &T| f.requires((r,)),
                forall|r: &T, x: i64| f.ensures((r,), x) ==> x == g@(r@),
                n == sum(self@.take(i as int), g@),
            decreases self.rows.len() - i,
        {
            proof {
                assert(self@.take(i + 1).drop_last() =~= self@.take(i as int));
            }
            let x: i64 = f(&self.rows[i]);
            n = n + x as i128;
            i = i + 1;
        }
        proof {
            assert(self@.take(i as int) =~= self@);
        }
        n
    }

    /// The sum of a number over all rows, where an `i64` can hold it.
    pub fn sum<F: Fn(&T) -> i64>(&self, f: F, g: Ghost<spec_fn(T::V) -> int>) -> (n: i64)
        requires
            forall|r: &T| f.requires((r,)),
            forall|r: &T, x: i64| f.ensures((r,), x) ==> x == g@(r@),
            i64::MIN <= sum(self@, g@) <= i64::MAX,
        ensures
            n == sum(self@, g@),
    {
        self.total(f, g) as i64
    }

    /// How many rows satisfy a predicate.
    pub fn count<F: Fn(&T) -> bool>(&self, f: F, p: Ghost<spec_fn(T::V) -> bool>) -> (n: usize)
        requires
            forall|r: &T| f.requires((r,)),
            forall|r: &T, b: bool| f.ensures((r,), b) ==> b == p@(r@),
        ensures
            n == count(self@, p@),
            n <= self@.len(),
    {
        let mut i: usize = 0;
        let mut n: usize = 0;
        while i < self.rows.len()
            invariant
                i <= self@.len(),
                n <= i,
                forall|r: &T| f.requires((r,)),
                forall|r: &T, b: bool| f.ensures((r,), b) ==> b == p@(r@),
                n == count(self@.take(i as int), p@),
            decreases self.rows.len() - i,
        {
            proof {
                assert(self@.take(i + 1).drop_last() =~= self@.take(i as int));
            }
            if f(&self.rows[i]) {
                n = n + 1;
            }
            i = i + 1;
        }
        proof {
            assert(self@.take(i as int) =~= self@);
        }
        n
    }
}

impl<T: Row> Table<T> {
    /// Copies of all rows, in table order.
    pub fn copy_all(&self) -> (out: Vec<T>)
        ensures
            rows_view(out@) == self@,
    {
        let mut out: Vec<T> = Vec::new();
        let mut i: usize = 0;
        while i < self.rows.len()
            invariant
                i <= self@.len(),
                out.len() == i,
                forall|j: int| 0 <= j < i ==> (#[trigger] out@[j])@ == self@[j],
            decreases self.rows.len() - i,
        {
            let c = self.rows[i].copy();
            out.push(c);
            i = i + 1;
        }
        assert(rows_view(out@) =~= self@);
        out
    }

    /// Copies of the rows that satisfy a predicate, in table order.
    pub fn select<F: Fn(&T) -> bool>(&self, f: F, p: Ghost<spec_fn(T::V) -> bool>) -> (out: Vec<T>)
        requires
            forall|r: &T| f.requires((r,)),
            forall|r: &T, b: bool| f.ensures((r,), b) ==> b == p@(r@),
        ensures
            rows_view(out@) == self@.filter(p@),
    {
        let mut out: Vec<T> = Vec::new();
        let mut i: usize = 0;
        proof {
            assert(self@.take(0) =~= Seq::<T::V>::empty());
            assert(rows_view(out@) =~= self@.take(0).filter(p@));
        }
        while i < self.rows.len()
            invariant
                i <= self@.len(),
                forall|r: &T| f.requires((r,)),
                forall|r: &T, b: bool| f.ensures((r,), b) ==> b == p@(r@),
                rows_view(out@) == self@.take(i as int).filter(p@),
            decreases self.rows.len() - i,
        {
            let ghost before = out@;
            proof {
                assert(self@.take(i + 1) =~= self@.take(i as int).push(self@[i as int]));
                self@.take(i as int).lemma_filter_push(self@[i as int], p@);
            }
            if f(&self.rows[i]) {
                let c = self.rows[i].copy();
                out.push(c);
                proof {
                    assert(rows_view(out@) =~= rows_view(before).push(c@));
                }
            }
            i = i + 1;
        }
        proof {
            assert(self@.take(i as int) =~= self@);
        }
        out
    }
}

} // verus!
