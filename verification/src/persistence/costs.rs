//! Costs and progress: how much of each item, written as JSON objects.

use vstd::prelude::*;

use crate::table::lemma_find_is;
use crate::tally::{amount, in_name_order, lookup, named};
use crate::text::{copy_pairs, opt_int, pairs_view, same, text_before};

verus! {

/// How much of each item, in the order of the items' names.
#[derive(Debug, Clone, PartialEq, Eq)]
pub struct Costs {
    pub entries: Vec<(String, i64)>,
}

impl View for Costs {
    type V = Seq<(Seq<char>, int)>;

    open spec fn view(&self) -> Seq<(Seq<char>, int)> {
        pairs_view(self.entries@)
    }
}

impl Default for Costs {
    fn default() -> (c: Costs)
        ensures
            c@ == Seq::<(Seq<char>, int)>::empty(),
    {
        let c = Costs { entries: Vec::new() };
        assert(c@ =~= Seq::<(Seq<char>, int)>::empty());
        c
    }
}

impl Costs {
    /// The amount of an item, if it is named.
    pub fn get(&self, item: &str) -> (found: Option<&i64>)
        ensures
            match found {
                Some(n) => lookup(self@, item@) == Some(*n as int),
                None => lookup(self@, item@) is None,
            },
    {
        let ghost s = self@;
        let mut i: usize = 0;
        while i < self.entries.len()
            invariant
                i <= self.entries.len(),
                s == self@,
                forall|j: int| 0 <= j < i ==> !named(item@)(#[trigger] s[j]),
            decreases self.entries.len() - i,
        {
            if same(self.entries[i].0.as_str(), item) {
                proof {
                    lemma_find_is(s, named(item@), i as int);
                }
                return Some(&self.entries[i].1);
            }
            assert(!named(item@)(s[i as int]));
            i = i + 1;
        }
        proof {
            lemma_find_is(s, named(item@), i as int);
        }
        None
    }

    /// The amount of an item, or 0.
    pub fn amount(&self, item: &str) -> (n: i64)
        ensures
            n == amount(self@, item@),
    {
        match self.get(item) {
            Some(n) => *n,
            None => 0,
        }
    }

    pub fn copy(&self) -> (c: Costs)
        ensures
            c@ == self@,
    {
        Costs { entries: copy_pairs(&self.entries) }
    }
}

/// The members of the JSON object that a text is, each with its name and, where it is a whole number that
/// can be counted, its value; `None` for a text that is not an object. This is what
/// `serde_json::from_str` makes of it.
pub uninterp spec fn json_object(text: Seq<char>) -> Option<Seq<(Seq<char>, Option<int>)>>;

/// The text of a JSON object with these members. This is what `serde_json::to_string` makes of them.
pub uninterp spec fn json_text(members: Seq<(Seq<char>, int)>) -> Seq<char>;

pub open spec fn members_view(v: Seq<(String, Option<i64>)>) -> Seq<(Seq<char>, Option<int>)> {
    Seq::new(v.len(), |i: int| (v[i].0@, opt_int(v[i].1)))
}

pub open spec fn members_of(v: Option<Vec<(String, Option<i64>)>>) -> Option<Seq<(Seq<char>, Option<int>)>> {
    match v {
        Some(m) => Some(members_view(m@)),
        None => None,
    }
}

pub open spec fn members_in_order(s: Seq<(Seq<char>, Option<int>)>) -> bool {
    forall|i: int, j: int| 0 <= i < j < s.len() ==> text_before((#[trigger] s[i]).0, (#[trigger] s[j]).0)
}

/// The members that quantities are written as.
pub open spec fn known(s: Seq<(Seq<char>, int)>) -> Seq<(Seq<char>, Option<int>)> {
    Seq::new(s.len(), |i: int| (s[i].0, Some(s[i].1)))
}

/// `serde_json::from_str` of a text as a JSON object, whose members come out in the order of their names,
/// each name once; `as_i64` tells which values are whole numbers that an `i64` holds. What it takes for
/// an object is named, not stated, but that `{}` is one without members.
#[verifier::external_body]
fn json_members(text: &str) -> (out: Option<Vec<(String, Option<i64>)>>)
    ensures
        members_of(out) == json_object(text@),
        members_of(out) is Some ==> members_in_order(members_of(out)->0),
        text@ == "{}"@ ==> members_of(out) == Some(Seq::<(Seq<char>, Option<int>)>::empty()),
{
    let map: std::collections::BTreeMap<String, serde_json::Value> = serde_json::from_str(text).ok()?;
    Some(map.into_iter().map(|(k, v)| (k, v.as_i64())).collect())
}

/// `serde_json::to_string` of quantities as a JSON object. Reading the text gives the quantities back, and
/// it is `{}` only when there are none.
#[verifier::external_body]
fn json_of(members: &Vec<(String, i64)>) -> (text: String)
    requires
        in_name_order(pairs_view(members@)),
    ensures
        text@ == json_text(pairs_view(members@)),
        json_object(text@) == Some(known(pairs_view(members@))),
        (text@ == "{}"@) == (members@.len() == 0),
{
    let map: std::collections::BTreeMap<&String, &i64> = members.iter().map(|(k, v)| (k, v)).collect();
    serde_json::to_string(&map).unwrap_or_else(|_| "{}".to_string())
}

/// The members that are whole numbers; the others are skipped.
pub open spec fn whole_members(s: Seq<(Seq<char>, Option<int>)>) -> Seq<(Seq<char>, int)>
    decreases s.len(),
{
    if s.len() == 0 {
        Seq::empty()
    } else {
        let before = whole_members(s.drop_last());
        match s.last().1 {
            Some(n) => before.push((s.last().0, n)),
            None => before,
        }
    }
}

/// The quantities that a text stands for. What is not a JSON object stands for none.
pub open spec fn cost_of(text: Seq<char>) -> Seq<(Seq<char>, int)> {
    match json_object(text) {
        Some(s) => whole_members(s),
        None => Seq::empty(),
    }
}

/// Skipping members keeps the rest in order.
proof fn lemma_whole_members(s: Seq<(Seq<char>, Option<int>)>)
    requires
        members_in_order(s),
    ensures
        in_name_order(whole_members(s)),
        forall|i: int|
            0 <= i < whole_members(s).len() ==> exists|j: int|
                0 <= j < s.len() && (#[trigger] s[j]).0 == (#[trigger] whole_members(s)[i]).0,
    decreases s.len(),
{
    if s.len() > 0 {
        let head = s.drop_last();
        assert forall|i: int, j: int| 0 <= i < j < head.len() implies text_before(
            (#[trigger] head[i]).0,
            (#[trigger] head[j]).0,
        ) by {
            assert(head[i] == s[i] && head[j] == s[j]);
        }
        lemma_whole_members(head);
        let before = whole_members(head);
        let after = whole_members(s);
        assert forall|i: int| 0 <= i < after.len() implies exists|j: int|
            0 <= j < s.len() && (#[trigger] s[j]).0 == (#[trigger] after[i]).0 by {
            if i < before.len() {
                let j = choose|j: int| 0 <= j < head.len() && (#[trigger] head[j]).0 == before[i].0;
                assert(s[j] == head[j]);
                assert(after[i] == before[i]);
            } else {
                assert(s[s.len() - 1].0 == after[i].0);
            }
        }
        assert forall|i: int, j: int| 0 <= i < j < after.len() implies text_before(
            (#[trigger] after[i]).0,
            (#[trigger] after[j]).0,
        ) by {
            if j < before.len() {
                assert(before[i] == after[i] && before[j] == after[j]);
            } else {
                assert(after[i] == before[i]);
                let m = choose|m: int| 0 <= m < head.len() && (#[trigger] head[m]).0 == before[i].0;
                assert(head[m] == s[m]);
                assert(text_before(s[m].0, s[s.len() - 1].0));
            }
        }
    }
}

/// What is written is read back.
pub proof fn lemma_whole_known(s: Seq<(Seq<char>, int)>)
    ensures
        whole_members(known(s)) == s,
    decreases s.len(),
{
    if s.len() > 0 {
        lemma_whole_known(s.drop_last());
        assert(known(s).drop_last() =~= known(s.drop_last()));
        assert(whole_members(known(s)) =~= s);
    }
}

/// Read a cost or progress text. Members that are not whole numbers are skipped, and a text that is not a
/// JSON object is no cost at all.
pub fn parse_cost(json: &str) -> (c: Costs)
    ensures
        c@ == cost_of(json@),
        in_name_order(c@),
        json@ == "{}"@ ==> c@.len() == 0,
{
    match json_members(json) {
        None => Costs::default(),
        Some(members) => whole_numbers(members),
    }
}

/// The members that are whole numbers.
pub fn whole_numbers(members: Vec<(String, Option<i64>)>) -> (c: Costs)
    requires
        members_in_order(members_view(members@)),
    ensures
        c@ == whole_members(members_view(members@)),
        in_name_order(c@),
        members@.len() == 0 ==> c@.len() == 0,
{
    let ghost all = members_view(members@);
    let mut entries: Vec<(String, i64)> = Vec::new();
    let mut i: usize = 0;
    proof {
        lemma_whole_members(all);
        assert(all.take(0) =~= Seq::empty());
        assert(pairs_view(entries@) =~= whole_members(all.take(0)));
    }
    while i < members.len()
        invariant
            i <= members.len(),
            all == members_view(members@),
            pairs_view(entries@) == whole_members(all.take(i as int)),
        decreases members.len() - i,
    {
        let ghost was = entries@;
        proof {
            assert(all.take(i + 1).drop_last() =~= all.take(i as int));
            assert(all.take(i + 1).last() == all[i as int]);
        }
        match members[i].1 {
            Some(n) => {
                let name = members[i].0.clone();
                entries.push((name, n));
                assert(pairs_view(entries@) =~= pairs_view(was).push((name@, n as int)));
            },
            None => {},
        }
        i = i + 1;
    }
    assert(all.take(i as int) =~= all);
    Costs { entries }
}

/// Write a cost or progress text.
pub fn dump_cost(c: &Costs) -> (text: String)
    requires
        in_name_order(c@),
    ensures
        text@ == json_text(c@),
        cost_of(text@) == c@,
        (text@ == "{}"@) == (c@.len() == 0),
{
    proof {
        lemma_whole_known(c@);
    }
    json_of(&c.entries)
}

/// Whether every amount of a cost is reached.
pub open spec fn covered(required: Seq<(Seq<char>, int)>, progress: Seq<(Seq<char>, int)>) -> bool {
    forall|i: int| 0 <= i < required.len() ==> amount(progress, (#[trigger] required[i]).0) >= required[i].1
}

/// Whether every amount of a cost is reached.
pub fn covers(required: &Costs, progress: &Costs) -> (yes: bool)
    ensures
        yes == covered(required@, progress@),
{
    let mut i: usize = 0;
    while i < required.entries.len()
        invariant
            i <= required.entries.len(),
            forall|j: int|
                0 <= j < i ==> amount(progress@, (#[trigger] required@[j]).0) >= required@[j].1,
        decreases required.entries.len() - i,
    {
        let e = &required.entries[i];
        assert(required@[i as int] == (e.0@, e.1 as int));
        if progress.amount(e.0.as_str()) < e.1 {
            return false;
        }
        i = i + 1;
    }
    true
}

/// How much of an item a cost still needs.
pub open spec fn still_needed(required: Seq<(Seq<char>, int)>, progress: Seq<(Seq<char>, int)>, item: Seq<char>) -> int {
    let short = amount(required, item) - amount(progress, item);
    if short <= 0 {
        0
    } else if short > i64::MAX {
        i64::MAX as int
    } else {
        short
    }
}

/// How much of an item a cost still needs.
pub fn needed(required: &Costs, progress: &Costs, item: &str) -> (n: i64)
    ensures
        n == still_needed(required@, progress@, item@),
        n >= 0,
        n > 0 ==> i64::MIN <= amount(progress@, item@) && amount(progress@, item@) + n <= i64::MAX,
{
    let want: i64 = required.amount(item);
    let have: i64 = progress.amount(item);
    if want <= have {
        return 0;
    }
    let short: i128 = want as i128 - have as i128;
    if short > i64::MAX as i128 {
        i64::MAX
    } else {
        short as i64
    }
}

} // verus!
