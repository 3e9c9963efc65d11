//! Which tutorials are accepted, and that what is read is what was written.

use vstd::prelude::*;

use crate::numerals::number_of;
use crate::table::lemma_filter_contains;
use crate::tutorial_config::{
    condition_in, condition_of, conditions_of, handout_name, handout_of, handouts_of, is_from, item_of,
    rewards_of, step_of, steps_of, tutorial_of, ConditionView, HandoutView, RawHandoutView, RawStepView,
    RawTutorialView, TutorialConfigView,
};
use crate::world::registry::is_item;
use crate::world::spawns::is_npc;

verus! {

/// Whether words say a condition: its verb, the item it is about and how many, as far as it has them.
pub open spec fn says(w: Seq<Seq<char>>, c: ConditionView) -> bool {
    match c {
        ConditionView::HasItem(i) => w == seq!["has_item"@, i],
        ConditionView::NoItem(i) => w == seq!["no_item"@, i],
        ConditionView::InventoryBelow(i, n) => w.len() == 3 && w[0] == "inventory_below"@ && w[1] == i && number_of(w[2]) == Some(n),
        ConditionView::Gained(i, n) => w.len() == 3 && w[0] == "gained"@ && w[1] == i && number_of(w[2]) == Some(n),
        ConditionView::Made(i) => w == seq!["made"@, i],
        ConditionView::LoadedFuel => w == seq!["loaded_fuel"@],
    }
}

/// Words make a condition exactly when they say it.
pub proof fn law_conditions_are_what_they_say(w: Seq<Seq<char>>, c: ConditionView)
    ensures
        condition_in(w) == Ok::<ConditionView, Seq<char>>(c) <==> says(w, c),
{
    reveal_strlit("has_item");
    reveal_strlit("no_item");
    reveal_strlit("inventory_below");
    reveal_strlit("gained");
    reveal_strlit("made");
    reveal_strlit("loaded_fuel");
    assert("has_item"@.len() == 8 && "no_item"@.len() == 7 && "inventory_below"@.len() == 15 && "gained"@.len() == 6 && "made"@.len()
        == 4 && "loaded_fuel"@.len() == 11);
    if condition_in(w) == Ok::<ConditionView, Seq<char>>(c) {
        match c {
            ConditionView::HasItem(i) => {
                assert(w =~= seq!["has_item"@, i]);
            },
            ConditionView::NoItem(i) => {
                assert(w =~= seq!["no_item"@, i]);
            },
            ConditionView::Made(i) => {
                assert(w =~= seq!["made"@, i]);
            },
            ConditionView::LoadedFuel => {
                assert(w =~= seq!["loaded_fuel"@]);
            },
            _ => {},
        }
    }
}

/// Whether a handout can stand: it hands over some of a real item, by somebody who exists, under conditions that all make
/// sense, and not endlessly.
pub open spec fn can_stand(h: RawHandoutView) -> bool {
    &&& is_item(h.item)
    &&& is_npc(h.npc)
    &&& h.qty > 0
    &&& h.when.len() > 0
    &&& h.once || h.cooldown_secs > 0
    &&& forall|i: int| 0 <= i < h.when.len() ==> condition_of(#[trigger] h.when[i]) is Ok
}

/// Whether a handout is what was written.
pub open spec fn as_written(h: RawHandoutView, out: HandoutView) -> bool {
    &&& out.npc == h.npc && out.item == h.item && out.qty == h.qty && out.cooldown_secs == h.cooldown_secs && out.once == h.once
        && out.line == h.line
    &&& out.when.len() == h.when.len()
    &&& forall|i: int| 0 <= i < h.when.len() ==> condition_of(#[trigger] h.when[i]) == Ok::<ConditionView, Seq<char>>(out.when[i])
}

/// Whether a step can be completed: its condition makes sense and is about a real item, if about any, and no step before it
/// has its id.
pub open spec fn can_be_done(raw: Seq<RawStepView>, i: int) -> bool {
    &&& condition_of(raw[i].when) is Ok
    &&& item_of(condition_of(raw[i].when)->Ok_0) is Some ==> is_item(item_of(condition_of(raw[i].when)->Ok_0)->0)
    &&& forall|j: int| 0 <= j < i ==> (#[trigger] raw[j]).id != raw[i].id
}

/// A tutorial is accepted exactly when every handout can stand, every step can be completed, and every reward is some of a
/// real item, with a track to earn it on. It is then what was written, in that order.
pub proof fn law_when_a_tutorial_is_accepted(raw: RawTutorialView, i: int)
    ensures
        tutorial_of(raw) is Ok <==> {
            &&& forall|k: int| 0 <= k < raw.handout.len() ==> can_stand(#[trigger] raw.handout[k])
            &&& forall|k: int| 0 <= k < raw.step.len() ==> #[trigger] can_be_done(raw.step, k)
            &&& forall|k: int| 0 <= k < raw.reward.len() ==> is_item((#[trigger] raw.reward[k]).0) && raw.reward[k].1 > 0
            &&& raw.reward.len() > 0 ==> raw.step.len() > 0
        },
        tutorial_of(raw) matches Ok(out) ==> {
            &&& out.handouts.len() == raw.handout.len() && out.steps.len() == raw.step.len() && out.reward == raw.reward
            &&& 0 <= i < raw.handout.len() ==> as_written(raw.handout[i], out.handouts[i])
            &&& 0 <= i < raw.step.len() ==> out.steps[i].id == raw.step[i].id && out.steps[i].text == raw.step[i].text
                && condition_of(raw.step[i].when) == Ok::<ConditionView, Seq<char>>(out.steps[i].when)
        },
{
    lemma_handouts(raw.handout);
    lemma_steps(raw.step);
    lemma_rewards(raw.reward);
}

proof fn lemma_conditions(what: Seq<char>, texts: Seq<Seq<char>>)
    ensures
        ({
            let out = conditions_of(what, texts);
            &&& out is Ok <==> forall|i: int| 0 <= i < texts.len() ==> condition_of(#[trigger] texts[i]) is Ok
            &&& out is Ok ==> out->Ok_0.len() == texts.len() && forall|i: int|
                0 <= i < texts.len() ==> condition_of(#[trigger] texts[i]) == Ok::<ConditionView, Seq<char>>(out->Ok_0[i])
        }),
    decreases texts.len(),
{
    if texts.len() > 0 {
        let head = texts.drop_last();
        let z = texts.len() - 1;
        lemma_conditions(what, head);
        let out = conditions_of(what, texts);
        let before = conditions_of(what, head);
        assert(texts[z] == texts.last());
        if out is Ok {
            assert forall|i: int| 0 <= i < texts.len() implies condition_of(#[trigger] texts[i])
                == Ok::<ConditionView, Seq<char>>(out->Ok_0[i]) by {
                if i < z {
                    assert(head[i] == texts[i]);
                }
            }
        } else if before is Ok {
            assert(condition_of(texts[z]) is Err);
        } else {
            let i = choose|i: int| 0 <= i < head.len() && !(condition_of(#[trigger] head[i]) is Ok);
            assert(texts[i] == head[i]);
        }
    }
}

proof fn lemma_handout(h: RawHandoutView)
    ensures
        handout_of(h) is Ok <==> can_stand(h),
        handout_of(h) is Ok ==> as_written(h, handout_of(h)->Ok_0),
{
    lemma_conditions(handout_name(h), h.when);
}

proof fn lemma_handouts(raw: Seq<RawHandoutView>)
    ensures
        ({
            let out = handouts_of(raw);
            &&& out is Ok <==> forall|k: int| 0 <= k < raw.len() ==> can_stand(#[trigger] raw[k])
            &&& out is Ok ==> out->Ok_0.len() == raw.len() && forall|k: int|
                0 <= k < raw.len() ==> as_written(#[trigger] raw[k], out->Ok_0[k])
        }),
    decreases raw.len(),
{
    if raw.len() > 0 {
        let head = raw.drop_last();
        let z = raw.len() - 1;
        lemma_handouts(head);
        lemma_handout(raw[z]);
        let out = handouts_of(raw);
        assert(raw[z] == raw.last());
        if out is Ok {
            assert forall|k: int| 0 <= k < raw.len() implies as_written(#[trigger] raw[k], out->Ok_0[k]) by {
                if k < z {
                    assert(head[k] == raw[k]);
                }
            }
            assert forall|k: int| 0 <= k < raw.len() implies can_stand(#[trigger] raw[k]) by {
                if k < z {
                    assert(head[k] == raw[k]);
                }
            }
        } else if handouts_of(head) is Err {
            let k = choose|k: int| 0 <= k < head.len() && !can_stand(#[trigger] head[k]);
            assert(raw[k] == head[k]);
        } else {
            assert(!can_stand(raw[z]));
        }
    }
}

proof fn lemma_steps(raw: Seq<RawStepView>)
    ensures
        ({
            let out = steps_of(raw);
            &&& out is Ok <==> forall|k: int| 0 <= k < raw.len() ==> #[trigger] can_be_done(raw, k)
            &&& out is Ok ==> out->Ok_0.len() == raw.len() && forall|k: int|
                0 <= k < raw.len() ==> (#[trigger] out->Ok_0[k]).id == raw[k].id && out->Ok_0[k].text == raw[k].text
                    && condition_of(raw[k].when) == Ok::<ConditionView, Seq<char>>(out->Ok_0[k].when)
        }),
    decreases raw.len(),
{
    if raw.len() > 0 {
        let head = raw.drop_last();
        let z = raw.len() - 1;
        lemma_steps(head);
        let out = steps_of(raw);
        assert(raw[z] == raw.last());
        assert forall|k: int| 0 <= k < z implies can_be_done(raw, k) == can_be_done(head, k) by {
            assert(raw[k] == head[k]);
            assert(forall|j: int| 0 <= j < k ==> #[trigger] raw[j] == head[j]);
            if can_be_done(head, k) {
                assert forall|j: int| 0 <= j < k implies (#[trigger] raw[j]).id != raw[k].id by {
                    assert(head[j].id != head[k].id);
                }
            }
            if can_be_done(raw, k) {
                assert forall|j: int| 0 <= j < k implies (#[trigger] head[j]).id != head[k].id by {
                    assert(raw[j].id != raw[k].id);
                }
            }
        }
        assert(step_of(head, raw[z]) is Ok <==> can_be_done(raw, z)) by {
            if can_be_done(raw, z) {
                assert forall|j: int| 0 <= j < head.len() implies (#[trigger] head[j]).id != raw[z].id by {
                    assert(raw[j].id != raw[z].id);
                }
            }
            if step_of(head, raw[z]) is Ok {
                assert forall|j: int| 0 <= j < z implies (#[trigger] raw[j]).id != raw[z].id by {
                    assert(head[j] == raw[j]);
                }
            }
        }
        if out is Ok {
            assert forall|k: int| 0 <= k < raw.len() implies #[trigger] can_be_done(raw, k) by {
                if k < z {
                    assert(can_be_done(head, k));
                }
            }
            assert forall|k: int| 0 <= k < raw.len() implies (#[trigger] out->Ok_0[k]).id == raw[k].id && out->Ok_0[k].text
                == raw[k].text && condition_of(raw[k].when) == Ok::<ConditionView, Seq<char>>(out->Ok_0[k].when) by {
                if k < z {
                    assert(out->Ok_0[k] == steps_of(head)->Ok_0[k]);
                    assert(raw[k] == head[k]);
                }
            }
        } else if steps_of(head) is Err {
            let k = choose|k: int| 0 <= k < head.len() && !#[trigger] can_be_done(head, k);
            assert(!can_be_done(raw, k));
        } else {
            assert(!can_be_done(raw, z));
        }
    }
}

proof fn lemma_rewards(raw: Seq<(Seq<char>, int)>)
    ensures
        rewards_of(raw) is Ok <==> forall|k: int| 0 <= k < raw.len() ==> is_item((#[trigger] raw[k]).0) && raw[k].1 > 0,
        rewards_of(raw) is Ok ==> rewards_of(raw)->Ok_0 == raw,
    decreases raw.len(),
{
    if raw.len() > 0 {
        let head = raw.drop_last();
        let z = raw.len() - 1;
        lemma_rewards(head);
        assert(raw[z] == raw.last());
        if rewards_of(raw) is Ok {
            assert(head.push(raw.last()) =~= raw);
            assert forall|k: int| 0 <= k < raw.len() implies is_item((#[trigger] raw[k]).0) && raw[k].1 > 0 by {
                if k < z {
                    assert(head[k] == raw[k]);
                }
            }
        } else if rewards_of(head) is Err {
            let k = choose|k: int| 0 <= k < head.len() && !(is_item((#[trigger] head[k]).0) && head[k].1 > 0);
            assert(raw[k] == head[k]);
        } else {
            assert(!(is_item(raw[z].0) && raw[z].1 > 0));
        }
    } else {
        assert(rewards_of(raw)->Ok_0 =~= raw);
    }
}

/// Whoever is asked shows all of their own handouts and nobody else's.
pub proof fn law_handouts_are_their_givers(c: TutorialConfigView, npc: Seq<char>, h: HandoutView)
    ensures
        c.handouts.filter(is_from(npc)).contains(h) <==> c.handouts.contains(h) && h.npc == npc,
{
    lemma_filter_contains(c.handouts, is_from(npc), h);
}

} // verus!
