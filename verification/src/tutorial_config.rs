//! Conditional handouts and the tutorial track.
//!
//! The condition language is tiny on purpose: a verb and its words, with no operators and no nesting. Every condition is
//! read when the configuration is, and one that makes no sense refuses the whole of it, with the place named. What is
//! evaluated later has been read already.
//!
//! Some conditions ask about the state of a player (`has_item`, `no_item`, `inventory_below`), others about the past
//! (`gained`, `made`, `loaded_fuel`). The past is counted for everyone, from the start, but only for items that some
//! condition names.

use vstd::prelude::*;

use vstd::string::StringExecFns;

use crate::numerals::{number_of, parse_number};
use crate::tally::{law_sorted_names, note_name, sorted_names};
use crate::text::{opt_str, pairs_view, same, split_words, strs_view, words};
use crate::world::registry::{is_item, item};
use crate::world::spawns::{is_npc, npc};

verus! {

/// One condition, already read.
#[derive(Debug, Clone, PartialEq, Eq)]
pub enum Condition {
    /// Owns at least one, in the bag or in hand.
    HasItem(String),
    /// Owns none at all, in the bag or in hand.
    NoItem(String),
    /// Owns fewer than this many.
    InventoryBelow(String, i64),
    /// Has gathered this many in all, ever.
    Gained(String, i64),
    /// Has made this at a station at least once.
    Made(String),
    /// Has loaded fuel into any station at least once.
    LoadedFuel,
}

/// The view of a [`Condition`].
pub enum ConditionView {
    HasItem(Seq<char>),
    NoItem(Seq<char>),
    InventoryBelow(Seq<char>, int),
    Gained(Seq<char>, int),
    Made(Seq<char>),
    LoadedFuel,
}

impl View for Condition {
    type V = ConditionView;

    open spec fn view(&self) -> ConditionView {
        match self {
            Condition::HasItem(i) => ConditionView::HasItem(i@),
            Condition::NoItem(i) => ConditionView::NoItem(i@),
            Condition::InventoryBelow(i, n) => ConditionView::InventoryBelow(i@, *n as int),
            Condition::Gained(i, n) => ConditionView::Gained(i@, *n as int),
            Condition::Made(i) => ConditionView::Made(i@),
            Condition::LoadedFuel => ConditionView::LoadedFuel,
        }
    }
}

pub open spec fn not_a_number(word: Seq<char>) -> Seq<char> {
    "`"@ + word + "` is not a number"@
}

pub open spec fn not_a_condition(verb: Seq<char>) -> Seq<char> {
    "`"@ + verb
        + "` is not a condition. Known: has_item, no_item, inventory_below, gained, made, loaded_fuel"@
}

/// The condition that words make, or why they make none.
pub open spec fn condition_in(w: Seq<Seq<char>>) -> Result<ConditionView, Seq<char>> {
    if w.len() == 0 {
        Err("is empty"@)
    } else if w.len() == 2 && w[0] == "has_item"@ {
        Ok(ConditionView::HasItem(w[1]))
    } else if w.len() == 2 && w[0] == "no_item"@ {
        Ok(ConditionView::NoItem(w[1]))
    } else if w.len() == 3 && w[0] == "inventory_below"@ {
        match number_of(w[2]) {
            Some(n) => Ok(ConditionView::InventoryBelow(w[1], n)),
            None => Err(not_a_number(w[2])),
        }
    } else if w.len() == 3 && w[0] == "gained"@ {
        match number_of(w[2]) {
            Some(n) => Ok(ConditionView::Gained(w[1], n)),
            None => Err(not_a_number(w[2])),
        }
    } else if w.len() == 2 && w[0] == "made"@ {
        Ok(ConditionView::Made(w[1]))
    } else if w.len() == 1 && w[0] == "loaded_fuel"@ {
        Ok(ConditionView::LoadedFuel)
    } else {
        Err(not_a_condition(w[0]))
    }
}

/// The condition that a text is, or why it is none.
pub open spec fn condition_of(text: Seq<char>) -> Result<ConditionView, Seq<char>> {
    condition_in(words(text))
}

pub open spec fn result_view(r: Result<Condition, String>) -> Result<ConditionView, Seq<char>> {
    match r {
        Ok(c) => Ok(c@),
        Err(why) => Err(why@),
    }
}

/// The item that a condition is about.
pub open spec fn item_of(c: ConditionView) -> Option<Seq<char>> {
    match c {
        ConditionView::HasItem(i) => Some(i),
        ConditionView::NoItem(i) => Some(i),
        ConditionView::InventoryBelow(i, _) => Some(i),
        ConditionView::Gained(i, _) => Some(i),
        ConditionView::Made(i) => Some(i),
        ConditionView::LoadedFuel => None,
    }
}

/// A text between two others.
fn wrapped(before: &str, text: &str, after: &str) -> (out: String)
    ensures
        out@ == before@ + text@ + after@,
{
    let mut out = before.to_string();
    out.append(text);
    out.append(after);
    out
}

fn number_refused(word: &str) -> (why: String)
    ensures
        why@ == not_a_number(word@),
{
    wrapped("`", word, "` is not a number")
}

impl Condition {
    /// Read one condition, or say what is wrong with it.
    pub fn parse(text: &str) -> (out: Result<Condition, String>)
        ensures
            result_view(out) == condition_of(text@),
    {
        let parts = split_words(text);
        let ghost w = strs_view(parts@);
        assert(forall|i: int| 0 <= i < parts@.len() ==> w[i] == (#[trigger] parts@[i])@);
        let n: usize = parts.len();
        if n == 0 {
            return Err("is empty".to_string());
        }
        let verb: &str = parts[0];
        assert(w[0] == verb@);
        if n == 2 && same(verb, "has_item") {
            Ok(Condition::HasItem(parts[1].to_string()))
        } else if n == 2 && same(verb, "no_item") {
            Ok(Condition::NoItem(parts[1].to_string()))
        } else if n == 3 && same(verb, "inventory_below") {
            match parse_number(parts[2]) {
                Some(v) => Ok(Condition::InventoryBelow(parts[1].to_string(), v)),
                None => Err(number_refused(parts[2])),
            }
        } else if n == 3 && same(verb, "gained") {
            match parse_number(parts[2]) {
                Some(v) => Ok(Condition::Gained(parts[1].to_string(), v)),
                None => Err(number_refused(parts[2])),
            }
        } else if n == 2 && same(verb, "made") {
            Ok(Condition::Made(parts[1].to_string()))
        } else if n == 1 && same(verb, "loaded_fuel") {
            Ok(Condition::LoadedFuel)
        } else {
            Err(
                wrapped(
                    "`",
                    verb,
                    "` is not a condition. Known: has_item, no_item, inventory_below, gained, made, loaded_fuel",
                ),
            )
        }
    }

    /// The item that this condition is about, if any.
    pub fn item(&self) -> (i: Option<&str>)
        ensures
            opt_str(i) == item_of(self@),
    {
        match self {
            Condition::HasItem(i) => Some(i.as_str()),
            Condition::NoItem(i) => Some(i.as_str()),
            Condition::InventoryBelow(i, _) => Some(i.as_str()),
            Condition::Gained(i, _) => Some(i.as_str()),
            Condition::Made(i) => Some(i.as_str()),
            Condition::LoadedFuel => None,
        }
    }
}

/// A handout as it is written down.
#[derive(Debug, Clone, PartialEq, Eq)]
pub struct RawHandout {
    pub npc: String,
    pub item: String,
    pub qty: i64,
    /// Seconds before this can fire again. None makes sense only with `once`.
    pub cooldown_secs: i64,
    /// Fires at most once ever.
    pub once: bool,
    pub when: Vec<String>,
    pub line: String,
}

/// A step of the track as it is written down.
#[derive(Debug, Clone, PartialEq, Eq)]
pub struct RawStep {
    pub id: String,
    pub text: String,
    pub when: String,
}

/// A reward as it is written down.
#[derive(Debug, Clone, PartialEq, Eq)]
pub struct RawReward {
    pub item: String,
    pub qty: i64,
}

/// The configuration as it is written down.
#[derive(Debug, Clone, PartialEq, Eq)]
pub struct RawTutorial {
    pub handout: Vec<RawHandout>,
    pub step: Vec<RawStep>,
    pub reward: Vec<RawReward>,
}

/// The quantity of what does not say one.
pub fn one() -> (n: i64)
    ensures
        n == 1,
{
    1
}

/// The view of a [`RawHandout`].
pub struct RawHandoutView {
    pub npc: Seq<char>,
    pub item: Seq<char>,
    pub qty: int,
    pub cooldown_secs: int,
    pub once: bool,
    pub when: Seq<Seq<char>>,
    pub line: Seq<char>,
}

/// The view of a [`RawStep`].
pub struct RawStepView {
    pub id: Seq<char>,
    pub text: Seq<char>,
    pub when: Seq<char>,
}

/// The view of a [`RawTutorial`].
pub struct RawTutorialView {
    pub handout: Seq<RawHandoutView>,
    pub step: Seq<RawStepView>,
    pub reward: Seq<(Seq<char>, int)>,
}

pub open spec fn texts_view(v: Seq<String>) -> Seq<Seq<char>> {
    Seq::new(v.len(), |i: int| v[i]@)
}

impl View for RawHandout {
    type V = RawHandoutView;

    open spec fn view(&self) -> RawHandoutView {
        RawHandoutView {
            npc: self.npc@,
            item: self.item@,
            qty: self.qty as int,
            cooldown_secs: self.cooldown_secs as int,
            once: self.once,
            when: texts_view(self.when@),
            line: self.line@,
        }
    }
}

impl View for RawStep {
    type V = RawStepView;

    open spec fn view(&self) -> RawStepView {
        RawStepView { id: self.id@, text: self.text@, when: self.when@ }
    }
}

impl View for RawTutorial {
    type V = RawTutorialView;

    open spec fn view(&self) -> RawTutorialView {
        RawTutorialView {
            handout: Seq::new(self.handout@.len(), |i: int| self.handout@[i]@),
            step: Seq::new(self.step@.len(), |i: int| self.step@[i]@),
            reward: Seq::new(self.reward@.len(), |i: int| (self.reward@[i].item@, self.reward@[i].qty as int)),
        }
    }
}

/// An item that someone hands over while all conditions hold. It is a valve and not a gift: losing the item is never a
/// dead end, and dropping it is never a farm.
#[derive(Debug, Clone, PartialEq, Eq)]
pub struct Handout {
    pub npc: String,
    pub item: String,
    pub qty: i64,
    pub cooldown_secs: i64,
    pub once: bool,
    pub when: Vec<Condition>,
    pub line: String,
}

/// One step of the track, completed by doing.
#[derive(Debug, Clone, PartialEq, Eq)]
pub struct Step {
    pub id: String,
    pub text: String,
    pub when: Condition,
}

/// The handouts, the track, and what completing it earns.
#[derive(Debug, Clone, PartialEq, Eq)]
pub struct TutorialConfig {
    pub handouts: Vec<Handout>,
    pub steps: Vec<Step>,
    pub reward: Vec<(String, i64)>,
}

/// The view of a [`Handout`].
pub struct HandoutView {
    pub npc: Seq<char>,
    pub item: Seq<char>,
    pub qty: int,
    pub cooldown_secs: int,
    pub once: bool,
    pub when: Seq<ConditionView>,
    pub line: Seq<char>,
}

/// The view of a [`Step`].
pub struct StepView {
    pub id: Seq<char>,
    pub text: Seq<char>,
    pub when: ConditionView,
}

/// The view of a [`TutorialConfig`].
pub struct TutorialConfigView {
    pub handouts: Seq<HandoutView>,
    pub steps: Seq<StepView>,
    pub reward: Seq<(Seq<char>, int)>,
}

pub open spec fn conditions_view(v: Seq<Condition>) -> Seq<ConditionView> {
    Seq::new(v.len(), |i: int| v[i]@)
}

impl View for Handout {
    type V = HandoutView;

    open spec fn view(&self) -> HandoutView {
        HandoutView {
            npc: self.npc@,
            item: self.item@,
            qty: self.qty as int,
            cooldown_secs: self.cooldown_secs as int,
            once: self.once,
            when: conditions_view(self.when@),
            line: self.line@,
        }
    }
}

impl View for Step {
    type V = StepView;

    open spec fn view(&self) -> StepView {
        StepView { id: self.id@, text: self.text@, when: self.when@ }
    }
}

pub open spec fn handouts_view(v: Seq<Handout>) -> Seq<HandoutView> {
    Seq::new(v.len(), |i: int| v[i]@)
}

pub open spec fn steps_view(v: Seq<Step>) -> Seq<StepView> {
    Seq::new(v.len(), |i: int| v[i]@)
}

impl View for TutorialConfig {
    type V = TutorialConfigView;

    open spec fn view(&self) -> TutorialConfigView {
        TutorialConfigView {
            handouts: handouts_view(self.handouts@),
            steps: steps_view(self.steps@),
            reward: pairs_view(self.reward@),
        }
    }
}

impl Default for TutorialConfig {
    /// No handouts and no track.
    fn default() -> (c: TutorialConfig)
        ensures
            c@.handouts.len() == 0,
            c@.steps.len() == 0,
            c@.reward.len() == 0,
    {
        TutorialConfig { handouts: Vec::new(), steps: Vec::new(), reward: Vec::new() }
    }
}

/// Why a configuration is refused.
#[derive(Debug, Clone, PartialEq, Eq)]
pub enum TutorialConfigError {
    /// A part of it that cannot stand, and the reason.
    Invalid { what: String, why: String },
}

/// What is wrong, and why.
pub struct Fault {
    pub what: Seq<char>,
    pub why: Seq<char>,
}

impl View for TutorialConfigError {
    type V = Fault;

    open spec fn view(&self) -> Fault {
        match self {
            TutorialConfigError::Invalid { what, why } => Fault { what: what@, why: why@ },
        }
    }
}

impl TutorialConfigError {
    /// The error in words.
    pub fn message(&self) -> (text: String)
        ensures
            text@ == "tutorial.toml "@ + self@.what + ": "@ + self@.why,
    {
        match self {
            TutorialConfigError::Invalid { what, why } => {
                let mut text = wrapped("tutorial.toml ", what.as_str(), ": ");
                text.append(why.as_str());
                text
            },
        }
    }
}

pub open spec fn handout_name(h: RawHandoutView) -> Seq<char> {
    "handout `"@ + h.item + "` from `"@ + h.npc + "`"@
}

pub open spec fn step_name(id: Seq<char>) -> Seq<char> {
    "step `"@ + id + "`"@
}

pub open spec fn condition_fault(text: Seq<char>, why: Seq<char>) -> Seq<char> {
    "condition `"@ + text + "` "@ + why
}

/// Conditions read in turn; the first that makes no sense is the fault.
pub open spec fn conditions_of(what: Seq<char>, texts: Seq<Seq<char>>) -> Result<Seq<ConditionView>, Fault>
    decreases texts.len(),
{
    if texts.len() == 0 {
        Ok(Seq::empty())
    } else {
        match conditions_of(what, texts.drop_last()) {
            Err(f) => Err(f),
            Ok(head) => match condition_of(texts.last()) {
                Ok(c) => Ok(head.push(c)),
                Err(why) => Err(Fault { what, why: condition_fault(texts.last(), why) }),
            },
        }
    }
}

/// What keeps a handout from standing, apart from its conditions' wording.
pub open spec fn handout_fault(h: RawHandoutView) -> Option<Seq<char>> {
    if !is_item(h.item) {
        Some("is not a real item"@)
    } else if !is_npc(h.npc) {
        Some("names NPC `"@ + h.npc + "`, who does not exist"@)
    } else if h.qty <= 0 {
        Some("hands over a non-positive quantity"@)
    } else if h.when.len() == 0 {
        Some("has no conditions, so it would hand out forever"@)
    } else if !h.once && h.cooldown_secs <= 0 {
        Some("is repeatable with no cooldown — set `once` or a `cooldown_secs`"@)
    } else {
        None
    }
}

/// A handout, or what is wrong with it.
pub open spec fn handout_of(h: RawHandoutView) -> Result<HandoutView, Fault> {
    match handout_fault(h) {
        Some(why) => Err(Fault { what: handout_name(h), why }),
        None => match conditions_of(handout_name(h), h.when) {
            Err(f) => Err(f),
            Ok(when) => Ok(
                HandoutView {
                    npc: h.npc,
                    item: h.item,
                    qty: h.qty,
                    cooldown_secs: h.cooldown_secs,
                    once: h.once,
                    when,
                    line: h.line,
                },
            ),
        },
    }
}

/// Handouts read in turn.
pub open spec fn handouts_of(raw: Seq<RawHandoutView>) -> Result<Seq<HandoutView>, Fault>
    decreases raw.len(),
{
    if raw.len() == 0 {
        Ok(Seq::empty())
    } else {
        match handouts_of(raw.drop_last()) {
            Err(f) => Err(f),
            Ok(head) => match handout_of(raw.last()) {
                Ok(h) => Ok(head.push(h)),
                Err(f) => Err(f),
            },
        }
    }
}

pub open spec fn has_step(steps: Seq<RawStepView>, id: Seq<char>) -> bool {
    exists|i: int| 0 <= i < steps.len() && (#[trigger] steps[i]).id == id
}

/// A step after those before it, or what is wrong with it.
pub open spec fn step_of(before: Seq<RawStepView>, st: RawStepView) -> Result<StepView, Fault> {
    if has_step(before, st.id) {
        Err(Fault { what: step_name(st.id), why: "is a duplicate id — progress is keyed by it"@ })
    } else {
        match condition_of(st.when) {
            Err(why) => Err(Fault { what: step_name(st.id), why: condition_fault(st.when, why) }),
            Ok(when) => match item_of(when) {
                Some(i) => if is_item(i) {
                    Ok(StepView { id: st.id, text: st.text, when })
                } else {
                    Err(
                        Fault {
                            what: step_name(st.id),
                            why: "condition names `"@ + i + "`, which is not a real item"@,
                        },
                    )
                },
                None => Ok(StepView { id: st.id, text: st.text, when }),
            },
        }
    }
}

/// Steps read in turn.
pub open spec fn steps_of(raw: Seq<RawStepView>) -> Result<Seq<StepView>, Fault>
    decreases raw.len(),
{
    if raw.len() == 0 {
        Ok(Seq::empty())
    } else {
        match steps_of(raw.drop_last()) {
            Err(f) => Err(f),
            Ok(head) => match step_of(raw.drop_last(), raw.last()) {
                Ok(st) => Ok(head.push(st)),
                Err(f) => Err(f),
            },
        }
    }
}

/// Rewards read in turn.
pub open spec fn rewards_of(raw: Seq<(Seq<char>, int)>) -> Result<Seq<(Seq<char>, int)>, Fault>
    decreases raw.len(),
{
    if raw.len() == 0 {
        Ok(Seq::empty())
    } else {
        let (i, qty) = raw.last();
        match rewards_of(raw.drop_last()) {
            Err(f) => Err(f),
            Ok(head) => if !is_item(i) {
                Err(Fault { what: "reward"@, why: "`"@ + i + "` is not a real item"@ })
            } else if qty <= 0 {
                Err(Fault { what: "reward"@, why: "`"@ + i + "` has a non-positive quantity"@ })
            } else {
                Ok(head.push(raw.last()))
            },
        }
    }
}

/// The configuration that was written down, or the first thing that is wrong with it: handouts first, then steps, then
/// rewards, which need a track to be earned on.
pub open spec fn tutorial_of(raw: RawTutorialView) -> Result<TutorialConfigView, Fault> {
    match handouts_of(raw.handout) {
        Err(f) => Err(f),
        Ok(handouts) => match steps_of(raw.step) {
            Err(f) => Err(f),
            Ok(steps) => match rewards_of(raw.reward) {
                Err(f) => Err(f),
                Ok(reward) => if reward.len() > 0 && steps.len() == 0 {
                    Err(
                        Fault {
                            what: "reward"@,
                            why: "there are no steps to complete, so it could never be earned"@,
                        },
                    )
                } else {
                    Ok(TutorialConfigView { handouts, steps, reward })
                },
            },
        },
    }
}

fn invalid(what: String, why: String) -> (e: TutorialConfigError)
    ensures
        e@ == (Fault { what: what@, why: why@ }),
{
    TutorialConfigError::Invalid { what, why }
}

fn name_handout(h: &RawHandout) -> (what: String)
    ensures
        what@ == handout_name(h@),
{
    let mut what = wrapped("handout `", h.item.as_str(), "` from `");
    what.append(h.npc.as_str());
    what.append("`");
    what
}

fn blame_condition(text: &str, fault: &str) -> (why: String)
    ensures
        why@ == condition_fault(text@, fault@),
{
    let mut why = wrapped("condition `", text, "` ");
    why.append(fault);
    why
}

pub open spec fn conditions_result(r: Result<Vec<Condition>, TutorialConfigError>) -> Result<
    Seq<ConditionView>,
    Fault,
> {
    match r {
        Ok(v) => Ok(conditions_view(v@)),
        Err(e) => Err(e@),
    }
}

fn read_conditions(h: &RawHandout) -> (out: Result<Vec<Condition>, TutorialConfigError>)
    ensures
        conditions_result(out) == conditions_of(handout_name(h@), h@.when),
{
    let ghost texts = h@.when;
    let ghost what = handout_name(h@);
    let mut when: Vec<Condition> = Vec::new();
    let mut i: usize = 0;
    assert(texts.take(0) =~= Seq::empty());
    assert(conditions_view(when@) =~= Seq::empty());
    while i < h.when.len()
        invariant
            i <= h.when.len(),
            texts == texts_view(h.when@),
            what == handout_name(h@),
            conditions_of(what, texts.take(i as int)) == Ok::<Seq<ConditionView>, Fault>(conditions_view(when@)),
        decreases h.when.len() - i,
    {
        let text = h.when[i].as_str();
        proof {
            assert(texts.take(i + 1).drop_last() =~= texts.take(i as int));
            assert(texts.take(i + 1).last() == text@);
        }
        match Condition::parse(text) {
            Ok(c) => {
                let ghost was = when@;
                when.push(c);
                assert(conditions_view(when@) =~= conditions_view(was).push(c@));
            },
            Err(why) => {
                let e = invalid(name_handout(h), blame_condition(text, why.as_str()));
                proof {
                    lemma_conditions_fail(what, texts, i + 1);
                }
                return Err(e);
            },
        }
        i = i + 1;
    }
    assert(texts.take(i as int) =~= texts);
    Ok(when)
}

proof fn lemma_conditions_fail(what: Seq<char>, texts: Seq<Seq<char>>, n: int)
    requires
        0 <= n <= texts.len(),
        conditions_of(what, texts.take(n)) is Err,
    ensures
        conditions_of(what, texts) == conditions_of(what, texts.take(n)),
    decreases texts.len() - n,
{
    if n < texts.len() {
        assert(texts.take(n + 1).drop_last() =~= texts.take(n));
        lemma_conditions_fail(what, texts, n + 1);
    } else {
        assert(texts.take(n) =~= texts);
    }
}

pub open spec fn handout_result(r: Result<Handout, TutorialConfigError>) -> Result<HandoutView, Fault> {
    match r {
        Ok(h) => Ok(h@),
        Err(e) => Err(e@),
    }
}

fn read_handout(h: &RawHandout) -> (out: Result<Handout, TutorialConfigError>)
    ensures
        handout_result(out) == handout_of(h@),
{
    if item(h.item.as_str()).is_none() {
        return Err(invalid(name_handout(h), "is not a real item".to_string()));
    }
    if npc(h.npc.as_str()).is_none() {
        let why = wrapped("names NPC `", h.npc.as_str(), "`, who does not exist");
        return Err(invalid(name_handout(h), why));
    }
    if h.qty <= 0 {
        return Err(invalid(name_handout(h), "hands over a non-positive quantity".to_string()));
    }
    if h.when.len() == 0 {
        return Err(
            invalid(name_handout(h), "has no conditions, so it would hand out forever".to_string()),
        );
    }
    if !h.once && h.cooldown_secs <= 0 {
        return Err(
            invalid(
                name_handout(h),
                "is repeatable with no cooldown — set `once` or a `cooldown_secs`".to_string(),
            ),
        );
    }
    match read_conditions(h) {
        Err(e) => Err(e),
        Ok(when) => Ok(
            Handout {
                npc: h.npc.clone(),
                item: h.item.clone(),
                qty: h.qty,
                cooldown_secs: h.cooldown_secs,
                once: h.once,
                when,
                line: h.line.clone(),
            },
        ),
    }
}

pub open spec fn step_result(r: Result<Step, TutorialConfigError>) -> Result<StepView, Fault> {
    match r {
        Ok(st) => Ok(st@),
        Err(e) => Err(e@),
    }
}

/// Read the step at a position, after those before it.
fn read_step(steps: &Vec<RawStep>, k: usize) -> (out: Result<Step, TutorialConfigError>)
    requires
        k < steps.len(),
    ensures
        step_result(out) == step_of(
            Seq::new(steps@.len(), |i: int| steps@[i]@).take(k as int),
            steps@[k as int]@,
        ),
{
    let ghost all = Seq::new(steps@.len(), |i: int| steps@[i]@);
    let st = &steps[k];
    let mut i: usize = 0;
    while i < k
        invariant
            i <= k < steps.len(),
            all == Seq::new(steps@.len(), |i: int| steps@[i]@),
            st@ == steps@[k as int]@,
            forall|j: int| 0 <= j < i ==> (#[trigger] all[j]).id != st@.id,
        decreases k - i,
    {
        assert(all[i as int] == steps@[i as int]@);
        if same(steps[i].id.as_str(), st.id.as_str()) {
            let what = wrapped("step `", st.id.as_str(), "`");
            assert(all.take(k as int)[i as int].id == st@.id);
            return Err(invalid(what, "is a duplicate id — progress is keyed by it".to_string()));
        }
        i = i + 1;
    }
    assert(!has_step(all.take(k as int), st@.id));
    let when = match Condition::parse(st.when.as_str()) {
        Ok(c) => c,
        Err(why) => {
            let what = wrapped("step `", st.id.as_str(), "`");
            return Err(invalid(what, blame_condition(st.when.as_str(), why.as_str())));
        },
    };
    let unknown: Option<String> = match when.item() {
        Some(i) => if item(i).is_none() {
            Some(wrapped("condition names `", i, "`, which is not a real item"))
        } else {
            None
        },
        None => None,
    };
    match unknown {
        Some(why) => {
            let what = wrapped("step `", st.id.as_str(), "`");
            Err(invalid(what, why))
        },
        None => Ok(Step { id: st.id.clone(), text: st.text.clone(), when }),
    }
}

proof fn lemma_handouts_fail(raw: Seq<RawHandoutView>, n: int)
    requires
        0 <= n <= raw.len(),
        handouts_of(raw.take(n)) is Err,
    ensures
        handouts_of(raw) == handouts_of(raw.take(n)),
    decreases raw.len() - n,
{
    if n < raw.len() {
        assert(raw.take(n + 1).drop_last() =~= raw.take(n));
        lemma_handouts_fail(raw, n + 1);
    } else {
        assert(raw.take(n) =~= raw);
    }
}

proof fn lemma_steps_fail(raw: Seq<RawStepView>, n: int)
    requires
        0 <= n <= raw.len(),
        steps_of(raw.take(n)) is Err,
    ensures
        steps_of(raw) == steps_of(raw.take(n)),
    decreases raw.len() - n,
{
    if n < raw.len() {
        assert(raw.take(n + 1).drop_last() =~= raw.take(n));
        lemma_steps_fail(raw, n + 1);
    } else {
        assert(raw.take(n) =~= raw);
    }
}

proof fn lemma_rewards_fail(raw: Seq<(Seq<char>, int)>, n: int)
    requires
        0 <= n <= raw.len(),
        rewards_of(raw.take(n)) is Err,
    ensures
        rewards_of(raw) == rewards_of(raw.take(n)),
    decreases raw.len() - n,
{
    if n < raw.len() {
        assert(raw.take(n + 1).drop_last() =~= raw.take(n));
        lemma_rewards_fail(raw, n + 1);
    } else {
        assert(raw.take(n) =~= raw);
    }
}

pub open spec fn handouts_result(r: Result<Vec<Handout>, TutorialConfigError>) -> Result<Seq<HandoutView>, Fault> {
    match r {
        Ok(v) => Ok(handouts_view(v@)),
        Err(e) => Err(e@),
    }
}

fn read_handouts(raw: &RawTutorial) -> (out: Result<Vec<Handout>, TutorialConfigError>)
    ensures
        handouts_result(out) == handouts_of(raw@.handout),
{
    let ghost all = raw@.handout;
    let mut handouts: Vec<Handout> = Vec::new();
    let mut i: usize = 0;
    assert(all.take(0) =~= Seq::empty());
    assert(handouts_view(handouts@) =~= Seq::empty());
    while i < raw.handout.len()
        invariant
            i <= raw.handout.len(),
            all == raw@.handout,
            handouts_of(all.take(i as int)) == Ok::<Seq<HandoutView>, Fault>(handouts_view(handouts@)),
        decreases raw.handout.len() - i,
    {
        proof {
            assert(all.take(i + 1).drop_last() =~= all.take(i as int));
            assert(all.take(i + 1).last() == raw.handout@[i as int]@);
        }
        match read_handout(&raw.handout[i]) {
            Ok(h) => {
                let ghost was = handouts@;
                handouts.push(h);
                assert(handouts_view(handouts@) =~= handouts_view(was).push(h@));
            },
            Err(e) => {
                proof {
                    lemma_handouts_fail(all, i + 1);
                }
                return Err(e);
            },
        }
        i = i + 1;
    }
    assert(all.take(i as int) =~= all);
    Ok(handouts)
}

pub open spec fn steps_result(r: Result<Vec<Step>, TutorialConfigError>) -> Result<Seq<StepView>, Fault> {
    match r {
        Ok(v) => Ok(steps_view(v@)),
        Err(e) => Err(e@),
    }
}

fn read_steps(raw: &RawTutorial) -> (out: Result<Vec<Step>, TutorialConfigError>)
    ensures
        steps_result(out) == steps_of(raw@.step),
{
    let ghost all = raw@.step;
    let mut steps: Vec<Step> = Vec::new();
    let mut i: usize = 0;
    assert(all.take(0) =~= Seq::empty());
    assert(steps_view(steps@) =~= Seq::empty());
    while i < raw.step.len()
        invariant
            i <= raw.step.len(),
            all == raw@.step,
            steps_of(all.take(i as int)) == Ok::<Seq<StepView>, Fault>(steps_view(steps@)),
        decreases raw.step.len() - i,
    {
        proof {
            assert(all.take(i + 1).drop_last() =~= all.take(i as int));
            assert(all.take(i + 1).last() == raw.step@[i as int]@);
            assert(all =~= Seq::new(raw.step@.len(), |j: int| raw.step@[j]@));
        }
        match read_step(&raw.step, i) {
            Ok(st) => {
                let ghost was = steps@;
                steps.push(st);
                assert(steps_view(steps@) =~= steps_view(was).push(st@));
            },
            Err(e) => {
                proof {
                    lemma_steps_fail(all, i + 1);
                }
                return Err(e);
            },
        }
        i = i + 1;
    }
    assert(all.take(i as int) =~= all);
    Ok(steps)
}

pub open spec fn rewards_result(r: Result<Vec<(String, i64)>, TutorialConfigError>) -> Result<
    Seq<(Seq<char>, int)>,
    Fault,
> {
    match r {
        Ok(v) => Ok(pairs_view(v@)),
        Err(e) => Err(e@),
    }
}

fn read_rewards(raw: &RawTutorial) -> (out: Result<Vec<(String, i64)>, TutorialConfigError>)
    ensures
        rewards_result(out) == rewards_of(raw@.reward),
{
    let ghost all = raw@.reward;
    let mut reward: Vec<(String, i64)> = Vec::new();
    let mut i: usize = 0;
    assert(all.take(0) =~= Seq::empty());
    assert(pairs_view(reward@) =~= Seq::empty());
    while i < raw.reward.len()
        invariant
            i <= raw.reward.len(),
            all == raw@.reward,
            rewards_of(all.take(i as int)) == Ok::<Seq<(Seq<char>, int)>, Fault>(pairs_view(reward@)),
        decreases raw.reward.len() - i,
    {
        let r = &raw.reward[i];
        proof {
            assert(all.take(i + 1).drop_last() =~= all.take(i as int));
            assert(all.take(i + 1).last() == (r.item@, r.qty as int));
        }
        if item(r.item.as_str()).is_none() {
            let why = wrapped("`", r.item.as_str(), "` is not a real item");
            proof {
                lemma_rewards_fail(all, i + 1);
            }
            return Err(invalid("reward".to_string(), why));
        }
        if r.qty <= 0 {
            let why = wrapped("`", r.item.as_str(), "` has a non-positive quantity");
            proof {
                lemma_rewards_fail(all, i + 1);
            }
            return Err(invalid("reward".to_string(), why));
        }
        let ghost was = reward@;
        reward.push((r.item.clone(), r.qty));
        assert(pairs_view(reward@) =~= pairs_view(was).push((r.item@, r.qty as int)));
        i = i + 1;
    }
    assert(all.take(i as int) =~= all);
    Ok(reward)
}

pub open spec fn tutorial_result(r: Result<TutorialConfig, TutorialConfigError>) -> Result<
    TutorialConfigView,
    Fault,
> {
    match r {
        Ok(c) => Ok(c@),
        Err(e) => Err(e@),
    }
}

pub open spec fn is_from(npc: Seq<char>) -> spec_fn(HandoutView) -> bool {
    |h: HandoutView| h.npc == npc
}

pub open spec fn handout_refs(v: Seq<&Handout>) -> Seq<HandoutView> {
    Seq::new(v.len(), |i: int| v[i]@)
}

/// The conditions of a list of handouts, in their order.
pub open spec fn handout_conditions(handouts: Seq<HandoutView>) -> Seq<ConditionView>
    decreases handouts.len(),
{
    if handouts.len() == 0 {
        Seq::empty()
    } else {
        handout_conditions(handouts.drop_last()) + handouts.last().when
    }
}

/// Every condition of a configuration: those of the track, then those of the handouts.
pub open spec fn all_conditions(c: TutorialConfigView) -> Seq<ConditionView> {
    Seq::new(c.steps.len(), |i: int| c.steps[i].when) + handout_conditions(c.handouts)
}

/// Whether a condition counts what was gathered of an item.
pub open spec fn counts(c: ConditionView, item: Seq<char>) -> bool {
    c matches ConditionView::Gained(i, _) && i == item
}

/// The items that conditions count what was gathered of.
pub open spec fn gained_in(conditions: Seq<ConditionView>) -> Seq<Seq<char>>
    decreases conditions.len(),
{
    if conditions.len() == 0 {
        Seq::empty()
    } else {
        let head = gained_in(conditions.drop_last());
        match conditions.last() {
            ConditionView::Gained(i, _) => head.push(i),
            _ => head,
        }
    }
}

/// The items that conditions watch being made.
pub open spec fn made_in(conditions: Seq<ConditionView>) -> Seq<Seq<char>>
    decreases conditions.len(),
{
    if conditions.len() == 0 {
        Seq::empty()
    } else {
        let head = made_in(conditions.drop_last());
        match conditions.last() {
            ConditionView::Made(i) => head.push(i),
            _ => head,
        }
    }
}

/// Names without what goes with them.
pub open spec fn just_names(s: Seq<(Seq<char>, int)>) -> Seq<Seq<char>> {
    Seq::new(s.len(), |i: int| s[i].0)
}

fn drop_counts(v: Vec<(String, i64)>) -> (out: Vec<String>)
    ensures
        texts_view(out@) == just_names(pairs_view(v@)),
{
    let mut out: Vec<String> = Vec::new();
    let mut i: usize = 0;
    while i < v.len()
        invariant
            i <= v.len(),
            out.len() == i,
            forall|j: int| 0 <= j < i ==> (#[trigger] out@[j])@ == v@[j].0@,
        decreases v.len() - i,
    {
        out.push(v[i].0.clone());
        i = i + 1;
    }
    assert(texts_view(out@) =~= just_names(pairs_view(v@)));
    out
}

fn note_gained(names: &mut Vec<(String, i64)>, c: &Condition, so_far: Ghost<Seq<ConditionView>>)
    requires
        pairs_view(old(names)@) == sorted_names(gained_in(so_far@)),
    ensures
        pairs_view(final(names)@) == sorted_names(gained_in(so_far@.push(c@))),
{
    assert(so_far@.push(c@).drop_last() =~= so_far@);
    match c {
        Condition::Gained(i, _) => {
            note_name(names, i.as_str(), Ghost(gained_in(so_far@)));
        },
        _ => {},
    }
}

fn note_made(names: &mut Vec<(String, i64)>, c: &Condition, so_far: Ghost<Seq<ConditionView>>)
    requires
        pairs_view(old(names)@) == sorted_names(made_in(so_far@)),
    ensures
        pairs_view(final(names)@) == sorted_names(made_in(so_far@.push(c@))),
{
    assert(so_far@.push(c@).drop_last() =~= so_far@);
    match c {
        Condition::Made(i) => {
            note_name(names, i.as_str(), Ghost(made_in(so_far@)));
        },
        _ => {},
    }
}

impl TutorialConfig {
    /// Check what was written down, or say what is wrong with it and where. An item or a person that does not exist, a
    /// condition that makes no sense, a handout that could run forever, or a reward that could never be earned refuses
    /// the whole configuration.
    pub fn parse(raw: RawTutorial) -> (out: Result<TutorialConfig, TutorialConfigError>)
        ensures
            tutorial_result(out) == tutorial_of(raw@),
    {
        let handouts = match read_handouts(&raw) {
            Ok(v) => v,
            Err(e) => {
                return Err(e);
            },
        };
        let steps = match read_steps(&raw) {
            Ok(v) => v,
            Err(e) => {
                return Err(e);
            },
        };
        let reward = match read_rewards(&raw) {
            Ok(v) => v,
            Err(e) => {
                return Err(e);
            },
        };
        if reward.len() > 0 && steps.len() == 0 {
            return Err(
                invalid(
                    "reward".to_string(),
                    "there are no steps to complete, so it could never be earned".to_string(),
                ),
            );
        }
        Ok(TutorialConfig { handouts, steps, reward })
    }

    /// What someone hands over, in order.
    pub fn handouts_from(&self, npc_id: &str) -> (out: Vec<&Handout>)
        ensures
            handout_refs(out@) == self@.handouts.filter(is_from(npc_id@)),
    {
        let ghost all = self@.handouts;
        let ghost p = is_from(npc_id@);
        let mut out: Vec<&Handout> = Vec::new();
        let mut i: usize = 0;
        proof {
            reveal(Seq::filter);
            assert(all.take(0) =~= Seq::empty());
            assert(handout_refs(out@) =~= all.take(0).filter(p));
        }
        while i < self.handouts.len()
            invariant
                i <= self.handouts.len(),
                all == handouts_view(self.handouts@),
                p == is_from(npc_id@),
                handout_refs(out@) == all.take(i as int).filter(p),
            decreases self.handouts.len() - i,
        {
            let h = &self.handouts[i];
            let ghost was = out@;
            proof {
                reveal(Seq::filter);
                assert(all.take(i + 1).drop_last() =~= all.take(i as int));
                assert(all.take(i + 1).last() == h@);
            }
            if same(h.npc.as_str(), npc_id) {
                out.push(h);
                assert(handout_refs(out@) =~= handout_refs(was).push(h@));
            }
            i = i + 1;
        }
        assert(all.take(i as int) =~= all);
        out
    }

    /// Every item that some condition counts what was gathered of, by name.
    pub fn counted_items(&self) -> (out: Vec<String>)
        ensures
            texts_view(out@) == just_names(sorted_names(gained_in(all_conditions(self@)))),
            forall|i: Seq<char>| #[trigger]
                texts_view(out@).contains(i) <==> exists|k: int|
                    0 <= k < all_conditions(self@).len() && counts(#[trigger] all_conditions(self@)[k], i),
    {
        let ghost mut done = Seq::<ConditionView>::empty();
        let mut names: Vec<(String, i64)> = Vec::new();
        assert(pairs_view(names@) =~= sorted_names(gained_in(done)));
        let mut i: usize = 0;
        while i < self.steps.len()
            invariant
                i <= self.steps.len(),
                done == Seq::new(i as nat, |j: int| self@.steps[j].when),
                pairs_view(names@) == sorted_names(gained_in(done)),
            decreases self.steps.len() - i,
        {
            note_gained(&mut names, &self.steps[i].when, Ghost(done));
            proof {
                done = done.push(self.steps@[i as int].when@);
                assert(done =~= Seq::new((i + 1) as nat, |j: int| self@.steps[j].when));
            }
            i = i + 1;
        }
        let ghost track = done;
        let ghost handouts = self@.handouts;
        let mut h: usize = 0;
        assert(handouts.take(0) =~= Seq::empty());
        assert(done =~= track + handout_conditions(handouts.take(0)));
        while h < self.handouts.len()
            invariant
                h <= self.handouts.len(),
                handouts == self@.handouts,
                done == track + handout_conditions(handouts.take(h as int)),
                pairs_view(names@) == sorted_names(gained_in(done)),
            decreases self.handouts.len() - h,
        {
            let watch = &self.handouts[h].when;
            let ghost base = done;
            let mut k: usize = 0;
            assert(base + conditions_view(watch@).take(0) =~= base);
            while k < watch.len()
                invariant
                    k <= watch.len(),
                    done == base + conditions_view(watch@).take(k as int),
                    pairs_view(names@) == sorted_names(gained_in(done)),
                decreases watch.len() - k,
            {
                note_gained(&mut names, &watch[k], Ghost(done));
                proof {
                    done = done.push(watch@[k as int]@);
                    assert(done =~= base + conditions_view(watch@).take(k + 1));
                }
                k = k + 1;
            }
            proof {
                assert(conditions_view(watch@).take(k as int) =~= handouts[h as int].when);
                assert(handouts.take(h + 1).drop_last() =~= handouts.take(h as int));
                assert(handouts.take(h + 1).last() == handouts[h as int]);
                assert(done =~= track + handout_conditions(handouts.take(h + 1)));
            }
            h = h + 1;
        }
        proof {
            assert(handouts.take(h as int) =~= handouts);
            assert(done =~= all_conditions(self@));
            lemma_gained_names(done);
        }
        drop_counts(names)
    }

    /// Every item that some condition watches being made, by name.
    pub fn made_items(&self) -> (out: Vec<String>)
        ensures
            texts_view(out@) == just_names(sorted_names(made_in(all_conditions(self@)))),
            forall|i: Seq<char>| #[trigger]
                texts_view(out@).contains(i) <==> all_conditions(self@).contains(ConditionView::Made(i)),
    {
        let ghost mut done = Seq::<ConditionView>::empty();
        let mut names: Vec<(String, i64)> = Vec::new();
        assert(pairs_view(names@) =~= sorted_names(made_in(done)));
        let mut i: usize = 0;
        while i < self.steps.len()
            invariant
                i <= self.steps.len(),
                done == Seq::new(i as nat, |j: int| self@.steps[j].when),
                pairs_view(names@) == sorted_names(made_in(done)),
            decreases self.steps.len() - i,
        {
            note_made(&mut names, &self.steps[i].when, Ghost(done));
            proof {
                done = done.push(self.steps@[i as int].when@);
                assert(done =~= Seq::new((i + 1) as nat, |j: int| self@.steps[j].when));
            }
            i = i + 1;
        }
        let ghost track = done;
        let ghost handouts = self@.handouts;
        let mut h: usize = 0;
        assert(handouts.take(0) =~= Seq::empty());
        assert(done =~= track + handout_conditions(handouts.take(0)));
        while h < self.handouts.len()
            invariant
                h <= self.handouts.len(),
                handouts == self@.handouts,
                done == track + handout_conditions(handouts.take(h as int)),
                pairs_view(names@) == sorted_names(made_in(done)),
            decreases self.handouts.len() - h,
        {
            let watch = &self.handouts[h].when;
            let ghost base = done;
            let mut k: usize = 0;
            assert(base + conditions_view(watch@).take(0) =~= base);
            while k < watch.len()
                invariant
                    k <= watch.len(),
                    done == base + conditions_view(watch@).take(k as int),
                    pairs_view(names@) == sorted_names(made_in(done)),
                decreases watch.len() - k,
            {
                note_made(&mut names, &watch[k], Ghost(done));
                proof {
                    done = done.push(watch@[k as int]@);
                    assert(done =~= base + conditions_view(watch@).take(k + 1));
                }
                k = k + 1;
            }
            proof {
                assert(conditions_view(watch@).take(k as int) =~= handouts[h as int].when);
                assert(handouts.take(h + 1).drop_last() =~= handouts.take(h as int));
                assert(handouts.take(h + 1).last() == handouts[h as int]);
                assert(done =~= track + handout_conditions(handouts.take(h + 1)));
            }
            h = h + 1;
        }
        proof {
            assert(handouts.take(h as int) =~= handouts);
            assert(done =~= all_conditions(self@));
            lemma_made_names(done);
        }
        drop_counts(names)
    }
}

proof fn lemma_just_names(names: Seq<Seq<char>>, key: Seq<char>)
    ensures
        just_names(sorted_names(names)).contains(key) <==> names.contains(key),
{
    law_sorted_names(names, key);
    let t = sorted_names(names);
    if names.contains(key) {
        let i = choose|i: int| 0 <= i < t.len() && (#[trigger] t[i]).0 == key;
        assert(just_names(t)[i] == key);
    }
    if just_names(t).contains(key) {
        let i = choose|i: int| 0 <= i < just_names(t).len() && just_names(t)[i] == key;
        assert(t[i].0 == key);
    }
}

proof fn lemma_gained_in(cs: Seq<ConditionView>, i: Seq<char>)
    ensures
        gained_in(cs).contains(i) <==> exists|k: int| 0 <= k < cs.len() && counts(#[trigger] cs[k], i),
    decreases cs.len(),
{
    if cs.len() > 0 {
        let head = cs.drop_last();
        let before = gained_in(head);
        lemma_gained_in(head, i);
        if gained_in(cs).contains(i) {
            if before.contains(i) {
                let k = choose|k: int| 0 <= k < head.len() && counts(#[trigger] head[k], i);
                assert(counts(cs[k], i));
            } else {
                let j = choose|j: int| 0 <= j < gained_in(cs).len() && gained_in(cs)[j] == i;
                if j < before.len() {
                    assert(before[j] == i);
                }
                assert(counts(cs[cs.len() - 1], i));
            }
        }
        if exists|k: int| 0 <= k < cs.len() && counts(#[trigger] cs[k], i) {
            let k = choose|k: int| 0 <= k < cs.len() && counts(#[trigger] cs[k], i);
            if k < head.len() {
                assert(counts(head[k], i));
                let j = choose|j: int| 0 <= j < before.len() && before[j] == i;
                assert(gained_in(cs)[j] == i);
            } else {
                assert(gained_in(cs)[before.len() as int] == i);
            }
        }
    }
}

proof fn lemma_gained_names(cs: Seq<ConditionView>)
    ensures
        forall|i: Seq<char>| #[trigger]
            just_names(sorted_names(gained_in(cs))).contains(i) <==> exists|k: int|
                0 <= k < cs.len() && counts(#[trigger] cs[k], i),
{
    assert forall|i: Seq<char>| #[trigger]
        just_names(sorted_names(gained_in(cs))).contains(i) <==> exists|k: int|
            0 <= k < cs.len() && counts(#[trigger] cs[k], i) by {
        lemma_just_names(gained_in(cs), i);
        lemma_gained_in(cs, i);
    }
}

proof fn lemma_made_in(cs: Seq<ConditionView>, i: Seq<char>)
    ensures
        made_in(cs).contains(i) <==> cs.contains(ConditionView::Made(i)),
    decreases cs.len(),
{
    if cs.len() > 0 {
        let head = cs.drop_last();
        let before = made_in(head);
        lemma_made_in(head, i);
        if made_in(cs).contains(i) {
            if before.contains(i) {
                let k = choose|k: int| 0 <= k < head.len() && head[k] == ConditionView::Made(i);
                assert(cs[k] == ConditionView::Made(i));
            } else {
                let j = choose|j: int| 0 <= j < made_in(cs).len() && made_in(cs)[j] == i;
                if j < before.len() {
                    assert(before[j] == i);
                }
                assert(cs[cs.len() - 1] == cs.last());
            }
        }
        if cs.contains(ConditionView::Made(i)) {
            let k = choose|k: int| 0 <= k < cs.len() && cs[k] == ConditionView::Made(i);
            if k < head.len() {
                assert(head[k] == ConditionView::Made(i));
                let j = choose|j: int| 0 <= j < before.len() && before[j] == i;
                assert(made_in(cs)[j] == i);
            } else {
                assert(made_in(cs)[before.len() as int] == i);
            }
        }
    }
}

proof fn lemma_made_names(cs: Seq<ConditionView>)
    ensures
        forall|i: Seq<char>| #[trigger]
            just_names(sorted_names(made_in(cs))).contains(i) <==> cs.contains(ConditionView::Made(i)),
{
    assert forall|i: Seq<char>| #[trigger]
        just_names(sorted_names(made_in(cs))).contains(i) <==> cs.contains(ConditionView::Made(i)) by {
        lemma_just_names(made_in(cs), i);
        lemma_made_in(cs, i);
    }
}

/// No handout that was accepted is an item printer: each has a condition, hands over something real, and is
/// either limited to once or has to wait.
pub proof fn law_handouts_are_valves(raw: Seq<RawHandoutView>)
    requires
        handouts_of(raw) is Ok,
    ensures
        handouts_of(raw)->Ok_0.len() == raw.len(),
        forall|i: int|
            0 <= i < raw.len() ==> {
                let h = #[trigger] handouts_of(raw)->Ok_0[i];
                &&& h.when.len() > 0
                &&& h.once || h.cooldown_secs > 0
                &&& h.qty > 0
                &&& is_item(h.item)
                &&& is_npc(h.npc)
            },
    decreases raw.len(),
{
    if raw.len() > 0 {
        law_handouts_are_valves(raw.drop_last());
        lemma_conditions_len(handout_name(raw.last()), raw.last().when);
        let head = handouts_of(raw.drop_last())->Ok_0;
        let all = handouts_of(raw)->Ok_0;
        assert forall|i: int| 0 <= i < raw.len() implies ({
            let h = #[trigger] all[i];
            &&& h.when.len() > 0
            &&& h.once || h.cooldown_secs > 0
            &&& h.qty > 0
            &&& is_item(h.item)
            &&& is_npc(h.npc)
        }) by {
            if i < head.len() {
                assert(all[i] == head[i]);
            }
        }
    }
}

proof fn lemma_conditions_len(what: Seq<char>, texts: Seq<Seq<char>>)
    ensures
        conditions_of(what, texts) is Ok ==> conditions_of(what, texts)->Ok_0.len() == texts.len(),
    decreases texts.len(),
{
    if texts.len() > 0 {
        lemma_conditions_len(what, texts.drop_last());
    }
}

/// Every step that was accepted can be completed and told apart: what it watches exists, and no other step has its id.
pub proof fn law_steps_can_be_completed(raw: Seq<RawStepView>)
    requires
        steps_of(raw) is Ok,
    ensures
        steps_of(raw)->Ok_0.len() == raw.len(),
        forall|i: int|
            0 <= i < raw.len() ==> (#[trigger] steps_of(raw)->Ok_0[i]).id == raw[i].id && (item_of(
                steps_of(raw)->Ok_0[i].when,
            ) matches Some(x) ==> is_item(x)),
        forall|i: int, j: int|
            0 <= i < j < raw.len() ==> (#[trigger] steps_of(raw)->Ok_0[i]).id != (
            #[trigger] steps_of(raw)->Ok_0[j]).id,
    decreases raw.len(),
{
    if raw.len() > 0 {
        law_steps_can_be_completed(raw.drop_last());
        let head = steps_of(raw.drop_last())->Ok_0;
        let all = steps_of(raw)->Ok_0;
        assert(!has_step(raw.drop_last(), raw.last().id));
        assert forall|i: int| 0 <= i < raw.len() implies (#[trigger] all[i]).id == raw[i].id && (item_of(
            all[i].when,
        ) matches Some(x) ==> is_item(x)) by {
            if i < head.len() {
                assert(all[i] == head[i]);
                assert(raw.drop_last()[i] == raw[i]);
            }
        }
        assert forall|i: int, j: int| 0 <= i < j < raw.len() implies (#[trigger] all[i]).id != (
        #[trigger] all[j]).id by {
            assert(all[i] == head[i]);
            if j < head.len() {
                assert(all[j] == head[j]);
            } else {
                assert(raw.drop_last()[i] == raw[i]);
            }
        }
    }
}

} // verus!
