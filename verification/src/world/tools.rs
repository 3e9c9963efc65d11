//! Tools: where they are worn, what they do, how they wear and what mending them costs.

use vstd::prelude::*;

use crate::table::{find, lemma_find, lemma_find_is, sum};
use crate::text::same;
use crate::world::registry::{inputs_view, makes_item, recipe_for, recipe_registry};

verus! {

/// The swings a fresh tool lasts; `None` for what is not a tool.
pub open spec fn tool_durability(item: Seq<char>) -> Option<int> {
    if item == "pickaxe"@ || item == "axe"@ || item == "sword"@ {
        Some(30)
    } else {
        None
    }
}

/// Whether an item is instanced, each with its own wear, and not stacked.
pub open spec fn is_tool(item: Seq<char>) -> bool {
    tool_durability(item) is Some
}

/// The swings a fresh tool lasts before it breaks; `None` for anything that is not a tool. What
/// has a durability is instanced, not stacked.
pub fn tool_max_durability(item_id: &str) -> (max: Option<i64>)
    ensures
        max is Some == is_tool(item_id@),
        max matches Some(m) ==> Some(m as int) == tool_durability(item_id@),
{
    if same(item_id, "pickaxe") || same(item_id, "axe") || same(item_id, "sword") {
        Some(30)
    } else {
        None
    }
}

/// The view of an optional text.
pub open spec fn opt_static(o: Option<&'static str>) -> Option<Seq<char>> {
    match o {
        Some(t) => Some(t@),
        None => None,
    }
}

/// Where an item is worn, if it can be.
pub open spec fn slot_of(item: Seq<char>) -> Option<Seq<char>> {
    if item == "pickaxe"@ || item == "axe"@ {
        Some("tool"@)
    } else if item == "sword"@ {
        Some("weapon"@)
    } else {
        None
    }
}

/// The slot that an item can be worn in; `None` for what cannot be worn. A weapon has a slot of its own, so
/// that a tool and a weapon are carried at once.
pub fn equippable_slot(item_id: &str) -> (slot: Option<&'static str>)
    ensures
        opt_static(slot) == slot_of(item_id@),
{
    if same(item_id, "pickaxe") || same(item_id, "axe") {
        Some("tool")
    } else if same(item_id, "sword") {
        Some("weapon")
    } else {
        None
    }
}

/// An ability that an item grants while it is worn.
#[derive(Debug, Clone, Copy)]
pub struct Ability {
    pub id: &'static str,
    pub name: &'static str,
}

/// The view of an [`Ability`].
pub struct AbilityView {
    pub id: Seq<char>,
    pub name: Seq<char>,
}

impl View for Ability {
    type V = AbilityView;

    open spec fn view(&self) -> AbilityView {
        AbilityView { id: self.id@, name: self.name@ }
    }
}

/// The views of a list of abilities.
pub open spec fn abilities_view(abilities: Seq<Ability>) -> Seq<AbilityView> {
    Seq::new(abilities.len(), |i: int| abilities[i]@)
}

/// What wearing an item lets one do.
pub open spec fn abilities_of(item: Seq<char>) -> Seq<AbilityView> {
    if item == "pickaxe"@ {
        seq![AbilityView { id: "pick"@, name: "Pick"@ }]
    } else if item == "axe"@ {
        seq![AbilityView { id: "chop"@, name: "Chop"@ }]
    } else {
        Seq::empty()
    }
}

/// The abilities granted by wearing an item; none for what cannot be worn, or grants none.
pub fn abilities_for_item(item_id: &str) -> (abilities: &'static [Ability])
    ensures
        abilities_view(abilities@) == abilities_of(item_id@),
{
    if same(item_id, "pickaxe") {
        let out: &'static [Ability] = &[Ability { id: "pick", name: "Pick" }];
        assert(abilities_view(out@) =~= abilities_of(item_id@));
        out
    } else if same(item_id, "axe") {
        let out: &'static [Ability] = &[Ability { id: "chop", name: "Chop" }];
        assert(abilities_view(out@) =~= abilities_of(item_id@)) by {
            reveal_strlit("axe");
            reveal_strlit("pickaxe");
            assert("axe"@.len() != "pickaxe"@.len());
        }
        out
    } else {
        let out: &'static [Ability] = &[];
        assert(abilities_view(out@) =~= abilities_of(item_id@));
        out
    }
}

/// The skill that governs an ability.
pub open spec fn skill_for(ability: Seq<char>) -> Option<Seq<char>> {
    if ability == "pick"@ {
        Some("mining"@)
    } else if ability == "chop"@ {
        Some("woodcutting"@)
    } else {
        None
    }
}

/// The skill whose level shortens an ability's cooldown, if any.
pub fn governing_skill(ability_id: &str) -> (skill: Option<&'static str>)
    ensures
        opt_static(skill) == skill_for(ability_id@),
{
    if same(ability_id, "pick") {
        Some("mining")
    } else if same(ability_id, "chop") {
        Some("woodcutting")
    } else {
        None
    }
}

/// What an ability harvests.
pub open spec fn target_of(ability: Seq<char>) -> Option<Seq<char>> {
    if ability == "pick"@ {
        Some("stone"@)
    } else if ability == "chop"@ {
        Some("wood"@)
    } else {
        None
    }
}

/// The item that an ability harvests, for abilities that harvest at all.
pub fn ability_target_item(ability_id: &str) -> (item: Option<&'static str>)
    ensures
        opt_static(item) == target_of(ability_id@),
{
    if same(ability_id, "pick") {
        Some("stone")
    } else if same(ability_id, "chop") {
        Some("wood")
    } else {
        None
    }
}

/// An ability's cooldown at a level of its skill: chopping starts at 1800 ms and floors at 1000, picking
/// starts at 2200 and floors at 1300, each 120 faster with every level.
pub open spec fn cooldown_ms(ability: Seq<char>, level: int) -> int {
    if ability == "chop"@ {
        at_least(1800 - 120 * level, 1000)
    } else if ability == "pick"@ {
        at_least(2200 - 120 * level, 1300)
    } else {
        1000
    }
}

pub open spec fn at_least(n: int, floor: int) -> int {
    if n >= floor {
        n
    } else {
        floor
    }
}

/// An ability's cooldown in milliseconds at a level of its governing skill (0 where it has none). Chopping is
/// the accessible track and picking the slow one; both reach their floor within a session.
pub fn ability_cooldown_ms(ability_id: &str, skill_level: i64) -> (ms: i64)
    requires
        ability_id@ == "chop"@ || ability_id@ == "pick"@ ==> i64::MIN <= 120 * skill_level <= i64::MAX && 2200
            - 120 * skill_level <= i64::MAX,
    ensures
        ms == cooldown_ms(ability_id@, skill_level as int),
{
    if same(ability_id, "chop") {
        let ms: i64 = 1800 - 120 * skill_level;
        if ms >= 1000 {
            ms
        } else {
            1000
        }
    } else if same(ability_id, "pick") {
        let ms: i64 = 2200 - 120 * skill_level;
        assert(ability_id@ != "chop"@) by {
            reveal_strlit("pick");
            reveal_strlit("chop");
            assert("pick"@[0] != "chop"@[0]);
        }
        if ms >= 1300 {
            ms
        } else {
            1300
        }
    } else {
        1000
    }
}

/// Experience for a swing at something that one has outgrown from a level on: the whole award up to that
/// level, then less by equal steps, and none from twice that level on. Without such a level nothing is outgrown.
pub open spec fn faded_xp(base: int, level: int, falloff: int) -> int {
    if base <= 0 {
        0
    } else if falloff <= 0 || level <= falloff {
        base
    } else if level >= 2 * falloff {
        0
    } else {
        (base * (2 * falloff - level)) / falloff
    }
}

/// Experience for a swing, scaled down once the swinger has outgrown what is swung at. Above `falloff_level`
/// the award decays to nothing over the same span again; it is never negative.
pub fn xp_with_falloff(base: i64, level: i64, falloff_level: i64) -> (xp: i64)
    requires
        base > 0 && 0 < falloff_level < level < 2 * falloff_level ==> base * (2 * falloff_level - level)
            <= i64::MAX,
    ensures
        xp == faded_xp(base as int, level as int, falloff_level as int),
{
    if base <= 0 {
        return 0;
    }
    if falloff_level <= 0 || level <= falloff_level {
        return base;
    }
    let over: i64 = level - falloff_level;
    if over >= falloff_level {
        return 0;
    }
    let remaining: i64 = falloff_level - over;
    assert(base * remaining >= 0) by (nonlinear_arith)
        requires
            base > 0,
            remaining > 0,
    ;
    (base * remaining) / falloff_level
}

/// Experience per successful swing of an ability.
pub open spec fn swing_xp(ability: Seq<char>) -> int {
    if ability == "pick"@ || ability == "chop"@ {
        12
    } else {
        0
    }
}

/// Experience per successful swing: a swing is a swing, whichever the ability.
pub fn ability_xp_per_swing(ability_id: &str) -> (xp: i64)
    ensures
        xp == swing_xp(ability_id@),
{
    if same(ability_id, "pick") || same(ability_id, "chop") {
        12
    } else {
        0
    }
}

/// The tool that an ability wears down.
pub open spec fn tool_for(ability: Seq<char>) -> Option<Seq<char>> {
    if ability == "pick"@ {
        Some("pickaxe"@)
    } else if ability == "chop"@ {
        Some("axe"@)
    } else {
        None
    }
}

/// The tool that an ability wears down on a successful swing: the inverse of [`abilities_for_item`].
pub fn governing_tool(ability_id: &str) -> (tool: Option<&'static str>)
    ensures
        opt_static(tool) == tool_for(ability_id@),
{
    if same(ability_id, "pick") {
        Some("pickaxe")
    } else if same(ability_id, "chop") {
        Some("axe")
    } else {
        None
    }
}

/// How much of an ingredient mends a tool worn by `worn` out of `max`: its share, rounded down, and at least 1.
pub open spec fn mending_share(qty: int, worn: int, max: int) -> int {
    if (qty * worn) / max >= 1 {
        (qty * worn) / max
    } else {
        1
    }
}

/// What mending a tool that misses `missing` of its `max` durability costs.
pub open spec fn repair_price(item: Seq<char>, missing: int, max: int) -> Option<Seq<(Seq<char>, int)>> {
    let k = find(recipe_registry(), makes_item(item));
    let inputs = recipe_registry()[k].inputs;
    let worn = if missing <= max {
        missing
    } else {
        max
    };
    if missing <= 0 || max <= 0 || k >= recipe_registry().len() {
        None
    } else {
        Some(Seq::new(inputs.len(), |i: int| (inputs[i].0, mending_share(inputs[i].1, worn, max))))
    }
}

/// The view of an optional list of ingredients.
pub open spec fn opt_inputs(v: Option<Vec<(&'static str, i64)>>) -> Option<Seq<(Seq<char>, int)>> {
    match v {
        Some(p) => Some(inputs_view(p@)),
        None => None,
    }
}

/// What mending a tool that misses `missing` of its `max` durability costs: each ingredient of its recipe,
/// by the share that is worn away, rounded down, and at least 1 of each. `None` where nothing is missing or
/// no recipe makes the item.
pub fn repair_cost(item_id: &str, missing: i64, max: i64) -> (cost: Option<Vec<(&'static str, i64)>>)
    ensures
        opt_inputs(cost) == repair_price(item_id@, missing as int, max as int),
{
    proof {
        lemma_find(recipe_registry(), makes_item(item_id@));
        lemma_small_recipes();
    }
    if missing <= 0 || max <= 0 {
        return None;
    }
    let recipe = match recipe_for(item_id) {
        Some(r) => r,
        None => {
            return None;
        },
    };
    let worn: i64 = if missing <= max {
        missing
    } else {
        max
    };
    let ghost inputs = recipe@.inputs;
    let mut out: Vec<(&'static str, i64)> = Vec::new();
    let mut i: usize = 0;
    while i < recipe.inputs.len()
        invariant
            i <= recipe.inputs.len(),
            0 < worn <= max,
            inputs == inputs_view(recipe.inputs@),
            out.len() == i,
            forall|j: int| 0 <= j < inputs.len() ==> 0 < (#[trigger] inputs[j]).1 <= 100,
            forall|j: int|
                0 <= j < i ==> (#[trigger] out@[j]).0@ == inputs[j].0 && out@[j].1 == mending_share(
                    inputs[j].1,
                    worn as int,
                    max as int,
                ),
        decreases recipe.inputs.len() - i,
    {
        let (ingredient, full_qty) = recipe.inputs[i];
        assert(inputs[i as int] == (ingredient@, full_qty as int));
        proof {
            assert(0 <= full_qty * worn <= 100 * i64::MAX) by (nonlinear_arith)
                requires
                    0 < full_qty <= 100,
                    0 < worn <= i64::MAX,
            ;
            assert((full_qty * worn) / (max as int) <= full_qty) by (nonlinear_arith)
                requires
                    0 < full_qty,
                    0 < worn <= max,
            ;
        }
        let share: i64 = ((full_qty as i128 * worn as i128) / max as i128) as i64;
        let qty: i64 = if share >= 1 {
            share
        } else {
            1
        };
        out.push((ingredient, qty));
        i = i + 1;
    }
    assert(inputs_view(out@) =~= repair_price(item_id@, missing as int, max as int)->0);
    Some(out)
}

/// Every recipe asks for a little of something.
proof fn lemma_small_recipes()
    ensures
        forall|k: int, j: int|
            0 <= k < recipe_registry().len() && 0 <= j < recipe_registry()[k].inputs.len() ==> 0 < (
            #[trigger] recipe_registry()[k].inputs[j]).1 <= 100,
{
}

/// The footprint of a structure that stands in a home.
pub open spec fn footprint_of(kind: Seq<char>) -> Option<(int, int)> {
    if kind == "bed"@ || kind == "crafting"@ {
        Some((20, 20))
    } else if kind == "storage"@ {
        Some((16, 16))
    } else {
        None
    }
}

/// The footprint, in world units, of a structure that can be placed in a home; `None` for any other kind.
pub fn structure_footprint(kind: &str) -> (size: Option<(i32, i32)>)
    ensures
        size is Some == footprint_of(kind@) is Some,
        size matches Some((w, h)) ==> footprint_of(kind@) == Some((w as int, h as int)),
{
    if same(kind, "bed") || same(kind, "crafting") {
        Some((20, 20))
    } else if same(kind, "storage") {
        assert(kind@ != "bed"@ && kind@ != "crafting"@);
        Some((16, 16))
    } else {
        None
    }
}

/// Practice never slows anyone down, and chopping is faster than picking at every level.
pub proof fn law_cooldowns_fall_with_practice(ability: Seq<char>, level: int, better: int)
    requires
        level <= better,
    ensures
        cooldown_ms(ability, better) <= cooldown_ms(ability, level),
        cooldown_ms("chop"@, level) < cooldown_ms("pick"@, level),
        cooldown_ms(ability, level) >= 1000,
{
    reveal_strlit("pick");
    reveal_strlit("chop");
    assert("pick"@[0] != "chop"@[0]);
}

/// An award fades with the level and never grows again; it stays between nothing and the whole of it.
pub proof fn law_awards_fade(base: int, level: int, higher: int, falloff: int)
    requires
        level <= higher,
    ensures
        0 <= faded_xp(base, higher, falloff) <= faded_xp(base, level, falloff),
        base >= 0 ==> faded_xp(base, level, falloff) <= base,
        falloff > 0 && level >= 2 * falloff ==> faded_xp(base, level, falloff) == 0,
        base >= 0 && level <= falloff ==> faded_xp(base, level, falloff) == base,
{
    if base > 0 && falloff > 0 {
        lemma_fade(base, level, falloff);
        lemma_fade(base, higher, falloff);
        if falloff < level && higher < 2 * falloff {
            let a = base * (2 * falloff - level);
            let b = base * (2 * falloff - higher);
            assert(b <= a) by (nonlinear_arith)
                requires
                    base > 0,
                    level <= higher,
                    a == base * (2 * falloff - level),
                    b == base * (2 * falloff - higher),
            ;
            assert(b / falloff <= a / falloff) by (nonlinear_arith)
                requires
                    b <= a,
                    falloff > 0,
            ;
        }
    }
}

proof fn lemma_fade(base: int, level: int, falloff: int)
    requires
        base > 0,
        falloff > 0,
    ensures
        0 <= faded_xp(base, level, falloff) <= base,
{
    if falloff < level < 2 * falloff {
        let a = base * (2 * falloff - level);
        assert(0 <= a <= base * falloff) by (nonlinear_arith)
            requires
                base > 0,
                falloff < level < 2 * falloff,
                a == base * (2 * falloff - level),
        ;
        assert(0 <= a / falloff <= base) by (nonlinear_arith)
            requires
                0 <= a <= base * falloff,
                falloff > 0,
        ;
    }
}

/// Each tool grants one ability, and that ability wears down that very tool.
pub proof fn law_tools_and_abilities_agree(item: Seq<char>, ability: Seq<char>)
    ensures
        tool_for(ability) == Some(item) <==> abilities_of(item).len() == 1 && abilities_of(item)[0].id == ability,
        tool_for(ability) == Some(item) ==> is_tool(item) && slot_of(item) == Some("tool"@),
        is_tool(item) <==> slot_of(item) is Some,
        tool_for(ability) is Some <==> skill_for(ability) is Some,
        tool_for(ability) is Some <==> target_of(ability) is Some,
        tool_for(ability) is Some <==> swing_xp(ability) > 0,
{
    reveal_strlit("pick");
    reveal_strlit("chop");
    reveal_strlit("pickaxe");
    reveal_strlit("axe");
    assert("pick"@[0] != "chop"@[0]);
    assert("pickaxe"@.len() != "axe"@.len());
}

/// What quantities come to.
pub open spec fn total(parts: Seq<(Seq<char>, int)>) -> int {
    sum(parts, |p: (Seq<char>, int)| p.1)
}

proof fn lemma_tool_recipe(item: Seq<char>)
    requires
        is_tool(item),
    ensures
        ({
            let k = find(recipe_registry(), makes_item(item));
            let inputs = recipe_registry()[k].inputs;
            &&& 0 <= k < recipe_registry().len()
            &&& inputs.len() == 2
            &&& inputs[0].1 >= 2
            &&& inputs[1].1 >= 2
        }),
{
    reveal_strlit("plank");
    reveal_strlit("tool_kit");
    reveal_strlit("pickaxe");
    reveal_strlit("sword");
    reveal_strlit("axe");
    let r = recipe_registry();
    assert("plank"@.len() == 5 && "tool_kit"@.len() == 8 && "pickaxe"@.len() == 7 && "sword"@.len() == 5
        && "axe"@.len() == 3);
    assert("plank"@[0] != "sword"@[0]);
    let k: int = if item == "pickaxe"@ {
        2
    } else if item == "sword"@ {
        3
    } else {
        4
    };
    assert(r[0].output_item == "plank"@ && r[1].output_item == "tool_kit"@ && r[2].output_item == "pickaxe"@
        && r[3].output_item == "sword"@ && r[4].output_item == "axe"@);
    lemma_find_is(r, makes_item(item), k);
}

/// Mending a tool costs less than making one until it is entirely spent, and then exactly as much; and it
/// never gets cheaper as the tool wears on.
pub proof fn law_mending_beats_making(item: Seq<char>, missing: int, more: int, max: int)
    requires
        is_tool(item),
        0 < missing <= more,
        0 < max,
    ensures
        ({
            let whole = recipe_registry()[find(recipe_registry(), makes_item(item))].inputs;
            let price = repair_price(item, missing, max)->0;
            &&& repair_price(item, missing, max) is Some
            &&& missing < max ==> total(price) < total(whole)
            &&& missing >= max ==> price == whole
            &&& total(price) <= total(repair_price(item, more, max)->0)
        }),
{
    lemma_tool_recipe(item);
    let whole = recipe_registry()[find(recipe_registry(), makes_item(item))].inputs;
    let price = repair_price(item, missing, max)->0;
    let later = repair_price(item, more, max)->0;
    let a = if missing <= max {
        missing
    } else {
        max
    };
    let b = if more <= max {
        more
    } else {
        max
    };
    lemma_total(whole);
    lemma_total(price);
    lemma_total(later);
    lemma_share(whole[0].1, a, b, max);
    lemma_share(whole[1].1, a, b, max);
    if missing >= max {
        assert(price =~= whole);
    }
}

proof fn lemma_total(parts: Seq<(Seq<char>, int)>)
    requires
        parts.len() == 2,
    ensures
        total(parts) == parts[0].1 + parts[1].1,
{
    let f = |p: (Seq<char>, int)| p.1;
    assert(parts.drop_last().drop_last() =~= Seq::empty());
    assert(sum(parts.drop_last().drop_last(), f) == 0);
    assert(sum(parts.drop_last(), f) == parts[0].1);
}

proof fn lemma_share(qty: int, a: int, b: int, max: int)
    requires
        qty >= 2,
        0 < a <= b <= max,
    ensures
        mending_share(qty, a, max) <= mending_share(qty, b, max),
        a < max ==> mending_share(qty, a, max) < qty,
        a == max ==> mending_share(qty, a, max) == qty,
{
    assert(qty * a <= qty * b) by (nonlinear_arith)
        requires
            qty >= 2,
            a <= b,
    ;
    assert((qty * a) / max <= (qty * b) / max) by (nonlinear_arith)
        requires
            qty * a <= qty * b,
            max > 0,
    ;
    if a < max {
        assert((qty * a) / max < qty) by (nonlinear_arith)
            requires
                qty >= 2,
                0 < a < max,
        ;
    } else {
        assert((qty * max) / max == qty) by (nonlinear_arith)
            requires
                max > 0,
        ;
    }
}

} // verus!
