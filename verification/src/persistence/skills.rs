//! Skills that grow with use.

use vstd::prelude::*;

use crate::persistence::db::{Db, DbView};
use crate::persistence::rows::{Skill, SkillView};
use crate::table::{find, order_rows, ordered, rows_view, Row};
use crate::text::{before, same, text_before};

verus! {

/// Building experience for each unit that was put into a build order, paid when it completes.
pub const BUILD_XP_PER_UNIT: i64 = 5;

/// Crafting experience for each craft.
pub const CRAFT_XP_PER_CRAFT: i64 = 15;

/// Whether `n` is the level that `xp` reaches: level `n` is reached at `100 * n * n`.
pub open spec fn is_level(xp: int, n: int) -> bool {
    n >= 0 && 100 * (n * n) <= xp < 100 * ((n + 1) * (n + 1))
}

/// The level that `xp` reaches.
pub open spec fn level_of(xp: int) -> int {
    if xp <= 0 {
        0
    } else {
        choose|n: int| is_level(xp, n)
    }
}

/// More experience never means a lower level, and each level has its own range.
pub proof fn law_levels_never_fall(a: int, b: int, m: int, n: int)
    requires
        a <= b,
        is_level(a, m),
        is_level(b, n),
    ensures
        m <= n,
{
    if m > n {
        assert((n + 1) * (n + 1) <= m * m) by (nonlinear_arith)
            requires
                0 <= n + 1 <= m,
        ;
    }
}

pub proof fn lemma_level_is(xp: int, n: int)
    requires
        is_level(xp, n),
    ensures
        level_of(xp) == n,
{
    if xp <= 0 {
        if n > 0 {
            assert(n * n > 0) by (nonlinear_arith)
                requires
                    n > 0,
            ;
        }
    } else {
        let m = level_of(xp);
        assert(is_level(xp, m));
        law_levels_never_fall(xp, xp, m, n);
        law_levels_never_fall(xp, xp, n, m);
    }
}

/// A level is reached at a hundred times its square of experience, and not before.
pub proof fn law_a_level_is_a_square(xp: int, n: int)
    ensures
        level_of(xp) >= 0,
        xp >= 0 ==> 100 * (level_of(xp) * level_of(xp)) <= xp < 100 * ((level_of(xp) + 1) * (level_of(xp) + 1)),
        n > 0 ==> (level_of(xp) >= n <==> xp >= 100 * (n * n)),
{
    let m = level_of(xp);
    if xp >= 0 {
        lemma_some_level(xp, 0);
        let some = choose|k: int| is_level(xp, k);
        lemma_level_is(xp, some);
        if n > 0 && m >= n {
            assert(m * m >= n * n) by (nonlinear_arith)
                requires
                    m >= n > 0,
            ;
        } else if n > 0 {
            assert((m + 1) * (m + 1) <= n * n) by (nonlinear_arith)
                requires
                    0 <= m + 1 <= n,
            ;
        }
    } else if n > 0 {
        assert(n * n > 0) by (nonlinear_arith)
            requires
                n > 0,
        ;
    }
}

proof fn lemma_some_level(xp: int, n: int)
    requires
        n >= 0,
        100 * (n * n) <= xp,
    ensures
        exists|k: int| is_level(xp, k),
    decreases xp - n,
{
    if xp < 100 * ((n + 1) * (n + 1)) {
        assert(is_level(xp, n));
    } else {
        assert((n + 1) * (n + 1) >= n + 1) by (nonlinear_arith)
            requires
                n >= 0,
        ;
        lemma_some_level(xp, n + 1);
    }
}

/// The level that an amount of experience reaches: level `n` at `100 * n * n`.
pub fn level_for_xp(xp: i64) -> (level: i64)
    ensures
        level == level_of(xp as int),
        xp <= 0 ==> level == 0,
        xp >= 0 ==> is_level(xp as int, level as int),
{
    if xp <= 0 {
        return 0;
    }
    let q: i64 = xp / 100;
    let mut low: i64 = 0;
    let mut high: i64 = 400_000_000;
    proof {
        assert(q < 400_000_000int * 400_000_000int);
    }
    while high - low > 1
        invariant
            0 <= low < high <= 400_000_000,
            low * low <= q < high * high,
        decreases high - low,
    {
        let mid: i64 = low + (high - low) / 2;
        assert(0 <= mid * mid <= 400_000_000int * 400_000_000int) by (nonlinear_arith)
            requires
                0 <= mid <= 400_000_000,
        ;
        if mid * mid <= q {
            low = mid;
        } else {
            high = mid;
        }
    }
    proof {
        assert(high == low + 1);
        assert(is_level(xp as int, low as int));
        lemma_level_is(xp as int, low as int);
    }
    low
}

pub open spec fn is_skill(character: Seq<char>, skill: Seq<char>) -> spec_fn(SkillView) -> bool {
    |k: SkillView| k.character_id == character && k.skill_id == skill
}

pub open spec fn is_skill_of(character: Seq<char>) -> spec_fn(SkillView) -> bool {
    |k: SkillView| k.character_id == character
}

/// The experience of a character in a skill; 0 before its first use.
pub open spec fn xp_of(skills: Seq<SkillView>, character: Seq<char>, skill: Seq<char>) -> int {
    let k = find(skills, is_skill(character, skill));
    if k < skills.len() {
        skills[k].xp
    } else {
        0
    }
}

/// A skill after its experience is set.
pub open spec fn skill_row(character: Seq<char>, skill: Seq<char>, xp: int) -> SkillView {
    SkillView { character_id: character, skill_id: skill, xp, level: level_of(xp) }
}

/// The skills after experience is added to one, which never falls below 0.
pub open spec fn trained(skills: Seq<SkillView>, character: Seq<char>, skill: Seq<char>, amount: int) -> Seq<SkillView> {
    let k = find(skills, is_skill(character, skill));
    let sum = xp_of(skills, character, skill) + amount;
    let row = skill_row(
        character,
        skill,
        if sum > 0 {
            sum
        } else {
            0
        },
    );
    if k < skills.len() {
        skills.update(k, row)
    } else {
        skills.push(row)
    }
}

pub open spec fn skill_before() -> spec_fn(SkillView, SkillView) -> bool {
    |a: SkillView, b: SkillView| text_before(a.skill_id, b.skill_id)
}

/// What adding experience came to.
#[derive(Debug, Clone, PartialEq, Eq)]
pub struct SkillGain {
    pub skill: Skill,
    /// Whether a new level was reached.
    pub leveled_up: bool,
}

impl Db {
    fn find_skill(&self, character_id: &str, skill_id: &str) -> (k: usize)
        ensures
            k == find(self@.skills, is_skill(character_id@, skill_id@)),
            k <= self@.skills.len(),
    {
        let f = |r: &Skill| -> (b: bool)
            ensures
                b == is_skill(character_id@, skill_id@)(r@),
            { same(r.character_id.as_str(), character_id) && same(r.skill_id.as_str(), skill_id) };
        self.skills.find(f, Ghost(is_skill(character_id@, skill_id@)))
    }

    /// Add experience to a character's skill, which begins with its first use, and say whether a new
    /// level was reached.
    pub fn grant_skill_xp(&mut self, character_id: &str, skill_id: &str, amount: i64) -> (gain: SkillGain)
        requires
            i64::MIN <= xp_of(old(self)@.skills, character_id@, skill_id@) + amount <= i64::MAX,
        ensures
            final(self)@ == (DbView {
                skills: trained(old(self)@.skills, character_id@, skill_id@, amount as int),
                ..old(self)@
            }),
            ({
                let was = xp_of(old(self)@.skills, character_id@, skill_id@);
                let now = if was + amount > 0 {
                    was + amount
                } else {
                    0
                };
                &&& gain.skill@ == skill_row(character_id@, skill_id@, now)
                &&& gain.leveled_up == (level_of(now) > level_of(was))
            }),
    {
        let k: usize = self.find_skill(character_id, skill_id);
        let current: i64 = if k < self.skills.len() {
            self.skills.get(k).xp
        } else {
            0
        };
        let previous: i64 = level_for_xp(current);
        let sum: i64 = current + amount;
        let xp: i64 = if sum > 0 {
            sum
        } else {
            0
        };
        let level: i64 = level_for_xp(xp);
        let skill = Skill {
            character_id: character_id.to_string(),
            skill_id: skill_id.to_string(),
            xp,
            level,
        };
        if k < self.skills.len() {
            let row = self.skills.get_mut(k);
            *row = skill.copy();
        } else {
            self.skills.push(skill.copy());
        }
        SkillGain { skill, leveled_up: level > previous }
    }

    /// A character's level in a skill; 0 before its first use.
    pub fn skill_level(&self, character_id: &str, skill_id: &str) -> (level: i64)
        ensures
            level == level_of(xp_of(self@.skills, character_id@, skill_id@)),
    {
        let k: usize = self.find_skill(character_id, skill_id);
        if k < self.skills.len() {
            level_for_xp(self.skills.get(k).xp)
        } else {
            level_for_xp(0)
        }
    }

    /// A character's skills, by name.
    pub fn skills_for_character(&self, character_id: &str) -> (out: Vec<Skill>)
        ensures
            rows_view(out@) == ordered(self@.skills.filter(is_skill_of(character_id@)), skill_before()),
    {
        let f = |r: &Skill| -> (b: bool)
            ensures
                b == is_skill_of(character_id@)(r@),
            { same(r.character_id.as_str(), character_id) };
        let rows = self.skills.select(f, Ghost(is_skill_of(character_id@)));
        let g = |a: &Skill, b: &Skill| -> (r: bool)
            ensures
                r == skill_before()(a@, b@),
            { before(a.skill_id.as_str(), b.skill_id.as_str()) };
        order_rows(rows, g, Ghost(skill_before()))
    }
}

} // verus!
