//! What stands and lives in the world from the start: people, creatures, and the places one works at.

use vstd::prelude::*;

use crate::table::{find, lemma_find_is, rows_view};
use crate::text::{opt_str, same};
use crate::world::tools::opt_static;

verus! {

/// How finely the ground is sampled for the map that is sent out.
pub const TERRAIN_RESOLUTION: i32 = 384;

/// Where the weapon master stands: a short walk from the town centre, and out of the pack's reach.
pub const WEAPON_MASTER_AT: (i32, i32) = (12600, 12650);

/// How close one must stand to the weapon master to claim the bounty.
pub const BOUNTY_RANGE: i32 = 40;

/// The species of the wild dogs.
pub const SPECIES_WILD_DOG: &'static str = "wild_dog";

/// How far an authored creature may stray from its home before it walks back.
pub const AUTHORED_MOB_LEASH: i32 = 250;

/// What a swing with bare hands does.
pub const MELEE_DAMAGE_BARE: i64 = 20;

/// The views of lines of speech.
pub open spec fn lines_view(lines: Seq<&'static str>) -> Seq<Seq<char>> {
    Seq::new(lines.len(), |i: int| lines[i]@)
}

/// A creature that always lives in one place. It has a species, and comes back where it was put; ambient creatures
/// have neither.
#[derive(Debug, Clone, Copy, PartialEq, Eq)]
pub struct MobSpawn {
    pub id: &'static str,
    pub district: &'static str,
    pub species: &'static str,
    pub x: i32,
    pub y: i32,
}

/// The view of a [`MobSpawn`].
pub struct MobSpawnView {
    pub id: Seq<char>,
    pub district: Seq<char>,
    pub species: Seq<char>,
    pub x: int,
    pub y: int,
}

impl View for MobSpawn {
    type V = MobSpawnView;

    open spec fn view(&self) -> MobSpawnView {
        MobSpawnView {
            id: self.id@,
            district: self.district@,
            species: self.species@,
            x: self.x as int,
            y: self.y as int,
        }
    }
}

/// A node that yields an item until its quantity is used up, and then grows back.
#[derive(Debug, Clone, Copy, PartialEq, Eq)]
pub struct ResourceNodeSpawn {
    pub id: &'static str,
    pub district: &'static str,
    pub item_id: &'static str,
    pub x: i32,
    pub y: i32,
    pub qty: i64,
}

/// The view of a [`ResourceNodeSpawn`].
pub struct ResourceNodeSpawnView {
    pub id: Seq<char>,
    pub district: Seq<char>,
    pub item_id: Seq<char>,
    pub x: int,
    pub y: int,
    pub qty: int,
}

impl View for ResourceNodeSpawn {
    type V = ResourceNodeSpawnView;

    open spec fn view(&self) -> ResourceNodeSpawnView {
        ResourceNodeSpawnView {
            id: self.id@,
            district: self.district@,
            item_id: self.item_id@,
            x: self.x as int,
            y: self.y as int,
            qty: self.qty as int,
        }
    }
}

/// A place to stand near to use the home stash.
#[derive(Debug, Clone, Copy, PartialEq, Eq)]
pub struct StoragePoint {
    pub id: &'static str,
    pub district: &'static str,
    pub x: i32,
    pub y: i32,
}

/// The view of a [`StoragePoint`].
pub struct StoragePointView {
    pub id: Seq<char>,
    pub district: Seq<char>,
    pub x: int,
    pub y: int,
}

impl View for StoragePoint {
    type V = StoragePointView;

    open spec fn view(&self) -> StoragePointView {
        StoragePointView {
            id: self.id@,
            district: self.district@,
            x: self.x as int,
            y: self.y as int,
        }
    }
}

/// A place to stand near to contribute to a district's build orders.
#[derive(Debug, Clone, Copy, PartialEq, Eq)]
pub struct BuildBoard {
    pub id: &'static str,
    pub district: &'static str,
    pub x: i32,
    pub y: i32,
}

/// The view of a [`BuildBoard`].
pub struct BuildBoardView {
    pub id: Seq<char>,
    pub district: Seq<char>,
    pub x: int,
    pub y: int,
}

impl View for BuildBoard {
    type V = BuildBoardView;

    open spec fn view(&self) -> BuildBoardView {
        BuildBoardView {
            id: self.id@,
            district: self.district@,
            x: self.x as int,
            y: self.y as int,
        }
    }
}

/// Someone to talk to. An item is handed over whenever the talker has none at all: a safety net, not a farm.
#[derive(Debug, Clone, Copy, PartialEq, Eq)]
pub struct NpcSpawn {
    pub id: &'static str,
    pub name: &'static str,
    pub district: &'static str,
    pub x: i32,
    pub y: i32,
    pub grants_item: Option<&'static str>,
    /// What is said when something was handed over.
    pub lines_granted: &'static [&'static str],
    /// What is said at any other time.
    pub lines_repeat: &'static [&'static str],
}

/// The view of a [`NpcSpawn`].
pub struct NpcSpawnView {
    pub id: Seq<char>,
    pub name: Seq<char>,
    pub district: Seq<char>,
    pub x: int,
    pub y: int,
    pub grants_item: Option<Seq<char>>,
    pub lines_granted: Seq<Seq<char>>,
    pub lines_repeat: Seq<Seq<char>>,
}

impl View for NpcSpawn {
    type V = NpcSpawnView;

    open spec fn view(&self) -> NpcSpawnView {
        NpcSpawnView {
            id: self.id@,
            name: self.name@,
            district: self.district@,
            x: self.x as int,
            y: self.y as int,
            grants_item: opt_static(self.grants_item),
            lines_granted: lines_view(self.lines_granted@),
            lines_repeat: lines_view(self.lines_repeat@),
        }
    }
}

/// A build order that exists from the start.
#[derive(Debug, Clone, Copy, PartialEq, Eq)]
pub struct SeedBuildOrder {
    pub district: &'static str,
    pub kind: &'static str,
    pub required_json: &'static str,
    /// The kind that must be completed before this one opens.
    pub prereq: Option<&'static str>,
    pub structure_kind: &'static str,
    pub structure_x: i32,
    pub structure_y: i32,
    pub required_skill: Option<&'static str>,
    pub required_level: i64,
}

/// The view of a [`SeedBuildOrder`].
pub struct SeedBuildOrderView {
    pub district: Seq<char>,
    pub kind: Seq<char>,
    pub required_json: Seq<char>,
    pub prereq: Option<Seq<char>>,
    pub structure_kind: Seq<char>,
    pub structure_x: int,
    pub structure_y: int,
    pub required_skill: Option<Seq<char>>,
    pub required_level: int,
}

impl View for SeedBuildOrder {
    type V = SeedBuildOrderView;

    open spec fn view(&self) -> SeedBuildOrderView {
        SeedBuildOrderView {
            district: self.district@,
            kind: self.kind@,
            required_json: self.required_json@,
            prereq: opt_static(self.prereq),
            structure_kind: self.structure_kind@,
            structure_x: self.structure_x as int,
            structure_y: self.structure_y as int,
            required_skill: opt_static(self.required_skill),
            required_level: self.required_level as int,
        }
    }
}

/// Everyone there is to talk to.
pub open spec fn npc_registry() -> Seq<NpcSpawnView> {
    seq![
        NpcSpawnView {
            id: "npc_quarry_foreman"@,
            name: "Sten"@,
            district: "civic"@,
            x: 8232,
            y: 13945,
            grants_item: Some("pickaxe"@),
            lines_granted: seq![
                "No pick? Take mine, and mind the edge."@,
                "Arm it, stand at the face, and swing — [1] once it's in your hand."@,
            ],
            lines_repeat: seq![
                "Keep that pick on the rock, not the ground between swings."@,
                "Practice sharpens more than the edge — you'll swing faster with time."@,
            ],
        },
        NpcSpawnView {
            id: "npc_logging_foreman"@,
            name: "Elke"@,
            district: "civic"@,
            x: 14300,
            y: 11400,
            grants_item: Some("axe"@),
            lines_granted: seq![
                "No axe? Take this one, and watch your footing on the roots."@,
                "Arm it, stand by a trunk, and swing — [1] once it's in your hand."@,
            ],
            lines_repeat: seq![
                "Let the axe do the work — don't force the swing."@,
                "Practice sharpens more than the edge — you'll swing faster with time."@,
            ],
        },
        NpcSpawnView {
            id: "npc_weapon_master"@,
            name: "Bram"@,
            district: "civic"@,
            x: 12600,
            y: 12650,
            grants_item: Some("sword"@),
            lines_granted: seq![
                "Unarmed, and headed that way? Take this. It's plain, but it bites."@,
                "There's a pack west of here that's been at the herds. Bring me ten pelts."@,
            ],
            lines_repeat: seq![
                "Ten pelts is the standing price. The dogs keep coming back."@,
                "Mind the pack — take them one at a time and you'll keep your skin."@,
            ],
        },
    ]
}

/// Everyone there is to talk to.
pub fn npc_spawns() -> (out: Vec<NpcSpawn>)
    ensures
        rows_view(out@) == npc_registry(),
{
    let out: Vec<NpcSpawn> = vec![
        // Clear of the working face, and close enough to be part of the site.
        NpcSpawn {
            id: "npc_quarry_foreman",
            name: "Sten",
            district: "civic",
            x: 8232,
            y: 13945,
            grants_item: Some("pickaxe"),
            lines_granted: &[
                "No pick? Take mine, and mind the edge.",
                "Arm it, stand at the face, and swing — [1] once it's in your hand.",
            ],
            lines_repeat: &[
                "Keep that pick on the rock, not the ground between swings.",
                "Practice sharpens more than the edge — you'll swing faster with time.",
            ],
        },
        // A starter grove in another direction than the quarry.
        NpcSpawn {
            id: "npc_logging_foreman",
            name: "Elke",
            district: "civic",
            x: 14300,
            y: 11400,
            grants_item: Some("axe"),
            lines_granted: &[
                "No axe? Take this one, and watch your footing on the roots.",
                "Arm it, stand by a trunk, and swing — [1] once it's in your hand.",
            ],
            lines_repeat: &[
                "Let the axe do the work — don't force the swing.",
                "Practice sharpens more than the edge — you'll swing faster with time.",
            ],
        },
        // On the way to the pack.
        NpcSpawn {
            id: "npc_weapon_master",
            name: "Bram",
            district: "civic",
            x: WEAPON_MASTER_AT.0,
            y: WEAPON_MASTER_AT.1,
            grants_item: Some("sword"),
            lines_granted: &[
                "Unarmed, and headed that way? Take this. It's plain, but it bites.",
                "There's a pack west of here that's been at the herds. Bring me ten pelts.",
            ],
            lines_repeat: &[
                "Ten pelts is the standing price. The dogs keep coming back.",
                "Mind the pack — take them one at a time and you'll keep your skin.",
            ],
        },
    ];
    proof {
        let want = npc_registry();
        assert(out@[0]@.lines_granted =~= want[0].lines_granted);
        assert(out@[0]@.lines_repeat =~= want[0].lines_repeat);
        assert(out@[1]@.lines_granted =~= want[1].lines_granted);
        assert(out@[1]@.lines_repeat =~= want[1].lines_repeat);
        assert(out@[2]@.lines_granted =~= want[2].lines_granted);
        assert(out@[2]@.lines_repeat =~= want[2].lines_repeat);
        assert(rows_view(out@) =~= want);
    }
    out
}

pub open spec fn has_npc_id(id: Seq<char>) -> spec_fn(NpcSpawnView) -> bool {
    |n: NpcSpawnView| n.id == id
}

/// Whether someone of this id exists.
pub open spec fn is_npc(id: Seq<char>) -> bool {
    find(npc_registry(), has_npc_id(id)) < npc_registry().len()
}

/// Look someone up by id.
pub fn npc(id: &str) -> (found: Option<NpcSpawn>)
    ensures
        match found {
            Some(n) => is_npc(id@) && n@ == npc_registry()[find(npc_registry(), has_npc_id(id@))],
            None => !is_npc(id@),
        },
{
    let all = npc_spawns();
    let ghost views = rows_view(all@);
    let mut k: usize = 0;
    while k < all.len()
        invariant
            k <= all.len(),
            views == rows_view(all@),
            views == npc_registry(),
            forall|j: int| 0 <= j < k ==> !has_npc_id(id@)(#[trigger] views[j]),
        decreases all.len() - k,
    {
        assert(views[k as int] == all@[k as int]@);
        if same(all[k].id, id) {
            proof {
                lemma_find_is(views, has_npc_id(id@), k as int);
            }
            return Some(all[k]);
        }
        k = k + 1;
    }
    proof {
        lemma_find_is(views, has_npc_id(id@), k as int);
    }
    None
}

/// What a creature leaves behind.
pub open spec fn drop_of(species: Seq<char>) -> Option<Seq<char>> {
    if species == "wild_dog"@ {
        Some("dog_pelt"@)
    } else {
        None
    }
}

/// What a creature leaves behind when it is killed, if anything. Only creatures with a species leave something.
pub fn creature_drop(species: &str) -> (item: Option<&'static str>)
    ensures
        opt_static(item) == drop_of(species@),
{
    if same(species, SPECIES_WILD_DOG) {
        Some("dog_pelt")
    } else {
        None
    }
}

/// What a swing with a weapon does.
pub open spec fn damage_of(weapon: Option<Seq<char>>) -> int {
    if weapon == Some("sword"@) {
        40
    } else {
        MELEE_DAMAGE_BARE as int
    }
}

/// What a swing does with what is worn in the weapon slot: a sword fells a wild dog at once, bare hands need two
/// swings.
pub fn melee_damage(weapon_item: Option<&str>) -> (damage: i64)
    ensures
        damage == damage_of(opt_str(weapon_item)),
{
    match weapon_item {
        Some(item) => if same(item, "sword") {
            40
        } else {
            MELEE_DAMAGE_BARE
        },
        None => MELEE_DAMAGE_BARE,
    }
}

/// A dog of the pack, at its offset from the middle.
pub open spec fn pack_dog(id: &str, dx: int, dy: int) -> MobSpawnView {
    MobSpawnView { id: id@, district: "civic"@, species: "wild_dog"@, x: 12100 + dx, y: 12400 + dy }
}

/// The wild dogs, loosely clustered south-west of the town centre.
pub open spec fn pack() -> Seq<MobSpawnView> {
    seq![
        pack_dog("mob_dog_0", 0, 0),
        pack_dog("mob_dog_1", -45, -30),
        pack_dog("mob_dog_2", 50, -25),
        pack_dog("mob_dog_3", -30, 45),
        pack_dog("mob_dog_4", 40, 40),
    ]
}

fn dog(id: &'static str, dx: i32, dy: i32) -> (m: MobSpawn)
    requires
        -1000 <= dx <= 1000,
        -1000 <= dy <= 1000,
    ensures
        m@ == pack_dog(id, dx as int, dy as int),
{
    MobSpawn { id, district: "civic", species: SPECIES_WILD_DOG, x: 12100 + dx, y: 12400 + dy }
}

/// The wild dogs. They stand far enough from the town centre that no newcomer is harassed there, and clear of every
/// node, person and building site.
pub fn mob_spawns() -> (out: Vec<MobSpawn>)
    ensures
        rows_view(out@) == pack(),
{
    let out: Vec<MobSpawn> = vec![
        dog("mob_dog_0", 0, 0),
        dog("mob_dog_1", -45, -30),
        dog("mob_dog_2", 50, -25),
        dog("mob_dog_3", -30, 45),
        dog("mob_dog_4", 40, 40),
    ];
    assert(rows_view(out@) =~= pack());
    out
}

} // verus!
