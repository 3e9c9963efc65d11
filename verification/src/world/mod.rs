//! The authored world.

pub mod capital;
pub mod geometry;
pub mod laws;
pub mod registry;
pub mod spawns;
pub mod tools;
pub mod trading;

pub use capital::{capital, capital_district_ids, Capital};
pub use geometry::{District, PlotCell, PlotGrid, Rect, Safety, WORLD_SIZE};
pub use registry::{is_commodity, item, items, recipe, recipes, Item, Recipe};
pub use spawns::{
    creature_drop, melee_damage, mob_spawns, npc, npc_spawns, BuildBoard, MobSpawn, NpcSpawn, ResourceNodeSpawn,
    SeedBuildOrder, StoragePoint, AUTHORED_MOB_LEASH, BOUNTY_RANGE, MELEE_DAMAGE_BARE, SPECIES_WILD_DOG,
    TERRAIN_RESOLUTION, WEAPON_MASTER_AT,
};
pub use tools::{
    abilities_for_item, ability_cooldown_ms, ability_target_item, ability_xp_per_swing, equippable_slot,
    governing_skill, governing_tool, repair_cost, structure_footprint, tool_max_durability, xp_with_falloff,
    Ability,
};
pub use trading::{candle_bucket, OrderReject};
