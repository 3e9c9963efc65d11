//! The rows of the city's tables, each with its mathematical view.

use vstd::prelude::*;

use crate::table::Row;
use crate::text::{copy_opt_bytes, copy_opt_text, copy_pairs, opt_bytes, opt_int, opt_text, pairs_view};

verus! {

/// A login identity. One human, one account.
#[derive(Debug, Clone, PartialEq, Eq)]
pub struct Account {
    pub id: String,
    pub email: String,
    pub pw_hash: String,
    /// `"player"`, or an elevated role such as `"mayor"`.
    pub role: String,
}

/// The view of a [`Account`].
pub struct AccountView {
    pub id: Seq<char>,
    pub email: Seq<char>,
    pub pw_hash: Seq<char>,
    pub role: Seq<char>,
}

impl View for Account {
    type V = AccountView;

    open spec fn view(&self) -> AccountView {
        AccountView {
            id: self.id@,
            email: self.email@,
            pw_hash: self.pw_hash@,
            role: self.role@,
        }
    }
}

impl Row for Account {
    fn copy(&self) -> (r: Self) {
        Account {
            id: self.id.clone(),
            email: self.email.clone(),
            pw_hash: self.pw_hash.clone(),
            role: self.role.clone(),
        }
    }
}

/// An account row, with its last login.
#[derive(Debug, Clone, PartialEq, Eq)]
pub struct AccountRecord {
    pub account: Account,
    pub last_login: i64,
}

/// The view of a [`AccountRecord`].
pub struct AccountRecordView {
    pub account: AccountView,
    pub last_login: int,
}

impl View for AccountRecord {
    type V = AccountRecordView;

    open spec fn view(&self) -> AccountRecordView {
        AccountRecordView {
            account: self.account@,
            last_login: self.last_login as int,
        }
    }
}

impl Row for AccountRecord {
    fn copy(&self) -> (r: Self) {
        AccountRecord {
            account: self.account.copy(),
            last_login: self.last_login,
        }
    }
}

/// An in-world entity. One per account.
#[derive(Debug, Clone, PartialEq, Eq)]
pub struct Character {
    pub id: String,
    pub account_id: String,
    pub name: String,
    pub x: i64,
    pub y: i64,
    pub hp: i64,
    pub district: String,
}

/// The view of a [`Character`].
pub struct CharacterView {
    pub id: Seq<char>,
    pub account_id: Seq<char>,
    pub name: Seq<char>,
    pub x: int,
    pub y: int,
    pub hp: int,
    pub district: Seq<char>,
}

impl View for Character {
    type V = CharacterView;

    open spec fn view(&self) -> CharacterView {
        CharacterView {
            id: self.id@,
            account_id: self.account_id@,
            name: self.name@,
            x: self.x as int,
            y: self.y as int,
            hp: self.hp as int,
            district: self.district@,
        }
    }
}

impl Row for Character {
    fn copy(&self) -> (r: Self) {
        Character {
            id: self.id.clone(),
            account_id: self.account_id.clone(),
            name: self.name.clone(),
            x: self.x,
            y: self.y,
            hp: self.hp,
            district: self.district.clone(),
        }
    }
}

/// A character row: the entity, its purse, when it was last seen, and where it respawns.
#[derive(Debug, Clone, PartialEq, Eq)]
pub struct CharacterRecord {
    pub character: Character,
    pub gold: i64,
    pub last_seen: i64,
    pub respawn_structure_id: Option<String>,
}

/// The view of a [`CharacterRecord`].
pub struct CharacterRecordView {
    pub character: CharacterView,
    pub gold: int,
    pub last_seen: int,
    pub respawn_structure_id: Option<Seq<char>>,
}

impl View for CharacterRecord {
    type V = CharacterRecordView;

    open spec fn view(&self) -> CharacterRecordView {
        CharacterRecordView {
            character: self.character@,
            gold: self.gold as int,
            last_seen: self.last_seen as int,
            respawn_structure_id: opt_text(self.respawn_structure_id),
        }
    }
}

impl Row for CharacterRecord {
    fn copy(&self) -> (r: Self) {
        CharacterRecord {
            character: self.character.copy(),
            gold: self.gold,
            last_seen: self.last_seen,
            respawn_structure_id: copy_opt_text(&self.respawn_structure_id),
        }
    }
}

/// A use-based skill. `level` follows from `xp`.
#[derive(Debug, Clone, PartialEq, Eq)]
pub struct Skill {
    pub character_id: String,
    pub skill_id: String,
    pub xp: i64,
    pub level: i64,
}

/// The view of a [`Skill`].
pub struct SkillView {
    pub character_id: Seq<char>,
    pub skill_id: Seq<char>,
    pub xp: int,
    pub level: int,
}

impl View for Skill {
    type V = SkillView;

    open spec fn view(&self) -> SkillView {
        SkillView {
            character_id: self.character_id@,
            skill_id: self.skill_id@,
            xp: self.xp as int,
            level: self.level as int,
        }
    }
}

impl Row for Skill {
    fn copy(&self) -> (r: Self) {
        Skill {
            character_id: self.character_id.clone(),
            skill_id: self.skill_id.clone(),
            xp: self.xp,
            level: self.level,
        }
    }
}

/// A timed job at a station, with the inputs it holds in escrow.
#[derive(Debug, Clone, PartialEq, Eq)]
pub struct StationJob {
    pub id: String,
    pub station_id: String,
    pub character_id: String,
    pub slot: i64,
    pub recipe_id: String,
    /// What was taken at the start, so that a refund returns that and not what the recipe says later.
    pub inputs: Vec<(String, i64)>,
    pub fuel_units: i64,
    pub output_item: String,
    pub output_qty: i64,
    pub xp: i64,
    pub skill: String,
    pub started_at: i64,
    pub ready_at: i64,
    /// `running`, `ready` or `failed`.
    pub state: String,
    pub fail_reason: Option<String>,
}

/// The view of a [`StationJob`].
pub struct StationJobView {
    pub id: Seq<char>,
    pub station_id: Seq<char>,
    pub character_id: Seq<char>,
    pub slot: int,
    pub recipe_id: Seq<char>,
    pub inputs: Seq<(Seq<char>, int)>,
    pub fuel_units: int,
    pub output_item: Seq<char>,
    pub output_qty: int,
    pub xp: int,
    pub skill: Seq<char>,
    pub started_at: int,
    pub ready_at: int,
    pub state: Seq<char>,
    pub fail_reason: Option<Seq<char>>,
}

impl View for StationJob {
    type V = StationJobView;

    open spec fn view(&self) -> StationJobView {
        StationJobView {
            id: self.id@,
            station_id: self.station_id@,
            character_id: self.character_id@,
            slot: self.slot as int,
            recipe_id: self.recipe_id@,
            inputs: pairs_view(self.inputs@),
            fuel_units: self.fuel_units as int,
            output_item: self.output_item@,
            output_qty: self.output_qty as int,
            xp: self.xp as int,
            skill: self.skill@,
            started_at: self.started_at as int,
            ready_at: self.ready_at as int,
            state: self.state@,
            fail_reason: opt_text(self.fail_reason),
        }
    }
}

impl Row for StationJob {
    fn copy(&self) -> (r: Self) {
        StationJob {
            id: self.id.clone(),
            station_id: self.station_id.clone(),
            character_id: self.character_id.clone(),
            slot: self.slot,
            recipe_id: self.recipe_id.clone(),
            inputs: copy_pairs(&self.inputs),
            fuel_units: self.fuel_units,
            output_item: self.output_item.clone(),
            output_qty: self.output_qty,
            xp: self.xp,
            skill: self.skill.clone(),
            started_at: self.started_at,
            ready_at: self.ready_at,
            state: self.state.clone(),
            fail_reason: copy_opt_text(&self.fail_reason),
        }
    }
}

/// A carried item. `durability` is `None` for a stack and `Some` for a tool instance, whose `qty` is 1.
#[derive(Debug, Clone, PartialEq, Eq)]
pub struct InventoryItem {
    pub id: String,
    pub character_id: String,
    pub item_id: String,
    pub qty: i64,
    pub slot: Option<i64>,
    pub durability: Option<i64>,
}

/// The view of a [`InventoryItem`].
pub struct InventoryItemView {
    pub id: Seq<char>,
    pub character_id: Seq<char>,
    pub item_id: Seq<char>,
    pub qty: int,
    pub slot: Option<int>,
    pub durability: Option<int>,
}

impl View for InventoryItem {
    type V = InventoryItemView;

    open spec fn view(&self) -> InventoryItemView {
        InventoryItemView {
            id: self.id@,
            character_id: self.character_id@,
            item_id: self.item_id@,
            qty: self.qty as int,
            slot: opt_int(self.slot),
            durability: opt_int(self.durability),
        }
    }
}

impl Row for InventoryItem {
    fn copy(&self) -> (r: Self) {
        InventoryItem {
            id: self.id.clone(),
            character_id: self.character_id.clone(),
            item_id: self.item_id.clone(),
            qty: self.qty,
            slot: self.slot,
            durability: self.durability,
        }
    }
}

/// What a character has armed in one slot.
#[derive(Debug, Clone, PartialEq, Eq)]
pub struct Equipment {
    pub character_id: String,
    pub slot: String,
    pub item_id: String,
    pub instance_id: String,
}

/// The view of a [`Equipment`].
pub struct EquipmentView {
    pub character_id: Seq<char>,
    pub slot: Seq<char>,
    pub item_id: Seq<char>,
    pub instance_id: Seq<char>,
}

impl View for Equipment {
    type V = EquipmentView;

    open spec fn view(&self) -> EquipmentView {
        EquipmentView {
            character_id: self.character_id@,
            slot: self.slot@,
            item_id: self.item_id@,
            instance_id: self.instance_id@,
        }
    }
}

impl Row for Equipment {
    fn copy(&self) -> (r: Self) {
        Equipment {
            character_id: self.character_id.clone(),
            slot: self.slot.clone(),
            item_id: self.item_id.clone(),
            instance_id: self.instance_id.clone(),
        }
    }
}

/// A stack in the safe home stash.
#[derive(Debug, Clone, PartialEq, Eq)]
pub struct StorageItem {
    pub id: String,
    pub character_id: String,
    pub item_id: String,
    pub qty: i64,
}

/// The view of a [`StorageItem`].
pub struct StorageItemView {
    pub id: Seq<char>,
    pub character_id: Seq<char>,
    pub item_id: Seq<char>,
    pub qty: int,
}

impl View for StorageItem {
    type V = StorageItemView;

    open spec fn view(&self) -> StorageItemView {
        StorageItemView {
            id: self.id@,
            character_id: self.character_id@,
            item_id: self.item_id@,
            qty: self.qty as int,
        }
    }
}

impl Row for StorageItem {
    fn copy(&self) -> (r: Self) {
        StorageItem {
            id: self.id.clone(),
            character_id: self.character_id.clone(),
            item_id: self.item_id.clone(),
            qty: self.qty,
        }
    }
}

/// A plot of rented land. `owner_character_id` is `None` while it sits in the pool; `state` is one of `unowned`, `active`, `lapsed`, `reclaimed`.
#[derive(Debug, Clone, PartialEq, Eq)]
pub struct Plot {
    pub id: String,
    pub owner_character_id: Option<String>,
    pub district: String,
    pub grid_x: i64,
    pub grid_y: i64,
    pub w: i64,
    pub h: i64,
    pub tier: i64,
    pub rent_due_at: Option<i64>,
    pub rent_paid_through: Option<i64>,
    pub state: String,
    /// Whether rent is deducted when it comes due.
    pub auto_pay: bool,
    /// Whether the warning of the current due cycle has been sent.
    pub warned: bool,
}

/// The view of a [`Plot`].
pub struct PlotView {
    pub id: Seq<char>,
    pub owner_character_id: Option<Seq<char>>,
    pub district: Seq<char>,
    pub grid_x: int,
    pub grid_y: int,
    pub w: int,
    pub h: int,
    pub tier: int,
    pub rent_due_at: Option<int>,
    pub rent_paid_through: Option<int>,
    pub state: Seq<char>,
    pub auto_pay: bool,
    pub warned: bool,
}

impl View for Plot {
    type V = PlotView;

    open spec fn view(&self) -> PlotView {
        PlotView {
            id: self.id@,
            owner_character_id: opt_text(self.owner_character_id),
            district: self.district@,
            grid_x: self.grid_x as int,
            grid_y: self.grid_y as int,
            w: self.w as int,
            h: self.h as int,
            tier: self.tier as int,
            rent_due_at: opt_int(self.rent_due_at),
            rent_paid_through: opt_int(self.rent_paid_through),
            state: self.state@,
            auto_pay: self.auto_pay,
            warned: self.warned,
        }
    }
}

impl Row for Plot {
    fn copy(&self) -> (r: Self) {
        Plot {
            id: self.id.clone(),
            owner_character_id: copy_opt_text(&self.owner_character_id),
            district: self.district.clone(),
            grid_x: self.grid_x,
            grid_y: self.grid_y,
            w: self.w,
            h: self.h,
            tier: self.tier,
            rent_due_at: self.rent_due_at,
            rent_paid_through: self.rent_paid_through,
            state: self.state.clone(),
            auto_pay: self.auto_pay,
            warned: self.warned,
        }
    }
}

/// One row of a district's plot roster.
#[derive(Debug, Clone, PartialEq, Eq)]
pub struct PlotRosterRow {
    pub id: String,
    pub owner_character_id: Option<String>,
    pub owner_name: Option<String>,
    pub grid_x: i64,
    pub grid_y: i64,
    pub w: i64,
    pub h: i64,
    pub tier: i64,
}

/// The view of a [`PlotRosterRow`].
pub struct PlotRosterRowView {
    pub id: Seq<char>,
    pub owner_character_id: Option<Seq<char>>,
    pub owner_name: Option<Seq<char>>,
    pub grid_x: int,
    pub grid_y: int,
    pub w: int,
    pub h: int,
    pub tier: int,
}

impl View for PlotRosterRow {
    type V = PlotRosterRowView;

    open spec fn view(&self) -> PlotRosterRowView {
        PlotRosterRowView {
            id: self.id@,
            owner_character_id: opt_text(self.owner_character_id),
            owner_name: opt_text(self.owner_name),
            grid_x: self.grid_x as int,
            grid_y: self.grid_y as int,
            w: self.w as int,
            h: self.h as int,
            tier: self.tier as int,
        }
    }
}

impl Row for PlotRosterRow {
    fn copy(&self) -> (r: Self) {
        PlotRosterRow {
            id: self.id.clone(),
            owner_character_id: copy_opt_text(&self.owner_character_id),
            owner_name: copy_opt_text(&self.owner_name),
            grid_x: self.grid_x,
            grid_y: self.grid_y,
            w: self.w,
            h: self.h,
            tier: self.tier,
        }
    }
}

/// A structure that a player built on a plot.
#[derive(Debug, Clone, PartialEq, Eq)]
pub struct Structure {
    pub id: String,
    pub plot_id: String,
    pub kind: String,
    pub x: i64,
    pub y: i64,
    pub rot: i64,
    pub hp: i64,
    pub built_by: Option<String>,
    pub data: String,
}

/// The view of a [`Structure`].
pub struct StructureView {
    pub id: Seq<char>,
    pub plot_id: Seq<char>,
    pub kind: Seq<char>,
    pub x: int,
    pub y: int,
    pub rot: int,
    pub hp: int,
    pub built_by: Option<Seq<char>>,
    pub data: Seq<char>,
}

impl View for Structure {
    type V = StructureView;

    open spec fn view(&self) -> StructureView {
        StructureView {
            id: self.id@,
            plot_id: self.plot_id@,
            kind: self.kind@,
            x: self.x as int,
            y: self.y as int,
            rot: self.rot as int,
            hp: self.hp as int,
            built_by: opt_text(self.built_by),
            data: self.data@,
        }
    }
}

impl Row for Structure {
    fn copy(&self) -> (r: Self) {
        Structure {
            id: self.id.clone(),
            plot_id: self.plot_id.clone(),
            kind: self.kind.clone(),
            x: self.x,
            y: self.y,
            rot: self.rot,
            hp: self.hp,
            built_by: copy_opt_text(&self.built_by),
            data: self.data.clone(),
        }
    }
}

/// A placed world prop. It belongs to no plot; `author` says who placed it.
#[derive(Debug, Clone, PartialEq, Eq)]
pub struct WorldObject {
    pub id: String,
    pub kind: String,
    pub x: i32,
    pub y: i32,
    pub author: String,
    pub created_at: i64,
}

/// The view of a [`WorldObject`].
pub struct WorldObjectView {
    pub id: Seq<char>,
    pub kind: Seq<char>,
    pub x: int,
    pub y: int,
    pub author: Seq<char>,
    pub created_at: int,
}

impl View for WorldObject {
    type V = WorldObjectView;

    open spec fn view(&self) -> WorldObjectView {
        WorldObjectView {
            id: self.id@,
            kind: self.kind@,
            x: self.x as int,
            y: self.y as int,
            author: self.author@,
            created_at: self.created_at as int,
        }
    }
}

impl Row for WorldObject {
    fn copy(&self) -> (r: Self) {
        WorldObject {
            id: self.id.clone(),
            kind: self.kind.clone(),
            x: self.x,
            y: self.y,
            author: self.author.clone(),
            created_at: self.created_at,
        }
    }
}

/// A piece of decoration, owned by the character. `plot_id` is `None` while it is not attached to land.
#[derive(Debug, Clone, PartialEq, Eq)]
pub struct Flair {
    pub id: String,
    pub owner_character_id: String,
    pub plot_id: Option<String>,
    pub item_id: String,
    pub x: i64,
    pub y: i64,
    pub rot: i64,
}

/// The view of a [`Flair`].
pub struct FlairView {
    pub id: Seq<char>,
    pub owner_character_id: Seq<char>,
    pub plot_id: Option<Seq<char>>,
    pub item_id: Seq<char>,
    pub x: int,
    pub y: int,
    pub rot: int,
}

impl View for Flair {
    type V = FlairView;

    open spec fn view(&self) -> FlairView {
        FlairView {
            id: self.id@,
            owner_character_id: self.owner_character_id@,
            plot_id: opt_text(self.plot_id),
            item_id: self.item_id@,
            x: self.x as int,
            y: self.y as int,
            rot: self.rot as int,
        }
    }
}

impl Row for Flair {
    fn copy(&self) -> (r: Self) {
        Flair {
            id: self.id.clone(),
            owner_character_id: self.owner_character_id.clone(),
            plot_id: copy_opt_text(&self.plot_id),
            item_id: self.item_id.clone(),
            x: self.x,
            y: self.y,
            rot: self.rot,
        }
    }
}

/// Where the structure of a build order appears. `x1` and `y1` are set for a segment.
#[derive(Debug, Clone, PartialEq, Eq)]
pub struct BuildPlacement {
    pub structure_kind: String,
    pub x: i64,
    pub y: i64,
    pub x1: Option<i64>,
    pub y1: Option<i64>,
}

/// The view of a [`BuildPlacement`].
pub struct BuildPlacementView {
    pub structure_kind: Seq<char>,
    pub x: int,
    pub y: int,
    pub x1: Option<int>,
    pub y1: Option<int>,
}

impl View for BuildPlacement {
    type V = BuildPlacementView;

    open spec fn view(&self) -> BuildPlacementView {
        BuildPlacementView {
            structure_kind: self.structure_kind@,
            x: self.x as int,
            y: self.y as int,
            x1: opt_int(self.x1),
            y1: opt_int(self.y1),
        }
    }
}

impl Row for BuildPlacement {
    fn copy(&self) -> (r: Self) {
        BuildPlacement {
            structure_kind: self.structure_kind.clone(),
            x: self.x,
            y: self.y,
            x1: self.x1,
            y1: self.y1,
        }
    }
}

/// One priced piece of a road's path.
#[derive(Debug, Clone, PartialEq, Eq)]
pub struct RoadCellSpec {
    pub x0: i64,
    pub y0: i64,
    pub x1: i64,
    pub y1: i64,
    pub required_json: String,
}

/// The view of a [`RoadCellSpec`].
pub struct RoadCellSpecView {
    pub x0: int,
    pub y0: int,
    pub x1: int,
    pub y1: int,
    pub required_json: Seq<char>,
}

impl View for RoadCellSpec {
    type V = RoadCellSpecView;

    open spec fn view(&self) -> RoadCellSpecView {
        RoadCellSpecView {
            x0: self.x0 as int,
            y0: self.y0 as int,
            x1: self.x1 as int,
            y1: self.y1 as int,
            required_json: self.required_json@,
        }
    }
}

impl Row for RoadCellSpec {
    fn copy(&self) -> (r: Self) {
        RoadCellSpec {
            x0: self.x0,
            y0: self.y0,
            x1: self.x1,
            y1: self.y1,
            required_json: self.required_json.clone(),
        }
    }
}

/// A stored piece of a road's path, with its own cost and progress.
#[derive(Debug, Clone, PartialEq, Eq)]
pub struct RoadCell {
    pub order_id: String,
    pub cell_index: i64,
    pub x0: i64,
    pub y0: i64,
    pub x1: i64,
    pub y1: i64,
    pub required_json: String,
    pub progress_json: String,
    pub completed_at: Option<i64>,
}

/// The view of a [`RoadCell`].
pub struct RoadCellView {
    pub order_id: Seq<char>,
    pub cell_index: int,
    pub x0: int,
    pub y0: int,
    pub x1: int,
    pub y1: int,
    pub required_json: Seq<char>,
    pub progress_json: Seq<char>,
    pub completed_at: Option<int>,
}

impl View for RoadCell {
    type V = RoadCellView;

    open spec fn view(&self) -> RoadCellView {
        RoadCellView {
            order_id: self.order_id@,
            cell_index: self.cell_index as int,
            x0: self.x0 as int,
            y0: self.y0 as int,
            x1: self.x1 as int,
            y1: self.y1 as int,
            required_json: self.required_json@,
            progress_json: self.progress_json@,
            completed_at: opt_int(self.completed_at),
        }
    }
}

impl Row for RoadCell {
    fn copy(&self) -> (r: Self) {
        RoadCell {
            order_id: self.order_id.clone(),
            cell_index: self.cell_index,
            x0: self.x0,
            y0: self.y0,
            x1: self.x1,
            y1: self.y1,
            required_json: self.required_json.clone(),
            progress_json: self.progress_json.clone(),
            completed_at: self.completed_at,
        }
    }
}

/// A district's build quest.
#[derive(Debug, Clone, PartialEq, Eq)]
pub struct BuildOrder {
    pub id: String,
    pub district: String,
    pub kind: String,
    pub required_json: String,
    pub progress_json: String,
    /// `locked`, `open`, `completed` or `demolishing`.
    pub state: String,
    pub issued_at: i64,
    pub completed_at: Option<i64>,
    /// The skill that `required_level` speaks of; `building` when absent.
    pub required_skill: Option<String>,
    pub required_level: i64,
    pub structure_kind: Option<String>,
    pub x: Option<i64>,
    pub y: Option<i64>,
    pub x1: Option<i64>,
    pub y1: Option<i64>,
    /// The whole grid path of a road order.
    pub path_json: Option<String>,
}

/// The view of a [`BuildOrder`].
pub struct BuildOrderView {
    pub id: Seq<char>,
    pub district: Seq<char>,
    pub kind: Seq<char>,
    pub required_json: Seq<char>,
    pub progress_json: Seq<char>,
    pub state: Seq<char>,
    pub issued_at: int,
    pub completed_at: Option<int>,
    pub required_skill: Option<Seq<char>>,
    pub required_level: int,
    pub structure_kind: Option<Seq<char>>,
    pub x: Option<int>,
    pub y: Option<int>,
    pub x1: Option<int>,
    pub y1: Option<int>,
    pub path_json: Option<Seq<char>>,
}

impl View for BuildOrder {
    type V = BuildOrderView;

    open spec fn view(&self) -> BuildOrderView {
        BuildOrderView {
            id: self.id@,
            district: self.district@,
            kind: self.kind@,
            required_json: self.required_json@,
            progress_json: self.progress_json@,
            state: self.state@,
            issued_at: self.issued_at as int,
            completed_at: opt_int(self.completed_at),
            required_skill: opt_text(self.required_skill),
            required_level: self.required_level as int,
            structure_kind: opt_text(self.structure_kind),
            x: opt_int(self.x),
            y: opt_int(self.y),
            x1: opt_int(self.x1),
            y1: opt_int(self.y1),
            path_json: opt_text(self.path_json),
        }
    }
}

impl Row for BuildOrder {
    fn copy(&self) -> (r: Self) {
        BuildOrder {
            id: self.id.clone(),
            district: self.district.clone(),
            kind: self.kind.clone(),
            required_json: self.required_json.clone(),
            progress_json: self.progress_json.clone(),
            state: self.state.clone(),
            issued_at: self.issued_at,
            completed_at: self.completed_at,
            required_skill: copy_opt_text(&self.required_skill),
            required_level: self.required_level,
            structure_kind: copy_opt_text(&self.structure_kind),
            x: self.x,
            y: self.y,
            x1: self.x1,
            y1: self.y1,
            path_json: copy_opt_text(&self.path_json),
        }
    }
}

/// How much one character has put into one build order.
#[derive(Debug, Clone, PartialEq, Eq)]
pub struct Contribution {
    pub order_id: String,
    pub character_id: String,
    pub units: i64,
}

/// The view of a [`Contribution`].
pub struct ContributionView {
    pub order_id: Seq<char>,
    pub character_id: Seq<char>,
    pub units: int,
}

impl View for Contribution {
    type V = ContributionView;

    open spec fn view(&self) -> ContributionView {
        ContributionView {
            order_id: self.order_id@,
            character_id: self.character_id@,
            units: self.units as int,
        }
    }
}

impl Row for Contribution {
    fn copy(&self) -> (r: Self) {
        Contribution {
            order_id: self.order_id.clone(),
            character_id: self.character_id.clone(),
            units: self.units,
        }
    }
}

/// One slot of a character's warehouse at one market. `state` is `available`, or `locked` while it is escrowed.
#[derive(Debug, Clone, PartialEq, Eq)]
pub struct WarehouseItem {
    pub id: String,
    pub market_id: String,
    pub character_id: String,
    pub item_id: String,
    pub qty: i64,
    pub state: String,
    pub durability: Option<i64>,
}

/// The view of a [`WarehouseItem`].
pub struct WarehouseItemView {
    pub id: Seq<char>,
    pub market_id: Seq<char>,
    pub character_id: Seq<char>,
    pub item_id: Seq<char>,
    pub qty: int,
    pub state: Seq<char>,
    pub durability: Option<int>,
}

impl View for WarehouseItem {
    type V = WarehouseItemView;

    open spec fn view(&self) -> WarehouseItemView {
        WarehouseItemView {
            id: self.id@,
            market_id: self.market_id@,
            character_id: self.character_id@,
            item_id: self.item_id@,
            qty: self.qty as int,
            state: self.state@,
            durability: opt_int(self.durability),
        }
    }
}

impl Row for WarehouseItem {
    fn copy(&self) -> (r: Self) {
        WarehouseItem {
            id: self.id.clone(),
            market_id: self.market_id.clone(),
            character_id: self.character_id.clone(),
            item_id: self.item_id.clone(),
            qty: self.qty,
            state: self.state.clone(),
            durability: self.durability,
        }
    }
}

/// A resting order on a market's book.
#[derive(Debug, Clone, PartialEq, Eq)]
pub struct MarketOrder {
    pub id: String,
    pub market_id: String,
    pub character_id: String,
    pub side: String,
    pub item_id: String,
    pub unit_price: i64,
    pub qty_total: i64,
    pub qty_remaining: i64,
    pub created_seq: i64,
    pub created_at: i64,
}

/// The view of a [`MarketOrder`].
pub struct MarketOrderView {
    pub id: Seq<char>,
    pub market_id: Seq<char>,
    pub character_id: Seq<char>,
    pub side: Seq<char>,
    pub item_id: Seq<char>,
    pub unit_price: int,
    pub qty_total: int,
    pub qty_remaining: int,
    pub created_seq: int,
    pub created_at: int,
}

impl View for MarketOrder {
    type V = MarketOrderView;

    open spec fn view(&self) -> MarketOrderView {
        MarketOrderView {
            id: self.id@,
            market_id: self.market_id@,
            character_id: self.character_id@,
            side: self.side@,
            item_id: self.item_id@,
            unit_price: self.unit_price as int,
            qty_total: self.qty_total as int,
            qty_remaining: self.qty_remaining as int,
            created_seq: self.created_seq as int,
            created_at: self.created_at as int,
        }
    }
}

impl Row for MarketOrder {
    fn copy(&self) -> (r: Self) {
        MarketOrder {
            id: self.id.clone(),
            market_id: self.market_id.clone(),
            character_id: self.character_id.clone(),
            side: self.side.clone(),
            item_id: self.item_id.clone(),
            unit_price: self.unit_price,
            qty_total: self.qty_total,
            qty_remaining: self.qty_remaining,
            created_seq: self.created_seq,
            created_at: self.created_at,
        }
    }
}

/// An order row: the order and when it expires, where 0 means never.
#[derive(Debug, Clone, PartialEq, Eq)]
pub struct OrderRecord {
    pub order: MarketOrder,
    pub expires_at: i64,
}

/// The view of a [`OrderRecord`].
pub struct OrderRecordView {
    pub order: MarketOrderView,
    pub expires_at: int,
}

impl View for OrderRecord {
    type V = OrderRecordView;

    open spec fn view(&self) -> OrderRecordView {
        OrderRecordView {
            order: self.order@,
            expires_at: self.expires_at as int,
        }
    }
}

impl Row for OrderRecord {
    fn copy(&self) -> (r: Self) {
        OrderRecord {
            order: self.order.copy(),
            expires_at: self.expires_at,
        }
    }
}

/// One executed fill on the append-only trade ledger.
#[derive(Debug, Clone, PartialEq, Eq)]
pub struct MarketTrade {
    pub id: String,
    pub market_id: String,
    pub item_id: String,
    pub unit_price: i64,
    pub qty: i64,
    pub seller_id: String,
    pub buyer_id: String,
    pub sale_tax_gold: i64,
    pub listing_fee_gold: i64,
    pub created_at: i64,
}

/// The view of a [`MarketTrade`].
pub struct MarketTradeView {
    pub id: Seq<char>,
    pub market_id: Seq<char>,
    pub item_id: Seq<char>,
    pub unit_price: int,
    pub qty: int,
    pub seller_id: Seq<char>,
    pub buyer_id: Seq<char>,
    pub sale_tax_gold: int,
    pub listing_fee_gold: int,
    pub created_at: int,
}

impl View for MarketTrade {
    type V = MarketTradeView;

    open spec fn view(&self) -> MarketTradeView {
        MarketTradeView {
            id: self.id@,
            market_id: self.market_id@,
            item_id: self.item_id@,
            unit_price: self.unit_price as int,
            qty: self.qty as int,
            seller_id: self.seller_id@,
            buyer_id: self.buyer_id@,
            sale_tax_gold: self.sale_tax_gold as int,
            listing_fee_gold: self.listing_fee_gold as int,
            created_at: self.created_at as int,
        }
    }
}

impl Row for MarketTrade {
    fn copy(&self) -> (r: Self) {
        MarketTrade {
            id: self.id.clone(),
            market_id: self.market_id.clone(),
            item_id: self.item_id.clone(),
            unit_price: self.unit_price,
            qty: self.qty,
            seller_id: self.seller_id.clone(),
            buyer_id: self.buyer_id.clone(),
            sale_tax_gold: self.sale_tax_gold,
            listing_fee_gold: self.listing_fee_gold,
            created_at: self.created_at,
        }
    }
}

/// One burned market fee.
#[derive(Debug, Clone, PartialEq, Eq)]
pub struct FeeRecord {
    pub market_id: String,
    pub character_id: String,
    pub kind: String,
    pub gold: i64,
    pub trade_id: Option<String>,
    pub created_at: i64,
}

/// The view of a [`FeeRecord`].
pub struct FeeRecordView {
    pub market_id: Seq<char>,
    pub character_id: Seq<char>,
    pub kind: Seq<char>,
    pub gold: int,
    pub trade_id: Option<Seq<char>>,
    pub created_at: int,
}

impl View for FeeRecord {
    type V = FeeRecordView;

    open spec fn view(&self) -> FeeRecordView {
        FeeRecordView {
            market_id: self.market_id@,
            character_id: self.character_id@,
            kind: self.kind@,
            gold: self.gold as int,
            trade_id: opt_text(self.trade_id),
            created_at: self.created_at as int,
        }
    }
}

impl Row for FeeRecord {
    fn copy(&self) -> (r: Self) {
        FeeRecord {
            market_id: self.market_id.clone(),
            character_id: self.character_id.clone(),
            kind: self.kind.clone(),
            gold: self.gold,
            trade_id: copy_opt_text(&self.trade_id),
            created_at: self.created_at,
        }
    }
}

/// One change of the money supply: positive creates gold, negative destroys it.
#[derive(Debug, Clone, PartialEq, Eq)]
pub struct LedgerRecord {
    pub character_id: String,
    pub amount: i64,
    pub reason: String,
    pub created_at: i64,
}

/// The view of a [`LedgerRecord`].
pub struct LedgerRecordView {
    pub character_id: Seq<char>,
    pub amount: int,
    pub reason: Seq<char>,
    pub created_at: int,
}

impl View for LedgerRecord {
    type V = LedgerRecordView;

    open spec fn view(&self) -> LedgerRecordView {
        LedgerRecordView {
            character_id: self.character_id@,
            amount: self.amount as int,
            reason: self.reason@,
            created_at: self.created_at as int,
        }
    }
}

impl Row for LedgerRecord {
    fn copy(&self) -> (r: Self) {
        LedgerRecord {
            character_id: self.character_id.clone(),
            amount: self.amount,
            reason: self.reason.clone(),
            created_at: self.created_at,
        }
    }
}

/// A command that has been claimed.
#[derive(Debug, Clone, PartialEq, Eq)]
pub struct CommandRecord {
    pub command_id: String,
    pub character_id: String,
    pub created_at: i64,
}

/// The view of a [`CommandRecord`].
pub struct CommandRecordView {
    pub command_id: Seq<char>,
    pub character_id: Seq<char>,
    pub created_at: int,
}

impl View for CommandRecord {
    type V = CommandRecordView;

    open spec fn view(&self) -> CommandRecordView {
        CommandRecordView {
            command_id: self.command_id@,
            character_id: self.character_id@,
            created_at: self.created_at as int,
        }
    }
}

impl Row for CommandRecord {
    fn copy(&self) -> (r: Self) {
        CommandRecord {
            command_id: self.command_id.clone(),
            character_id: self.character_id.clone(),
            created_at: self.created_at,
        }
    }
}

/// A unique item offered on the listing board.
#[derive(Debug, Clone, PartialEq, Eq)]
pub struct MarketListing {
    pub id: String,
    pub market_id: String,
    pub seller_id: String,
    pub warehouse_item_id: String,
    pub item_id: String,
    pub durability: Option<i64>,
    pub ask_price: i64,
    pub created_at: i64,
    pub expires_at: i64,
}

/// The view of a [`MarketListing`].
pub struct MarketListingView {
    pub id: Seq<char>,
    pub market_id: Seq<char>,
    pub seller_id: Seq<char>,
    pub warehouse_item_id: Seq<char>,
    pub item_id: Seq<char>,
    pub durability: Option<int>,
    pub ask_price: int,
    pub created_at: int,
    pub expires_at: int,
}

impl View for MarketListing {
    type V = MarketListingView;

    open spec fn view(&self) -> MarketListingView {
        MarketListingView {
            id: self.id@,
            market_id: self.market_id@,
            seller_id: self.seller_id@,
            warehouse_item_id: self.warehouse_item_id@,
            item_id: self.item_id@,
            durability: opt_int(self.durability),
            ask_price: self.ask_price as int,
            created_at: self.created_at as int,
            expires_at: self.expires_at as int,
        }
    }
}

impl Row for MarketListing {
    fn copy(&self) -> (r: Self) {
        MarketListing {
            id: self.id.clone(),
            market_id: self.market_id.clone(),
            seller_id: self.seller_id.clone(),
            warehouse_item_id: self.warehouse_item_id.clone(),
            item_id: self.item_id.clone(),
            durability: self.durability,
            ask_price: self.ask_price,
            created_at: self.created_at,
            expires_at: self.expires_at,
        }
    }
}

/// One candle of price history, derived from the trade ledger.
#[derive(Debug, Clone, PartialEq, Eq)]
pub struct Candle {
    pub bucket_start: i64,
    pub open: i64,
    pub high: i64,
    pub low: i64,
    pub close: i64,
    pub volume: i64,
    pub trades: i64,
}

/// The view of a [`Candle`].
pub struct CandleView {
    pub bucket_start: int,
    pub open: int,
    pub high: int,
    pub low: int,
    pub close: int,
    pub volume: int,
    pub trades: int,
}

impl View for Candle {
    type V = CandleView;

    open spec fn view(&self) -> CandleView {
        CandleView {
            bucket_start: self.bucket_start as int,
            open: self.open as int,
            high: self.high as int,
            low: self.low as int,
            close: self.close as int,
            volume: self.volume as int,
            trades: self.trades as int,
        }
    }
}

impl Row for Candle {
    fn copy(&self) -> (r: Self) {
        Candle {
            bucket_start: self.bucket_start,
            open: self.open,
            high: self.high,
            low: self.low,
            close: self.close,
            volume: self.volume,
            trades: self.trades,
        }
    }
}

/// A cached candle with the market, the item and the interval it belongs to.
#[derive(Debug, Clone, PartialEq, Eq)]
pub struct CandleRecord {
    pub market_id: String,
    pub item_id: String,
    pub interval_secs: i64,
    pub candle: Candle,
}

/// The view of a [`CandleRecord`].
pub struct CandleRecordView {
    pub market_id: Seq<char>,
    pub item_id: Seq<char>,
    pub interval_secs: int,
    pub candle: CandleView,
}

impl View for CandleRecord {
    type V = CandleRecordView;

    open spec fn view(&self) -> CandleRecordView {
        CandleRecordView {
            market_id: self.market_id@,
            item_id: self.item_id@,
            interval_secs: self.interval_secs as int,
            candle: self.candle@,
        }
    }
}

impl Row for CandleRecord {
    fn copy(&self) -> (r: Self) {
        CandleRecord {
            market_id: self.market_id.clone(),
            item_id: self.item_id.clone(),
            interval_secs: self.interval_secs,
            candle: self.candle.copy(),
        }
    }
}

/// The storage account of a character at a market.
#[derive(Debug, Clone, PartialEq, Eq)]
pub struct WarehouseAccount {
    pub market_id: String,
    pub character_id: String,
    pub last_charged_at: i64,
    pub arrears: i64,
}

/// The view of a [`WarehouseAccount`].
pub struct WarehouseAccountView {
    pub market_id: Seq<char>,
    pub character_id: Seq<char>,
    pub last_charged_at: int,
    pub arrears: int,
}

impl View for WarehouseAccount {
    type V = WarehouseAccountView;

    open spec fn view(&self) -> WarehouseAccountView {
        WarehouseAccountView {
            market_id: self.market_id@,
            character_id: self.character_id@,
            last_charged_at: self.last_charged_at as int,
            arrears: self.arrears as int,
        }
    }
}

impl Row for WarehouseAccount {
    fn copy(&self) -> (r: Self) {
        WarehouseAccount {
            market_id: self.market_id.clone(),
            character_id: self.character_id.clone(),
            last_charged_at: self.last_charged_at,
            arrears: self.arrears,
        }
    }
}

/// The shared fuel of a station.
#[derive(Debug, Clone, PartialEq, Eq)]
pub struct StationFuel {
    pub station_id: String,
    pub units: i64,
    pub updated_at: i64,
}

/// The view of a [`StationFuel`].
pub struct StationFuelView {
    pub station_id: Seq<char>,
    pub units: int,
    pub updated_at: int,
}

impl View for StationFuel {
    type V = StationFuelView;

    open spec fn view(&self) -> StationFuelView {
        StationFuelView {
            station_id: self.station_id@,
            units: self.units as int,
            updated_at: self.updated_at as int,
        }
    }
}

impl Row for StationFuel {
    fn copy(&self) -> (r: Self) {
        StationFuel {
            station_id: self.station_id.clone(),
            units: self.units,
            updated_at: self.updated_at,
        }
    }
}

/// A seam that has been worked out.
#[derive(Debug, Clone, PartialEq, Eq)]
pub struct DepositState {
    pub deposit_id: String,
    pub depleted_at: i64,
}

/// The view of a [`DepositState`].
pub struct DepositStateView {
    pub deposit_id: Seq<char>,
    pub depleted_at: int,
}

impl View for DepositState {
    type V = DepositStateView;

    open spec fn view(&self) -> DepositStateView {
        DepositStateView {
            deposit_id: self.deposit_id@,
            depleted_at: self.depleted_at as int,
        }
    }
}

impl Row for DepositState {
    fn copy(&self) -> (r: Self) {
        DepositState {
            deposit_id: self.deposit_id.clone(),
            depleted_at: self.depleted_at,
        }
    }
}

/// A gatherable resource node.
#[derive(Debug, Clone, PartialEq, Eq)]
pub struct ResourceNode {
    pub id: String,
    pub district: String,
    pub item_id: String,
    pub x: i64,
    pub y: i64,
    pub qty: i64,
    pub respawn_at: Option<i64>,
}

/// The view of a [`ResourceNode`].
pub struct ResourceNodeView {
    pub id: Seq<char>,
    pub district: Seq<char>,
    pub item_id: Seq<char>,
    pub x: int,
    pub y: int,
    pub qty: int,
    pub respawn_at: Option<int>,
}

impl View for ResourceNode {
    type V = ResourceNodeView;

    open spec fn view(&self) -> ResourceNodeView {
        ResourceNodeView {
            id: self.id@,
            district: self.district@,
            item_id: self.item_id@,
            x: self.x as int,
            y: self.y as int,
            qty: self.qty as int,
            respawn_at: opt_int(self.respawn_at),
        }
    }
}

impl Row for ResourceNode {
    fn copy(&self) -> (r: Self) {
        ResourceNode {
            id: self.id.clone(),
            district: self.district.clone(),
            item_id: self.item_id.clone(),
            x: self.x,
            y: self.y,
            qty: self.qty,
            respawn_at: self.respawn_at,
        }
    }
}

/// The edits of one terrain chunk. The height layer is in its encoded form, and `None` where the chunk has none.
#[derive(Debug, Clone, PartialEq, Eq)]
pub struct TerrainDelta {
    pub chunk_tx: i32,
    pub chunk_ty: i32,
    pub bake_hash: String,
    /// 1 after the first edit, and one more after each later one.
    pub revision: i64,
    pub height_delta: Option<Vec<u8>>,
    pub author: String,
    pub edited_at: i64,
}

/// The view of a [`TerrainDelta`].
pub struct TerrainDeltaView {
    pub chunk_tx: int,
    pub chunk_ty: int,
    pub bake_hash: Seq<char>,
    pub revision: int,
    pub height_delta: Option<Seq<u8>>,
    pub author: Seq<char>,
    pub edited_at: int,
}

impl View for TerrainDelta {
    type V = TerrainDeltaView;

    open spec fn view(&self) -> TerrainDeltaView {
        TerrainDeltaView {
            chunk_tx: self.chunk_tx as int,
            chunk_ty: self.chunk_ty as int,
            bake_hash: self.bake_hash@,
            revision: self.revision as int,
            height_delta: opt_bytes(self.height_delta),
            author: self.author@,
            edited_at: self.edited_at as int,
        }
    }
}

impl Row for TerrainDelta {
    fn copy(&self) -> (r: Self) {
        TerrainDelta {
            chunk_tx: self.chunk_tx,
            chunk_ty: self.chunk_ty,
            bake_hash: self.bake_hash.clone(),
            revision: self.revision,
            height_delta: copy_opt_bytes(&self.height_delta),
            author: self.author.clone(),
            edited_at: self.edited_at,
        }
    }
}

/// One accepted terrain edit.
#[derive(Debug, Clone, PartialEq, Eq)]
pub struct EditOp {
    pub id: String,
    pub author: String,
    pub brush: String,
    pub created_at: i64,
    pub reverted: bool,
}

/// The view of a [`EditOp`].
pub struct EditOpView {
    pub id: Seq<char>,
    pub author: Seq<char>,
    pub brush: Seq<char>,
    pub created_at: int,
    pub reverted: bool,
}

impl View for EditOp {
    type V = EditOpView;

    open spec fn view(&self) -> EditOpView {
        EditOpView {
            id: self.id@,
            author: self.author@,
            brush: self.brush@,
            created_at: self.created_at as int,
            reverted: self.reverted,
        }
    }
}

impl Row for EditOp {
    fn copy(&self) -> (r: Self) {
        EditOp {
            id: self.id.clone(),
            author: self.author.clone(),
            brush: self.brush.clone(),
            created_at: self.created_at,
            reverted: self.reverted,
        }
    }
}

/// What a terrain edit changed: one block of one chunk, with what it held before, or `None` where it did not exist.
#[derive(Debug, Clone, PartialEq, Eq)]
pub struct EditBlock {
    pub op_id: String,
    pub chunk_tx: i32,
    pub chunk_ty: i32,
    pub block_idx: i64,
    pub prev_block: Option<Vec<u8>>,
}

/// The view of a [`EditBlock`].
pub struct EditBlockView {
    pub op_id: Seq<char>,
    pub chunk_tx: int,
    pub chunk_ty: int,
    pub block_idx: int,
    pub prev_block: Option<Seq<u8>>,
}

impl View for EditBlock {
    type V = EditBlockView;

    open spec fn view(&self) -> EditBlockView {
        EditBlockView {
            op_id: self.op_id@,
            chunk_tx: self.chunk_tx as int,
            chunk_ty: self.chunk_ty as int,
            block_idx: self.block_idx as int,
            prev_block: opt_bytes(self.prev_block),
        }
    }
}

impl Row for EditBlock {
    fn copy(&self) -> (r: Self) {
        EditBlock {
            op_id: self.op_id.clone(),
            chunk_tx: self.chunk_tx,
            chunk_ty: self.chunk_ty,
            block_idx: self.block_idx,
            prev_block: copy_opt_bytes(&self.prev_block),
        }
    }
}

} // verus!
