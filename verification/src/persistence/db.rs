//! The whole of the city's durable state.

use vstd::prelude::*;

use crate::persistence::rows::{
    AccountRecord, AccountRecordView, BuildOrder, BuildOrderView, CandleRecord, CandleRecordView,
    CharacterRecord, CharacterRecordView, CommandRecord, CommandRecordView, Contribution, ContributionView,
    DepositState, DepositStateView, EditBlock, EditBlockView, EditOp, EditOpView, Equipment, EquipmentView,
    FeeRecord, FeeRecordView, Flair, FlairView, InventoryItem, InventoryItemView, LedgerRecord,
    LedgerRecordView, MarketListing, MarketListingView, MarketTrade, MarketTradeView, OrderRecord,
    OrderRecordView, Plot, PlotView, ResourceNode, ResourceNodeView, RoadCell, RoadCellView, Skill,
    SkillView, StationFuel, StationFuelView, StationJob, StationJobView, StorageItem, StorageItemView,
    Structure, StructureView, TerrainDelta, TerrainDeltaView, WarehouseAccount, WarehouseAccountView,
    WarehouseItem, WarehouseItemView, WorldObject, WorldObjectView,
};
use crate::table::Table;

verus! {

/// Everything the city remembers, one table per kind of row.
pub struct Db {
    pub accounts: Table<AccountRecord>,
    pub characters: Table<CharacterRecord>,
    pub skills: Table<Skill>,
    pub inventory: Table<InventoryItem>,
    pub equipment: Table<Equipment>,
    pub storage: Table<StorageItem>,
    pub warehouse: Table<WarehouseItem>,
    pub orders: Table<OrderRecord>,
    pub trades: Table<MarketTrade>,
    pub fees: Table<FeeRecord>,
    pub ledger: Table<LedgerRecord>,
    pub commands: Table<CommandRecord>,
    pub listings: Table<MarketListing>,
    pub candle_rows: Table<CandleRecord>,
    pub storage_accounts: Table<WarehouseAccount>,
    pub fuel: Table<StationFuel>,
    pub jobs: Table<StationJob>,
    pub plots: Table<Plot>,
    pub structures: Table<Structure>,
    pub flair: Table<Flair>,
    pub build_orders: Table<BuildOrder>,
    pub road_cells: Table<RoadCell>,
    pub contributions: Table<Contribution>,
    pub nodes: Table<ResourceNode>,
    pub deposits: Table<DepositState>,
    pub objects: Table<WorldObject>,
    pub terrain: Table<TerrainDelta>,
    pub edit_ops: Table<EditOp>,
    pub edit_blocks: Table<EditBlock>,
}

/// The view of a [`Db`].
pub struct DbView {
    pub accounts: Seq<AccountRecordView>,
    pub characters: Seq<CharacterRecordView>,
    pub skills: Seq<SkillView>,
    pub inventory: Seq<InventoryItemView>,
    pub equipment: Seq<EquipmentView>,
    pub storage: Seq<StorageItemView>,
    pub warehouse: Seq<WarehouseItemView>,
    pub orders: Seq<OrderRecordView>,
    pub trades: Seq<MarketTradeView>,
    pub fees: Seq<FeeRecordView>,
    pub ledger: Seq<LedgerRecordView>,
    pub commands: Seq<CommandRecordView>,
    pub listings: Seq<MarketListingView>,
    pub candle_rows: Seq<CandleRecordView>,
    pub storage_accounts: Seq<WarehouseAccountView>,
    pub fuel: Seq<StationFuelView>,
    pub jobs: Seq<StationJobView>,
    pub plots: Seq<PlotView>,
    pub structures: Seq<StructureView>,
    pub flair: Seq<FlairView>,
    pub build_orders: Seq<BuildOrderView>,
    pub road_cells: Seq<RoadCellView>,
    pub contributions: Seq<ContributionView>,
    pub nodes: Seq<ResourceNodeView>,
    pub deposits: Seq<DepositStateView>,
    pub objects: Seq<WorldObjectView>,
    pub terrain: Seq<TerrainDeltaView>,
    pub edit_ops: Seq<EditOpView>,
    pub edit_blocks: Seq<EditBlockView>,
}

impl View for Db {
    type V = DbView;

    open spec fn view(&self) -> DbView {
        DbView {
            accounts: self.accounts@,
            characters: self.characters@,
            skills: self.skills@,
            inventory: self.inventory@,
            equipment: self.equipment@,
            storage: self.storage@,
            warehouse: self.warehouse@,
            orders: self.orders@,
            trades: self.trades@,
            fees: self.fees@,
            ledger: self.ledger@,
            commands: self.commands@,
            listings: self.listings@,
            candle_rows: self.candle_rows@,
            storage_accounts: self.storage_accounts@,
            fuel: self.fuel@,
            jobs: self.jobs@,
            plots: self.plots@,
            structures: self.structures@,
            flair: self.flair@,
            build_orders: self.build_orders@,
            road_cells: self.road_cells@,
            contributions: self.contributions@,
            nodes: self.nodes@,
            deposits: self.deposits@,
            objects: self.objects@,
            terrain: self.terrain@,
            edit_ops: self.edit_ops@,
            edit_blocks: self.edit_blocks@,
        }
    }
}

impl DbView {
    /// A city in which nothing has happened.
    pub open spec fn empty() -> DbView {
        DbView {
            accounts: Seq::empty(),
            characters: Seq::empty(),
            skills: Seq::empty(),
            inventory: Seq::empty(),
            equipment: Seq::empty(),
            storage: Seq::empty(),
            warehouse: Seq::empty(),
            orders: Seq::empty(),
            trades: Seq::empty(),
            fees: Seq::empty(),
            ledger: Seq::empty(),
            commands: Seq::empty(),
            listings: Seq::empty(),
            candle_rows: Seq::empty(),
            storage_accounts: Seq::empty(),
            fuel: Seq::empty(),
            jobs: Seq::empty(),
            plots: Seq::empty(),
            structures: Seq::empty(),
            flair: Seq::empty(),
            build_orders: Seq::empty(),
            road_cells: Seq::empty(),
            contributions: Seq::empty(),
            nodes: Seq::empty(),
            deposits: Seq::empty(),
            objects: Seq::empty(),
            terrain: Seq::empty(),
            edit_ops: Seq::empty(),
            edit_blocks: Seq::empty(),
        }
    }
}

impl Db {
    /// A city in which nothing has happened.
    pub fn new() -> (db: Db)
        ensures
            db@ == DbView::empty(),
    {
        Db {
            accounts: Table::new(),
            characters: Table::new(),
            skills: Table::new(),
            inventory: Table::new(),
            equipment: Table::new(),
            storage: Table::new(),
            warehouse: Table::new(),
            orders: Table::new(),
            trades: Table::new(),
            fees: Table::new(),
            ledger: Table::new(),
            commands: Table::new(),
            listings: Table::new(),
            candle_rows: Table::new(),
            storage_accounts: Table::new(),
            fuel: Table::new(),
            jobs: Table::new(),
            plots: Table::new(),
            structures: Table::new(),
            flair: Table::new(),
            build_orders: Table::new(),
            road_cells: Table::new(),
            contributions: Table::new(),
            nodes: Table::new(),
            deposits: Table::new(),
            objects: Table::new(),
            terrain: Table::new(),
            edit_ops: Table::new(),
            edit_blocks: Table::new(),
        }
    }
}

} // verus!
