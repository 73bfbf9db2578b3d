use vstd::prelude::*;

pub mod bag;
pub mod character_work;
pub mod blackboard;
pub mod component;
pub mod component_factory;
pub mod grid;
pub mod inventory;
pub mod machine;
pub mod manager;
pub mod manual_work;
pub mod manufacture;
pub mod moves;
pub mod node;
pub mod observer;
pub mod ops;
pub mod placement;
pub mod power;
pub mod processor;
pub mod recycler;
pub mod region;
pub mod repair;
pub mod slots;
pub mod soil;
pub mod stt;
pub mod table;
pub mod tick;
pub mod trade;
pub mod workshop;

use component::ItemSlot;
use tick::Tick;

verus! {

/// A cell on the factory grid.
#[derive(Debug, Clone, Copy, PartialEq, Eq, Structural)]
pub struct GridPos {
    pub x: i32,
    pub y: i32,
}

/// A rectangle on the factory grid: inclusive top-left corner, exclusive
/// bottom-right corner.
#[derive(Debug, Clone, Copy, PartialEq, Eq, Structural)]
pub struct GridRange {
    pub x: i32,
    pub y: i32,
    pub w: u32,
    pub h: u32,
}

/// A recipe in progress and the tick it started.
#[derive(Debug)]
pub struct ActiveRecipe {
    pub recipe_id: String,
    pub start_tick: Tick,
}

/// Manufacture machine state of a region.
#[derive(Debug)]
pub struct ManufactureMachine {
    pub region_name: String,
    pub building_level: u32,
    pub active_recipe: Option<ActiveRecipe>,
    /// Outcome buffer, at most 99 stacks.
    pub outcome_buffer: Vec<ItemSlot>,
    pub set_count: u32,
}

/// Processor state of a region. Refine points recharge one per recovery
/// period since `last_recovery_tick`, up to the maximum.
#[derive(Debug)]
pub struct ProcessorMachine {
    pub region_name: String,
    pub building_level: u32,
    pub refine_points: u32,
    pub last_recovery_tick: Tick,
    pub unlocked_formulas: Vec<String>,
    pub unread_formulas: Vec<String>,
}

/// Recycler state of a region.
#[derive(Debug)]
pub struct RecyclerMachine {
    pub region_name: String,
    pub accumulated_value: u64,
    /// Products waiting to be fetched.
    pub temp_storage: Vec<ItemSlot>,
    /// Set while a product is generating.
    pub product_timer_start: Option<Tick>,
}

/// One trade order.
#[derive(Debug)]
pub struct TradeOrder {
    pub order_id: String,
    pub accumulated_value: u64,
    pub items_committed: Vec<ItemSlot>,
    /// Instance id the client uses to address the order.
    pub inst_id: u32,
}

/// Trader state of a region.
#[derive(Debug)]
pub struct TradeMachine {
    pub region_name: String,
    pub building_level: u32,
    pub active_contract: Option<String>,
    pub orders: Vec<TradeOrder>,
    pub last_gen_tick: Tick,
}

/// Workshop state of a region.
#[derive(Debug)]
pub struct WorkshopMachine {
    pub region_name: String,
    pub building_level: u32,
}

/// Growth stage of a soil plot.
#[derive(Debug, Clone, Copy, PartialEq, Eq, Structural)]
pub enum SoilDoodadState {
    Empty,
    Growing,
    Mature,
}

/// Soil plot state of a region.
#[derive(Debug)]
pub struct SoilMachine {
    pub region_name: String,
    pub planted_seed: Option<ActiveRecipe>,
    pub doodad_state: SoilDoodadState,
}

/// One queued manual craft.
#[derive(Debug)]
pub struct ManualWorkUnit {
    pub recipe_id: String,
    pub start_tick: Tick,
    pub progress: u64,
}

/// The manual craft queue (at most 5 units).
#[derive(Debug)]
pub struct ManualWorkQueue {
    pub queue: Vec<ManualWorkUnit>,
    pub is_paused: bool,
}

/// A character working in a factory slot.
#[derive(Debug)]
pub struct CharacterWorker {
    pub region_name: String,
    pub char_inst_id: u32,
    pub skill_ids: Vec<String>,
    pub work_slot: u32,
}

/// All factory workers.
#[derive(Debug)]
pub struct CharacterWorkState {
    pub workers: Vec<CharacterWorker>,
}

/// One quickbar page: its type (inner 0, outer 1) and its slots, row-major
/// over 4 bars of 8 slots.
#[derive(Debug)]
pub struct QuickbarState {
    pub quickbar_type: i32,
    pub items: Vec<String>,
}

/// Number of slots in one quickbar page: 4 bars x 8 slots.
pub const QUICKBAR_SIZE: usize = 32;

/// Tech tree state.
#[derive(Debug)]
pub struct SttState {
    pub unlocked_nodes: Vec<String>,
    pub visible_formulas: Vec<String>,
}

} // verus!
