//! Component state and the `FactoryComponent` enum.
use std::collections::HashMap;

use vstd::prelude::*;

use super::GridPos;
use super::tick::Tick;
use crate::enums::FCComponentType;

verus! {

/// A port on a cache / selector / bus-loader: grid position + facing.
#[derive(Debug, Clone, Copy, PartialEq, Eq, Structural)]
pub struct CachePort {
    pub position: GridPos,
    pub direction: i32,
}

/// One item slot in an inventory or cache.
///
/// `inst_id == 0` for stackable items and the instance id for
/// non-stackable items.
#[derive(Debug)]
pub struct ItemSlot {
    pub item_id: String,
    pub count: u32,
    pub inst_id: u32,
}

impl Clone for ItemSlot {
    fn clone(&self) -> (r: Self)
        ensures
            r == *self,
    {
        ItemSlot { item_id: self.item_id.clone(), count: self.count, inst_id: self.inst_id }
    }
}

impl View for ItemSlot {
    type V = (Seq<char>, u32, u32);

    /// Item id, count and instance id.
    open spec fn view(&self) -> (Seq<char>, u32, u32) {
        (self.item_id@, self.count, self.inst_id)
    }
}

/// The view of an empty slot.
pub open spec fn empty_slot() -> (Seq<char>, u32, u32) {
    (Seq::<char>::empty(), 0u32, 0u32)
}

/// A list of slots by their views.
pub open spec fn slots_view(v: Seq<ItemSlot>) -> Seq<(Seq<char>, u32, u32)> {
    v.map_values(|s: ItemSlot| s@)
}

/// A keyed bag of slots by their views.
pub open spec fn bag_view(m: Map<u32, ItemSlot>) -> Map<u32, (Seq<char>, u32, u32)> {
    m.map_values(|s: ItemSlot| s@)
}

impl ItemSlot {
    /// A slot holding nothing: empty item id, zero count, instance 0.
    pub fn empty() -> (r: Self)
        ensures
            r.item_id@ == Seq::<char>::empty(),
            r.count == 0,
            r.inst_id == 0,
    {
        ItemSlot { item_id: String::new(), count: 0, inst_id: 0 }
    }
}

/// State for a `Producer` component.
///
/// `start_tick == None` means "not crafting right now". Live progress is
/// `current_progress + (current_tick - start_tick) * speed`.
#[derive(Debug)]
pub struct ProducerState {
    pub formula_id: String,
    pub start_tick: Option<Tick>,
    pub current_progress: u64,
    pub in_power: bool,
    pub in_block: bool,
    pub power_cost: i64,
    /// Previous recipe, remembered after a cache clears. Empty on first run.
    pub last_formula_id: String,
}

/// State for a `Cache` component: buffer slots on crafters.
#[derive(Debug)]
pub struct CacheState {
    pub items: Vec<ItemSlot>,
    pub ports: Vec<CachePort>,
}

/// State for a `Collector` component: miner output side.
#[derive(Debug)]
pub struct CollectorState {
    pub items_round: Vec<ItemSlot>,
    pub current_progress: u64,
    pub start_tick: Option<Tick>,
    pub in_power: bool,
    pub in_block: bool,
    pub power_cost: i64,
}

/// State for an `Inventory` component: hub storage, also used by depots.
///
/// Keyed by slot key (the instance id for non-stackable items, 0 for the
/// first stack of stackable items).
#[derive(Debug)]
pub struct InventoryState {
    pub items: HashMap<u32, ItemSlot>,
}

impl InventoryState {
    /// An inventory with no slots.
    pub fn new() -> (r: Self)
        ensures
            r.items@ == Map::<u32, ItemSlot>::empty(),
    {
        InventoryState { items: HashMap::new() }
    }
}

/// State for a `Selector` component: item filter / output routing.
#[derive(Debug)]
pub struct SelectorState {
    pub selected_item_id: String,
    pub ports: Vec<CachePort>,
}

impl SelectorState {
    /// No item selected, no ports.
    pub fn new() -> (r: Self)
        ensures
            r.selected_item_id@ == Seq::<char>::empty(),
            r.ports@.len() == 0,
    {
        SelectorState { selected_item_id: String::new(), ports: Vec::new() }
    }
}

/// State for a `BusLoader` component.
#[derive(Debug)]
pub struct BusLoaderState {
    pub last_putin_item_id: String,
    pub ports: Vec<CachePort>,
}

impl BusLoaderState {
    /// Nothing put in yet, no ports.
    pub fn new() -> (r: Self)
        ensures
            r.last_putin_item_id@ == Seq::<char>::empty(),
            r.ports@.len() == 0,
    {
        BusLoaderState { last_putin_item_id: String::new(), ports: Vec::new() }
    }
}

/// State for a `PowerPole` component.
#[derive(Debug, Clone, Copy, PartialEq, Eq, Structural)]
pub struct PowerPoleState {
    pub in_power: bool,
}

/// State for a `PowerSave` component (battery).
#[derive(Debug, Clone, Copy, PartialEq, Eq, Structural)]
pub struct PowerSaveState {
    pub power_save: i64,
    pub in_power: bool,
}

/// State for a `StablePower` component (passive generation, e.g. hub).
#[derive(Debug, Clone, Copy, PartialEq, Eq, Structural)]
pub struct StablePowerState {
    pub in_power: bool,
    pub power_gen_per_sec: i64,
}

/// State for a `BurnPower` component (fuel-burning generator).
#[derive(Debug)]
pub struct BurnPowerState {
    pub fuel_remaining: i64,
    pub fuel_start_tick: Option<Tick>,
    pub in_power: bool,
    /// Power output per tick while fuel is burning.
    pub power_gen_per_sec: i64,
    /// Fuel item currently burning; empty when no fuel is loaded.
    pub current_burn_item_id: String,
}

/// State for a `GridBox` component: multi-slot storage grid.
#[derive(Debug)]
pub struct GridBoxState {
    pub items: Vec<ItemSlot>,
}

/// State for a `HealTower` component.
#[derive(Debug, Clone, Copy, PartialEq, Eq, Structural)]
pub struct HealTowerState {
    pub points: i64,
    pub in_power: bool,
    pub power_cost: i64,
    /// Current heal-cast progress.
    pub current_progress: i64,
}

/// State for a `TravelPole` component: fast-travel waypoint.
#[derive(Debug, Clone, Copy, PartialEq, Eq, Structural)]
pub struct TravelPoleState {
    /// Node id of the next pole on the route; `None` = terminal.
    pub default_next: Option<u32>,
}

/// One item on a conveyor belt. `progress_permille` is the position along
/// the belt in thousandths, 0 at the start and 1000 at the end.
#[derive(Debug)]
pub struct ConveyorItem {
    pub item: ItemSlot,
    pub progress_permille: u32,
}

/// State for a `BoxConveyor` component: belt segment.
#[derive(Debug)]
pub struct BoxConveyorState {
    pub items: Vec<ConveyorItem>,
    pub direction: i32,
}

/// State for a `CacheTransport` component: explicit cache-to-cache mover.
#[derive(Debug, Clone, Copy, PartialEq, Eq, Structural)]
pub struct CacheTransportState {
    pub enabled: bool,
    pub source_node_id: u32,
    pub target_node_id: u32,
    pub in_power: bool,
    pub in_use: bool,
    pub power_cost: i64,
    /// Transfer progress for the current item.
    pub current_progress: i64,
    /// Total ticks needed to move one item-stack from source to target.
    pub total_progress: i64,
}

/// All component variants, in the order of `FCComponentType`.
#[derive(Debug)]
pub enum FactoryComponent {
    Transform,
    Bus,
    Inventory(InventoryState),
    Cache(CacheState),
    Selector(SelectorState),
    Collector(CollectorState),
    Producer(ProducerState),
    FormulaMan,
    BoxConveyor(BoxConveyorState),
    BoxRouterM1,
    BusUnloader,
    BusLoader(BusLoaderState),
    Hub,
    BurnPower(BurnPowerState),
    PowerPole(PowerPoleState),
    PowerSave(PowerSaveState),
    GridBox(GridBoxState),
    HealTower(HealTowerState),
    CacheTransport(CacheTransportState),
    StablePower(StablePowerState),
    TravelPole(TravelPoleState),
    BoxBridge,
    SpecialDesc,
}

impl FactoryComponent {
    /// The `FCComponentType` matching this variant.
    pub open spec fn spec_component_type(&self) -> FCComponentType {
        match self {
            FactoryComponent::Transform => FCComponentType::Transform,
            FactoryComponent::Bus => FCComponentType::Bus,
            FactoryComponent::Inventory(_) => FCComponentType::Inventory,
            FactoryComponent::Cache(_) => FCComponentType::Cache,
            FactoryComponent::Selector(_) => FCComponentType::Selector,
            FactoryComponent::Collector(_) => FCComponentType::Collector,
            FactoryComponent::Producer(_) => FCComponentType::Producer,
            FactoryComponent::FormulaMan => FCComponentType::FormulaMan,
            FactoryComponent::BoxConveyor(_) => FCComponentType::BoxConveyor,
            FactoryComponent::BoxRouterM1 => FCComponentType::BoxRouterM1,
            FactoryComponent::BusUnloader => FCComponentType::BusUnloader,
            FactoryComponent::BusLoader(_) => FCComponentType::BusLoader,
            FactoryComponent::Hub => FCComponentType::Hub,
            FactoryComponent::BurnPower(_) => FCComponentType::BurnPower,
            FactoryComponent::PowerPole(_) => FCComponentType::PowerPole,
            FactoryComponent::PowerSave(_) => FCComponentType::PowerSave,
            FactoryComponent::GridBox(_) => FCComponentType::GridBox,
            FactoryComponent::HealTower(_) => FCComponentType::HealTower,
            FactoryComponent::CacheTransport(_) => FCComponentType::CacheTransport,
            FactoryComponent::StablePower(_) => FCComponentType::StablePower,
            FactoryComponent::TravelPole(_) => FCComponentType::TravelPole,
            FactoryComponent::BoxBridge => FCComponentType::BoxBridge,
            FactoryComponent::SpecialDesc => FCComponentType::SpecialDesc,
        }
    }

    /// The `FCComponentType` matching this variant.
    pub fn component_type(&self) -> (r: FCComponentType)
        ensures
            r == self.spec_component_type(),
    {
        match self {
            FactoryComponent::Transform => FCComponentType::Transform,
            FactoryComponent::Bus => FCComponentType::Bus,
            FactoryComponent::Inventory(_) => FCComponentType::Inventory,
            FactoryComponent::Cache(_) => FCComponentType::Cache,
            FactoryComponent::Selector(_) => FCComponentType::Selector,
            FactoryComponent::Collector(_) => FCComponentType::Collector,
            FactoryComponent::Producer(_) => FCComponentType::Producer,
            FactoryComponent::FormulaMan => FCComponentType::FormulaMan,
            FactoryComponent::BoxConveyor(_) => FCComponentType::BoxConveyor,
            FactoryComponent::BoxRouterM1 => FCComponentType::BoxRouterM1,
            FactoryComponent::BusUnloader => FCComponentType::BusUnloader,
            FactoryComponent::BusLoader(_) => FCComponentType::BusLoader,
            FactoryComponent::Hub => FCComponentType::Hub,
            FactoryComponent::BurnPower(_) => FCComponentType::BurnPower,
            FactoryComponent::PowerPole(_) => FCComponentType::PowerPole,
            FactoryComponent::PowerSave(_) => FCComponentType::PowerSave,
            FactoryComponent::GridBox(_) => FCComponentType::GridBox,
            FactoryComponent::HealTower(_) => FCComponentType::HealTower,
            FactoryComponent::CacheTransport(_) => FCComponentType::CacheTransport,
            FactoryComponent::StablePower(_) => FCComponentType::StablePower,
            FactoryComponent::TravelPole(_) => FCComponentType::TravelPole,
            FactoryComponent::BoxBridge => FCComponentType::BoxBridge,
            FactoryComponent::SpecialDesc => FCComponentType::SpecialDesc,
        }
    }

    /// Discriminant as the matching `FCComponentType` code.
    pub fn discriminant(&self) -> (r: i32)
        ensures
            r == self.spec_component_type().spec_code(),
    {
        self.component_type().code()
    }

    /// True for components reset on power loss (producers and collectors).
    pub fn is_power_consumer(&self) -> (r: bool)
        ensures
            r == (self is Producer || self is Collector),
    {
        matches!(self, FactoryComponent::Producer(_) | FactoryComponent::Collector(_))
    }

    /// True for power sources (`StablePower` or `BurnPower`).
    pub fn is_power_source(&self) -> (r: bool)
        ensures
            r == (self is StablePower || self is BurnPower),
    {
        matches!(self, FactoryComponent::StablePower(_) | FactoryComponent::BurnPower(_))
    }

    /// True for power relays (`PowerPole`).
    pub fn is_power_relay(&self) -> (r: bool)
        ensures
            r == (self is PowerPole),
    {
        matches!(self, FactoryComponent::PowerPole(_))
    }
}

} // verus!
