//! The component layout of a freshly placed building, by node type.
use vstd::prelude::*;

use super::component::{
    BurnPowerState, BusLoaderState, CollectorState, FactoryComponent, GridBoxState,
    HealTowerState, InventoryState, PowerPoleState, PowerSaveState, ProducerState, SelectorState,
    StablePowerState, TravelPoleState,
};
use super::ops::node_type_from_i32;
use super::table::FactoryTable;
use crate::enums::{FCComponentPos, FCNodeType, node_type_of_code};

verus! {

/// Components of a new building with the position slot of each.
#[derive(Debug)]
pub struct BuiltComponents {
    /// (component id, component); ids count up from 1.
    pub components: Vec<(u32, FactoryComponent)>,
    /// Position slot -> component id.
    pub component_pos: Vec<(FCComponentPos, u32)>,
}

/// The position slots of a new building of type `nt`, in component order.
/// Types without a layout of their own get a lone power pole.
pub open spec fn layout(nt: FCNodeType) -> Seq<FCComponentPos> {
    match nt {
        FCNodeType::Hub => seq![
            FCComponentPos::Hub,
            FCComponentPos::BusLoader,
            FCComponentPos::PowerPole,
            FCComponentPos::PowerSave,
            FCComponentPos::StablePower,
            FCComponentPos::Selector,
            FCComponentPos::Inventory,
        ],
        FCNodeType::BurnPower => seq![FCComponentPos::BurnPower, FCComponentPos::PowerPole],
        FCNodeType::Producer => seq![FCComponentPos::Producer, FCComponentPos::PowerPole],
        FCNodeType::Collector => seq![FCComponentPos::Collector, FCComponentPos::PowerPole],
        FCNodeType::HealTower => seq![FCComponentPos::HealTower, FCComponentPos::PowerPole],
        FCNodeType::TravelPole => seq![FCComponentPos::TravelPole],
        FCNodeType::DepositBox | FCNodeType::BoxBridge => seq![FCComponentPos::GridBox1],
        _ => seq![FCComponentPos::PowerPole],
    }
}

/// `c` is the fresh component for slot `pos` of a building of type `nt`
/// drawing `pc`, with hub generation and capacity `hub` and generator
/// output `station`. Only a hub starts powered.
pub open spec fn fresh_component(pos: FCComponentPos, c: FactoryComponent, nt: FCNodeType, pc: i64, hub: (i64, i64), station: i64) -> bool {
    match pos {
        FCComponentPos::Hub => c == FactoryComponent::Hub,
        FCComponentPos::BusLoader => c matches FactoryComponent::BusLoader(b) && b.last_putin_item_id@.len() == 0
            && b.ports@.len() == 0,
        FCComponentPos::PowerPole => c == FactoryComponent::PowerPole(PowerPoleState { in_power: nt == FCNodeType::Hub }),
        FCComponentPos::PowerSave => c == FactoryComponent::PowerSave(PowerSaveState { power_save: hub.1, in_power: true }),
        FCComponentPos::StablePower => c == FactoryComponent::StablePower(
            StablePowerState { in_power: true, power_gen_per_sec: hub.0 },
        ),
        FCComponentPos::Selector => c matches FactoryComponent::Selector(s) && s.selected_item_id@.len() == 0
            && s.ports@.len() == 0,
        FCComponentPos::Inventory => c matches FactoryComponent::Inventory(i) && i.items@ == Map::<
            u32,
            super::component::ItemSlot,
        >::empty(),
        FCComponentPos::BurnPower => c matches FactoryComponent::BurnPower(b) && b.fuel_remaining == 0
            && b.fuel_start_tick is None && !b.in_power && b.power_gen_per_sec == station
            && b.current_burn_item_id@.len() == 0,
        FCComponentPos::Producer => c matches FactoryComponent::Producer(p) && p.formula_id@.len() == 0
            && p.start_tick is None && p.current_progress == 0 && !p.in_power && !p.in_block && p.power_cost
            == pc && p.last_formula_id@.len() == 0,
        FCComponentPos::Collector => c matches FactoryComponent::Collector(s) && s.items_round@.len() == 0
            && s.current_progress == 0 && s.start_tick is None && !s.in_power && !s.in_block && s.power_cost == pc,
        FCComponentPos::HealTower => c == FactoryComponent::HealTower(
            HealTowerState { points: 0, in_power: false, power_cost: pc, current_progress: 0 },
        ),
        FCComponentPos::TravelPole => c == FactoryComponent::TravelPole(TravelPoleState { default_next: None }),
        FCComponentPos::GridBox1 => c matches FactoryComponent::GridBox(g) && g.items@.len() == 0,
    }
}

/// `b` is the fresh layout of a building of type `nt` (see `layout` and
/// `fresh_component`): component ids 1, 2, ... in order, each registered
/// under its slot.
pub open spec fn built_ok(b: BuiltComponents, nt: FCNodeType, pc: i64, hub: (i64, i64), station: i64) -> bool {
    let l = layout(nt);
    &&& b.components@.len() == l.len()
    &&& b.component_pos@.len() == l.len()
    &&& forall|i: int|
        0 <= i < l.len() ==> (#[trigger] b.components@[i]).0 == i + 1 && b.component_pos@[i] == (l[i], (i + 1) as u32)
            && fresh_component(l[i], b.components@[i].1, nt, pc, hub, station)
}

/// Builds the component layout for building `template_id`; `None` when
/// the template has no building entry or an unknown type.
pub fn create_components_from_template(template_id: &str, table: &FactoryTable) -> (r: Option<BuiltComponents>)
    ensures
        match r {
            Some(b) => table.buildings@.contains_key(template_id@) && node_type_of_code(
                table.buildings@[template_id@].building_type,
            ) is Some && built_ok(
                b,
                node_type_of_code(table.buildings@[template_id@].building_type)->0,
                table.buildings@[template_id@].power_consume,
                table.spec_hub_power(template_id@),
                table.spec_station_power(template_id@),
            ),
            None => !table.buildings@.contains_key(template_id@) || node_type_of_code(
                table.buildings@[template_id@].building_type,
            ) is None,
        },
{
    let building = match table.buildings.get(template_id) {
        Some(b) => b,
        None => return None,
    };
    let node_type = match node_type_from_i32(building.building_type) {
        Some(t) => t,
        None => return None,
    };
    let pc = building.power_consume;
    let ghost hub = table.spec_hub_power(template_id@);
    let ghost station = table.spec_station_power(template_id@);
    let mut components: Vec<(u32, FactoryComponent)> = Vec::new();
    let mut component_pos: Vec<(FCComponentPos, u32)> = Vec::new();
    match node_type {
        FCNodeType::Hub => {
            let (power_gen, power_save_max) = match table.hubs.get(template_id) {
                Some(h) => (h.power_generate, h.power_storage_capacity),
                None => (100i64, 100_000i64),
            };
            components.push((1, FactoryComponent::Hub));
            components.push((2, FactoryComponent::BusLoader(BusLoaderState::new())));
            components.push((3, FactoryComponent::PowerPole(PowerPoleState { in_power: true })));
            components.push(
                (4, FactoryComponent::PowerSave(PowerSaveState { power_save: power_save_max, in_power: true })),
            );
            components.push(
                (5, FactoryComponent::StablePower(StablePowerState { in_power: true, power_gen_per_sec: power_gen })),
            );
            components.push((6, FactoryComponent::Selector(SelectorState::new())));
            components.push((7, FactoryComponent::Inventory(InventoryState::new())));
            component_pos.push((FCComponentPos::Hub, 1));
            component_pos.push((FCComponentPos::BusLoader, 2));
            component_pos.push((FCComponentPos::PowerPole, 3));
            component_pos.push((FCComponentPos::PowerSave, 4));
            component_pos.push((FCComponentPos::StablePower, 5));
            component_pos.push((FCComponentPos::Selector, 6));
            component_pos.push((FCComponentPos::Inventory, 7));
        },
        FCNodeType::BurnPower => {
            let power_gen: i64 = match table.power_stations.get(template_id) {
                Some(p) => *p,
                None => 0,
            };
            components.push(
                (
                    1,
                    FactoryComponent::BurnPower(
                        BurnPowerState {
                            fuel_remaining: 0,
                            fuel_start_tick: None,
                            in_power: false,
                            power_gen_per_sec: power_gen,
                            current_burn_item_id: String::new(),
                        },
                    ),
                ),
            );
            components.push((2, FactoryComponent::PowerPole(PowerPoleState { in_power: false })));
            component_pos.push((FCComponentPos::BurnPower, 1));
            component_pos.push((FCComponentPos::PowerPole, 2));
        },
        FCNodeType::Producer => {
            components.push(
                (
                    1,
                    FactoryComponent::Producer(
                        ProducerState {
                            formula_id: String::new(),
                            start_tick: None,
                            current_progress: 0,
                            in_power: false,
                            in_block: false,
                            power_cost: pc,
                            last_formula_id: String::new(),
                        },
                    ),
                ),
            );
            components.push((2, FactoryComponent::PowerPole(PowerPoleState { in_power: false })));
            component_pos.push((FCComponentPos::Producer, 1));
            component_pos.push((FCComponentPos::PowerPole, 2));
        },
        FCNodeType::Collector => {
            components.push(
                (
                    1,
                    FactoryComponent::Collector(
                        CollectorState {
                            items_round: Vec::new(),
                            current_progress: 0,
                            start_tick: None,
                            in_power: false,
                            in_block: false,
                            power_cost: pc,
                        },
                    ),
                ),
            );
            components.push((2, FactoryComponent::PowerPole(PowerPoleState { in_power: false })));
            component_pos.push((FCComponentPos::Collector, 1));
            component_pos.push((FCComponentPos::PowerPole, 2));
        },
        FCNodeType::HealTower => {
            components.push(
                (
                    1,
                    FactoryComponent::HealTower(
                        HealTowerState { points: 0, in_power: false, power_cost: pc, current_progress: 0 },
                    ),
                ),
            );
            components.push((2, FactoryComponent::PowerPole(PowerPoleState { in_power: false })));
            component_pos.push((FCComponentPos::HealTower, 1));
            component_pos.push((FCComponentPos::PowerPole, 2));
        },
        FCNodeType::TravelPole => {
            components.push((1, FactoryComponent::TravelPole(TravelPoleState { default_next: None })));
            component_pos.push((FCComponentPos::TravelPole, 1));
        },
        FCNodeType::DepositBox | FCNodeType::BoxBridge => {
            components.push((1, FactoryComponent::GridBox(GridBoxState { items: Vec::new() })));
            component_pos.push((FCComponentPos::GridBox1, 1));
        },
        _ => {
            components.push((1, FactoryComponent::PowerPole(PowerPoleState { in_power: false })));
            component_pos.push((FCComponentPos::PowerPole, 1));
        },
    }
    let b = BuiltComponents { components, component_pos };
    proof {
        let l = layout(node_type);
        assert(b.component_pos@ =~= Seq::new(l.len(), |i: int| (l[i], (i + 1) as u32)));
        assert forall|i: int| 0 <= i < l.len() implies (#[trigger] b.components@[i]).0 == i + 1 && b.component_pos@[i]
            == (l[i], (i + 1) as u32) && fresh_component(l[i], b.components@[i].1, node_type, pc, hub, station) by {
            assert(b.component_pos@[i] == Seq::new(l.len(), |i: int| (l[i], (i + 1) as u32))[i]);
        }
    }
    Some(b)
}

} // verus!
