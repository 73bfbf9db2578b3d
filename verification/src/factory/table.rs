//! The factory configuration the placement logic reads, as plain values:
//! building entries, hub and power-station data, the item each building is
//! built from, and the buildable area of each map level.
use vstd::prelude::*;

use super::GridRange;
use super::node::SubPort;
use crate::strmap::StrMap;

verus! {

/// One building template.
#[derive(Debug)]
pub struct BuildingEntry {
    /// `FCNodeType` wire code of the building.
    pub building_type: i32,
    pub width: u32,
    pub height: u32,
    /// Power drawn while running.
    pub power_consume: i64,
    /// Belt input and output points, relative to the building.
    pub input_ports: Vec<SubPort>,
    pub output_ports: Vec<SubPort>,
}

/// Hub data of a hub template.
#[derive(Debug, Clone, Copy, PartialEq, Eq, Structural)]
pub struct HubEntry {
    pub power_generate: i64,
    pub power_storage_capacity: i64,
}

/// An item id with a count.
#[derive(Debug)]
pub struct ItemCount {
    pub id: String,
    pub count: u32,
}

/// An automated machine recipe: each ingredient group is satisfied by
/// any one of its items; every item of every outcome group is produced.
#[derive(Debug)]
pub struct MachineCraft {
    pub total_progress: u64,
    pub ingredients: Vec<Vec<ItemCount>>,
    pub outcomes: Vec<Vec<ItemCount>>,
}

/// A long-running manufacture recipe with a single outcome; its
/// ingredients are paid per set when it starts.
#[derive(Debug)]
pub struct ManufactCraft {
    pub total_progress: u64,
    pub ingredients: Vec<ItemCount>,
    pub outcome: ItemCount,
}

/// A processor recipe.
#[derive(Debug)]
pub struct ProcessorCraft {
    pub ingredients: Vec<ItemCount>,
    pub outcome: ItemCount,
}

/// A workshop recipe; recipes that are not unlocked by default cannot be
/// made yet.
#[derive(Debug)]
pub struct WorkshopCraft {
    pub default_unlock: bool,
    pub ingredients: Vec<ItemCount>,
    pub outcomes: Vec<ItemCount>,
}

/// A manual craft recipe.
#[derive(Debug)]
pub struct ManualCraft {
    pub total_progress: u64,
    pub ingredients: Vec<ItemCount>,
    pub outcomes: Vec<ItemCount>,
}

/// A seed: the item harvested and the growth it needs.
#[derive(Debug)]
pub struct SeedItem {
    pub id: String,
    pub grow_total_progress: u64,
}

/// Factory tables, by building template id, recipe id or item id.
#[derive(Debug)]
pub struct FactoryTable {
    pub buildings: StrMap<BuildingEntry>,
    pub hubs: StrMap<HubEntry>,
    /// Power output of fuel-burning generators.
    pub power_stations: StrMap<i64>,
    /// The item that a building is built from and returns when dismantled.
    pub building_items: StrMap<String>,
    /// Crafting speed of automated machines, by template.
    pub machine_crafter_speeds: StrMap<u64>,
    pub machine_crafts: StrMap<MachineCraft>,
    pub manufact_crafts: StrMap<ManufactCraft>,
    pub processor_crafts: StrMap<ProcessorCraft>,
    pub workshop_crafts: StrMap<WorkshopCraft>,
    pub manual_crafts: StrMap<ManualCraft>,
    pub seed_items: StrMap<SeedItem>,
    /// Value a recycled material adds.
    pub recycler_materials: StrMap<u64>,
    /// Items the recycler can produce, in table order.
    pub recycler_product_ids: Vec<String>,
    /// Trade orders that exist.
    pub orders: StrMap<()>,
}

/// Manufacture constants.
#[derive(Debug, Clone, Copy)]
pub struct ManufactConst {
    pub outcome_buffer_stack_max_count: u32,
}

/// Processor constants.
#[derive(Debug, Clone, Copy)]
pub struct ProcessorConst {
    pub building_level_weapon_refine: u32,
    pub building_level_gem_recast: u32,
    pub refine_point_recover_time: u64,
    pub refine_point_max: u32,
}

/// Recycler constants.
#[derive(Debug, Clone, Copy)]
pub struct RecyclerConst {
    pub rec_round_need_value: u64,
    pub rec_basic_generate_time: u64,
    pub rec_temp_storage_length: i32,
}

/// A trade contract.
#[derive(Debug)]
pub struct Contract {
    pub min_value: u64,
    /// (item id, value per item) pairs.
    pub item_value_group: Vec<(String, u64)>,
    pub reward_items: Vec<String>,
    pub order_id_group: Vec<String>,
    pub order_weight: Vec<u32>,
}

/// One parameter of a tech-tree condition or action.
#[derive(Debug)]
pub struct SttParam {
    pub value_string_list: Option<Vec<String>>,
    pub value_int_list: Option<Vec<i64>>,
}

/// A tech-tree unlock condition.
#[derive(Debug)]
pub struct SttCondition {
    pub condition_type: i32,
    pub parameters: Vec<SttParam>,
}

/// A tech-tree action fired on unlock.
#[derive(Debug)]
pub struct SttAction {
    pub action_type: i32,
    pub parameters: Vec<SttParam>,
}

/// A reward granted on unlock.
#[derive(Debug)]
pub struct SttReward {
    pub item_id: String,
    pub count: u32,
}

/// A tech-tree node.
#[derive(Debug)]
pub struct SttNode {
    pub conditions: Vec<SttCondition>,
    pub pre_node: Vec<String>,
    pub cost_items: Vec<ItemCount>,
    pub unlock_reward: Vec<SttReward>,
    pub action: Option<SttAction>,
}

/// A broken pre-placed building and what repairing it costs.
#[derive(Debug)]
pub struct RepairEntry {
    pub cost_items: Vec<ItemCount>,
    pub building_id: String,
    pub level_id: String,
}

/// Buildable area of each map level: by scene name, (level, area) pairs.
#[derive(Debug)]
pub struct RegionMaps {
    pub maps: StrMap<Vec<(u32, GridRange)>>,
}

/// The area listed first for `level`.
pub open spec fn first_area(entries: Seq<(u32, GridRange)>, level: u32, i: int) -> Option<GridRange>
    decreases entries.len() - i,
{
    if i < 0 || i >= entries.len() {
        None
    } else if entries[i].0 == level {
        Some(entries[i].1)
    } else {
        first_area(entries, level, i + 1)
    }
}

impl RegionMaps {
    /// The buildable area of `scene_name` at `level`, if listed.
    pub open spec fn spec_area(&self, scene_name: Seq<char>, level: u32) -> Option<GridRange> {
        if self.maps@.contains_key(scene_name) {
            first_area(self.maps@[scene_name]@, level, 0)
        } else {
            None
        }
    }

    /// The buildable area of `scene_name` at `level`, if listed.
    pub fn area(&self, scene_name: &str, level: u32) -> (r: Option<GridRange>)
        ensures
            r == self.spec_area(scene_name@, level),
    {
        let entries = match self.maps.get(scene_name) {
            Some(e) => e,
            None => return None,
        };
        let mut i: usize = 0;
        while i < entries.len()
            invariant
                0 <= i <= entries@.len(),
                self.maps@.contains_key(scene_name@),
                *entries == self.maps@[scene_name@],
                first_area(entries@, level, 0) == first_area(entries@, level, i as int),
            decreases entries@.len() - i,
        {
            if entries[i].0 == level {
                return Some(entries[i].1);
            }
            i += 1;
        }
        None
    }
}

impl FactoryTable {
    /// Hub generation and capacity of `template_id`, or the defaults 100
    /// and 100000 when the template has no hub entry.
    pub open spec fn spec_hub_power(&self, template_id: Seq<char>) -> (i64, i64) {
        if self.hubs@.contains_key(template_id) {
            (self.hubs@[template_id].power_generate, self.hubs@[template_id].power_storage_capacity)
        } else {
            (100, 100_000)
        }
    }

    /// Power output of generator `template_id`, 0 without an entry.
    pub open spec fn spec_station_power(&self, template_id: Seq<char>) -> i64 {
        if self.power_stations@.contains_key(template_id) {
            self.power_stations@[template_id]
        } else {
            0
        }
    }
}

} // verus!
