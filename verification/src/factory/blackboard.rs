//! Power totals of a region, recomputed whenever the power network changes.
use vstd::prelude::*;

verus! {

/// Power/energy totals for one region.
#[derive(Debug, Clone, Copy, PartialEq, Eq, Structural)]
pub struct PowerBlackboard {
    pub inventory_node_id: u32,
    pub power_cost: i64,
    pub power_gen: i64,
    pub power_save_max: i64,
    pub power_save_current: i64,
    /// True once cost exceeds generation plus storage: producers and
    /// collectors are paused until power recovers.
    pub is_stop_by_power: bool,
}

/// An unpowered, empty blackboard for the given inventory node.
pub open spec fn empty_blackboard(inventory_node_id: u32) -> PowerBlackboard {
    PowerBlackboard {
        inventory_node_id,
        power_cost: 0,
        power_gen: 0,
        power_save_max: 0,
        power_save_current: 0,
        is_stop_by_power: false,
    }
}

impl Default for PowerBlackboard {
    /// An unpowered, empty region whose inventory node is node 1.
    fn default() -> (r: Self)
        ensures
            r == (PowerBlackboard {
                inventory_node_id: 1,
                power_cost: 0,
                power_gen: 0,
                power_save_max: 0,
                power_save_current: 0,
                is_stop_by_power: false,
            }),
    {
        PowerBlackboard {
            inventory_node_id: 1,
            power_cost: 0,
            power_gen: 0,
            power_save_max: 0,
            power_save_current: 0,
            is_stop_by_power: false,
        }
    }
}

impl PowerBlackboard {
    /// An unpowered, empty blackboard for the given inventory node.
    pub fn new(inventory_node_id: u32) -> (r: Self)
        ensures
            r == (PowerBlackboard {
                inventory_node_id,
                power_cost: 0,
                power_gen: 0,
                power_save_max: 0,
                power_save_current: 0,
                is_stop_by_power: false,
            }),
    {
        PowerBlackboard { inventory_node_id, ..Self::default() }
    }

    /// Hub bootstrap: passive generation and a full battery, nothing drawn.
    pub fn with_hub_power(inventory_node_id: u32, power_gen: i64, power_save_max: i64) -> (r: Self)
        ensures
            r == (PowerBlackboard {
                inventory_node_id,
                power_cost: 0,
                power_gen,
                power_save_max,
                power_save_current: power_save_max,
                is_stop_by_power: false,
            }),
    {
        PowerBlackboard {
            inventory_node_id,
            power_cost: 0,
            power_gen,
            power_save_max,
            power_save_current: power_save_max,
            is_stop_by_power: false,
        }
    }

    pub open spec fn spec_has_power_deficit(&self) -> bool {
        self.power_cost > self.power_gen + self.power_save_current
    }

    /// Generation plus what is left in the battery falls short of the draw.
    pub fn has_power_deficit(&self) -> (r: bool)
        ensures
            r == self.spec_has_power_deficit(),
    {
        (self.power_cost as i128) > (self.power_gen as i128) + (self.power_save_current as i128)
    }
}

/// A freshly bootstrapped hub (nothing drawn yet) never reports a deficit
/// as long as its generation and capacity are not negative.
pub proof fn lemma_hub_power_has_no_deficit(inventory_node_id: u32, power_gen: i64, power_save_max: i64)
    requires
        power_gen + power_save_max >= 0,
    ensures
        !(PowerBlackboard {
            inventory_node_id,
            power_cost: 0,
            power_gen,
            power_save_max,
            power_save_current: power_save_max,
            is_stop_by_power: false,
        }).spec_has_power_deficit(),
{
}

} // verus!
