//! Soil plots: plant a seed from the bag, harvest it once grown.
use vstd::prelude::*;

use super::bag::{bag_ready, region_bag, regions_bag_changed, took, fell_short};
use super::component::bag_view;
use super::inventory::try_consume_from_inv;
use super::manager::FactoryManager;
use super::slots::{grant_fits, grant_to_bag, granted};
use super::table::FactoryTable;
use super::tick::{Tick, current_tick, elapsed_between, spec_elapsed};
use super::{ActiveRecipe, SoilDoodadState, SoilMachine};

verus! {

/// `m` is the plot of `region` growing `seed` since some tick.
pub open spec fn is_growing_plot(m: SoilMachine, region: Seq<char>, seed: Seq<char>) -> bool {
    &&& m.region_name@ == region
    &&& m.planted_seed matches Some(a) && a.recipe_id@ == seed
    &&& m.doodad_state == SoilDoodadState::Growing
}

/// `n` is plot `o` cleared.
pub open spec fn plot_cleared(o: SoilMachine, n: SoilMachine) -> bool {
    n == SoilMachine { planted_seed: None, doodad_state: SoilDoodadState::Empty, ..o }
}

impl FactoryManager {
    /// Plants `seed_item_id` (a known seed) in the region's soil, paying
    /// one seed from the bag; the plot then grows it from now. Returns
    /// false for an unknown seed, a missing bag or no seed in the bag (all
    /// of that seed's empty stacks are then gone from the bag).
    pub fn soil_plant(&mut self, table: &FactoryTable, region_name: &str, node_id: u32, seed_item_id: &str) -> (r: bool)
        ensures
            !table.seed_items@.contains_key(seed_item_id@) || !bag_ready(*old(self), region_name@) ==> !r && *final(self) == *old(self),
            table.seed_items@.contains_key(seed_item_id@) && bag_ready(*old(self), region_name@) ==> ({
                let b0 = region_bag(*old(self), region_name@);
                let b1 = region_bag(*final(self), region_name@);
                &&& regions_bag_changed(old(self).regions@, final(self).regions@, region_name@, bag_view(b1))
                &&& r ==> took(b0, b1, seed_item_id@, 1)
                &&& !r ==> fell_short(b0, b1, seed_item_id@, 1)
                &&& r ==> final(self).soil_state@ == old(self).soil_state@.insert(
                    region_name@,
                    final(self).soil_state@[region_name@],
                ) && is_growing_plot(final(self).soil_state@[region_name@], region_name@, seed_item_id@)
                &&& !r ==> final(self).soil_state == old(self).soil_state
                &&& final(self).quickbars == old(self).quickbars
                &&& final(self).current_region == old(self).current_region
            }),
    {
        if !table.seed_items.contains_key(seed_item_id) {
            return false;
        }
        let bag = match self.region_bag_mut(region_name) {
            Some(b) => b,
            None => return false,
        };
        if !try_consume_from_inv(bag, seed_item_id, 1) {
            return false;
        }
        let now = current_tick();
        self.soil_state.insert(
            region_name.to_owned(),
            SoilMachine {
                region_name: region_name.to_owned(),
                planted_seed: Some(ActiveRecipe { recipe_id: seed_item_id.to_owned(), start_tick: now }),
                doodad_state: SoilDoodadState::Growing,
            },
        );
        true
    }

    /// Harvests the region's plot at tick `now`: once the seed has grown
    /// (elapsed ticks at speed 1 reach the seed's growth) one seed item
    /// goes to the bag (see `granted`) and the plot is cleared. Returns
    /// false, changing nothing, without a planted known seed, before it has
    /// grown, or without a bag.
    pub fn soil_harvest_at(&mut self, table: &FactoryTable, region_name: &str, node_id: u32, harvest_type: i32, now: Tick) -> (r: bool)
        requires
            bag_ready(*old(self), region_name@) && old(self).soil_state@.contains_key(region_name@) ==> match old(self).soil_state@[region_name@].planted_seed {
                Some(a) => table.seed_items@.contains_key(a.recipe_id@) ==> grant_fits(
                    bag_view(region_bag(*old(self), region_name@)),
                    table.seed_items@[a.recipe_id@].id@,
                    1,
                ),
                None => true,
            },
        ensures
            r == harvestable(*old(self), *table, region_name@, now),
            !r ==> *final(self) == *old(self),
            r ==> ({
                let a = old(self).soil_state@[region_name@].planted_seed->0;
                &&& regions_bag_changed(
                    old(self).regions@,
                    final(self).regions@,
                    region_name@,
                    bag_view(region_bag(*final(self), region_name@)),
                )
                &&& granted(
                    bag_view(region_bag(*old(self), region_name@)),
                    bag_view(region_bag(*final(self), region_name@)),
                    table.seed_items@[a.recipe_id@].id@,
                    1,
                )
                &&& final(self).soil_state@.contains_key(region_name@)
                &&& final(self).soil_state@ == old(self).soil_state@.insert(
                    region_name@,
                    final(self).soil_state@[region_name@],
                )
                &&& plot_cleared(old(self).soil_state@[region_name@], final(self).soil_state@[region_name@])
                &&& final(self).quickbars == old(self).quickbars
            }),
    {
        let (seed_id, start) = match self.soil_state.get(region_name) {
            Some(m) => match &m.planted_seed {
                Some(a) => (a.recipe_id.clone(), a.start_tick),
                None => return false,
            },
            None => return false,
        };
        let seed = match table.seed_items.get(seed_id.as_str()) {
            Some(s) => s,
            None => return false,
        };
        let progress = elapsed_between(now, start);
        if progress < seed.grow_total_progress {
            return false;
        }
        let bag = match self.region_bag_mut(region_name) {
            Some(b) => b,
            None => return false,
        };
        grant_to_bag(bag, seed.id.as_str(), 1);
        let machine = self.soil_state.get_mut(region_name).unwrap();
        machine.planted_seed = None;
        machine.doodad_state = SoilDoodadState::Empty;
        true
    }

    /// Harvests the region's plot on the system clock.
    pub fn soil_harvest(&mut self, table: &FactoryTable, region_name: &str, node_id: u32, harvest_type: i32) -> (r: bool)
        requires
            bag_ready(*old(self), region_name@) && old(self).soil_state@.contains_key(region_name@) ==> match old(self).soil_state@[region_name@].planted_seed {
                Some(a) => table.seed_items@.contains_key(a.recipe_id@) ==> grant_fits(
                    bag_view(region_bag(*old(self), region_name@)),
                    table.seed_items@[a.recipe_id@].id@,
                    1,
                ),
                None => true,
            },
        ensures
            exists|now: Tick| r == #[trigger] harvestable(*old(self), *table, region_name@, now),
            !r ==> *final(self) == *old(self),
            r ==> ({
                let a = old(self).soil_state@[region_name@].planted_seed->0;
                &&& regions_bag_changed(
                    old(self).regions@,
                    final(self).regions@,
                    region_name@,
                    bag_view(region_bag(*final(self), region_name@)),
                )
                &&& granted(
                    bag_view(region_bag(*old(self), region_name@)),
                    bag_view(region_bag(*final(self), region_name@)),
                    table.seed_items@[a.recipe_id@].id@,
                    1,
                )
                &&& final(self).soil_state@.contains_key(region_name@)
                &&& final(self).soil_state@ == old(self).soil_state@.insert(
                    region_name@,
                    final(self).soil_state@[region_name@],
                )
                &&& plot_cleared(old(self).soil_state@[region_name@], final(self).soil_state@[region_name@])
                &&& final(self).quickbars == old(self).quickbars
            }),
    {
        let now = current_tick();
        self.soil_harvest_at(table, region_name, node_id, harvest_type, now)
    }

    /// Clears the region's plot (the seed is lost); false without a plot.
    pub fn soil_cancel(&mut self, region_name: &str, node_id: u32) -> (r: bool)
        ensures
            r == old(self).soil_state@.contains_key(region_name@),
            !r ==> *final(self) == *old(self),
            r ==> final(self).soil_state@.contains_key(region_name@) && final(self).soil_state@ == old(self).soil_state@.insert(
                region_name@,
                final(self).soil_state@[region_name@],
            ) && plot_cleared(old(self).soil_state@[region_name@], final(self).soil_state@[region_name@])
                && final(self).regions == old(self).regions,
    {
        if !self.soil_state.contains_key(region_name) {
            return false;
        }
        let machine = self.soil_state.get_mut(region_name).unwrap();
        machine.planted_seed = None;
        machine.doodad_state = SoilDoodadState::Empty;
        true
    }
}

/// The plot of `name` holds a known seed that has grown by `now`, and the
/// region has a bag.
pub open spec fn harvestable(m: FactoryManager, table: FactoryTable, name: Seq<char>, now: Tick) -> bool {
    &&& m.soil_state@.contains_key(name)
    &&& m.soil_state@[name].planted_seed matches Some(a) && table.seed_items@.contains_key(a.recipe_id@)
        && spec_elapsed(now, a.start_tick) >= table.seed_items@[a.recipe_id@].grow_total_progress
    &&& bag_ready(m, name)
}

/// Harvest timing: a plot is never ready before its seed has grown for
/// its full growth time since planting, and once ready it stays ready at
/// every later tick.
pub proof fn lemma_harvest_timing(m: FactoryManager, table: FactoryTable, name: Seq<char>, now: Tick, later: Tick)
    ensures
        harvestable(m, table, name, now) ==> (m.soil_state@[name].planted_seed matches Some(a) && (table.seed_items@[a.recipe_id@].grow_total_progress
            == 0 || (now >= a.start_tick && now - a.start_tick >= table.seed_items@[a.recipe_id@].grow_total_progress))),
        harvestable(m, table, name, now) && now <= later ==> harvestable(m, table, name, later),
{
}

} // verus!
