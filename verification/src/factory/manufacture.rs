//! Manufacture: long-running crafts whose finished sets are settled into an
//! outcome buffer (at most 99 stacks, each capped by a constant).
use vstd::prelude::*;

use super::bag::{bag_ready, paid_all, paid_until_short, pay_costs, region_bag, regions_bag_changed, scaled_costs};
use super::component::{ItemSlot, bag_view, empty_slot, slots_view};
use super::manager::FactoryManager;
use super::slots::{SlotView, first_item_from, lemma_first_item_from_pub};
use super::table::{FactoryTable, ManufactConst};
use super::tick::{Tick, current_tick, elapsed_between, spec_elapsed};
use super::{ActiveRecipe, ManufactureMachine};

verus! {

/// Why a manufacture operation failed.
#[derive(Debug, Clone, Copy, PartialEq, Eq, Structural)]
pub enum ManufactureError {
    RecipeNotFound,
    MachineNotFound,
    /// The bag is missing or cannot cover the recipe's ingredients.
    InsufficientIngredients,
}

/// Reply to a start: the recipe that was running before (empty if none).
#[derive(Debug)]
pub struct ManufactureStartResult {
    pub old_formula: String,
    pub old_got: i32,
    pub old_least_multi: i32,
}

/// Reply to a cancel: the recipe that was running (empty if none).
#[derive(Debug)]
pub struct ManufactureCancelResult {
    pub old_formula: String,
    pub old_got: i32,
    pub old_least_multi: i32,
}

/// Reply to a settle: how many sets were collected.
#[derive(Debug)]
pub struct ManufactureSettleResult {
    pub settle_count: i32,
    pub auto_supple_count: i32,
}

/// Most sets that can be queued at once.
pub const MAX_MANUFACTURE_SETS: u32 = 4;

/// Most stacks in the outcome buffer.
pub const OUTCOME_BUFFER_STACKS: usize = 99;

/// The recipe id of an optional running recipe, empty when none runs.
pub open spec fn recipe_name(a: Option<ActiveRecipe>) -> Seq<char> {
    match a {
        Some(r) => r.recipe_id@,
        None => Seq::empty(),
    }
}

/// `m` is the machine the start found or created for `region`: an
/// existing one keeps its name, level and buffer; a new one is level 1
/// with an empty buffer.
pub open spec fn machine_base(old: Map<Seq<char>, ManufactureMachine>, region: Seq<char>, m: ManufactureMachine) -> bool {
    if old.contains_key(region) {
        m.region_name == old[region].region_name && m.building_level == old[region].building_level
            && m.outcome_buffer == old[region].outcome_buffer
    } else {
        m.region_name@ == region && m.building_level == 1 && m.outcome_buffer@.len() == 0
    }
}

/// One set settled into buffer `v` (item `id`, `count` per set): onto the
/// first stack of the item if it stays within `max`, else as a new stack
/// while fewer than 99; `None` when neither is possible.
pub open spec fn settle_one(v: Seq<SlotView>, id: Seq<char>, count: u32, max: u32) -> Option<Seq<SlotView>> {
    match first_item_from(v, id, 0) {
        Some(k) => if v[k].1 + count <= max {
            Some(v.update(k, (v[k].0, (v[k].1 + count) as u32, v[k].2)))
        } else {
            None
        },
        None => if v.len() < OUTCOME_BUFFER_STACKS {
            Some(v.push((id, count, 0u32)))
        } else {
            None
        },
    }
}

/// Settles up to `n` sets one by one, stopping at the first that does not
/// fit; returns the buffer and the number settled.
pub open spec fn settle_sets(v: Seq<SlotView>, id: Seq<char>, count: u32, max: u32, n: nat) -> (Seq<SlotView>, nat)
    decreases n,
{
    if n == 0 {
        (v, 0)
    } else {
        let (w, k) = settle_sets(v, id, count, max, (n - 1) as nat);
        if k < n - 1 {
            (w, k)
        } else {
            match settle_one(w, id, count, max) {
                Some(w2) => (w2, k + 1),
                None => (w, k),
            }
        }
    }
}

/// Sets finished by tick `now`: elapsed ticks over the recipe's total
/// progress (at least 1), or 0 when that does not fit in 32 bits.
pub open spec fn finished_sets(now: Tick, start: Tick, total: u64) -> int {
    let q = spec_elapsed(now, start) / (if total > 0 { total as int } else { 1 });
    if q <= u32::MAX {
        q
    } else {
        0
    }
}

/// Adding a set to any stack of the buffer never overflows 32 bits.
pub open spec fn buffer_add_safe(v: Seq<SlotView>, count: u32) -> bool {
    forall|i: int| 0 <= i < v.len() ==> #[trigger] v[i].1 + count <= u32::MAX
}

/// Settling never grows the buffer past `OUTCOME_BUFFER_STACKS` stacks,
/// nor a longer buffer at all.
pub proof fn lemma_settle_respects_stack_cap(v: Seq<SlotView>, id: Seq<char>, count: u32, max: u32, n: nat)
    ensures
        settle_sets(v, id, count, max, n).0.len() <= if v.len() <= OUTCOME_BUFFER_STACKS {
            OUTCOME_BUFFER_STACKS as int
        } else {
            v.len() as int
        },
    decreases n,
{
    if n > 0 {
        lemma_settle_respects_stack_cap(v, id, count, max, (n - 1) as nat);
        let (w, k) = settle_sets(v, id, count, max, (n - 1) as nat);
        match first_item_from(w, id, 0) {
            Some(j) => {
                lemma_first_item_from_pub(w, id, 0);
            },
            None => {},
        }
    }
}

proof fn lemma_settle_sets(v: Seq<SlotView>, id: Seq<char>, count: u32, max: u32, n: nat)
    requires
        buffer_add_safe(v, count),
        max <= u32::MAX,
    ensures
        settle_sets(v, id, count, max, n).1 <= n,
    decreases n,
{
    if n > 0 {
        lemma_settle_sets(v, id, count, max, (n - 1) as nat);
    }
}

impl FactoryManager {
    /// Starts `formula_id` for up to `count` sets (at most 4) on the
    /// region's manufacture machine, paying the recipe's ingredients for
    /// every set from the region's bag in order, creating the machine if
    /// needed; a running recipe is replaced. Fails, changing nothing, for an
    /// unknown recipe or a missing bag; fails with the machine unchanged
    /// when an ingredient runs short (after the earlier ones were paid).
    pub fn manufacture_start(
        &mut self,
        table: &FactoryTable,
        region_name: &str,
        node_id: u32,
        formula_id: &str,
        count: u32,
    ) -> (r: Result<ManufactureStartResult, ManufactureError>)
        ensures
            !table.manufact_crafts@.contains_key(formula_id@) ==> (r matches Err(ManufactureError::RecipeNotFound)
                && *final(self) == *old(self)),
            table.manufact_crafts@.contains_key(formula_id@) && !bag_ready(*old(self), region_name@) ==> (r matches Err(
                ManufactureError::InsufficientIngredients,
            ) && *final(self) == *old(self)),
            table.manufact_crafts@.contains_key(formula_id@) && bag_ready(*old(self), region_name@) ==> ({
                let sets = if count < MAX_MANUFACTURE_SETS { count } else { MAX_MANUFACTURE_SETS };
                let costs = scaled_costs(table.manufact_crafts@[formula_id@].ingredients@, sets);
                let b0 = region_bag(*old(self), region_name@);
                let b1 = region_bag(*final(self), region_name@);
                &&& regions_bag_changed(old(self).regions@, final(self).regions@, region_name@, bag_view(b1))
                &&& final(self).processor_state == old(self).processor_state
                &&& final(self).trade_state == old(self).trade_state
                &&& final(self).quickbars == old(self).quickbars
                &&& r is Err ==> ((r matches Err(ManufactureError::InsufficientIngredients)) && paid_until_short(b0, b1, costs)
                    && final(self).manufacture_state == old(self).manufacture_state)
                &&& r matches Ok(res) ==> {
                    let m = final(self).manufacture_state@[region_name@];
                    &&& paid_all(b0, b1, costs)
                    &&& final(self).manufacture_state@ == old(self).manufacture_state@.insert(region_name@, m)
                    &&& machine_base(old(self).manufacture_state@, region_name@, m)
                    &&& m.active_recipe matches Some(a) && a.recipe_id@ == formula_id@
                    &&& m.set_count == sets
                    &&& res.old_formula@ == if old(self).manufacture_state@.contains_key(region_name@) {
                        recipe_name(old(self).manufacture_state@[region_name@].active_recipe)
                    } else {
                        Seq::<char>::empty()
                    }
                    &&& res.old_got == 0
                    &&& res.old_least_multi == 0
                }
            }),
    {
        let recipe = match table.manufact_crafts.get(formula_id) {
            Some(rc) => rc,
            None => return Err(ManufactureError::RecipeNotFound),
        };
        let set_count = if count < MAX_MANUFACTURE_SETS { count } else { MAX_MANUFACTURE_SETS };
        let bag = match self.region_bag_mut(region_name) {
            Some(b) => b,
            None => return Err(ManufactureError::InsufficientIngredients),
        };
        if !pay_costs(bag, &recipe.ingredients, set_count) {
            return Err(ManufactureError::InsufficientIngredients);
        }
        let ghost paid = *self;
        if !self.manufacture_state.contains_key(region_name) {
            self.manufacture_state.insert(
                region_name.to_owned(),
                ManufactureMachine {
                    region_name: region_name.to_owned(),
                    building_level: 1,
                    active_recipe: None,
                    outcome_buffer: Vec::new(),
                    set_count: 0,
                },
            );
        }
        let now = current_tick();
        let machine = self.manufacture_state.get_mut(region_name).unwrap();
        let old_formula = match &machine.active_recipe {
            Some(a) => a.recipe_id.clone(),
            None => String::new(),
        };
        machine.active_recipe = Some(ActiveRecipe { recipe_id: formula_id.to_owned(), start_tick: now });
        machine.set_count = set_count;
        proof {
            assert(self.regions == paid.regions);
        }
        Ok(ManufactureStartResult { old_formula, old_got: 0, old_least_multi: 0 })
    }

    /// Stops the region's running recipe and clears its set count; fails
    /// without a machine.
    pub fn manufacture_cancel(&mut self, region_name: &str, node_id: u32) -> (r: Result<ManufactureCancelResult, ManufactureError>)
        ensures
            !old(self).manufacture_state@.contains_key(region_name@) ==> (r matches Err(ManufactureError::MachineNotFound)
                && *final(self) == *old(self)),
            old(self).manufacture_state@.contains_key(region_name@) ==> (r matches Ok(res) && {
                let o = old(self).manufacture_state@[region_name@];
                &&& final(self).manufacture_state@ == old(self).manufacture_state@.insert(
                    region_name@,
                    ManufactureMachine { active_recipe: None, set_count: 0, ..o },
                )
                &&& res.old_formula@ == recipe_name(o.active_recipe)
                &&& res.old_got == 0
                &&& res.old_least_multi == 0
                &&& final(self).regions == old(self).regions
            }),
    {
        if !self.manufacture_state.contains_key(region_name) {
            return Err(ManufactureError::MachineNotFound);
        }
        let machine = self.manufacture_state.get_mut(region_name).unwrap();
        let old_formula = match &machine.active_recipe {
            Some(a) => a.recipe_id.clone(),
            None => String::new(),
        };
        machine.active_recipe = None;
        machine.set_count = 0;
        Ok(ManufactureCancelResult { old_formula, old_got: 0, old_least_multi: 0 })
    }

    /// Settles finished sets at tick `now` (see `settle_sets`): the sets
    /// finished since the recipe started, at most the queued count, go into
    /// the outcome buffer until one does not fit. The settled sets leave
    /// the queue; with none left the recipe stops, otherwise the remaining
    /// sets restart at `now`.
    pub fn manufacture_settle_at(
        &mut self,
        table: &FactoryTable,
        manufact_const: &ManufactConst,
        region_name: &str,
        node_id: u32,
        now: Tick,
    ) -> (r: Result<ManufactureSettleResult, ManufactureError>)
        requires
            settle_safe(*old(self), *table, *manufact_const, region_name@),
        ensures
            !old(self).manufacture_state@.contains_key(region_name@) ==> (r matches Err(ManufactureError::MachineNotFound)
                && *final(self) == *old(self)),
            old(self).manufacture_state@.contains_key(region_name@) ==> settle_outcome(
                old(self).manufacture_state@[region_name@],
                final(self).manufacture_state@[region_name@],
                *table,
                manufact_const.outcome_buffer_stack_max_count,
                now,
                r,
            ) && final(self).manufacture_state@ == old(self).manufacture_state@.insert(
                region_name@,
                final(self).manufacture_state@[region_name@],
            ) && final(self).regions == old(self).regions,
    {
        if !self.manufacture_state.contains_key(region_name) {
            return Err(ManufactureError::MachineNotFound);
        }
        let machine = self.manufacture_state.get_mut(region_name).unwrap();
        let (recipe_id, start) = match &machine.active_recipe {
            Some(a) => (a.recipe_id.clone(), a.start_tick),
            None => return Ok(ManufactureSettleResult { settle_count: 0, auto_supple_count: 0 }),
        };
        let recipe = match table.manufact_crafts.get(recipe_id.as_str()) {
            Some(rc) => rc,
            None => return Err(ManufactureError::RecipeNotFound),
        };
        let elapsed = elapsed_between(now, start);
        let per = if recipe.total_progress > 0 { recipe.total_progress } else { 1 };
        let q = elapsed / per;
        let completed: u32 = if q <= u32::MAX as u64 { q as u32 } else { 0 };
        let available = if completed < machine.set_count { completed } else { machine.set_count };
        if available == 0 {
            return Ok(ManufactureSettleResult { settle_count: 0, auto_supple_count: 0 });
        }
        let max_stack = manufact_const.outcome_buffer_stack_max_count;
        let ghost v0 = slots_view(machine.outcome_buffer@);
        let ghost id = recipe.outcome.id@;
        let cnt = recipe.outcome.count;
        let mut settled: u32 = 0;
        let mut done = false;
        let ghost m0 = *machine;
        while settled < available && !done
            invariant
                settled <= available,
                available <= m0.set_count,
                machine.set_count == m0.set_count,
                machine.region_name == m0.region_name,
                machine.building_level == m0.building_level,
                machine.active_recipe == m0.active_recipe,
                done ==> settled < available,
                cnt == recipe.outcome.count,
                id == recipe.outcome.id@,
                max_stack + cnt <= u32::MAX,
                cnt + cnt <= u32::MAX,
                buffer_add_safe(slots_view(machine.outcome_buffer@), cnt),
                !done ==> settle_sets(v0, id, cnt, max_stack, settled as nat) == (
                    slots_view(machine.outcome_buffer@),
                    settled as nat,
                ),
                done ==> settle_sets(v0, id, cnt, max_stack, settled as nat + 1) == (
                    slots_view(machine.outcome_buffer@),
                    settled as nat,
                ),
            decreases available - settled, if done { 0int } else { 1int },
        {
            let ghost cur = slots_view(machine.outcome_buffer@);
            let mut j: usize = 0;
            let mut found = false;
            while j < machine.outcome_buffer.len()
                invariant_except_break
                    !found,
                invariant
                    0 <= j <= cur.len(),
                    id == recipe.outcome.id@,
                    cur == slots_view(machine.outcome_buffer@),
                    forall|t: int| 0 <= t < j ==> cur[t].0 != id,
                ensures
                    found ==> j < cur.len() && cur[j as int].0 == id,
                    !found ==> j == cur.len(),
                    forall|t: int| 0 <= t < j ==> cur[t].0 != id,
                decreases cur.len() - j,
            {
                proof {
                    assert(cur[j as int] == machine.outcome_buffer@[j as int]@);
                }
                if machine.outcome_buffer[j].item_id == recipe.outcome.id {
                    found = true;
                    break;
                }
                j += 1;
            }
            proof {
                lemma_first_item_from_pub(cur, id, 0);
            }
            if found {
                proof {
                    assert(cur[j as int] == machine.outcome_buffer@[j as int]@);
                }
                let have = machine.outcome_buffer[j].count;
                if have + cnt <= max_stack {
                    let slot = &mut machine.outcome_buffer[j];
                    slot.count = have + cnt;
                    settled = settled + 1;
                    proof {
                        assert(slots_view(machine.outcome_buffer@) =~= cur.update(j as int, (cur[j as int].0, (cur[j as int].1 + cnt) as u32, cur[j as int].2)));
                    }
                } else {
                    done = true;
                }
            } else if machine.outcome_buffer.len() < OUTCOME_BUFFER_STACKS {
                machine.outcome_buffer.push(ItemSlot { item_id: recipe.outcome.id.clone(), count: cnt, inst_id: 0 });
                settled = settled + 1;
                proof {
                    assert(slots_view(machine.outcome_buffer@) =~= cur.push((id, cnt, 0u32)));
                }
            } else {
                done = true;
            }
        }
        proof {
            if done {
                lemma_settle_stops(v0, id, cnt, max_stack, settled as nat, available as nat);
            }
        }
        machine.set_count = machine.set_count - settled;
        if machine.set_count == 0 {
            machine.active_recipe = None;
        } else if settled > 0 {
            machine.active_recipe = Some(ActiveRecipe { recipe_id, start_tick: now });
        }
        Ok(ManufactureSettleResult { settle_count: settled as i32, auto_supple_count: 0 })
    }

    /// Settles finished sets on the system clock (see
    /// `manufacture_settle_at`).
    pub fn manufacture_settle(
        &mut self,
        table: &FactoryTable,
        manufact_const: &ManufactConst,
        region_name: &str,
        node_id: u32,
    ) -> (r: Result<ManufactureSettleResult, ManufactureError>)
        requires
            settle_safe(*old(self), *table, *manufact_const, region_name@),
        ensures
            !old(self).manufacture_state@.contains_key(region_name@) ==> (r matches Err(ManufactureError::MachineNotFound)
                && *final(self) == *old(self)),
            old(self).manufacture_state@.contains_key(region_name@) ==> (exists|now: Tick|
                #[trigger] settle_outcome(
                    old(self).manufacture_state@[region_name@],
                    final(self).manufacture_state@[region_name@],
                    *table,
                    manufact_const.outcome_buffer_stack_max_count,
                    now,
                    r,
                )) && final(self).manufacture_state@ == old(self).manufacture_state@.insert(
                region_name@,
                final(self).manufacture_state@[region_name@],
            ) && final(self).regions == old(self).regions,
    {
        let now = current_tick();
        self.manufacture_settle_at(table, manufact_const, region_name, node_id, now)
    }
}

/// Once a settle stops, more sets change nothing.
proof fn lemma_settle_stops(v: Seq<SlotView>, id: Seq<char>, count: u32, max: u32, s: nat, n: nat)
    requires
        settle_sets(v, id, count, max, s + 1).1 == s,
        s + 1 <= n,
    ensures
        settle_sets(v, id, count, max, n) == settle_sets(v, id, count, max, s + 1),
    decreases n,
{
    if n > s + 1 {
        lemma_settle_stops(v, id, count, max, s, (n - 1) as nat);
    }
}

/// The outcome of settling the machine `o` into `n` at tick `now` (see
/// `manufacture_settle_at`).
pub open spec fn settle_outcome(
    o: ManufactureMachine,
    n: ManufactureMachine,
    table: FactoryTable,
    max: u32,
    now: Tick,
    r: Result<ManufactureSettleResult, ManufactureError>,
) -> bool {
    match o.active_recipe {
        None => r matches Ok(res) && res.settle_count == 0 && res.auto_supple_count == 0 && n == o,
        Some(a) => if !table.manufact_crafts@.contains_key(a.recipe_id@) {
            r matches Err(ManufactureError::RecipeNotFound) && n == o
        } else {
            let rc = table.manufact_crafts@[a.recipe_id@];
            let fin = finished_sets(now, a.start_tick, rc.total_progress);
            let avail: nat = (if fin < o.set_count { fin } else { o.set_count as int }) as nat;
            if avail == 0 {
                r matches Ok(res) && res.settle_count == 0 && res.auto_supple_count == 0 && n == o
            } else {
                let (w, k) = settle_sets(slots_view(o.outcome_buffer@), rc.outcome.id@, rc.outcome.count, max, avail);
                &&& r matches Ok(res) && res.settle_count == k as i32 && res.auto_supple_count == 0
                &&& slots_view(n.outcome_buffer@) == w
                &&& n.set_count == o.set_count - k
                &&& n.region_name == o.region_name
                &&& n.building_level == o.building_level
                &&& n.set_count == 0 ==> n.active_recipe is None
                &&& n.set_count != 0 && k > 0 ==> (n.active_recipe matches Some(b) && b.recipe_id == a.recipe_id
                    && b.start_tick == now)
                &&& n.set_count != 0 && k == 0 ==> n.active_recipe == o.active_recipe
            }
        },
    }
}

/// Settling cannot overflow a stack: the buffer's stacks take another set,
/// and so does a stack at the cap or a fresh stack.
pub open spec fn settle_safe(m: FactoryManager, table: FactoryTable, c: ManufactConst, region: Seq<char>) -> bool {
    m.manufacture_state@.contains_key(region) ==> match m.manufacture_state@[region].active_recipe {
        Some(a) => table.manufact_crafts@.contains_key(a.recipe_id@) ==> {
            let cnt = table.manufact_crafts@[a.recipe_id@].outcome.count;
            &&& buffer_add_safe(slots_view(m.manufacture_state@[region].outcome_buffer@), cnt)
            &&& c.outcome_buffer_stack_max_count + cnt <= u32::MAX
            &&& cnt + cnt <= u32::MAX
        },
        None => true,
    }
}

} // verus!
