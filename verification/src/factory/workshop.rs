//! The workshop: crafts unlocked recipes from the bag into the bag.
use vstd::prelude::*;

use super::bag::{
    bag_ready, paid_all, paid_until_short, pay_costs, region_bag, regions_bag_changed, sat_mul, sat_mul_u32,
    scaled_costs,
};
use super::component::{ItemSlot, bag_view};
use super::inventory::{is_first_free_key, push_item_to_bag, slot_matches};
use super::manager::FactoryManager;
use super::slots::SlotView;
use super::table::{FactoryTable, ItemCount};

verus! {

/// Why a workshop craft failed.
#[derive(Debug, Clone, Copy, PartialEq, Eq, Structural)]
pub enum WorkshopError {
    RecipeNotFound,
    NotUnlocked,
    RegionNotFound,
    InventoryMissing,
    InsufficientIngredients,
}

/// Recipe outcomes scaled by `multi` (saturating), as fresh stacks.
pub open spec fn scaled_outcomes(items: Seq<ItemCount>, multi: u32) -> Seq<SlotView> {
    items.map_values(|ic: ItemCount| (ic.id@, sat_mul_u32(ic.count as int, multi as int) as u32, 0u32))
}

/// `multi`, at least 1.
pub open spec fn at_least_one(multi: u32) -> u32 {
    if multi > 0 { multi } else { 1 }
}

/// `b` is bag `a` after `it` (item, count, instance) was added: onto the
/// slot holding the same item and instance when there is one, otherwise
/// into a new slot under the first free key at or above the instance id.
/// No other slot changes.
pub open spec fn pushed(a: Map<u32, ItemSlot>, b: Map<u32, ItemSlot>, it: SlotView) -> bool {
    if exists|k: u32| #[trigger] a.contains_key(k) && slot_matches(a[k], it.0, it.2) {
        exists|k: u32|
            #[trigger] a.contains_key(k) && slot_matches(a[k], it.0, it.2) && b == a.insert(
                k,
                ItemSlot { count: (a[k].count + it.1) as u32, ..a[k] },
            )
    } else {
        exists|k: u32|
            #[trigger] is_first_free_key(a, it.2, k) && b[k].item_id@ == it.0 && b == a.insert(k, b[k]) && b[k].count == it.1
                && b[k].inst_id == it.2
    }
}

/// `ms` lists the bag after each item in turn was added.
pub open spec fn pushed_chain(ms: Seq<Map<u32, ItemSlot>>, items: Seq<SlotView>) -> bool {
    &&& ms.len() == items.len() + 1
    &&& forall|i: int| 0 <= i < items.len() ==> #[trigger] pushed(ms[i], ms[i + 1], items[i])
}

/// Bag `a` became `b` by adding `items` one after another (see `pushed`).
pub open spec fn pushed_all(a: Map<u32, ItemSlot>, b: Map<u32, ItemSlot>, items: Seq<SlotView>) -> bool {
    exists|ms: Seq<Map<u32, ItemSlot>>| #[trigger] pushed_chain(ms, items) && ms[0] == a && ms.last() == b
}

/// Adding items one after another never touches a slot of an item other
/// than those added: such a slot is still in the bag, unchanged.
pub proof fn lemma_pushed_all_keeps_other_items(a: Map<u32, ItemSlot>, b: Map<u32, ItemSlot>, items: Seq<SlotView>)
    requires
        pushed_all(a, b, items),
    ensures
        forall|k: u32|
            #[trigger] a.contains_key(k) && (forall|i: int| 0 <= i < items.len() ==> items[i].0 != a[k].item_id@) ==> b.contains_key(k)
                && b[k] == a[k],
    decreases items.len(),
{
    let ms = choose|ms: Seq<Map<u32, ItemSlot>>| #[trigger] pushed_chain(ms, items) && ms[0] == a && ms.last() == b;
    if items.len() > 0 {
        let n = items.len() as int;
        let ms2 = ms.drop_last();
        let it2 = items.drop_last();
        assert forall|i: int| 0 <= i < it2.len() implies #[trigger] pushed(ms2[i], ms2[i + 1], it2[i]) by {
            assert(pushed(ms[i], ms[i + 1], items[i]));
        }
        assert(pushed_chain(ms2, it2));
        let mid = ms2.last();
        lemma_pushed_all_keeps_other_items(a, mid, it2);
        let it = items[n - 1];
        assert(pushed(ms[n - 1], ms[n], it));
        assert forall|k: u32|
            #[trigger] a.contains_key(k) && (forall|i: int| 0 <= i < items.len() ==> items[i].0 != a[k].item_id@) implies b.contains_key(k)
                && b[k] == a[k] by {
            assert forall|i: int| 0 <= i < it2.len() implies it2[i].0 != a[k].item_id@ by {
                assert(it2[i] == items[i]);
            }
            assert(mid.contains_key(k) && mid[k] == a[k]);
            assert(it.0 != a[k].item_id@);
            if exists|k2: u32| #[trigger] mid.contains_key(k2) && slot_matches(mid[k2], it.0, it.2) {
                let k2 = choose|k2: u32|
                    #[trigger] mid.contains_key(k2) && slot_matches(mid[k2], it.0, it.2) && b == mid.insert(
                        k2,
                        ItemSlot { count: (mid[k2].count + it.1) as u32, ..mid[k2] },
                    );
                assert(k2 != k);
            } else {
                let k2 = choose|k2: u32|
                    #[trigger] is_first_free_key(mid, it.2, k2) && b[k2].item_id@ == it.0 && b == mid.insert(k2, b[k2])
                        && b[k2].count == it.1 && b[k2].inst_id == it.2;
                assert(k2 != k);
            }
        }
    }
}

/// Adding `it` to bag `m` stays within the count range and finds a key.
pub open spec fn push_fits(m: Map<u32, ItemSlot>, it: SlotView) -> bool {
    &&& forall|k: u32| #[trigger] m.contains_key(k) && slot_matches(m[k], it.0, it.2) ==> m[k].count + it.1 <= u32::MAX
    &&& exists|k: u32| k >= it.2 && !#[trigger] m.contains_key(k)
}

/// Whatever the payment leaves in the bag, adding the outcomes one after
/// another stays in range.
pub open spec fn workshop_fits(b0: Map<u32, ItemSlot>, costs: Seq<(Seq<char>, int)>, outs: Seq<SlotView>) -> bool {
    forall|mid: Map<u32, ItemSlot>, i: int, cur: Map<u32, ItemSlot>|
        #![trigger paid_all(b0, mid, costs), pushed_all(mid, cur, outs.subrange(0, i))]
        paid_all(b0, mid, costs) && 0 <= i < outs.len() && pushed_all(mid, cur, outs.subrange(0, i)) ==> push_fits(cur, outs[i])
}

impl FactoryManager {
    /// Crafts `formula_id` `multi` times (at least once): pays each
    /// ingredient times `multi` from the bag in order, then adds each
    /// outcome times `multi` to the bag (see `pushed`) and returns the
    /// outcomes. The recipe must be known and unlocked by
    /// default. A missing ingredient fails after the earlier ones were
    /// paid.
    pub fn workshop_make(&mut self, table: &FactoryTable, region_name: &str, formula_id: &str, multi: u32) -> (r: Result<Vec<ItemSlot>, WorkshopError>)
        requires
            table.workshop_crafts@.contains_key(formula_id@) && bag_ready(*old(self), region_name@) ==> workshop_fits(
                region_bag(*old(self), region_name@),
                scaled_costs(table.workshop_crafts@[formula_id@].ingredients@, at_least_one(multi)),
                scaled_outcomes(table.workshop_crafts@[formula_id@].outcomes@, at_least_one(multi)),
            ),
        ensures
            workshop_outcome(*old(self), *final(self), *table, region_name@, formula_id@, multi, r),
    {
        let recipe = match table.workshop_crafts.get(formula_id) {
            Some(rc) => rc,
            None => return Err(WorkshopError::RecipeNotFound),
        };
        if !recipe.default_unlock {
            return Err(WorkshopError::NotUnlocked);
        }
        let m = if multi > 0 { multi } else { 1 };
        if !self.regions.contains_key(region_name) {
            return Err(WorkshopError::RegionNotFound);
        }
        let bag = match self.region_bag_mut(region_name) {
            Some(b) => b,
            None => return Err(WorkshopError::InventoryMissing),
        };
        if !pay_costs(bag, &recipe.ingredients, m) {
            return Err(WorkshopError::InsufficientIngredients);
        }
        let mut produced: Vec<ItemSlot> = Vec::new();
        let mut i: usize = 0;
        while i < recipe.outcomes.len()
            invariant
                0 <= i <= recipe.outcomes@.len(),
                produced@.len() == i,
                produced@.map_values(|s: ItemSlot| s@) == scaled_outcomes(recipe.outcomes@, m).subrange(0, i as int),
            decreases recipe.outcomes@.len() - i,
        {
            let count = sat_mul(recipe.outcomes[i].count, m);
            let id = recipe.outcomes[i].id.clone();
            proof {
                assert(id@ == recipe.outcomes@[i as int].id@);
                assert(scaled_outcomes(recipe.outcomes@, m)[i as int] == (id@, count, 0u32));
            }
            let ghost before = produced@;
            produced.push(ItemSlot { item_id: id, count, inst_id: 0 });
            proof {
                let f = |s: ItemSlot| s@;
                let want = scaled_outcomes(recipe.outcomes@, m);
                assert forall|j: int| 0 <= j < i + 1 implies produced@.map_values(f)[j] == want.subrange(0, i as int + 1)[j] by {
                    if j < i {
                        assert(produced@[j] == before[j]);
                        assert(before.map_values(f)[j] == want.subrange(0, i as int)[j]);
                    }
                }
                assert(produced@.map_values(f) =~= want.subrange(0, i as int + 1));
            }
            i += 1;
        }
        proof {
            assert(scaled_outcomes(recipe.outcomes@, m).subrange(0, i as int) =~= scaled_outcomes(recipe.outcomes@, m));
        }
        let ghost b0 = region_bag(*old(self), region_name@);
        let ghost costs = scaled_costs(recipe.ingredients@, m);
        let ghost outs = scaled_outcomes(recipe.outcomes@, m);
        let ghost mid = bag.items@;
        let ghost mut ms: Seq<Map<u32, ItemSlot>> = seq![mid];
        let mut j: usize = 0;
        while j < produced.len()
            invariant
                0 <= j <= produced@.len(),
                produced@.map_values(|s: ItemSlot| s@) == outs,
                paid_all(b0, mid, costs),
                workshop_fits(b0, costs, outs),
                pushed_chain(ms, outs.subrange(0, j as int)),
                ms[0] == mid,
                ms.last() == bag.items@,
            decreases produced@.len() - j,
        {
            let ghost cur = bag.items@;
            proof {
                assert(pushed_all(mid, cur, outs.subrange(0, j as int)));
                assert(push_fits(cur, outs[j as int]));
                assert(outs[j as int] == produced@[j as int]@);
            }
            push_item_to_bag(bag, produced[j].item_id.as_str(), produced[j].count, produced[j].inst_id);
            proof {
                let ms2 = ms.push(bag.items@);
                let o2 = outs.subrange(0, j as int + 1);
                assert(pushed(cur, bag.items@, outs[j as int]));
                assert forall|t: int| 0 <= t < o2.len() implies #[trigger] pushed(ms2[t], ms2[t + 1], o2[t]) by {
                    if t < j {
                        assert(o2[t] == outs.subrange(0, j as int)[t]);
                        assert(pushed(ms[t], ms[t + 1], outs.subrange(0, j as int)[t]));
                    }
                }
                ms = ms2;
            }
            j += 1;
        }
        proof {
            assert(outs.subrange(0, j as int) =~= outs);
        }
        Ok(produced)
    }
}

/// The outcome of `workshop_make`.
pub open spec fn workshop_outcome(
    old: FactoryManager,
    new: FactoryManager,
    table: FactoryTable,
    name: Seq<char>,
    formula: Seq<char>,
    multi: u32,
    r: Result<Vec<ItemSlot>, WorkshopError>,
) -> bool {
    if !table.workshop_crafts@.contains_key(formula) {
        r matches Err(WorkshopError::RecipeNotFound) && new == old
    } else if !table.workshop_crafts@[formula].default_unlock {
        r matches Err(WorkshopError::NotUnlocked) && new == old
    } else if !old.regions@.contains_key(name) {
        r matches Err(WorkshopError::RegionNotFound) && new == old
    } else if !bag_ready(old, name) {
        r matches Err(WorkshopError::InventoryMissing) && new == old
    } else {
        let rc = table.workshop_crafts@[formula];
        let costs = scaled_costs(rc.ingredients@, at_least_one(multi));
        let outs = scaled_outcomes(rc.outcomes@, at_least_one(multi));
        let b0 = region_bag(old, name);
        let b1 = region_bag(new, name);
        &&& regions_bag_changed(old.regions@, new.regions@, name, bag_view(b1))
        &&& new.quickbars == old.quickbars
        &&& new.current_region == old.current_region
        &&& match r {
            Err(WorkshopError::InsufficientIngredients) => paid_until_short(b0, b1, costs),
            Ok(v) => v@.map_values(|s: ItemSlot| s@) == outs && exists|mid: Map<u32, ItemSlot>|
                #[trigger] paid_all(b0, mid, costs) && pushed_all(mid, b1, outs),
            _ => false,
        }
    }
}

} // verus!
