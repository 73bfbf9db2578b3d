//! Paying recipe costs from the player's bag and handing out results, as
//! the crafting machines do it.
use vstd::prelude::*;

use super::component::{InventoryState, ItemSlot, bag_view};
use super::inventory::{drained_from, inv_total, slot_count_of, try_consume_from_inv};
use super::manager::FactoryManager;
use super::moves::{bag_of, inv_error, inv_updated};
use super::ops::{GridBoxError, region_changed};
use super::slots::SlotView;
use super::table::ItemCount;

verus! {

broadcast use vstd::std_specs::hash::group_hash_axioms;

/// `b` is `a` after taking `need` of `id`, which `a` held.
pub open spec fn took(a: Map<u32, ItemSlot>, b: Map<u32, ItemSlot>, id: Seq<char>, need: int) -> bool {
    &&& inv_total(a, id) >= need
    &&& inv_total(b, id) == inv_total(a, id) - need
    &&& drained_from(a, b, id)
}

/// `b` is `a` after trying to take `need` of `id`, which `a` did not hold:
/// every stack of `id` is gone.
pub open spec fn fell_short(a: Map<u32, ItemSlot>, b: Map<u32, ItemSlot>, id: Seq<char>, need: int) -> bool {
    &&& inv_total(a, id) < need
    &&& inv_total(b, id) == 0
    &&& drained_from(a, b, id)
}

/// `ms` lists the bag after each cost in turn was taken.
pub open spec fn took_chain(ms: Seq<Map<u32, ItemSlot>>, costs: Seq<(Seq<char>, int)>) -> bool {
    &&& ms.len() == costs.len() + 1
    &&& forall|i: int| 0 <= i < costs.len() ==> #[trigger] took(ms[i], ms[i + 1], costs[i].0, costs[i].1)
}

/// Every cost was paid in turn, turning bag `m0` into `m1`.
pub open spec fn paid_all(m0: Map<u32, ItemSlot>, m1: Map<u32, ItemSlot>, costs: Seq<(Seq<char>, int)>) -> bool {
    exists|ms: Seq<Map<u32, ItemSlot>>| #[trigger] took_chain(ms, costs) && ms[0] == m0 && ms.last() == m1
}

/// The costs before some cost `j` were paid in turn, then cost `j` could
/// not be, turning bag `m0` into `m1`; the later costs were not tried.
pub open spec fn paid_until_short(m0: Map<u32, ItemSlot>, m1: Map<u32, ItemSlot>, costs: Seq<(Seq<char>, int)>) -> bool {
    exists|j: int, ms: Seq<Map<u32, ItemSlot>>|
        0 <= j < costs.len() && #[trigger] took_chain(ms, costs.subrange(0, j)) && ms[0] == m0 && fell_short(
            ms.last(),
            m1,
            costs[j].0,
            costs[j].1,
        )
}

/// Recipe costs scaled by `multi` (saturating at 32 bits).
pub open spec fn scaled_costs(items: Seq<ItemCount>, multi: u32) -> Seq<(Seq<char>, int)> {
    items.map_values(|ic: ItemCount| (ic.id@, sat_mul_u32(ic.count as int, multi as int)))
}

/// `a * b`, saturating at `u32::MAX`.
pub open spec fn sat_mul_u32(a: int, b: int) -> int {
    if a * b > u32::MAX {
        u32::MAX as int
    } else {
        a * b
    }
}

/// `a * b`, saturating at `u32::MAX`.
pub fn sat_mul(a: u32, b: u32) -> (r: u32)
    ensures
        r == sat_mul_u32(a as int, b as int),
{
    match a.checked_mul(b) {
        Some(p) => p,
        None => u32::MAX,
    }
}

/// Draining one item keeps every slot within its size in `b0`.
pub proof fn lemma_shrunk(b0: Map<u32, ItemSlot>, cur: Map<u32, ItemSlot>, new: Map<u32, ItemSlot>, id: Seq<char>)
    requires
        forall|k: u32| cur.contains_key(k) ==> b0.contains_key(k) && cur[k].count <= b0[k].count && cur[k].item_id == b0[k].item_id,
        drained_from(cur, new, id),
    ensures
        forall|k: u32| new.contains_key(k) ==> b0.contains_key(k) && new[k].count <= b0[k].count && new[k].item_id == b0[k].item_id,
{
    assert forall|k: u32| new.contains_key(k) implies b0.contains_key(k) && new[k].count <= b0[k].count && new[k].item_id == b0[k].item_id by {
        assert(cur.dom().contains(k));
        assert(new[k].count <= cur[k].count);
    }
}

/// Draining one item leaves the totals of every other item as they were.
proof fn lemma_drain_keeps_others(a: Map<u32, ItemSlot>, b: Map<u32, ItemSlot>, id: Seq<char>, x: Seq<char>)
    requires
        a.dom().finite(),
        drained_from(a, b, id),
        x != id,
    ensures
        b.dom().finite(),
        inv_total(b, x) == inv_total(a, x),
{
    vstd::set_lib::lemma_len_subset(b.dom(), a.dom());
    let fa = slot_count_of(a, x);
    let fb = slot_count_of(b, x);
    assert forall|k: u32| b.dom().contains(k) implies fa(k) == fb(k) by {
        if a[k].item_id@ == x {
            assert(b[k] == a[k]);
        }
        assert(b[k].item_id == a[k].item_id);
    }
    crate::util::lemma_set_sum_congruent(b.dom(), fa, fb);
    assert forall|k: u32| a.dom().contains(k) && !b.dom().contains(k) implies fa(k) == 0 by {
        if a[k].item_id@ == x {
            assert(b.contains_key(k));
        }
    }
    crate::util::lemma_set_sum_extend_zero(b.dom(), a.dom(), fa);
}

/// Paying the same costs in turn from the same bag gives the same totals
/// at each step, whatever slots the payments drew from.
proof fn lemma_chains_agree(ms: Seq<Map<u32, ItemSlot>>, ns: Seq<Map<u32, ItemSlot>>, costs: Seq<(Seq<char>, int)>, t: int)
    requires
        ms.len() > t,
        ns.len() > t,
        0 <= t,
        t <= costs.len(),
        ms[0] == ns[0],
        ms[0].dom().finite(),
        forall|i: int| 0 <= i < t ==> #[trigger] took(ms[i], ms[i + 1], costs[i].0, costs[i].1),
        forall|i: int| 0 <= i < t ==> #[trigger] took(ns[i], ns[i + 1], costs[i].0, costs[i].1),
    ensures
        ms[t].dom().finite(),
        ns[t].dom().finite(),
        forall|x: Seq<char>| inv_total(#[trigger] ms[t], x) == inv_total(ns[t], x),
    decreases t,
{
    if t > 0 {
        lemma_chains_agree(ms, ns, costs, t - 1);
        let id = costs[t - 1].0;
        let i = t - 1;
        assert(took(ms[i], ms[i + 1], costs[i].0, costs[i].1));
        assert(took(ns[i], ns[i + 1], costs[i].0, costs[i].1));
        assert(i + 1 == t);
        assert forall|x: Seq<char>| inv_total(#[trigger] ms[t], x) == inv_total(ns[t], x) by {
            if x != id {
                lemma_drain_keeps_others(ms[t - 1], ms[t], id, x);
                lemma_drain_keeps_others(ns[t - 1], ns[t], id, x);
            }
            assert(inv_total(ms[t - 1], x) == inv_total(ns[t - 1], x));
        }
        lemma_drain_finite(ms[t - 1], ms[t], id);
        lemma_drain_finite(ns[t - 1], ns[t], id);
    }
}

proof fn lemma_drain_finite(a: Map<u32, ItemSlot>, b: Map<u32, ItemSlot>, id: Seq<char>)
    requires
        a.dom().finite(),
        drained_from(a, b, id),
    ensures
        b.dom().finite(),
{
    vstd::set_lib::lemma_len_subset(b.dom(), a.dom());
}

/// Paying costs in turn from a bag either pays them all or stops short at
/// one of them, never both: `pay_costs` reports the one that happened.
pub proof fn lemma_pay_outcomes_exclusive(
    m0: Map<u32, ItemSlot>,
    m1: Map<u32, ItemSlot>,
    m2: Map<u32, ItemSlot>,
    costs: Seq<(Seq<char>, int)>,
)
    requires
        m0.dom().finite(),
    ensures
        !(paid_all(m0, m1, costs) && paid_until_short(m0, m2, costs)),
{
    if paid_all(m0, m1, costs) && paid_until_short(m0, m2, costs) {
        let ms = choose|ms: Seq<Map<u32, ItemSlot>>| #[trigger] took_chain(ms, costs) && ms[0] == m0 && ms.last() == m1;
        let (j, ns) = choose|j: int, ns: Seq<Map<u32, ItemSlot>>|
            0 <= j < costs.len() && #[trigger] took_chain(ns, costs.subrange(0, j)) && ns[0] == m0 && fell_short(
                ns.last(),
                m2,
                costs[j].0,
                costs[j].1,
            );
        assert forall|i: int| 0 <= i < j implies #[trigger] took(ns[i], ns[i + 1], costs[i].0, costs[i].1) by {
            assert(costs.subrange(0, j)[i] == costs[i]);
            assert(took(ns[i], ns[i + 1], costs.subrange(0, j)[i].0, costs.subrange(0, j)[i].1));
        }
        assert forall|i: int| 0 <= i < j implies #[trigger] took(ms[i], ms[i + 1], costs[i].0, costs[i].1) by {
            assert(took(ms[i], ms[i + 1], costs[i].0, costs[i].1));
        }
        lemma_chains_agree(ms, ns, costs, j);
        assert(took(ms[j], ms[j + 1], costs[j].0, costs[j].1));
        assert(ns.last() == ns[j]);
        assert(inv_total(ms[j], costs[j].0) == inv_total(ns[j], costs[j].0));
    }
}

/// Pays `items`, each times `multi`, from a bag in order; stops at the
/// first one the bag cannot cover (see `paid_all`, `paid_until_short`).
pub fn pay_costs(inv: &mut InventoryState, items: &Vec<ItemCount>, multi: u32) -> (r: bool)
    ensures
        r ==> paid_all(old(inv).items@, final(inv).items@, scaled_costs(items@, multi)),
        !r ==> paid_until_short(old(inv).items@, final(inv).items@, scaled_costs(items@, multi)),
        forall|k: u32| final(inv).items@.contains_key(k) ==> old(inv).items@.contains_key(k) && final(inv).items@[k].count <= old(inv).items@[k].count
            && final(inv).items@[k].item_id == old(inv).items@[k].item_id,
{
    let ghost costs = scaled_costs(items@, multi);
    let ghost m0 = inv.items@;
    let ghost mut ms: Seq<Map<u32, ItemSlot>> = seq![m0];
    let mut i: usize = 0;
    proof {
        assert(took_chain(ms, costs.subrange(0, 0)));
    }
    while i < items.len()
        invariant
            0 <= i <= items@.len(),
            costs == scaled_costs(items@, multi),
            m0 == old(inv).items@,
            took_chain(ms, costs.subrange(0, i as int)),
            ms[0] == m0,
            ms.last() == inv.items@,
            forall|k: u32| inv.items@.contains_key(k) ==> m0.contains_key(k) && inv.items@[k].count <= m0[k].count && inv.items@[k].item_id == m0[k].item_id,
        decreases items@.len() - i,
    {
        let needed = sat_mul(items[i].count, multi);
        let ghost cur = inv.items@;
        proof {
            assert(costs[i as int] == (items@[i as int].id@, sat_mul_u32(items@[i as int].count as int, multi as int)));
        }
        let ok = try_consume_from_inv(inv, items[i].id.as_str(), needed);
        proof {
            lemma_shrunk(m0, cur, inv.items@, items@[i as int].id@);
        }
        if !ok {
            proof {
                assert(fell_short(cur, inv.items@, costs[i as int].0, costs[i as int].1));
                assert(paid_until_short(m0, inv.items@, costs));
            }
            return false;
        }
        proof {
            let ms2 = ms.push(inv.items@);
            let c2 = costs.subrange(0, i as int + 1);
            assert(took(cur, inv.items@, costs[i as int].0, costs[i as int].1));
            assert forall|t: int| 0 <= t < c2.len() implies #[trigger] took(ms2[t], ms2[t + 1], c2[t].0, c2[t].1) by {
                if t < i {
                    assert(c2[t] == costs.subrange(0, i as int)[t]);
                    assert(took(ms[t], ms[t + 1], costs.subrange(0, i as int)[t].0, costs.subrange(0, i as int)[t].1));
                }
            }
            ms = ms2;
        }
        i += 1;
    }
    proof {
        assert(costs.subrange(0, i as int) =~= costs);
    }
    true
}

/// Region `name` exists and its bag (inventory 1 of node 1) is usable.
pub open spec fn bag_ready(m: FactoryManager, name: Seq<char>) -> bool {
    m.regions@.contains_key(name) && inv_error(m.regions@[name], 1, 1, GridBoxError::InventoryNodeMissing) is None
}

/// The bag of region `name`.
pub open spec fn region_bag(m: FactoryManager, name: Seq<char>) -> Map<u32, ItemSlot> {
    bag_of(m.regions@[name])
}

/// Region `name` is in both maps, only its bag changed, to `b`.
pub open spec fn regions_bag_changed(
    old: Map<Seq<char>, super::region::FactoryRegion>,
    new: Map<Seq<char>, super::region::FactoryRegion>,
    name: Seq<char>,
    b: Map<u32, SlotView>,
) -> bool {
    &&& old.contains_key(name)
    &&& new.contains_key(name)
    &&& new == old.insert(name, new[name])
    &&& inv_updated(old[name], new[name], 1, 1, b)
}

/// `new` is `old` with only the bag of region `name` changed, to `b`.
pub open spec fn bag_changed(old: FactoryManager, new: FactoryManager, name: Seq<char>, b: Map<u32, SlotView>) -> bool {
    &&& region_changed(old, new, name)
    &&& inv_updated(old.regions@[name], new.regions@[name], 1, 1, b)
}

impl FactoryManager {
    /// The bag of region `region_name`, for editing.
    pub(crate) fn region_bag_mut(&mut self, region_name: &str) -> (r: Option<&mut InventoryState>)
        ensures
            match r {
                Some(inv) => {
                    &&& bag_ready(*old(self), region_name@)
                    &&& inv.items@ == region_bag(*old(self), region_name@)
                    &&& bag_changed(*old(self), *final(self), region_name@, bag_view(final(inv).items@))
                    &&& region_bag(*final(self), region_name@) == final(inv).items@
                },
                None => !bag_ready(*old(self), region_name@) && *final(self) == *old(self),
            },
    {
        let ready = match self.region(region_name) {
            Some(region) => region.inv_check_pub(1, 1),
            None => false,
        };
        if !ready {
            return None;
        }
        let region = self.region_mut(region_name).unwrap();
        region.bag_mut()
    }
}

} // verus!
