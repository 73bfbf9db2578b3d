//! The manual craft queue (at most 5 units): paid from the bag when
//! queued, finished one at a time into the bag, refundable on cancel.
use vstd::prelude::*;

use super::bag::{
    bag_ready, paid_all, paid_until_short, pay_costs, region_bag, regions_bag_changed,
    scaled_costs,
};
use super::component::{InventoryState, ItemSlot, bag_view};
use super::slots::SlotView;
use super::manager::FactoryManager;
use super::slots::{
    grant_all_fits, grant_to_bag, granted_all, granted_chain, lemma_granted_none, lemma_granted_step, lowest_free_key,
};
use super::table::{FactoryTable, ItemCount, ManualCraft};
use super::tick::{Tick, current_tick, elapsed_between, spec_elapsed};
use super::ManualWorkUnit;
use crate::strmap::StrMap;

verus! {

/// Most units in the queue.
pub const MANUAL_QUEUE_LENGTH: usize = 5;

/// The queue with its head unit restarted at tick `now`, all else kept.
pub open spec fn restarted_head(q: Seq<ManualWorkUnit>, now: Tick) -> Seq<ManualWorkUnit> {
    q.update(0, ManualWorkUnit { start_tick: now, ..q[0] })
}

/// `count`, at least 1, as a unit count.
pub open spec fn unit_count(count: i32) -> u32 {
    if count > 1 { count as u32 } else { 1 }
}

/// `units` are `n` fresh units of `recipe`, all started at one tick.
pub open spec fn fresh_units(units: Seq<ManualWorkUnit>, recipe: Seq<char>, n: nat) -> bool {
    &&& units.len() == n
    &&& forall|i: int| 0 <= i < n ==> (#[trigger] units[i]).recipe_id@ == recipe && units[i].progress == 0
        && units[i].start_tick == units[0].start_tick
}

/// The refund map `m` after adding each ingredient of `ings` in turn.
pub open spec fn refund_add(m: Map<Seq<char>, i32>, ings: Seq<ItemCount>) -> Map<Seq<char>, i32>
    decreases ings.len(),
{
    if ings.len() == 0 {
        m
    } else {
        let m2 = refund_add(m, ings.drop_last());
        let it = ings.last();
        m2.insert(it.id@, (refund_at(m2, it.id@) + it.count) as i32)
    }
}

/// The amount under `id`, zero when absent.
pub open spec fn refund_at(m: Map<Seq<char>, i32>, id: Seq<char>) -> int {
    if m.contains_key(id) { m[id] as int } else { 0 }
}

/// Adding `ings` to `m` keeps every total within `i32`.
pub open spec fn refund_add_fits(m: Map<Seq<char>, i32>, ings: Seq<ItemCount>) -> bool {
    forall|j: int| 0 <= j < ings.len() ==> refund_at(#[trigger] refund_add(m, ings.take(j)), ings[j].id@) + ings[j].count <= i32::MAX
}

/// Ingredients refunded for every unit of `queue` whose recipe is known,
/// summed by item id.
pub open spec fn refund_of(queue: Seq<ManualWorkUnit>, crafts: Map<Seq<char>, ManualCraft>) -> Map<Seq<char>, i32>
    decreases queue.len(),
{
    if queue.len() == 0 {
        Map::empty()
    } else {
        let m = refund_of(queue.drop_last(), crafts);
        let id = queue.last().recipe_id@;
        if crafts.contains_key(id) { refund_add(m, crafts[id].ingredients@) } else { m }
    }
}

/// Summing the refund of `queue` never leaves `i32`.
pub open spec fn refund_fits(queue: Seq<ManualWorkUnit>, crafts: Map<Seq<char>, ManualCraft>) -> bool {
    forall|i: int|
        0 <= i < queue.len() && crafts.contains_key(queue[i].recipe_id@) ==> refund_add_fits(
            #[trigger] refund_of(queue.take(i), crafts),
            crafts[queue[i].recipe_id@].ingredients@,
        )
}

/// The bag can take `refund` back without a stack overflowing.
pub open spec fn refund_room(bag: Map<u32, SlotView>, refund: Map<Seq<char>, i32>) -> bool {
    forall|k: u32| bag.contains_key(k) && refund.contains_key(#[trigger] bag[k].0) ==> bag[k].1 + refund[bag[k].0] <= u32::MAX
}

/// `order` lists the keys of `m`, each once.
pub open spec fn lists_keys(order: Seq<Seq<char>>, m: Map<Seq<char>, i32>) -> bool {
    &&& order.no_duplicates()
    &&& order.len() == m.dom().len()
    &&& forall|k: Seq<char>| m.contains_key(k) <==> order.contains(k)
}

/// The grants of `m` in `order`.
pub open spec fn grants_in(order: Seq<Seq<char>>, m: Map<Seq<char>, i32>) -> Seq<(Seq<char>, u32)> {
    order.map_values(|k: Seq<char>| (k, m[k] as u32))
}

/// Adds each ingredient of `ings` to the refund totals.
fn add_refund(back: &mut StrMap<i32>, ings: &Vec<ItemCount>)
    requires
        refund_add_fits(old(back)@, ings@),
        forall|k: Seq<char>| old(back)@.contains_key(k) ==> old(back)@[k] >= 0,
    ensures
        final(back)@ == refund_add(old(back)@, ings@),
        forall|k: Seq<char>| final(back)@.contains_key(k) ==> final(back)@[k] >= 0,
{
    let ghost m0 = back@;
    let mut j: usize = 0;
    proof {
        assert(ings@.take(0) =~= Seq::<ItemCount>::empty());
    }
    while j < ings.len()
        invariant
            0 <= j <= ings.len(),
            m0 == old(back)@,
            refund_add_fits(m0, ings@),
            back@ == refund_add(m0, ings@.take(j as int)),
            forall|k: Seq<char>| back@.contains_key(k) ==> back@[k] >= 0,
        decreases ings.len() - j,
    {
        let it = &ings[j];
        proof {
            assert(ings@.take(j + 1).drop_last() =~= ings@.take(j as int));
            assert(refund_at(refund_add(m0, ings@.take(j as int)), ings@[j as int].id@) + ings@[j as int].count <= i32::MAX);
        }
        match back.get_mut(it.id.as_str()) {
            Some(v) => {
                *v = *v + it.count as i32;
            },
            None => {
                back.insert(it.id.clone(), it.count as i32);
            },
        }
        j += 1;
    }
    proof {
        assert(ings@.take(ings@.len() as int) =~= ings@);
    }
}

/// The bag of region `name` took back `refund`, id by id in some order,
/// and nothing else of the regions changed.
pub open spec fn refund_granted(old: FactoryManager, new: FactoryManager, name: Seq<char>, refund: Map<Seq<char>, i32>) -> bool {
    exists|order: Seq<Seq<char>>| #[trigger] refund_granted_in(order, old, new, name, refund)
}

/// As `refund_granted`, with the ids in `order`.
pub open spec fn refund_granted_in(
    order: Seq<Seq<char>>,
    old: FactoryManager,
    new: FactoryManager,
    name: Seq<char>,
    refund: Map<Seq<char>, i32>,
) -> bool {
    &&& lists_keys(order, refund)
    &&& regions_bag_changed(old.regions@, new.regions@, name, bag_view(region_bag(new, name)))
    &&& granted_all(bag_view(region_bag(old, name)), bag_view(region_bag(new, name)), grants_in(order, refund))
}

/// The grants of `outs`, one per outcome.
pub open spec fn outcome_grants(outs: Seq<ItemCount>) -> Seq<(Seq<char>, u32)> {
    outs.map_values(|o: ItemCount| (o.id@, o.count))
}

/// Grants each outcome of `outs` to the bag, in order.
pub fn grant_outcomes(inv: &mut InventoryState, outs: &Vec<ItemCount>)
    requires
        grant_all_fits(bag_view(old(inv).items@), outcome_grants(outs@)),
    ensures
        granted_all(bag_view(old(inv).items@), bag_view(final(inv).items@), outcome_grants(outs@)),
{
    let ghost b0 = bag_view(inv.items@);
    let ghost items = outcome_grants(outs@);
    let ghost mut ms: Seq<Map<u32, SlotView>> = seq![b0];
    proof {
        lemma_granted_none(b0);
        assert(items.subrange(0, 0) =~= Seq::<(Seq<char>, u32)>::empty());
    }
    let mut i: usize = 0;
    while i < outs.len()
        invariant
            0 <= i <= outs@.len(),
            items == outcome_grants(outs@),
            b0 == bag_view(old(inv).items@),
            grant_all_fits(b0, items),
            granted_chain(ms, items.subrange(0, i as int)),
            ms[0] == b0,
            ms.last() == bag_view(inv.items@),
        decreases outs@.len() - i,
    {
        let o = &outs[i];
        proof {
            assert(granted_all(b0, bag_view(inv.items@), items.subrange(0, i as int)));
            assert(items[i as int] == (o.id@, o.count));
        }
        grant_to_bag(inv, o.id.as_str(), o.count);
        proof {
            let new = bag_view(inv.items@);
            lemma_granted_step(b0, ms, items.subrange(0, i as int), new, (o.id@, o.count));
            assert(items.subrange(0, i + 1) =~= items.subrange(0, i as int).push((o.id@, o.count)));
            ms = ms.push(new);
        }
        i += 1;
    }
    proof {
        assert(items.subrange(0, outs@.len() as int) =~= items);
    }
}

/// The head unit of a running queue has reached its recipe's progress at
/// tick `now`.
pub open spec fn head_done(m: FactoryManager, crafts: Map<Seq<char>, ManualCraft>, now: Tick) -> bool {
    let q = m.manual_work_state.queue@;
    &&& !m.manual_work_state.is_paused
    &&& q.len() > 0
    &&& crafts.contains_key(q[0].recipe_id@)
    &&& spec_elapsed(now, q[0].start_tick) >= crafts[q[0].recipe_id@].total_progress
}

/// The queue after its head finished at tick `now`: the rest, the next
/// unit starting at `now`.
pub open spec fn queue_advanced(q0: Seq<ManualWorkUnit>, q1: Seq<ManualWorkUnit>, now: Tick) -> bool {
    &&& q1.len() == q0.len() - 1
    &&& q1.len() > 0 ==> q1[0].start_tick == now && q1[0].recipe_id == q0[1].recipe_id && q1[0].progress == q0[1].progress
    &&& forall|i: int| 1 <= i < q1.len() ==> #[trigger] q1[i] == q0[i + 1]
}

/// The keys of `keys`, as sequences of characters.
pub open spec fn key_views(keys: Seq<String>) -> Seq<Seq<char>> {
    keys.map_values(|k: String| k@)
}

/// Grants each refund total to the bag, in key order.
fn grant_refund(inv: &mut InventoryState, back: &StrMap<i32>) -> (order: Ghost<Seq<Seq<char>>>)
    requires
        refund_room(bag_view(old(inv).items@), back@),
        forall|k: Seq<char>| back@.contains_key(k) ==> back@[k] >= 0,
    ensures
        lists_keys(order@, back@),
        granted_all(bag_view(old(inv).items@), bag_view(final(inv).items@), grants_in(order@, back@)),
{
    let keys = back.keys();
    let ghost kv = key_views(keys@);
    let ghost b0 = bag_view(inv.items@);
    let ghost mut ms: Seq<Map<u32, SlotView>> = seq![b0];
    proof {
        lemma_granted_none(b0);
        assert(grants_in(kv.take(0), back@) =~= Seq::<(Seq<char>, u32)>::empty());
    }
    let mut i: usize = 0;
    while i < keys.len()
        invariant
            0 <= i <= keys@.len(),
            kv == key_views(keys@),
            b0 == bag_view(old(inv).items@),
            refund_room(b0, back@),
            forall|k: Seq<char>| back@.contains_key(k) ==> back@[k] >= 0,
            forall|a: int, b: int| 0 <= a < keys@.len() && 0 <= b < keys@.len() && a != b ==> keys@[a]@ != keys@[b]@,
            forall|k: Seq<char>| back@.contains_key(k) <==> exists|a: int| 0 <= a < keys@.len() && #[trigger] keys@[a]@ == k,
            granted_chain(ms, grants_in(kv.take(i as int), back@)),
            ms[0] == b0,
            ms.last() == bag_view(inv.items@),
            forall|k: u32, j: int|
                bag_view(inv.items@).contains_key(k) && i <= j < keys@.len() && #[trigger] bag_view(inv.items@)[k].0 == #[trigger] keys@[j]@
                    ==> b0.contains_key(k) && bag_view(inv.items@)[k] == b0[k],
        decreases keys@.len() - i,
    {
        let key = &keys[i];
        proof {
            assert(back@.contains_key(keys@[i as int]@));
        }
        let c: i32 = match back.get(key.as_str()) {
            Some(v) => *v,
            None => 0,
        };
        let ghost cur = bag_view(inv.items@);
        proof {
            assert forall|k: u32| cur.contains_key(k) && #[trigger] cur[k].0 == key@ implies cur[k].1 + (c as u32) <= u32::MAX by {
                assert(cur[k].0 == keys@[i as int]@);
            }
        }
        grant_to_bag(inv, key.as_str(), c as u32);
        proof {
            let new = bag_view(inv.items@);
            let items = grants_in(kv.take(i as int), back@);
            lemma_granted_step(b0, ms, items, new, (key@, c as u32));
            assert(grants_in(kv.take(i + 1), back@) =~= items.push((key@, c as u32)));
            ms = ms.push(new);
            assert forall|k: u32, j: int|
                new.contains_key(k) && i + 1 <= j < keys@.len() && #[trigger] new[k].0 == #[trigger] keys@[j]@
                    implies b0.contains_key(k) && new[k] == b0[k] by {
                assert(keys@[j]@ != keys@[i as int]@);
                if exists|k2: u32| cur.contains_key(k2) && #[trigger] cur[k2].0 == key@ {
                    let k2 = choose|k2: u32|
                        cur.contains_key(k2) && #[trigger] cur[k2].0 == key@ && new == cur.insert(
                            k2,
                            (cur[k2].0, (cur[k2].1 + (c as u32)) as u32, cur[k2].2),
                        );
                    if k != k2 {
                        assert(new[k] == cur[k]);
                    }
                } else if exists|k2: u32| !#[trigger] cur.contains_key(k2) {
                    let k0 = choose|k0: u32| #[trigger] lowest_free_key(cur, k0) && new == cur.insert(k0, (key@, c as u32, 0u32));
                    if k != k0 {
                        assert(new[k] == cur[k]);
                    }
                }
            }
        }
        i += 1;
    }
    proof {
        assert(kv.take(keys@.len() as int) =~= kv);
        assert(kv.no_duplicates()) by {
            assert forall|a: int, b: int| 0 <= a < kv.len() && 0 <= b < kv.len() && a != b implies kv[a] != kv[b] by {
                assert(kv[a] == keys@[a]@);
                assert(kv[b] == keys@[b]@);
            }
        }
        assert forall|k: Seq<char>| back@.contains_key(k) <==> kv.contains(k) by {
            if back@.contains_key(k) {
                let a = choose|a: int| 0 <= a < keys@.len() && #[trigger] keys@[a]@ == k;
                assert(kv[a] == k);
            }
            if kv.contains(k) {
                let a = choose|a: int| 0 <= a < kv.len() && kv[a] == k;
                assert(keys@[a]@ == k);
            }
        }
    }
    Ghost(kv)
}

impl FactoryManager {
    /// Queues `count` units (at least one) of `formula_id`, paying each
    /// ingredient times the unit count from the bag in order. The queue
    /// holds at most `MANUAL_QUEUE_LENGTH` units. Returns false for an
    /// unknown recipe, units that would not fit in the queue, or a missing
    /// bag (changing nothing), or when an ingredient runs short (after the
    /// earlier ones were paid).
    pub fn manual_work_append(&mut self, table: &FactoryTable, region_name: &str, formula_id: &str, count: i32) -> (r: bool)
        ensures
            !table.manual_crafts@.contains_key(formula_id@) || old(self).manual_work_state.queue@.len() + unit_count(count)
                > MANUAL_QUEUE_LENGTH || !bag_ready(*old(self), region_name@) ==> !r && *final(self) == *old(self),
            r ==> final(self).manual_work_state.queue@.len() == old(self).manual_work_state.queue@.len() + unit_count(count),
            old(self).manual_work_state.queue@.len() <= MANUAL_QUEUE_LENGTH ==> final(self).manual_work_state.queue@.len()
                <= MANUAL_QUEUE_LENGTH,
            table.manual_crafts@.contains_key(formula_id@) && old(self).manual_work_state.queue@.len() + unit_count(count)
                <= MANUAL_QUEUE_LENGTH && bag_ready(*old(self), region_name@) ==> ({
                let costs = scaled_costs(table.manual_crafts@[formula_id@].ingredients@, unit_count(count));
                let b0 = region_bag(*old(self), region_name@);
                let b1 = region_bag(*final(self), region_name@);
                &&& regions_bag_changed(old(self).regions@, final(self).regions@, region_name@, bag_view(b1))
                &&& r ==> paid_all(b0, b1, costs)
                &&& !r ==> paid_until_short(b0, b1, costs)
                &&& !r ==> final(self).manual_work_state == old(self).manual_work_state
                &&& r ==> final(self).manual_work_state.is_paused == old(self).manual_work_state.is_paused
                &&& r ==> final(self).manual_work_state.queue@.subrange(0, old(self).manual_work_state.queue@.len() as int)
                    == old(self).manual_work_state.queue@
                &&& r ==> fresh_units(
                    final(self).manual_work_state.queue@.subrange(
                        old(self).manual_work_state.queue@.len() as int,
                        final(self).manual_work_state.queue@.len() as int,
                    ),
                    formula_id@,
                    unit_count(count) as nat,
                )
                &&& final(self).quickbars == old(self).quickbars
            }),
    {
        let recipe = match table.manual_crafts.get(formula_id) {
            Some(rc) => rc,
            None => return false,
        };
        let n: u32 = if count > 1 { count as u32 } else { 1 };
        let queued = self.manual_work_state.queue.len();
        if queued > MANUAL_QUEUE_LENGTH || (n as u64) > ((MANUAL_QUEUE_LENGTH - queued) as u64) {
            return false;
        }
        let bag = match self.region_bag_mut(region_name) {
            Some(b) => b,
            None => return false,
        };
        if !pay_costs(bag, &recipe.ingredients, n) {
            return false;
        }
        let now = current_tick();
        let ghost q0 = self.manual_work_state.queue@;
        let ghost paid = *self;
        let mut k: u32 = 0;
        while k < n
            invariant
                0 <= k <= n,
                self.manual_work_state.queue@.len() == q0.len() + k,
                self.manual_work_state.queue@.subrange(0, q0.len() as int) == q0,
                forall|i: int|
                    q0.len() <= i < q0.len() + k ==> (#[trigger] self.manual_work_state.queue@[i]).recipe_id@ == formula_id@
                        && self.manual_work_state.queue@[i].progress == 0 && self.manual_work_state.queue@[i].start_tick == now,
                self.manual_work_state.is_paused == old(self).manual_work_state.is_paused,
                self.regions == paid.regions,
                self.quickbars == paid.quickbars,
            decreases n - k,
        {
            let ghost before = self.manual_work_state.queue@;
            self.manual_work_state.queue.push(ManualWorkUnit { recipe_id: formula_id.to_owned(), start_tick: now, progress: 0 });
            proof {
                assert(self.manual_work_state.queue@.subrange(0, q0.len() as int) =~= before.subrange(0, q0.len() as int));
            }
            k += 1;
        }
        proof {
            let tail = self.manual_work_state.queue@.subrange(q0.len() as int, self.manual_work_state.queue@.len() as int);
            assert forall|i: int| 0 <= i < n implies (#[trigger] tail[i]).recipe_id@ == formula_id@ && tail[i].progress == 0
                && tail[i].start_tick == tail[0].start_tick by {
                assert(tail[i] == self.manual_work_state.queue@[q0.len() + i]);
                assert(tail[0] == self.manual_work_state.queue@[q0.len() as int]);
            }
        }
        true
    }

    /// Cancels the whole queue: returns, by item id, the ingredients of
    /// every queued unit whose recipe is known (the second map, of items
    /// lost, stays empty), grants them back to the bag of `region_name` in
    /// some order of the ids when that bag exists, and empties and unpauses
    /// the queue.
    pub fn manual_work_cancel(&mut self, table: &FactoryTable, region_name: &str) -> (r: (StrMap<i32>, StrMap<i32>))
        requires
            refund_fits(old(self).manual_work_state.queue@, table.manual_crafts@),
            bag_ready(*old(self), region_name@) ==> refund_room(
                bag_view(region_bag(*old(self), region_name@)),
                refund_of(old(self).manual_work_state.queue@, table.manual_crafts@),
            ),
        ensures
            r.0@ == refund_of(old(self).manual_work_state.queue@, table.manual_crafts@),
            r.1@ == Map::<Seq<char>, i32>::empty(),
            final(self).manual_work_state.queue@.len() == 0,
            !final(self).manual_work_state.is_paused,
            final(self).quickbars == old(self).quickbars,
            !bag_ready(*old(self), region_name@) ==> final(self).regions == old(self).regions,
            bag_ready(*old(self), region_name@) ==> refund_granted(*old(self), *final(self), region_name@, r.0@),
    {
        let ghost q = self.manual_work_state.queue@;
        let ghost crafts = table.manual_crafts@;
        let mut back: StrMap<i32> = StrMap::new();
        let mut i: usize = 0;
        proof {
            assert(q.take(0) =~= Seq::<ManualWorkUnit>::empty());
        }
        while i < self.manual_work_state.queue.len()
            invariant
                0 <= i <= q.len(),
                *self == *old(self),
                q == old(self).manual_work_state.queue@,
                crafts == table.manual_crafts@,
                refund_fits(q, crafts),
                back@ == refund_of(q.take(i as int), crafts),
                forall|k: Seq<char>| back@.contains_key(k) ==> back@[k] >= 0,
            decreases q.len() - i,
        {
            let unit = &self.manual_work_state.queue[i];
            proof {
                assert(q.take(i + 1).drop_last() =~= q.take(i as int));
            }
            match table.manual_crafts.get(unit.recipe_id.as_str()) {
                Some(recipe) => {
                    add_refund(&mut back, &recipe.ingredients);
                },
                None => {},
            }
            i += 1;
        }
        proof {
            assert(q.take(q.len() as int) =~= q);
        }
        let lost: StrMap<i32> = StrMap::new();
        let ghost mut ord: Seq<Seq<char>> = Seq::empty();
        match self.region_bag_mut(region_name) {
            Some(bag) => {
                let order = grant_refund(bag, &back);
                proof {
                    ord = order@;
                }
            },
            None => {},
        }
        let ghost granted_state = *self;
        self.manual_work_state.queue = Vec::new();
        self.manual_work_state.is_paused = false;
        proof {
            assert(self.regions == granted_state.regions);
            if bag_ready(*old(self), region_name@) {
                assert(refund_granted_in(ord, *old(self), *self, region_name@, back@));
            }
        }
        (back, lost)
    }

    /// Advances the queue at tick `now`: when the head unit is done and
    /// the region exists, grants its recipe's outcomes to the bag (when
    /// there is one), drops the unit, starts the next one at `now` and
    /// returns 1; otherwise changes nothing and returns 0.
    pub fn tick_manual_work_at(&mut self, table: &FactoryTable, region_name: &str, now: Tick) -> (r: usize)
        requires
            head_done(*old(self), table.manual_crafts@, now) && bag_ready(*old(self), region_name@) ==> grant_all_fits(
                bag_view(region_bag(*old(self), region_name@)),
                outcome_grants(table.manual_crafts@[old(self).manual_work_state.queue@[0].recipe_id@].outcomes@),
            ),
        ensures
            !(head_done(*old(self), table.manual_crafts@, now) && old(self).regions@.contains_key(region_name@)) ==> r == 0
                && *final(self) == *old(self),
            head_done(*old(self), table.manual_crafts@, now) && old(self).regions@.contains_key(region_name@) ==> {
                &&& r == 1
                &&& queue_advanced(old(self).manual_work_state.queue@, final(self).manual_work_state.queue@, now)
                &&& final(self).manual_work_state.is_paused == old(self).manual_work_state.is_paused
                &&& final(self).quickbars == old(self).quickbars
                &&& !bag_ready(*old(self), region_name@) ==> final(self).regions == old(self).regions
                &&& bag_ready(*old(self), region_name@) ==> regions_bag_changed(
                    old(self).regions@,
                    final(self).regions@,
                    region_name@,
                    bag_view(region_bag(*final(self), region_name@)),
                ) && granted_all(
                    bag_view(region_bag(*old(self), region_name@)),
                    bag_view(region_bag(*final(self), region_name@)),
                    outcome_grants(table.manual_crafts@[old(self).manual_work_state.queue@[0].recipe_id@].outcomes@),
                )
            },
    {
        if self.manual_work_state.is_paused || self.manual_work_state.queue.len() == 0 {
            return 0;
        }
        let recipe = match table.manual_crafts.get(self.manual_work_state.queue[0].recipe_id.as_str()) {
            Some(rc) => rc,
            None => return 0,
        };
        let elapsed = elapsed_between(now, self.manual_work_state.queue[0].start_tick);
        if elapsed < recipe.total_progress {
            return 0;
        }
        if !self.regions.contains_key(region_name) {
            return 0;
        }
        let ghost q0 = self.manual_work_state.queue@;
        match self.region_bag_mut(region_name) {
            Some(bag) => {
                grant_outcomes(bag, &recipe.outcomes);
            },
            None => {},
        }
        let ghost granted_state = *self;
        let _ = self.manual_work_state.queue.remove(0);
        if self.manual_work_state.queue.len() > 0 {
            let head = &mut self.manual_work_state.queue[0];
            head.start_tick = now;
        }
        proof {
            assert(self.regions == granted_state.regions);
        }
        1
    }

    /// Advances the queue on the system clock (see `tick_manual_work_at`).
    pub fn tick_manual_work(&mut self, table: &FactoryTable, region_name: &str) -> (r: usize)
        requires
            !old(self).manual_work_state.is_paused && old(self).manual_work_state.queue@.len() > 0
                && table.manual_crafts@.contains_key(old(self).manual_work_state.queue@[0].recipe_id@)
                && bag_ready(*old(self), region_name@) ==> grant_all_fits(
                bag_view(region_bag(*old(self), region_name@)),
                outcome_grants(table.manual_crafts@[old(self).manual_work_state.queue@[0].recipe_id@].outcomes@),
            ),
        ensures
            r <= 1,
            r == 0 ==> *final(self) == *old(self),
            r == 1 ==> exists|now: Tick| {
                &&& head_done(*old(self), table.manual_crafts@, now)
                &&& #[trigger] queue_advanced(old(self).manual_work_state.queue@, final(self).manual_work_state.queue@, now)
            },
            r == 1 ==> old(self).regions@.contains_key(region_name@),
            r == 1 && bag_ready(*old(self), region_name@) ==> granted_all(
                bag_view(region_bag(*old(self), region_name@)),
                bag_view(region_bag(*final(self), region_name@)),
                outcome_grants(table.manual_crafts@[old(self).manual_work_state.queue@[0].recipe_id@].outcomes@),
            ),
            !old(self).manual_work_state.is_paused && old(self).manual_work_state.queue@.len() > 0
                && table.manual_crafts@.contains_key(old(self).manual_work_state.queue@[0].recipe_id@)
                && table.manual_crafts@[old(self).manual_work_state.queue@[0].recipe_id@].total_progress == 0
                && old(self).regions@.contains_key(region_name@) ==> r == 1,
    {
        let now = current_tick();
        self.tick_manual_work_at(table, region_name, now)
    }

    /// Pauses the queue.
    pub fn manual_work_pause(&mut self)
        ensures
            final(self).manual_work_state.is_paused,
            final(self).manual_work_state.queue == old(self).manual_work_state.queue,
            final(self).regions == old(self).regions,
            final(self).quickbars == old(self).quickbars,
    {
        self.manual_work_state.is_paused = true;
    }

    /// Resumes a paused queue; its head unit restarts at tick `now`.
    pub fn manual_work_resume_at(&mut self, now: Tick)
        ensures
            !final(self).manual_work_state.is_paused,
            !old(self).manual_work_state.is_paused ==> final(self).manual_work_state == old(self).manual_work_state,
            old(self).manual_work_state.is_paused && old(self).manual_work_state.queue@.len() > 0 ==> final(self).manual_work_state.queue@ == restarted_head(old(self).manual_work_state.queue@, now),
            old(self).manual_work_state.is_paused && old(self).manual_work_state.queue@.len() == 0 ==> final(self).manual_work_state.queue == old(self).manual_work_state.queue,
            final(self).regions == old(self).regions,
            final(self).quickbars == old(self).quickbars,
    {
        if self.manual_work_state.is_paused {
            if self.manual_work_state.queue.len() > 0 {
                let head = &mut self.manual_work_state.queue[0];
                head.start_tick = now;
            }
            self.manual_work_state.is_paused = false;
        }
    }

    /// Resumes a paused queue on the system clock.
    pub fn manual_work_resume(&mut self)
        ensures
            !final(self).manual_work_state.is_paused,
            !old(self).manual_work_state.is_paused ==> final(self).manual_work_state == old(self).manual_work_state,
            old(self).manual_work_state.is_paused && old(self).manual_work_state.queue@.len() > 0 ==> exists|now: Tick|
                final(self).manual_work_state.queue@ == #[trigger] restarted_head(old(self).manual_work_state.queue@, now),
            old(self).manual_work_state.is_paused && old(self).manual_work_state.queue@.len() == 0 ==> final(self).manual_work_state.queue == old(self).manual_work_state.queue,
            final(self).regions == old(self).regions,
            final(self).quickbars == old(self).quickbars,
    {
        let now = current_tick();
        self.manual_work_resume_at(now);
    }
}

} // verus!
