//! Automated machines: the completion check.
//!
//! On each pass every running producer is checked: once its elapsed ticks
//! times the machine speed reach the recipe's progress, one item of each
//! ingredient group is taken from the node's caches, the outcomes are put
//! into them, the producer restarts and the region's production totals
//! grow. A machine whose caches lack an ingredient pauses.
use vstd::prelude::*;

use super::component::{CacheState, FactoryComponent, ItemSlot, ProducerState, slots_view};
use super::node::{FactoryNode, first_component_index, lemma_first_component_index, find_component_index};
use super::region::FactoryRegion;
use super::slots::SlotView;
use super::table::{FactoryTable, ItemCount, MachineCraft};
use super::tick::{Tick, current_tick, elapsed_between, sat_mul_u64, spec_elapsed};
use crate::util::{lemma_set_sum_empty, lemma_set_sum_insert, lemma_set_sum_remove, map_keys, set_sum};

verus! {

/// Speed of a machine without an entry in the speed table.
pub const DEFAULT_MACHINE_SPEED: u64 = 100;

/// The slots of every component, as views; empty for non-caches.
pub open spec fn cache_views(comps: Seq<(u32, FactoryComponent)>) -> Seq<Seq<SlotView>> {
    comps.map_values(
        |c: (u32, FactoryComponent)|
            match c.1 {
                FactoryComponent::Cache(st) => slots_view(st.items@),
                _ => Seq::empty(),
            },
    )
}

/// Item counts as (id, count) pairs.
pub open spec fn count_views(items: Seq<ItemCount>) -> Seq<(Seq<char>, u32)> {
    items.map_values(|i: ItemCount| (i.id@, i.count))
}

/// Index of the first of `items`, from `ii` on, that `slot` covers: same
/// item, at least the count.
pub open spec fn item_hit(slot: SlotView, items: Seq<(Seq<char>, u32)>, ii: int) -> Option<int>
    decreases items.len() - ii,
{
    if ii < 0 || ii >= items.len() {
        None
    } else if slot.0 == items[ii].0 && slot.1 >= items[ii].1 {
        Some(ii)
    } else {
        item_hit(slot, items, ii + 1)
    }
}

/// The first slot, from `si` on, covering one of `items`, with that item.
pub open spec fn slot_hit(slots: Seq<SlotView>, items: Seq<(Seq<char>, u32)>, si: int) -> Option<(int, int)>
    decreases slots.len() - si,
{
    if si < 0 || si >= slots.len() {
        None
    } else {
        match item_hit(slots[si], items, 0) {
            Some(ii) => Some((si, ii)),
            None => slot_hit(slots, items, si + 1),
        }
    }
}

/// The first cache, from `ci` on, with a slot covering one of `items`:
/// (cache, slot, item).
pub open spec fn cache_hit(comps: Seq<(u32, FactoryComponent)>, cs: Seq<Seq<SlotView>>, items: Seq<(Seq<char>, u32)>, ci: int) -> Option<(int, int, int)>
    decreases comps.len() - ci,
{
    if ci < 0 || ci >= comps.len() {
        None
    } else if comps[ci].1 is Cache {
        match slot_hit(cs[ci], items, 0) {
            Some((si, ii)) => Some((ci, si, ii)),
            None => cache_hit(comps, cs, items, ci + 1),
        }
    } else {
        cache_hit(comps, cs, items, ci + 1)
    }
}

/// The caches after taking the item of hit `h`.
pub open spec fn take_hit(cs: Seq<Seq<SlotView>>, h: (int, int, int), items: Seq<(Seq<char>, u32)>) -> Seq<Seq<SlotView>> {
    let s = cs[h.0][h.1];
    cs.update(h.0, cs[h.0].update(h.1, (s.0, (s.1 - items[h.2].1) as u32, s.2)))
}

/// Every ingredient group has an item some cache covers.
pub open spec fn groups_available(comps: Seq<(u32, FactoryComponent)>, cs: Seq<Seq<SlotView>>, groups: Seq<Seq<(Seq<char>, u32)>>) -> bool {
    forall|g: int| 0 <= g < groups.len() ==> #[trigger] cache_hit(comps, cs, groups[g], 0) is Some
}

/// The caches after taking one item of each group in turn, and whether
/// every group found one (taking stops at the first that did not).
pub open spec fn take_groups(comps: Seq<(u32, FactoryComponent)>, cs: Seq<Seq<SlotView>>, groups: Seq<Seq<(Seq<char>, u32)>>) -> (Seq<Seq<SlotView>>, bool)
    decreases groups.len(),
{
    if groups.len() == 0 {
        (cs, true)
    } else {
        let (cs1, ok) = take_groups(comps, cs, groups.drop_last());
        if !ok {
            (cs1, false)
        } else {
            match cache_hit(comps, cs1, groups.last(), 0) {
                Some(h) => (take_hit(cs1, h, groups.last()), true),
                None => (cs1, false),
            }
        }
    }
}

/// The ingredient groups of a recipe, as views.
pub open spec fn group_views(groups: Seq<Vec<ItemCount>>) -> Seq<Seq<(Seq<char>, u32)>> {
    groups.map_values(|g: Vec<ItemCount>| count_views(g@))
}

/// Every item of every outcome group, in order.
pub open spec fn flat_outcomes(groups: Seq<Vec<ItemCount>>) -> Seq<(Seq<char>, u32)>
    decreases groups.len(),
{
    if groups.len() == 0 {
        Seq::empty()
    } else {
        flat_outcomes(groups.drop_last()) + count_views(groups.last()@)
    }
}

/// The first slot, from `si` on, holding some of item `id`.
pub open spec fn stack_hit(slots: Seq<SlotView>, id: Seq<char>, si: int) -> Option<int>
    decreases slots.len() - si,
{
    if si < 0 || si >= slots.len() {
        None
    } else if slots[si].0 == id && slots[si].1 > 0 {
        Some(si)
    } else {
        stack_hit(slots, id, si + 1)
    }
}

/// The first cache, from `ci` on, with a slot holding some of `id`:
/// (cache, slot).
pub open spec fn cache_stack(comps: Seq<(u32, FactoryComponent)>, cs: Seq<Seq<SlotView>>, id: Seq<char>, ci: int) -> Option<(int, int)>
    decreases comps.len() - ci,
{
    if ci < 0 || ci >= comps.len() {
        None
    } else if comps[ci].1 is Cache && stack_hit(cs[ci], id, 0) is Some {
        Some((ci, stack_hit(cs[ci], id, 0)->0))
    } else {
        cache_stack(comps, cs, id, ci + 1)
    }
}

/// The first cache from `ci` on.
pub open spec fn first_cache(comps: Seq<(u32, FactoryComponent)>, ci: int) -> Option<int>
    decreases comps.len() - ci,
{
    if ci < 0 || ci >= comps.len() {
        None
    } else if comps[ci].1 is Cache {
        Some(ci)
    } else {
        first_cache(comps, ci + 1)
    }
}

/// The caches after putting one outcome: onto the first stack of that
/// item, else as a new slot of the first cache, else nowhere.
pub open spec fn put_outcome(comps: Seq<(u32, FactoryComponent)>, cs: Seq<Seq<SlotView>>, item: (Seq<char>, u32)) -> Seq<Seq<SlotView>> {
    match cache_stack(comps, cs, item.0, 0) {
        Some((ci, si)) => cs.update(ci, cs[ci].update(si, (cs[ci][si].0, (cs[ci][si].1 + item.1) as u32, cs[ci][si].2))),
        None => match first_cache(comps, 0) {
            Some(ci) => cs.update(ci, cs[ci].push((item.0, item.1, 0u32))),
            None => cs,
        },
    }
}

/// Putting `item` keeps the stack it lands on within `u32`.
pub open spec fn put_fits(comps: Seq<(u32, FactoryComponent)>, cs: Seq<Seq<SlotView>>, item: (Seq<char>, u32)) -> bool {
    cache_stack(comps, cs, item.0, 0) matches Some((ci, si)) ==> cs[ci][si].1 + item.1 <= u32::MAX
}

/// The caches after putting each outcome in turn.
pub open spec fn put_outcomes(comps: Seq<(u32, FactoryComponent)>, cs: Seq<Seq<SlotView>>, outs: Seq<(Seq<char>, u32)>) -> Seq<Seq<SlotView>>
    decreases outs.len(),
{
    if outs.len() == 0 {
        cs
    } else {
        put_outcome(comps, put_outcomes(comps, cs, outs.drop_last()), outs.last())
    }
}

/// Putting each outcome in turn keeps every stack within `u32`.
pub open spec fn put_outcomes_fit(comps: Seq<(u32, FactoryComponent)>, cs: Seq<Seq<SlotView>>, outs: Seq<(Seq<char>, u32)>) -> bool {
    forall|j: int| 0 <= j < outs.len() ==> put_fits(comps, #[trigger] put_outcomes(comps, cs, outs.subrange(0, j)), outs[j])
}

/// `c2` is `c1` with only cache slots changed.
pub open spec fn shaped(c1: Seq<(u32, FactoryComponent)>, c2: Seq<(u32, FactoryComponent)>) -> bool {
    &&& c2.len() == c1.len()
    &&& forall|j: int| 0 <= j < c1.len() ==> #[trigger] c2[j].0 == c1[j].0
    &&& forall|j: int|
        0 <= j < c1.len() ==> match (#[trigger] c1[j]).1 {
            FactoryComponent::Cache(a) => c2[j].1 matches FactoryComponent::Cache(b) && b.ports == a.ports,
            _ => c2[j].1 == c1[j].1,
        }
}

proof fn lemma_shaped_trans(a: Seq<(u32, FactoryComponent)>, b: Seq<(u32, FactoryComponent)>, c: Seq<(u32, FactoryComponent)>)
    requires
        shaped(a, b),
        shaped(b, c),
    ensures
        shaped(a, c),
{
    assert forall|j: int| 0 <= j < a.len() implies match (#[trigger] a[j]).1 {
        FactoryComponent::Cache(x) => c[j].1 matches FactoryComponent::Cache(z) && z.ports == x.ports,
        _ => c[j].1 == a[j].1,
    } by {
        assert(b[j].0 == a[j].0);
        match a[j].1 {
            FactoryComponent::Cache(x) => {
                assert(b[j].1 is Cache);
            },
            _ => {},
        }
    }
    assert forall|j: int| 0 <= j < a.len() implies #[trigger] c[j].0 == a[j].0 by {
        assert(b[j].0 == a[j].0);
    }
}

proof fn lemma_shaped_refl(a: Seq<(u32, FactoryComponent)>)
    ensures
        shaped(a, a),
{
}

/// Cache masks agree between shaped component lists.
proof fn lemma_shaped_masks(c1: Seq<(u32, FactoryComponent)>, c2: Seq<(u32, FactoryComponent)>)
    requires
        shaped(c1, c2),
    ensures
        forall|j: int| 0 <= j < c1.len() ==> (#[trigger] c2[j].1 is Cache) == (c1[j].1 is Cache),
{
    assert forall|j: int| 0 <= j < c1.len() implies (#[trigger] c2[j].1 is Cache) == (c1[j].1 is Cache) by {
        match c1[j].1 {
            FactoryComponent::Cache(_) => {},
            _ => {},
        }
    }
}

proof fn lemma_item_hit(slot: SlotView, items: Seq<(Seq<char>, u32)>, ii: int)
    requires
        0 <= ii,
    ensures
        item_hit(slot, items, ii) matches Some(i) ==> ii <= i < items.len() && slot.0 == items[i].0 && slot.1 >= items[i].1,
    decreases items.len() - ii,
{
    if ii < items.len() && !(slot.0 == items[ii].0 && slot.1 >= items[ii].1) {
        lemma_item_hit(slot, items, ii + 1);
    }
}

proof fn lemma_slot_hit(slots: Seq<SlotView>, items: Seq<(Seq<char>, u32)>, si: int)
    requires
        0 <= si,
    ensures
        slot_hit(slots, items, si) matches Some((a, b)) ==> si <= a < slots.len() && 0 <= b < items.len() && slots[a].0
            == items[b].0 && slots[a].1 >= items[b].1,
    decreases slots.len() - si,
{
    if si < slots.len() {
        lemma_item_hit(slots[si], items, 0);
        if item_hit(slots[si], items, 0) is None {
            lemma_slot_hit(slots, items, si + 1);
        }
    }
}

proof fn lemma_cache_hit(comps: Seq<(u32, FactoryComponent)>, cs: Seq<Seq<SlotView>>, items: Seq<(Seq<char>, u32)>, ci: int)
    requires
        0 <= ci,
    ensures
        cache_hit(comps, cs, items, ci) matches Some((a, b, c)) ==> ci <= a < comps.len() && comps[a].1 is Cache && 0 <= b
            < cs[a].len() && 0 <= c < items.len() && cs[a][b].0 == items[c].0 && cs[a][b].1 >= items[c].1,
    decreases comps.len() - ci,
{
    if ci < comps.len() {
        if comps[ci].1 is Cache {
            lemma_slot_hit(cs[ci], items, 0);
            if slot_hit(cs[ci], items, 0) is None {
                lemma_cache_hit(comps, cs, items, ci + 1);
            }
        } else {
            lemma_cache_hit(comps, cs, items, ci + 1);
        }
    }
}

/// Index of the first of `items` that `slot` covers.
fn find_item_hit(slot: &ItemSlot, items: &Vec<ItemCount>) -> (r: Option<usize>)
    ensures
        r matches Some(i) ==> item_hit(slot@, count_views(items@), 0) == Some(i as int),
        r is None ==> item_hit(slot@, count_views(items@), 0) is None,
{
    let ghost iv = count_views(items@);
    let mut i: usize = 0;
    while i < items.len()
        invariant
            0 <= i <= items@.len(),
            iv == count_views(items@),
            item_hit(slot@, iv, 0) == item_hit(slot@, iv, i as int),
        decreases items@.len() - i,
    {
        if slot.item_id == items[i].id && slot.count >= items[i].count {
            return Some(i);
        }
        i += 1;
    }
    None
}

/// The first slot covering one of `items`, with the item.
fn find_slot_hit(slots: &Vec<ItemSlot>, items: &Vec<ItemCount>) -> (r: Option<(usize, usize)>)
    ensures
        r matches Some((si, ii)) ==> slot_hit(slots_view(slots@), count_views(items@), 0) == Some((si as int, ii as int)),
        r is None ==> slot_hit(slots_view(slots@), count_views(items@), 0) is None,
{
    let ghost sv = slots_view(slots@);
    let ghost iv = count_views(items@);
    let mut i: usize = 0;
    while i < slots.len()
        invariant
            0 <= i <= slots@.len(),
            sv == slots_view(slots@),
            iv == count_views(items@),
            slot_hit(sv, iv, 0) == slot_hit(sv, iv, i as int),
        decreases slots@.len() - i,
    {
        proof {
            assert(sv[i as int] == slots@[i as int]@);
        }
        match find_item_hit(&slots[i], items) {
            Some(ii) => {
                return Some((i, ii));
            },
            None => {},
        }
        i += 1;
    }
    None
}

/// The first cache with a slot covering one of `items` (see `cache_hit`).
fn find_cache_hit(comps: &Vec<(u32, FactoryComponent)>, items: &Vec<ItemCount>) -> (r: Option<(usize, usize, usize)>)
    ensures
        r matches Some((ci, si, ii)) ==> cache_hit(comps@, cache_views(comps@), count_views(items@), 0) == Some(
            (ci as int, si as int, ii as int),
        ),
        r is None ==> cache_hit(comps@, cache_views(comps@), count_views(items@), 0) is None,
{
    let ghost cs = cache_views(comps@);
    let ghost iv = count_views(items@);
    let mut i: usize = 0;
    while i < comps.len()
        invariant
            0 <= i <= comps@.len(),
            cs == cache_views(comps@),
            iv == count_views(items@),
            cache_hit(comps@, cs, iv, 0) == cache_hit(comps@, cs, iv, i as int),
        decreases comps@.len() - i,
    {
        match &comps[i].1 {
            FactoryComponent::Cache(st) => {
                proof {
                    assert(cs[i as int] == slots_view(st.items@));
                }
                match find_slot_hit(&st.items, items) {
                    Some((si, ii)) => {
                        return Some((i, si, ii));
                    },
                    None => {},
                }
            },
            _ => {},
        }
        i += 1;
    }
    None
}

/// Takes one item of `items` from the first cache slot covering one.
fn take_ingredient(comps: &mut Vec<(u32, FactoryComponent)>, items: &Vec<ItemCount>) -> (r: bool)
    ensures
        shaped(old(comps)@, final(comps)@),
        match cache_hit(old(comps)@, cache_views(old(comps)@), count_views(items@), 0) {
            Some(h) => r && cache_views(final(comps)@) == take_hit(cache_views(old(comps)@), h, count_views(items@)),
            None => !r && final(comps)@ == old(comps)@,
        },
{
    let ghost c0 = comps@;
    let ghost cs = cache_views(comps@);
    let ghost iv = count_views(items@);
    proof {
        lemma_cache_hit(c0, cs, iv, 0);
    }
    match find_cache_hit(comps, items) {
        Some((ci, si, ii)) => {
            let need = items[ii].count;
            let ghost h = (ci as int, si as int, ii as int);
            proof {
                assert(iv[ii as int] == (items@[ii as int].id@, need));
            }
            let entry = &mut comps[ci];
            match &mut entry.1 {
                FactoryComponent::Cache(st) => {
                    proof {
                        assert(cs[ci as int] == slots_view(st.items@));
                        assert(cs[ci as int][si as int] == st.items@[si as int]@);
                    }
                    let have = st.items[si].count;
                    st.items[si].count = have - need;
                    proof {
                        assert(slots_view(st.items@) =~= cs[ci as int].update(
                            si as int,
                            (cs[ci as int][si as int].0, (cs[ci as int][si as int].1 - iv[ii as int].1) as u32, cs[ci as int][si as int].2),
                        ));
                    }
                },
                _ => {},
            }
            proof {
                assert(comps@[ci as int].1 is Cache);
                assert forall|j: int| 0 <= j < comps@.len() implies #[trigger] cache_views(comps@)[j] == take_hit(cs, h, iv)[j] by {
                    if j != ci {
                        assert(comps@[j] == c0[j]);
                    }
                }
                assert(cache_views(comps@) =~= take_hit(cs, h, iv));
                assert(shaped(c0, comps@));
            }
            true
        },
        None => false,
    }
}

proof fn lemma_cache_hit_mask(
    c1: Seq<(u32, FactoryComponent)>,
    c2: Seq<(u32, FactoryComponent)>,
    cs: Seq<Seq<SlotView>>,
    items: Seq<(Seq<char>, u32)>,
    ci: int,
)
    requires
        c1.len() == c2.len(),
        forall|j: int| 0 <= j < c1.len() ==> (#[trigger] c2[j].1 is Cache) == (c1[j].1 is Cache),
    ensures
        cache_hit(c2, cs, items, ci) == cache_hit(c1, cs, items, ci),
    decreases c1.len() - ci,
{
    if 0 <= ci < c1.len() {
        assert((c2[ci].1 is Cache) == (c1[ci].1 is Cache));
        lemma_cache_hit_mask(c1, c2, cs, items, ci + 1);
    }
}

proof fn lemma_cache_stack_mask(
    c1: Seq<(u32, FactoryComponent)>,
    c2: Seq<(u32, FactoryComponent)>,
    cs: Seq<Seq<SlotView>>,
    id: Seq<char>,
    ci: int,
)
    requires
        c1.len() == c2.len(),
        forall|j: int| 0 <= j < c1.len() ==> (#[trigger] c2[j].1 is Cache) == (c1[j].1 is Cache),
    ensures
        cache_stack(c2, cs, id, ci) == cache_stack(c1, cs, id, ci),
        first_cache(c2, ci) == first_cache(c1, ci),
    decreases c1.len() - ci,
{
    if 0 <= ci < c1.len() {
        assert((c2[ci].1 is Cache) == (c1[ci].1 is Cache));
        lemma_cache_stack_mask(c1, c2, cs, id, ci + 1);
    }
}

/// Takes one item of each ingredient group, after checking that every
/// group has one (see `groups_available`, `take_groups`).
fn consume_ingredients(comps: &mut Vec<(u32, FactoryComponent)>, groups: &Vec<Vec<ItemCount>>) -> (r: bool)
    ensures
        shaped(old(comps)@, final(comps)@),
        !groups_available(old(comps)@, cache_views(old(comps)@), group_views(groups@)) ==> !r && final(comps)@ == old(comps)@,
        groups_available(old(comps)@, cache_views(old(comps)@), group_views(groups@)) ==> ({
            let t = take_groups(old(comps)@, cache_views(old(comps)@), group_views(groups@));
            r == t.1 && cache_views(final(comps)@) == t.0
        }),
{
    let ghost c0 = comps@;
    let ghost cs0 = cache_views(comps@);
    let ghost gv = group_views(groups@);
    let mut g: usize = 0;
    while g < groups.len()
        invariant
            0 <= g <= groups@.len(),
            comps@ == c0,
            c0 == old(comps)@,
            cs0 == cache_views(c0),
            gv == group_views(groups@),
            forall|j: int| 0 <= j < g ==> #[trigger] cache_hit(c0, cs0, gv[j], 0) is Some,
        decreases groups@.len() - g,
    {
        proof {
            assert(gv[g as int] == count_views(groups@[g as int]@));
        }
        if find_cache_hit(comps, &groups[g]).is_none() {
            return false;
        }
        g += 1;
    }
    proof {
        assert(gv.subrange(0, 0) =~= Seq::<Seq<(Seq<char>, u32)>>::empty());
        lemma_shaped_refl(c0);
    }
    let mut g: usize = 0;
    while g < groups.len()
        invariant
            0 <= g <= groups@.len(),
            c0 == old(comps)@,
            cs0 == cache_views(c0),
            gv == group_views(groups@),
            groups_available(c0, cs0, gv),
            shaped(c0, comps@),
            take_groups(c0, cs0, gv.subrange(0, g as int)).1,
            cache_views(comps@) == take_groups(c0, cs0, gv.subrange(0, g as int)).0,
        decreases groups@.len() - g,
    {
        let ghost before = comps@;
        proof {
            assert(gv[g as int] == count_views(groups@[g as int]@));
            assert(gv.subrange(0, g + 1).drop_last() =~= gv.subrange(0, g as int));
            lemma_shaped_masks(c0, before);
            lemma_cache_hit_mask(c0, before, cache_views(before), gv[g as int], 0);
        }
        let ok = take_ingredient(comps, &groups[g]);
        proof {
            lemma_shaped_trans(c0, before, comps@);
        }
        if !ok {
            proof {
                assert(gv.subrange(0, g as int).push(gv[g as int]) =~= gv.subrange(0, g + 1));
                lemma_take_groups_stop(c0, cs0, gv, g as int);
            }
            return false;
        }
        g += 1;
    }
    proof {
        assert(gv.subrange(0, groups@.len() as int) =~= gv);
    }
    true
}

/// Taking stops for good at a group that found nothing.
proof fn lemma_take_groups_stop(c0: Seq<(u32, FactoryComponent)>, cs0: Seq<Seq<SlotView>>, gv: Seq<Seq<(Seq<char>, u32)>>, g: int)
    requires
        0 <= g < gv.len(),
        !take_groups(c0, cs0, gv.subrange(0, g + 1)).1,
    ensures
        take_groups(c0, cs0, gv) == take_groups(c0, cs0, gv.subrange(0, g + 1)),
    decreases gv.len() - g,
{
    if g + 1 < gv.len() {
        assert(gv.subrange(0, g + 2).drop_last() =~= gv.subrange(0, g + 1));
        lemma_take_groups_stop(c0, cs0, gv, g + 1);
    } else {
        assert(gv.subrange(0, g + 1) =~= gv);
    }
}

proof fn lemma_stack_hit(slots: Seq<SlotView>, id: Seq<char>, si: int)
    requires
        0 <= si,
    ensures
        stack_hit(slots, id, si) matches Some(a) ==> si <= a < slots.len() && slots[a].0 == id,
    decreases slots.len() - si,
{
    if si < slots.len() && !(slots[si].0 == id && slots[si].1 > 0) {
        lemma_stack_hit(slots, id, si + 1);
    }
}

proof fn lemma_cache_stack(comps: Seq<(u32, FactoryComponent)>, cs: Seq<Seq<SlotView>>, id: Seq<char>, ci: int)
    requires
        0 <= ci,
    ensures
        cache_stack(comps, cs, id, ci) matches Some((a, b)) ==> ci <= a < comps.len() && comps[a].1 is Cache && 0 <= b
            < cs[a].len(),
        first_cache(comps, ci) matches Some(a) ==> ci <= a < comps.len() && comps[a].1 is Cache,
    decreases comps.len() - ci,
{
    if ci < comps.len() {
        if comps[ci].1 is Cache {
            lemma_stack_hit(cs[ci], id, 0);
        }
        lemma_cache_stack(comps, cs, id, ci + 1);
    }
}

/// The first cache slot holding some of `id` (see `cache_stack`).
fn find_cache_stack(comps: &Vec<(u32, FactoryComponent)>, id: &String) -> (r: Option<(usize, usize)>)
    ensures
        r matches Some((a, b)) ==> cache_stack(comps@, cache_views(comps@), id@, 0) == Some((a as int, b as int)),
        r is None ==> cache_stack(comps@, cache_views(comps@), id@, 0) is None,
{
    let ghost cs = cache_views(comps@);
    let mut i: usize = 0;
    while i < comps.len()
        invariant
            0 <= i <= comps@.len(),
            cs == cache_views(comps@),
            cache_stack(comps@, cs, id@, 0) == cache_stack(comps@, cs, id@, i as int),
        decreases comps@.len() - i,
    {
        match &comps[i].1 {
            FactoryComponent::Cache(st) => {
                let ghost sv = slots_view(st.items@);
                proof {
                    assert(cs[i as int] == sv);
                }
                let mut j: usize = 0;
                while j < st.items.len()
                    invariant
                        0 <= j <= st.items@.len(),
                        0 <= i < comps@.len(),
                        comps@[i as int].1 is Cache,
                        cs == cache_views(comps@),
                        cs[i as int] == sv,
                        cache_stack(comps@, cs, id@, 0) == cache_stack(comps@, cs, id@, i as int),
                        sv == slots_view(st.items@),
                        stack_hit(sv, id@, 0) == stack_hit(sv, id@, j as int),
                    decreases st.items@.len() - j,
                {
                    if st.items[j].item_id == *id && st.items[j].count > 0 {
                        return Some((i, j));
                    }
                    j += 1;
                }
            },
            _ => {},
        }
        i += 1;
    }
    None
}

/// The first cache (see `first_cache`).
fn find_first_cache(comps: &Vec<(u32, FactoryComponent)>) -> (r: Option<usize>)
    ensures
        r matches Some(a) ==> first_cache(comps@, 0) == Some(a as int),
        r is None ==> first_cache(comps@, 0) is None,
{
    let mut i: usize = 0;
    while i < comps.len()
        invariant
            0 <= i <= comps@.len(),
            first_cache(comps@, 0) == first_cache(comps@, i as int),
        decreases comps@.len() - i,
    {
        if let FactoryComponent::Cache(_) = &comps[i].1 {
            return Some(i);
        }
        i += 1;
    }
    None
}

/// Puts one outcome into the caches (see `put_outcome`).
fn put_one_outcome(comps: &mut Vec<(u32, FactoryComponent)>, item: &ItemCount)
    requires
        put_fits(old(comps)@, cache_views(old(comps)@), (item.id@, item.count)),
    ensures
        shaped(old(comps)@, final(comps)@),
        cache_views(final(comps)@) == put_outcome(old(comps)@, cache_views(old(comps)@), (item.id@, item.count)),
{
    let ghost c0 = comps@;
    let ghost cs = cache_views(comps@);
    let ghost it = (item.id@, item.count);
    proof {
        lemma_cache_stack(c0, cs, item.id@, 0);
    }
    match find_cache_stack(comps, &item.id) {
        Some((ci, si)) => {
            let entry = &mut comps[ci];
            match &mut entry.1 {
                FactoryComponent::Cache(st) => {
                    proof {
                        assert(cs[ci as int] == slots_view(st.items@));
                    }
                    let have = st.items[si].count;
                    st.items[si].count = have + item.count;
                    proof {
                        assert(slots_view(st.items@) =~= cs[ci as int].update(
                            si as int,
                            (cs[ci as int][si as int].0, (cs[ci as int][si as int].1 + item.count) as u32, cs[ci as int][si as int].2),
                        ));
                    }
                },
                _ => {},
            }
            proof {
                assert forall|j: int| 0 <= j < comps@.len() implies #[trigger] cache_views(comps@)[j] == put_outcome(c0, cs, it)[j] by {
                    if j != ci {
                        assert(comps@[j] == c0[j]);
                    }
                }
                assert(cache_views(comps@) =~= put_outcome(c0, cs, it));
            }
        },
        None => {
            match find_first_cache(comps) {
                Some(ci) => {
                    let entry = &mut comps[ci];
                    match &mut entry.1 {
                        FactoryComponent::Cache(st) => {
                            proof {
                                assert(cs[ci as int] == slots_view(st.items@));
                            }
                            st.items.push(ItemSlot { item_id: item.id.clone(), count: item.count, inst_id: 0 });
                            proof {
                                assert(slots_view(st.items@) =~= cs[ci as int].push((item.id@, item.count, 0u32)));
                            }
                        },
                        _ => {},
                    }
                    proof {
                        assert forall|j: int| 0 <= j < comps@.len() implies #[trigger] cache_views(comps@)[j] == put_outcome(c0, cs, it)[j] by {
                            if j != ci {
                                assert(comps@[j] == c0[j]);
                            }
                        }
                        assert(cache_views(comps@) =~= put_outcome(c0, cs, it));
                    }
                },
                None => {
                    proof {
                        assert(put_outcome(c0, cs, it) == cs);
                    }
                },
            }
        },
    }
}

/// Puts every outcome of every group into the caches, in order (see
/// `put_outcomes`).
#[verifier::rlimit(60)]
fn produce_outcomes(comps: &mut Vec<(u32, FactoryComponent)>, groups: &Vec<Vec<ItemCount>>)
    requires
        put_outcomes_fit(old(comps)@, cache_views(old(comps)@), flat_outcomes(groups@)),
    ensures
        shaped(old(comps)@, final(comps)@),
        cache_views(final(comps)@) == put_outcomes(old(comps)@, cache_views(old(comps)@), flat_outcomes(groups@)),
{
    let ghost c0 = comps@;
    let ghost cs0 = cache_views(comps@);
    let ghost all = flat_outcomes(groups@);
    proof {
        lemma_shaped_refl(c0);
        lemma_flat_prefix(groups@, groups@.len() as int);
    }
    let mut g: usize = 0;
    while g < groups.len()
        invariant
            0 <= g <= groups@.len(),
            c0 == old(comps)@,
            cs0 == cache_views(c0),
            all == flat_outcomes(groups@),
            put_outcomes_fit(c0, cs0, all),
            shaped(c0, comps@),
            flat_outcomes(groups@.subrange(0, g as int)).len() <= all.len(),
            all.subrange(0, flat_outcomes(groups@.subrange(0, g as int)).len() as int) == flat_outcomes(groups@.subrange(0, g as int)),
            cache_views(comps@) == put_outcomes(c0, cs0, flat_outcomes(groups@.subrange(0, g as int))),
        decreases groups@.len() - g,
    {
        let items = &groups[g];
        let ghost pre = flat_outcomes(groups@.subrange(0, g as int));
        proof {
            assert(groups@.subrange(0, g + 1).drop_last() =~= groups@.subrange(0, g as int));
            lemma_flat_prefix(groups@, g + 1);
        }
        let mut i: usize = 0;
        proof {
            assert(pre + count_views(items@).subrange(0, 0) =~= pre);
        }
        while i < items.len()
            invariant
                0 <= i <= items@.len(),
                c0 == old(comps)@,
                cs0 == cache_views(c0),
                all == flat_outcomes(groups@),
                put_outcomes_fit(c0, cs0, all),
                shaped(c0, comps@),
                *items == groups@[g as int],
                pre == flat_outcomes(groups@.subrange(0, g as int)),
                pre + count_views(items@) == flat_outcomes(groups@.subrange(0, g + 1)),
                flat_outcomes(groups@.subrange(0, g + 1)).len() <= all.len(),
                all.subrange(0, flat_outcomes(groups@.subrange(0, g + 1)).len() as int) == flat_outcomes(groups@.subrange(0, g + 1)),
                cache_views(comps@) == put_outcomes(c0, cs0, pre + count_views(items@).subrange(0, i as int)),
            decreases items@.len() - i,
        {
            let ghost done = pre + count_views(items@).subrange(0, i as int);
            let ghost before = comps@;
            let ghost k = done.len() as int;
            proof {
                let full = flat_outcomes(groups@.subrange(0, g + 1));
                assert(full[k] == count_views(items@)[i as int]);
                assert(all[k] == full[k]);
                assert(all.subrange(0, k) =~= done) by {
                    assert forall|t: int| 0 <= t < k implies all.subrange(0, k)[t] == done[t] by {
                        assert(all[t] == full[t]);
                    }
                }
                assert(put_fits(c0, put_outcomes(c0, cs0, all.subrange(0, k)), all[k]));
                lemma_shaped_masks(c0, before);
                lemma_cache_stack_mask(c0, before, cache_views(before), items@[i as int].id@, 0);
                assert(count_views(items@)[i as int] == (items@[i as int].id@, items@[i as int].count));
            }
            put_one_outcome(comps, &items[i]);
            proof {
                lemma_shaped_trans(c0, before, comps@);
                let d2 = pre + count_views(items@).subrange(0, i + 1);
                assert(d2.drop_last() =~= done);
                assert(d2.last() == (items@[i as int].id@, items@[i as int].count));
            }
            i += 1;
        }
        proof {
            assert(count_views(items@).subrange(0, items@.len() as int) =~= count_views(items@));
        }
        g += 1;
    }
    proof {
        assert(groups@.subrange(0, groups@.len() as int) =~= groups@);
    }
}

/// The outcomes of the first `g` groups lead the outcomes of all groups.
proof fn lemma_flat_prefix(groups: Seq<Vec<ItemCount>>, g: int)
    requires
        0 <= g <= groups.len(),
    ensures
        flat_outcomes(groups.subrange(0, g)).len() <= flat_outcomes(groups).len(),
        flat_outcomes(groups).subrange(0, flat_outcomes(groups.subrange(0, g)).len() as int) == flat_outcomes(groups.subrange(0, g)),
    decreases groups.len() - g,
{
    if g == groups.len() {
        assert(groups.subrange(0, g) =~= groups);
        assert(flat_outcomes(groups).subrange(0, flat_outcomes(groups).len() as int) =~= flat_outcomes(groups));
    } else {
        lemma_flat_prefix(groups, g + 1);
        assert(groups.subrange(0, g + 1).drop_last() =~= groups.subrange(0, g));
        let a = flat_outcomes(groups.subrange(0, g));
        let b = flat_outcomes(groups.subrange(0, g + 1));
        let all = flat_outcomes(groups);
        assert(b == a + count_views(groups[g]@));
        assert(all.subrange(0, a.len() as int) =~= b.subrange(0, a.len() as int));
        assert(b.subrange(0, a.len() as int) =~= a);
    }
}

/// Index of the first running producer (one with a recipe and a start
/// tick), from `i` on.
pub open spec fn first_running(comps: Seq<(u32, FactoryComponent)>, i: int) -> Option<int>
    decreases comps.len() - i,
{
    if i < 0 || i >= comps.len() {
        None
    } else {
        match comps[i].1 {
            FactoryComponent::Producer(s) => if s.formula_id@.len() > 0 && s.start_tick is Some {
                Some(i)
            } else {
                first_running(comps, i + 1)
            },
            _ => first_running(comps, i + 1),
        }
    }
}

/// Id of the first producer component from `i` on, 0 when there is none.
pub open spec fn first_producer_id(comps: Seq<(u32, FactoryComponent)>, i: int) -> u32
    decreases comps.len() - i,
{
    if i < 0 || i >= comps.len() {
        0
    } else if comps[i].1 is Producer {
        comps[i].0
    } else {
        first_producer_id(comps, i + 1)
    }
}

/// Speed of machine template `template`.
pub open spec fn machine_speed(table: FactoryTable, template: Seq<char>) -> u64 {
    if table.machine_crafter_speeds@.contains_key(template) {
        table.machine_crafter_speeds@[template]
    } else {
        DEFAULT_MACHINE_SPEED
    }
}

/// The recipe a node completes at tick `now`: that of its first running
/// producer, when the recipe exists and its progress is reached.
pub open spec fn due_recipe(node: FactoryNode, table: FactoryTable, now: Tick) -> Option<MachineCraft> {
    match first_running(node.components@, 0) {
        None => None,
        Some(a) => match node.components@[a].1 {
            FactoryComponent::Producer(s) => if table.machine_crafts@.contains_key(s.formula_id@) && sat_mul_u64(
                spec_elapsed(now, s.start_tick->0),
                machine_speed(table, node.template_id@) as int,
            ) >= table.machine_crafts@[s.formula_id@].total_progress {
                Some(table.machine_crafts@[s.formula_id@])
            } else {
                None
            },
            _ => None,
        },
    }
}

/// A restarted producer: its recipe remembered, progress cleared,
/// running from `now`.
pub open spec fn producer_restarted(s: ProducerState, s2: ProducerState, now: Tick) -> bool {
    &&& s2.formula_id == s.formula_id
    &&& s2.last_formula_id@ == s.formula_id@
    &&& s2.current_progress == 0
    &&& s2.start_tick == Some(now)
    &&& s2.in_power == s.in_power
    &&& s2.in_block == s.in_block
    &&& s2.power_cost == s.power_cost
}

/// `c2` is `c1` with cache slots `cs` and the edited producer (the first
/// component with the first producer's id) restarted at `now` or paused.
pub open spec fn comps_after(c1: Seq<(u32, FactoryComponent)>, c2: Seq<(u32, FactoryComponent)>, cs: Seq<Seq<SlotView>>, restart: bool, now: Tick) -> bool {
    let e = first_component_index(c1, first_producer_id(c1, 0));
    &&& c2.len() == c1.len()
    &&& cache_views(c2) == cs
    &&& forall|j: int| 0 <= j < c1.len() ==> #[trigger] c2[j].0 == c1[j].0
    &&& forall|j: int|
        0 <= j < c1.len() ==> match (#[trigger] c1[j]).1 {
            FactoryComponent::Cache(a) => c2[j].1 matches FactoryComponent::Cache(b) && b.ports == a.ports,
            FactoryComponent::Producer(s) => if e == Some(j) {
                if restart {
                    c2[j].1 matches FactoryComponent::Producer(s2) && producer_restarted(s, s2, now)
                } else {
                    c2[j].1 == FactoryComponent::Producer(ProducerState { start_tick: None, ..s })
                }
            } else {
                c2[j].1 == c1[j].1
            },
            _ => c2[j].1 == c1[j].1,
        }
}

/// The ingredient check of the recipe a node completes at `now` passes.
pub open spec fn node_completes(node: FactoryNode, table: FactoryTable, now: Tick) -> bool {
    match due_recipe(node, table, now) {
        None => false,
        Some(rc) => {
            let c1 = node.components@;
            let gv = group_views(rc.ingredients@);
            groups_available(c1, cache_views(c1), gv) && take_groups(c1, cache_views(c1), gv).1
        },
    }
}

/// A node after its completion check at `now`: untouched unless a recipe
/// is due; then, when some ingredient group finds nothing, its producer
/// pauses (after the groups before were taken, when every group had
/// looked available); else the outcomes are put in the caches and the
/// producer restarts.
pub open spec fn node_ticked(old: FactoryNode, new: FactoryNode, table: FactoryTable, now: Tick) -> bool {
    match due_recipe(old, table, now) {
        None => new == old,
        Some(rc) => {
            let c1 = old.components@;
            let cs0 = cache_views(c1);
            let gv = group_views(rc.ingredients@);
            let t = take_groups(c1, cs0, gv);
            &&& new == (FactoryNode { components: new.components, ..old })
            &&& !groups_available(c1, cs0, gv) ==> comps_after(c1, new.components@, cs0, false, now)
            &&& groups_available(c1, cs0, gv) && !t.1 ==> comps_after(c1, new.components@, t.0, false, now)
            &&& groups_available(c1, cs0, gv) && t.1 ==> comps_after(
                c1,
                new.components@,
                put_outcomes(c1, t.0, flat_outcomes(rc.outcomes@)),
                true,
                now,
            )
        },
    }
}

/// The outcomes of the recipe a node completes at `now` fit its stacks.
pub open spec fn node_fits(node: FactoryNode, table: FactoryTable, now: Tick) -> bool {
    node_completes(node, table, now) ==> {
        let rc = due_recipe(node, table, now)->0;
        let c1 = node.components@;
        put_outcomes_fit(c1, take_groups(c1, cache_views(c1), group_views(rc.ingredients@)).0, flat_outcomes(rc.outcomes@))
    }
}

proof fn lemma_put_mask(c1: Seq<(u32, FactoryComponent)>, c2: Seq<(u32, FactoryComponent)>, cs: Seq<Seq<SlotView>>, outs: Seq<(Seq<char>, u32)>)
    requires
        c1.len() == c2.len(),
        forall|j: int| 0 <= j < c1.len() ==> (#[trigger] c2[j].1 is Cache) == (c1[j].1 is Cache),
    ensures
        put_outcomes(c2, cs, outs) == put_outcomes(c1, cs, outs),
        put_outcomes_fit(c1, cs, outs) ==> put_outcomes_fit(c2, cs, outs),
    decreases outs.len(),
{
    if outs.len() > 0 {
        lemma_put_mask(c1, c2, cs, outs.drop_last());
        lemma_cache_stack_mask(c1, c2, put_outcomes(c1, cs, outs.drop_last()), outs.last().0, 0);
    }
    if put_outcomes_fit(c1, cs, outs) {
        assert forall|j: int| 0 <= j < outs.len() implies put_fits(c2, #[trigger] put_outcomes(c2, cs, outs.subrange(0, j)), outs[j]) by {
            lemma_put_mask(c1, c2, cs, outs.subrange(0, j));
            assert(put_fits(c1, put_outcomes(c1, cs, outs.subrange(0, j)), outs[j]));
            lemma_cache_stack_mask(c1, c2, put_outcomes(c1, cs, outs.subrange(0, j)), outs[j].0, 0);
        }
    }
}

proof fn lemma_same_producers(c1: Seq<(u32, FactoryComponent)>, c2: Seq<(u32, FactoryComponent)>, i: int)
    requires
        shaped(c1, c2),
        0 <= i,
    ensures
        first_producer_id(c2, i) == first_producer_id(c1, i),
    decreases c1.len() - i,
{
    if i < c1.len() {
        assert(c2[i].0 == c1[i].0);
        match c1[i].1 {
            FactoryComponent::Cache(_) => {},
            _ => {},
        }
        lemma_same_producers(c1, c2, i + 1);
    }
}

proof fn lemma_same_ids(c1: Seq<(u32, FactoryComponent)>, c2: Seq<(u32, FactoryComponent)>, id: u32)
    requires
        c1.len() == c2.len(),
        forall|j: int| 0 <= j < c1.len() ==> #[trigger] c2[j].0 == c1[j].0,
    ensures
        first_component_index(c2, id) == first_component_index(c1, id),
    decreases c1.len(),
{
    if c1.len() > 0 {
        assert(c2.last().0 == c1.last().0);
        lemma_same_ids(c1.drop_last(), c2.drop_last(), id);
    }
}

proof fn lemma_first_running(comps: Seq<(u32, FactoryComponent)>, i: int)
    requires
        0 <= i,
    ensures
        first_running(comps, i) matches Some(a) ==> i <= a < comps.len() && (comps[a].1 matches FactoryComponent::Producer(s)
            && s.start_tick is Some),
    decreases comps.len() - i,
{
    if i < comps.len() {
        lemma_first_running(comps, i + 1);
    }
}

/// Index of the first running producer.
fn find_running(comps: &Vec<(u32, FactoryComponent)>) -> (r: Option<usize>)
    ensures
        r matches Some(a) ==> first_running(comps@, 0) == Some(a as int) && a < comps@.len(),
        r is None ==> first_running(comps@, 0) is None,
{
    let mut i: usize = 0;
    while i < comps.len()
        invariant
            0 <= i <= comps@.len(),
            first_running(comps@, 0) == first_running(comps@, i as int),
        decreases comps@.len() - i,
    {
        if let FactoryComponent::Producer(s) = &comps[i].1 {
            if !s.formula_id.as_str().is_empty() && s.start_tick.is_some() {
                return Some(i);
            }
        }
        i += 1;
    }
    None
}

/// Id of the first producer component, 0 for none.
fn find_producer_id(comps: &Vec<(u32, FactoryComponent)>) -> (r: u32)
    ensures
        r == first_producer_id(comps@, 0),
{
    let mut i: usize = 0;
    while i < comps.len()
        invariant
            0 <= i <= comps@.len(),
            first_producer_id(comps@, 0) == first_producer_id(comps@, i as int),
        decreases comps@.len() - i,
    {
        if let FactoryComponent::Producer(_) = &comps[i].1 {
            return comps[i].0;
        }
        i += 1;
    }
    0
}

/// Restarts at `now`, or pauses, the edited producer (see `comps_after`).
fn edit_producer(comps: &mut Vec<(u32, FactoryComponent)>, restart: bool, now: Tick)
    ensures
        comps_after(old(comps)@, final(comps)@, cache_views(old(comps)@), restart, now),
{
    let ghost c0 = comps@;
    let pid = find_producer_id(comps);
    let ghost e = first_component_index(c0, pid);
    proof {
        lemma_first_component_index(c0, pid);
    }
    match find_component_index(comps, pid) {
        Some(i) => {
            let entry = &mut comps[i];
            match &mut entry.1 {
                FactoryComponent::Producer(s) => {
                    if restart {
                        s.last_formula_id = s.formula_id.clone();
                        s.current_progress = 0;
                        s.start_tick = Some(now);
                    } else {
                        s.start_tick = None;
                    }
                },
                _ => {},
            }
            proof {
                assert forall|j: int| 0 <= j < c0.len() && j != i implies #[trigger] comps@[j] == c0[j] by {}
                assert(cache_views(comps@) =~= cache_views(c0));
            }
        },
        None => {
            proof {
                assert(cache_views(comps@) =~= cache_views(c0));
            }
        },
    }
}

/// Checks one node at tick `now` (see `node_ticked`); returns the recipe
/// it completed, if any.
fn tick_node<'a>(node: &mut FactoryNode, table: &'a FactoryTable, now: Tick) -> (r: Option<&'a MachineCraft>)
    requires
        node_fits(*old(node), *table, now),
    ensures
        node_ticked(*old(node), *final(node), *table, now),
        r is Some == node_completes(*old(node), *table, now),
        r matches Some(rc) ==> due_recipe(*old(node), *table, now) == Some(*rc),
{
    let ghost n0 = *node;
    let ghost c1 = node.components@;
    proof {
        lemma_first_running(c1, 0);
    }
    let a = match find_running(&node.components) {
        Some(a) => a,
        None => return None,
    };
    let (recipe, start) = match &node.components[a].1 {
        FactoryComponent::Producer(s) => {
            let rc = match table.machine_crafts.get(s.formula_id.as_str()) {
                Some(rc) => rc,
                None => return None,
            };
            let start = match s.start_tick {
                Some(t) => t,
                None => return None,
            };
            (rc, start)
        },
        _ => return None,
    };
    let speed: u64 = match table.machine_crafter_speeds.get(node.template_id.as_str()) {
        Some(sp) => *sp,
        None => DEFAULT_MACHINE_SPEED,
    };
    let elapsed = elapsed_between(now, start);
    let progress: u64 = match elapsed.checked_mul(speed) {
        Some(p) => p,
        None => u64::MAX,
    };
    if progress < recipe.total_progress {
        return None;
    }
    proof {
        assert(due_recipe(n0, *table, now) == Some(*recipe));
    }
    let ok = consume_ingredients(&mut node.components, &recipe.ingredients);
    let ghost cm = node.components@;
    proof {
        lemma_shaped_masks(c1, cm);
        lemma_same_producers(c1, cm, 0);
        lemma_same_ids(c1, cm, first_producer_id(c1, 0));
    }
    if !ok {
        edit_producer(&mut node.components, false, now);
        proof {
            lemma_comps_after_compose(c1, cm, node.components@, false, now);
        }
        return None;
    }
    proof {
        lemma_put_mask(c1, cm, cache_views(cm), flat_outcomes(recipe.outcomes@));
    }
    produce_outcomes(&mut node.components, &recipe.outcomes);
    let ghost cp = node.components@;
    proof {
        lemma_shaped_trans(c1, cm, cp);
        lemma_shaped_masks(c1, cp);
        lemma_same_producers(c1, cp, 0);
        lemma_same_ids(c1, cp, first_producer_id(c1, 0));
    }
    edit_producer(&mut node.components, true, now);
    proof {
        lemma_comps_after_compose(c1, cp, node.components@, true, now);
    }
    Some(recipe)
}

/// A producer edit after cache-only changes is a `comps_after` of the
/// start.
proof fn lemma_comps_after_compose(
    c1: Seq<(u32, FactoryComponent)>,
    cm: Seq<(u32, FactoryComponent)>,
    c2: Seq<(u32, FactoryComponent)>,
    restart: bool,
    now: Tick,
)
    requires
        shaped(c1, cm),
        comps_after(cm, c2, cache_views(cm), restart, now),
    ensures
        comps_after(c1, c2, cache_views(cm), restart, now),
{
    lemma_same_producers(c1, cm, 0);
    lemma_same_ids(c1, cm, first_producer_id(c1, 0));
    assert forall|j: int| 0 <= j < c1.len() implies #[trigger] c2[j].0 == c1[j].0 by {
        assert(cm[j].0 == c1[j].0);
    }
    let e = first_component_index(c1, first_producer_id(c1, 0));
    assert forall|j: int| 0 <= j < c1.len() implies match (#[trigger] c1[j]).1 {
        FactoryComponent::Cache(a) => c2[j].1 matches FactoryComponent::Cache(b) && b.ports == a.ports,
        FactoryComponent::Producer(s) => if e == Some(j) {
            if restart {
                c2[j].1 matches FactoryComponent::Producer(s2) && producer_restarted(s, s2, now)
            } else {
                c2[j].1 == FactoryComponent::Producer(ProducerState { start_tick: None, ..s })
            }
        } else {
            c2[j].1 == c1[j].1
        },
        _ => c2[j].1 == c1[j].1,
    } by {
        assert(cm[j].0 == c1[j].0);
        match c1[j].1 {
            FactoryComponent::Cache(a) => {
                assert(cm[j].1 is Cache);
            },
            _ => {
                assert(cm[j].1 == c1[j].1);
            },
        }
    }
}

/// Index of the first entry of `id` in a totals list.
pub open spec fn first_entry(t: Seq<(String, u64)>, id: Seq<char>) -> Option<int>
    decreases t.len(),
{
    if t.len() == 0 {
        None
    } else {
        match first_entry(t.drop_last(), id) {
            Some(i) => Some(i),
            None => if t.last().0@ == id { Some(t.len() - 1) } else { None },
        }
    }
}

/// The total recorded for `id`: its first entry, 0 without one.
pub open spec fn total_of(t: Seq<(String, u64)>, id: Seq<char>) -> int {
    match first_entry(t, id) {
        Some(i) => t[i].1 as int,
        None => 0,
    }
}

/// How much of `id` a list of outcomes holds.
pub open spec fn flat_count(outs: Seq<(Seq<char>, u32)>, id: Seq<char>) -> int
    decreases outs.len(),
{
    if outs.len() == 0 {
        0
    } else {
        flat_count(outs.drop_last(), id) + if outs.last().0 == id { outs.last().1 as int } else { 0 }
    }
}

proof fn lemma_first_entry(t: Seq<(String, u64)>, id: Seq<char>)
    ensures
        match first_entry(t, id) {
            Some(i) => 0 <= i < t.len() && t[i].0@ == id && forall|j: int| 0 <= j < i ==> t[j].0@ != id,
            None => forall|j: int| 0 <= j < t.len() ==> t[j].0@ != id,
        },
    decreases t.len(),
{
    if t.len() > 0 {
        lemma_first_entry(t.drop_last(), id);
        assert(forall|j: int| 0 <= j < t.len() - 1 ==> t.drop_last()[j] == t[j]);
    }
}

proof fn lemma_first_entry_unique(t: Seq<(String, u64)>, id: Seq<char>, i: int)
    requires
        0 <= i < t.len(),
        t[i].0@ == id,
        forall|j: int| 0 <= j < i ==> t[j].0@ != id,
    ensures
        first_entry(t, id) == Some(i),
{
    lemma_first_entry(t, id);
    match first_entry(t, id) {
        Some(k) => {
            if k < i {
                assert(t[k].0@ != id);
            } else if k > i {
                assert(t[i].0@ != id);
            }
        },
        None => {
            assert(t[i].0@ != id);
        },
    }
}

proof fn lemma_flat_count_nonneg(outs: Seq<(Seq<char>, u32)>, id: Seq<char>)
    ensures
        flat_count(outs, id) >= 0,
    decreases outs.len(),
{
    if outs.len() > 0 {
        lemma_flat_count_nonneg(outs.drop_last(), id);
    }
}

proof fn lemma_flat_count_prefix(outs: Seq<(Seq<char>, u32)>, id: Seq<char>, n: int)
    requires
        0 <= n <= outs.len(),
    ensures
        flat_count(outs.subrange(0, n), id) <= flat_count(outs, id),
    decreases outs.len() - n,
{
    if n < outs.len() {
        lemma_flat_count_prefix(outs, id, n + 1);
        assert(outs.subrange(0, n + 1).drop_last() =~= outs.subrange(0, n));
    } else {
        assert(outs.subrange(0, n) =~= outs);
    }
}

/// Adds `c` to the total of `id`: on its first entry, or as a new entry.
fn add_total(t: &mut Vec<(String, u64)>, id: &String, c: u64)
    requires
        total_of(old(t)@, id@) + c <= u64::MAX,
    ensures
        forall|k: Seq<char>| #[trigger] total_of(final(t)@, k) == total_of(old(t)@, k) + if k == id@ { c as int } else { 0 },
{
    let ghost t0 = t@;
    let mut i: usize = 0;
    while i < t.len()
        invariant
            0 <= i <= t@.len(),
            t@ == t0,
            t0 == old(t)@,
            total_of(t0, id@) + c <= u64::MAX,
            forall|j: int| 0 <= j < i ==> t@[j].0@ != id@,
        decreases t@.len() - i,
    {
        if t[i].0 == *id {
            proof {
                lemma_first_entry_unique(t0, id@, i as int);
            }
            let have = t[i].1;
            let name = t[i].0.clone();
            t.set(i, (name, have + c));
            proof {
                assert forall|k: Seq<char>| #[trigger] total_of(t@, k) == total_of(t0, k) + if k == id@ { c as int } else { 0 } by {
                    lemma_first_entry(t0, k);
                    lemma_first_entry(t@, k);
                    match first_entry(t0, k) {
                        Some(a) => {
                            lemma_first_entry_unique(t@, k, a);
                        },
                        None => {
                            assert(k != id@);
                            assert forall|j: int| 0 <= j < t@.len() implies t@[j].0@ != k by {
                                assert(t0[j].0@ != k);
                            }
                        },
                    }
                }
            }
            return;
        }
        i += 1;
    }
    proof {
        lemma_first_entry(t0, id@);
    }
    t.push((id.clone(), c));
    proof {
        assert forall|k: Seq<char>| #[trigger] total_of(t@, k) == total_of(t0, k) + if k == id@ { c as int } else { 0 } by {
            lemma_first_entry(t0, k);
            assert(t@.drop_last() =~= t0);
            match first_entry(t0, k) {
                Some(a) => {
                    assert(first_entry(t@, k) == Some(a));
                },
                None => {},
            }
        }
    }
}

/// Adds every outcome of `groups` to the totals.
fn add_outcome_totals(t: &mut Vec<(String, u64)>, groups: &Vec<Vec<ItemCount>>)
    requires
        forall|k: Seq<char>| #[trigger] total_of(old(t)@, k) + flat_count(flat_outcomes(groups@), k) <= u64::MAX,
    ensures
        forall|k: Seq<char>| #[trigger] total_of(final(t)@, k) == total_of(old(t)@, k) + flat_count(flat_outcomes(groups@), k),
{
    let ghost t0 = t@;
    let ghost all = flat_outcomes(groups@);
    proof {
        assert(groups@.subrange(0, 0) =~= Seq::<Vec<ItemCount>>::empty());
    }
    let mut g: usize = 0;
    while g < groups.len()
        invariant
            0 <= g <= groups@.len(),
            t0 == old(t)@,
            all == flat_outcomes(groups@),
            forall|k: Seq<char>| #[trigger] total_of(t0, k) + flat_count(all, k) <= u64::MAX,
            forall|k: Seq<char>| #[trigger] total_of(t@, k) == total_of(t0, k) + flat_count(flat_outcomes(groups@.subrange(0, g as int)), k),
        decreases groups@.len() - g,
    {
        let items = &groups[g];
        let ghost pre = flat_outcomes(groups@.subrange(0, g as int));
        proof {
            assert(groups@.subrange(0, g + 1).drop_last() =~= groups@.subrange(0, g as int));
            lemma_flat_prefix(groups@, g + 1);
            assert(pre + count_views(items@).subrange(0, 0) =~= pre);
        }
        let mut i: usize = 0;
        while i < items.len()
            invariant
                0 <= i <= items@.len(),
                t0 == old(t)@,
                all == flat_outcomes(groups@),
                forall|k: Seq<char>| #[trigger] total_of(t0, k) + flat_count(all, k) <= u64::MAX,
                *items == groups@[g as int],
                pre == flat_outcomes(groups@.subrange(0, g as int)),
                pre + count_views(items@) == flat_outcomes(groups@.subrange(0, g + 1)),
                flat_outcomes(groups@.subrange(0, g + 1)).len() <= all.len(),
                all.subrange(0, flat_outcomes(groups@.subrange(0, g + 1)).len() as int) == flat_outcomes(groups@.subrange(0, g + 1)),
                forall|k: Seq<char>| #[trigger] total_of(t@, k) == total_of(t0, k) + flat_count(pre + count_views(items@).subrange(0, i as int), k),
            decreases items@.len() - i,
        {
            let ghost done = pre + count_views(items@).subrange(0, i as int);
            let ghost d2 = pre + count_views(items@).subrange(0, i + 1);
            let it = &items[i];
            proof {
                assert(d2.drop_last() =~= done);
                assert(d2.last() == (it.id@, it.count));
                let full = flat_outcomes(groups@.subrange(0, g + 1));
                assert(all.subrange(0, d2.len() as int) =~= d2) by {
                    assert forall|x: int| 0 <= x < d2.len() implies all.subrange(0, d2.len() as int)[x] == d2[x] by {
                        assert(all[x] == full[x]);
                    }
                }
                lemma_flat_count_prefix(all, it.id@, d2.len() as int);
                assert(total_of(t@, it.id@) + it.count <= u64::MAX);
            }
            add_total(t, &it.id, it.count as u64);
            i += 1;
        }
        proof {
            assert(count_views(items@).subrange(0, items@.len() as int) =~= count_views(items@));
        }
        g += 1;
    }
    proof {
        assert(groups@.subrange(0, groups@.len() as int) =~= groups@);
    }
}

proof fn lemma_set_sum_subset(a: Set<u32>, b: Set<u32>, f: spec_fn(u32) -> int)
    requires
        a.subset_of(b),
        a.finite(),
        b.finite(),
        forall|k: u32| b.contains(k) ==> f(k) >= 0,
    ensures
        set_sum(a, f) <= set_sum(b, f),
    decreases b.len(),
{
    if a =~= b {
    } else {
        let x = choose|x: u32| b.contains(x) && !a.contains(x);
        lemma_set_sum_remove(b, x, f);
        lemma_set_sum_subset(a, b.remove(x), f);
    }
}

/// How much of `id` node `n` adds to the totals at `now`.
pub open spec fn node_out(n: FactoryNode, table: FactoryTable, now: Tick, id: Seq<char>) -> int {
    if node_completes(n, table, now) {
        flat_count(flat_outcomes(due_recipe(n, table, now)->0.outcomes@), id)
    } else {
        0
    }
}

/// How much of `id` the nodes `ks` add to the totals at `now`.
pub open spec fn region_out(nodes: Map<u32, FactoryNode>, ks: Set<u32>, table: FactoryTable, now: Tick, id: Seq<char>) -> int {
    set_sum(ks, |k: u32| node_out(nodes[k], table, now, id))
}

/// How many of the nodes `ks` complete a recipe at `now`.
pub open spec fn region_done(nodes: Map<u32, FactoryNode>, ks: Set<u32>, table: FactoryTable, now: Tick) -> int {
    set_sum(ks, |k: u32| if node_completes(nodes[k], table, now) { 1int } else { 0int })
}

/// Every node of a region can put its outcomes, and the totals can take
/// them.
pub open spec fn region_fits(region: FactoryRegion, table: FactoryTable, now: Tick) -> bool {
    &&& forall|k: u32| region.nodes@.contains_key(k) ==> node_fits(#[trigger] region.nodes@[k], table, now)
    &&& forall|id: Seq<char>|
        #[trigger] total_of(region.production_totals@, id) + region_out(region.nodes@, region.nodes@.dom(), table, now, id)
            <= u64::MAX
}

/// A region after the completion check of every node at `now`.
pub open spec fn region_ticked(old: FactoryRegion, new: FactoryRegion, table: FactoryTable, now: Tick) -> bool {
    &&& new.nodes@.dom() == old.nodes@.dom()
    &&& forall|k: u32| old.nodes@.contains_key(k) ==> node_ticked(#[trigger] old.nodes@[k], new.nodes@[k], table, now)
    &&& forall|id: Seq<char>|
        #[trigger] total_of(new.production_totals@, id) == total_of(old.production_totals@, id) + region_out(
            old.nodes@,
            old.nodes@.dom(),
            table,
            now,
            id,
        )
    &&& new.name == old.name
    &&& new.region_id == old.region_id
    &&& new.scene_name == old.scene_name
    &&& new.level == old.level
    &&& new.next_node_id == old.next_node_id
    &&& new.blackboard == old.blackboard
    &&& new.connections == old.connections
}

/// Checks every node of `region` at tick `now` (see `region_ticked`);
/// returns how many completed a recipe.
pub fn tick_region(region: &mut FactoryRegion, table: &FactoryTable, now: Tick) -> (r: usize)
    requires
        region_fits(*old(region), *table, now),
    ensures
        region_ticked(*old(region), *final(region), *table, now),
        r == region_done(old(region).nodes@, old(region).nodes@.dom(), *table, now),
{
    broadcast use vstd::seq_lib::seq_to_set_is_finite;

    let keys = map_keys(&region.nodes);
    let ghost n0 = region.nodes@;
    let ghost r0 = *region;
    let ghost dom = n0.dom();
    let mut completed: usize = 0;
    let mut i: usize = 0;
    proof {
        assert(keys@.subrange(0, 0).to_set() =~= Set::<u32>::empty());
        lemma_set_sum_empty(|k: u32| if node_completes(n0[k], *table, now) { 1int } else { 0int });
        assert forall|id: Seq<char>| #[trigger] total_of(region.production_totals@, id) == total_of(r0.production_totals@, id)
            + region_out(n0, keys@.subrange(0, 0).to_set(), *table, now, id) by {
            lemma_set_sum_empty(|k: u32| node_out(n0[k], *table, now, id));
        }
    }
    while i < keys.len()
        invariant
            0 <= i <= keys@.len(),
            keys@.no_duplicates(),
            keys@.to_set() == dom,
            dom == n0.dom(),
            n0 == r0.nodes@,
            r0 == *old(region),
            region_fits(r0, *table, now),
            region.nodes@.dom() == dom,
            forall|k: u32|
                #[trigger] region.nodes@.contains_key(k) ==> if keys@.subrange(0, i as int).to_set().contains(k) {
                    node_ticked(n0[k], region.nodes@[k], *table, now)
                } else {
                    region.nodes@[k] == n0[k]
                },
            completed as int == region_done(n0, keys@.subrange(0, i as int).to_set(), *table, now),
            completed <= i,
            forall|id: Seq<char>| #[trigger] total_of(region.production_totals@, id) == total_of(r0.production_totals@, id)
                + region_out(n0, keys@.subrange(0, i as int).to_set(), *table, now, id),
            region.name == r0.name,
            region.region_id == r0.region_id,
            region.scene_name == r0.scene_name,
            region.level == r0.level,
            region.next_node_id == r0.next_node_id,
            region.blackboard == r0.blackboard,
            region.connections == r0.connections,
        decreases keys@.len() - i,
    {
        let k = keys[i];
        let ghost s_i = keys@.subrange(0, i as int).to_set();
        let ghost s_next = keys@.subrange(0, i + 1).to_set();
        proof {
            assert(keys@.subrange(0, i + 1) =~= keys@.subrange(0, i as int).push(k));
            keys@.subrange(0, i as int).lemma_push_to_set_commute(k);
            assert(s_next =~= s_i.insert(k));
            assert(!s_i.contains(k)) by {
                if s_i.contains(k) {
                    let j = choose|j: int| 0 <= j < i && keys@.subrange(0, i as int)[j] == k;
                    assert(keys@[j] == keys@[i as int]);
                }
            }
            assert(keys@.to_set().contains(k));
            assert(region.nodes@.contains_key(k));
            assert(region.nodes@[k] == n0[k]);
            assert(node_fits(n0[k], *table, now));
        }
        let ghost before = *region;
        match region.node_mut(k) {
            Some(node) => {
                match tick_node(node, table, now) {
                    Some(rc) => {
                        completed = completed + 1;
                        proof {
                            assert forall|id: Seq<char>| #[trigger] total_of(region.production_totals@, id) + flat_count(
                                flat_outcomes(rc.outcomes@),
                                id,
                            ) <= u64::MAX by {
                                let f = |x: u32| node_out(n0[x], *table, now, id);
                                assert forall|x: u32| dom.contains(x) implies f(x) >= 0 by {
                                    if node_completes(n0[x], *table, now) {
                                        lemma_flat_count_nonneg(flat_outcomes(due_recipe(n0[x], *table, now)->0.outcomes@), id);
                                    }
                                }
                                lemma_set_sum_insert(s_i, k, f);
                                lemma_set_sum_subset(s_next, dom, f);
                                assert(total_of(r0.production_totals@, id) + region_out(n0, dom, *table, now, id) <= u64::MAX);
                            }
                        }
                        add_outcome_totals(&mut region.production_totals, &rc.outcomes);
                    },
                    None => {},
                }
            },
            None => {},
        }
        proof {
            lemma_set_sum_insert(s_i, k, |x: u32| if node_completes(n0[x], *table, now) { 1int } else { 0int });
            assert forall|id: Seq<char>| #[trigger] total_of(region.production_totals@, id) == total_of(r0.production_totals@, id)
                + region_out(n0, s_next, *table, now, id) by {
                lemma_set_sum_insert(s_i, k, |x: u32| node_out(n0[x], *table, now, id));
            }
            assert forall|x: u32| #[trigger] region.nodes@.contains_key(x) implies if s_next.contains(x) {
                node_ticked(n0[x], region.nodes@[x], *table, now)
            } else {
                region.nodes@[x] == n0[x]
            } by {
                if x != k {
                    assert(before.nodes@.contains_key(x));
                }
            }
        }
        i += 1;
    }
    proof {
        assert(keys@.subrange(0, keys@.len() as int) =~= keys@);
    }
    completed
}

/// Recipes completed over the regions named in `order`.
pub open spec fn regions_done(regions: Map<Seq<char>, FactoryRegion>, order: Seq<Seq<char>>, table: FactoryTable, now: Tick) -> int
    decreases order.len(),
{
    if order.len() == 0 {
        0
    } else {
        regions_done(regions, order.drop_last(), table, now) + region_done(
            regions[order.last()].nodes@,
            regions[order.last()].nodes@.dom(),
            table,
            now,
        )
    }
}

proof fn lemma_regions_done_prefix(regions: Map<Seq<char>, FactoryRegion>, order: Seq<Seq<char>>, table: FactoryTable, now: Tick, n: int)
    requires
        0 <= n <= order.len(),
        forall|k: Seq<char>| regions.contains_key(k) ==> (#[trigger] regions[k]).nodes@.dom().finite(),
        forall|j: int| 0 <= j < order.len() ==> regions.contains_key(#[trigger] order[j]),
    ensures
        regions_done(regions, order.subrange(0, n), table, now) <= regions_done(regions, order, table, now),
    decreases order.len() - n,
{
    if n < order.len() {
        lemma_regions_done_prefix(regions, order, table, now, n + 1);
        assert(order.subrange(0, n + 1).drop_last() =~= order.subrange(0, n));
        let r = regions[order[n]];
        crate::util::lemma_set_sum_nonneg(r.nodes@.dom(), |k: u32| if node_completes(r.nodes@[k], table, now) { 1int } else { 0int });
    } else {
        assert(order.subrange(0, n) =~= order);
    }
}

impl super::manager::FactoryManager {
    /// Runs the completion check on every region at tick `now` (see
    /// `region_ticked`); returns how many recipes completed.
    pub fn tick_machine_crafters_at(&mut self, table: &FactoryTable, now: Tick) -> (r: usize)
        requires
            forall|k: Seq<char>| old(self).regions@.contains_key(k) ==> region_fits(#[trigger] old(self).regions@[k], *table, now),
            regions_done(old(self).regions@, old(self).regions.key_order(), *table, now) <= usize::MAX,
        ensures
            final(self).regions@.dom() == old(self).regions@.dom(),
            forall|k: Seq<char>| old(self).regions@.contains_key(k) ==> region_ticked(
                #[trigger] old(self).regions@[k],
                final(self).regions@[k],
                *table,
                now,
            ),
            r == regions_done(old(self).regions@, old(self).regions.key_order(), *table, now),
            super::manager::same_but_regions(*old(self), *final(self)),
    {
        let names_ref = self.regions.keys();
        let ghost order = self.regions.key_order();
        let ghost m0 = *self;
        let mut names: Vec<String> = Vec::new();
        let mut j: usize = 0;
        while j < names_ref.len()
            invariant
                0 <= j <= names_ref@.len(),
                names@.len() == j,
                forall|x: int| 0 <= x < j ==> #[trigger] names@[x]@ == names_ref@[x]@,
            decreases names_ref@.len() - j,
        {
            names.push(names_ref[j].clone());
            j += 1;
        }
        proof {
            assert forall|x: int| 0 <= x < order.len() implies #[trigger] names@[x]@ == order[x] by {
                assert(names_ref@.map_values(|k: String| k@)[x] == names_ref@[x]@);
            }
            assert forall|k: Seq<char>| m0.regions@.contains_key(k) implies (#[trigger] m0.regions@[k]).nodes@.dom().finite() by {
                assert(m0.regions@[k].nodes@.dom().finite());
            }
            assert(order.subrange(0, 0) =~= Seq::<Seq<char>>::empty());
            assert forall|k: Seq<char>| m0.regions@.contains_key(k) <==> exists|x: int| 0 <= x < order.len() && #[trigger] order[x] == k by {
                if m0.regions@.contains_key(k) {
                    let a = choose|a: int| 0 <= a < names_ref@.len() && #[trigger] names_ref@[a]@ == k;
                    assert(order[a] == names_ref@[a]@);
                }
                if exists|x: int| 0 <= x < order.len() && #[trigger] order[x] == k {
                    let x = choose|x: int| 0 <= x < order.len() && #[trigger] order[x] == k;
                    assert(order[x] == names_ref@[x]@);
                }
            }
        }
        let mut completed: usize = 0;
        let mut i: usize = 0;
        while i < names.len()
            invariant
                0 <= i <= names@.len(),
                names@.len() == order.len(),
                forall|x: int| 0 <= x < order.len() ==> #[trigger] names@[x]@ == order[x],
                forall|a: int, b: int| 0 <= a < order.len() && 0 <= b < order.len() && a != b ==> order[a] != order[b],
                forall|k: Seq<char>| m0.regions@.contains_key(k) <==> exists|x: int| 0 <= x < order.len() && #[trigger] order[x] == k,
                m0 == *old(self),
                order == m0.regions.key_order(),
                forall|k: Seq<char>| m0.regions@.contains_key(k) ==> region_fits(#[trigger] m0.regions@[k], *table, now),
                regions_done(m0.regions@, order, *table, now) <= usize::MAX,
                self.regions@.dom() == m0.regions@.dom(),
                super::manager::same_but_regions(m0, *self),
                forall|k: Seq<char>|
                    #[trigger] m0.regions@.contains_key(k) ==> if (exists|x: int| 0 <= x < i && order[x] == k) {
                        region_ticked(m0.regions@[k], self.regions@[k], *table, now)
                    } else {
                        self.regions@[k] == m0.regions@[k]
                    },
                completed == regions_done(m0.regions@, order.subrange(0, i as int), *table, now),
            decreases names@.len() - i,
        {
            let name = &names[i];
            let ghost key = order[i as int];
            proof {
                assert(m0.regions@.contains_key(key));
                assert(!(exists|x: int| 0 <= x < i && order[x] == key));
                assert(order.subrange(0, i + 1).drop_last() =~= order.subrange(0, i as int));
                lemma_regions_done_prefix(m0.regions@, order, *table, now, i + 1);
                assert forall|x: int| 0 <= x < order.len() implies m0.regions@.contains_key(#[trigger] order[x]) by {}
            }
            let ghost before = *self;
            match self.regions.get_mut(name.as_str()) {
                Some(region) => {
                    let n = tick_region(region, table, now);
                    completed = completed + n;
                },
                None => {},
            }
            proof {
                assert forall|k: Seq<char>| #[trigger] m0.regions@.contains_key(k) implies if (exists|x: int| 0 <= x < i + 1 && order[x] == k) {
                    region_ticked(m0.regions@[k], self.regions@[k], *table, now)
                } else {
                    self.regions@[k] == m0.regions@[k]
                } by {
                    if k != key {
                        if exists|x: int| 0 <= x < i + 1 && order[x] == k {
                            let x = choose|x: int| 0 <= x < i + 1 && order[x] == k;
                            assert(x != i);
                        }
                    }
                }
            }
            i += 1;
        }
        proof {
            assert(order.subrange(0, order.len() as int) =~= order);
            assert forall|k: Seq<char>| m0.regions@.contains_key(k) implies region_ticked(
                #[trigger] m0.regions@[k],
                self.regions@[k],
                *table,
                now,
            ) by {
                let x = choose|x: int| 0 <= x < order.len() && #[trigger] order[x] == k;
                assert(0 <= x < i && order[x] == k);
            }
        }
        completed
    }

    /// Runs the completion check on the system clock (see
    /// `tick_machine_crafters_at`).
    pub fn tick_machine_crafters(&mut self, table: &FactoryTable) -> (r: usize)
        requires
            forall|now: Tick, k: Seq<char>| old(self).regions@.contains_key(k) ==> #[trigger] region_fits(old(self).regions@[k], *table, now),
            forall|now: Tick| regions_done(old(self).regions@, old(self).regions.key_order(), *table, now) <= usize::MAX,
        ensures
            final(self).regions@.dom() == old(self).regions@.dom(),
            exists|now: Tick|
                r == regions_done(old(self).regions@, old(self).regions.key_order(), *table, now) && forall|k: Seq<char>|
                    old(self).regions@.contains_key(k) ==> region_ticked(#[trigger] old(self).regions@[k], final(self).regions@[k], *table, now),
            super::manager::same_but_regions(*old(self), *final(self)),
    {
        let now = current_tick();
        self.tick_machine_crafters_at(table, now)
    }
}

/// Machine timing: a recipe falls due only once the ticks since its
/// producer started, times the machine's speed, reach the recipe's total
/// progress (a recipe needing progress is never due at its start tick),
/// and once due it stays due at every later tick.
pub proof fn lemma_due_timing(node: FactoryNode, table: FactoryTable, now: Tick, later: Tick)
    ensures
        due_recipe(node, table, now) is Some ==> (first_running(node.components@, 0) matches Some(a) && (
        node.components@[a].1 matches FactoryComponent::Producer(s) && {
            let st = s.start_tick->0;
            let need = table.machine_crafts@[s.formula_id@].total_progress;
            &&& table.machine_crafts@.contains_key(s.formula_id@)
            &&& (now <= st ==> need == 0)
            &&& (now > st && (now - st) * machine_speed(table, node.template_id@) <= u64::MAX ==> (now - st)
                * machine_speed(table, node.template_id@) >= need)
        })),
        due_recipe(node, table, now) is Some && now <= later ==> due_recipe(node, table, later) == due_recipe(node, table, now),
{
    if due_recipe(node, table, now) is Some && now <= later {
        let a = first_running(node.components@, 0)->0;
        if let FactoryComponent::Producer(s) = node.components@[a].1 {
            let st = s.start_tick->0;
            let sp = machine_speed(table, node.template_id@) as int;
            let e1 = spec_elapsed(now, st);
            let e2 = spec_elapsed(later, st);
            assert(e1 <= e2);
            assert(e1 * sp <= e2 * sp) by (nonlinear_arith)
                requires
                    0 <= e1 <= e2,
                    0 <= sp,
            ;
        }
    }
}

} // verus!
