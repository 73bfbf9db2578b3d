//! Slot-level item moves shared by the grid-box, cache, bag and depot
//! operations. Slots are described by their views (item id, count,
//! instance id).
use vstd::prelude::*;

use super::component::{InventoryState, ItemSlot, bag_view, empty_slot, slots_view};
use crate::util::{map_get_mut, map_keys};

verus! {

broadcast use vstd::std_specs::hash::group_hash_axioms;

pub type SlotView = (Seq<char>, u32, u32);

/// `v` padded with empty slots up to length `n` (unchanged if longer).
pub open spec fn padded(v: Seq<SlotView>, n: int) -> Seq<SlotView> {
    if n <= v.len() {
        v
    } else {
        v + Seq::new((n - v.len()) as nat, |i: int| empty_slot())
    }
}

/// Result of putting `item` into slot `idx` of a grid box: the box is
/// padded to reach `idx`; the item stacks onto a non-empty stack of the
/// same item there, and otherwise replaces the slot.
pub open spec fn put_result(v: Seq<SlotView>, idx: int, item: SlotView) -> Seq<SlotView> {
    let w = padded(v, idx + 1);
    if w[idx].0 == item.0 && w[idx].1 > 0 {
        w.update(idx, (w[idx].0, (w[idx].1 + item.1) as u32, w[idx].2))
    } else {
        w.update(idx, item)
    }
}

/// Whether `put_result` stays within the slot count range.
pub open spec fn put_fits(v: Seq<SlotView>, idx: int, item: SlotView) -> bool {
    let w = padded(v, idx + 1);
    w[idx].0 == item.0 && w[idx].1 > 0 ==> w[idx].1 + item.1 <= u32::MAX
}

/// Pads `items` with empty slots up to length `n`.
pub fn pad_slots(items: &mut Vec<ItemSlot>, n: usize)
    ensures
        slots_view(final(items)@) == padded(slots_view(old(items)@), n as int),
        final(items)@.len() == if n <= old(items)@.len() { old(items)@.len() as int } else { n as int },
        forall|i: int| 0 <= i < old(items)@.len() ==> #[trigger] final(items)@[i] == old(items)@[i],
{
    let ghost v0 = slots_view(items@);
    let ghost orig = items@;
    while items.len() < n
        invariant
            orig.len() <= items@.len(),
            n <= orig.len() ==> items@ == orig,
            n > orig.len() ==> items@.len() <= n,
            forall|i: int| 0 <= i < orig.len() ==> #[trigger] items@[i] == orig[i],
            forall|i: int| orig.len() <= i < items@.len() ==> #[trigger] items@[i]@ == empty_slot(),
        decreases n - items@.len(),
    {
        items.push(ItemSlot::empty());
    }
    proof {
        assert(slots_view(items@) =~= padded(v0, n as int));
    }
}

/// Puts `item` into slot `idx` of a grid box (see `put_result`).
pub fn put_into_slot(items: &mut Vec<ItemSlot>, idx: usize, item: ItemSlot)
    requires
        idx < usize::MAX,
        put_fits(slots_view(old(items)@), idx as int, item@),
    ensures
        slots_view(final(items)@) == put_result(slots_view(old(items)@), idx as int, item@),
{
    let ghost v0 = slots_view(items@);
    pad_slots(items, idx + 1);
    let ghost w = slots_view(items@);
    proof {
        assert(w[idx as int] == items@[idx as int]@);
    }
    if items[idx].item_id == item.item_id && items[idx].count > 0 {
        let add = item.count;
        let slot = &mut items[idx];
        slot.count = slot.count + add;
    } else {
        items.set(idx, item);
    }
    proof {
        assert(slots_view(items@) =~= put_result(v0, idx as int, item@));
    }
}

/// Key of a bag slot holding at least one `id`.
pub open spec fn has_stock(m: Map<u32, ItemSlot>, k: u32, id: Seq<char>) -> bool {
    m.contains_key(k) && m[k].item_id@ == id && m[k].count > 0
}

/// A bag view with one item taken from slot `k` (the slot goes when it
/// runs empty).
pub open spec fn took_one(m: Map<u32, SlotView>, k: u32) -> Map<u32, SlotView> {
    if m[k].1 == 1 {
        m.remove(k)
    } else {
        m.insert(k, (m[k].0, (m[k].1 - 1) as u32, m[k].2))
    }
}

/// Takes one `item_id` from the first slot (in the bag's iteration order)
/// that holds some; the slot goes when it runs empty. The item carries the
/// slot's key as its instance id.
pub fn take_one_from_bag(inv: &mut InventoryState, item_id: &str) -> (r: Option<ItemSlot>)
    ensures
        match r {
            Some(it) => exists|k: u32|
                #[trigger] has_stock(old(inv).items@, k, item_id@) && bag_view(final(inv).items@) == took_one(
                    bag_view(old(inv).items@),
                    k,
                ) && it@ == (item_id@, 1u32, k),
            None => (forall|k: u32| !#[trigger] has_stock(old(inv).items@, k, item_id@)) && *final(inv) == *old(inv),
        },
{
    let keys = map_keys(&inv.items);
    let ghost m = inv.items@;
    let key_s = item_id.to_owned();
    let mut i: usize = 0;
    while i < keys.len()
        invariant
            0 <= i <= keys.len(),
            inv.items@ == m,
            *inv == *old(inv),
            key_s@ == item_id@,
            keys@.to_set() == m.dom(),
            forall|j: int| 0 <= j < i ==> !has_stock(m, #[trigger] keys@[j], item_id@),
        decreases keys.len() - i,
    {
        let k = keys[i];
        proof {
            assert(keys@.to_set().contains(k));
        }
        let (hit, cnt) = match inv.items.get(&k) {
            Some(slot) => (slot.item_id == key_s && slot.count > 0, slot.count),
            None => (false, 0),
        };
        if hit {
            proof {
                assert(has_stock(m, k, item_id@));
            }
            if cnt == 1 {
                inv.items.remove(&k);
                proof {
                    assert(bag_view(inv.items@) =~= took_one(bag_view(m), k));
                }
            } else {
                match map_get_mut(&mut inv.items, k) {
                    Some(slot) => {
                        slot.count = cnt - 1;
                    },
                    None => {},
                }
                proof {
                    assert(bag_view(inv.items@) =~= took_one(bag_view(m), k));
                }
            }
            return Some(ItemSlot { item_id: key_s, count: 1, inst_id: k });
        }
        i += 1;
    }
    proof {
        assert forall|k: u32| !#[trigger] has_stock(m, k, item_id@) by {
            if m.contains_key(k) {
                assert(keys@.to_set().contains(k));
                let j = choose|j: int| 0 <= j < keys@.len() && keys@[j] == k;
                assert(!has_stock(m, keys@[j], item_id@));
            }
        }
    }
    None
}

/// Slot `k` holds the same item and instance as `item`.
pub open spec fn same_stack(m: Map<u32, SlotView>, k: u32, item: SlotView) -> bool {
    m.contains_key(k) && m[k].0 == item.0 && m[k].2 == item.2
}

/// Stacking `item` onto slot `k` stays within the count range.
pub open spec fn stack_fits(m: Map<u32, SlotView>, item: SlotView) -> bool {
    forall|k: u32| #[trigger] same_stack(m, k, item) ==> m[k].1 + item.1 <= u32::MAX
}

/// Result of stacking `item` into a depot: onto some slot holding the same
/// item and instance, or else stored under its instance id.
pub open spec fn stacked_into(old: Map<u32, SlotView>, new: Map<u32, SlotView>, item: SlotView) -> bool {
    if exists|k: u32| #[trigger] same_stack(old, k, item) {
        exists|k: u32|
            #[trigger] same_stack(old, k, item) && new == old.insert(k, (old[k].0, (old[k].1 + item.1) as u32, old[k].2))
    } else {
        new == old.insert(item.2, item)
    }
}

/// `ms` lists the bag after each of `items` is stacked in turn.
pub open spec fn stacked_chain(ms: Seq<Map<u32, SlotView>>, items: Seq<SlotView>) -> bool {
    &&& ms.len() == items.len() + 1
    &&& forall|i: int| 0 <= i < items.len() ==> #[trigger] stacked_into(ms[i], ms[i + 1], items[i])
}

/// Result of stacking `items` one after another (see `stacked_into`).
pub open spec fn stacked_all(old: Map<u32, SlotView>, new: Map<u32, SlotView>, items: Seq<SlotView>) -> bool {
    exists|ms: Seq<Map<u32, SlotView>>| #[trigger] stacked_chain(ms, items) && ms[0] == old && ms.last() == new
}

/// Stacking `items` one after another never overflows a stack, whichever
/// matching stack each lands on.
pub open spec fn stack_all_fits(old: Map<u32, SlotView>, items: Seq<SlotView>) -> bool {
    forall|i: int, mid: Map<u32, SlotView>|
        0 <= i < items.len() && #[trigger] stacked_all(old, mid, items.subrange(0, i)) ==> stack_fits(mid, items[i])
}

/// Stacks `item` into a depot (see `stacked_into`).
pub fn stack_into_bag(inv: &mut InventoryState, item: ItemSlot)
    requires
        stack_fits(bag_view(old(inv).items@), item@),
    ensures
        stacked_into(bag_view(old(inv).items@), bag_view(final(inv).items@), item@),
{
    let keys = map_keys(&inv.items);
    let ghost m = inv.items@;
    let ghost mv = bag_view(m);
    let mut i: usize = 0;
    while i < keys.len()
        invariant
            0 <= i <= keys.len(),
            inv.items@ == m,
            m == old(inv).items@,
            mv == bag_view(m),
            keys@.to_set() == m.dom(),
            stack_fits(mv, item@),
            forall|j: int| 0 <= j < i ==> !same_stack(mv, #[trigger] keys@[j], item@),
        decreases keys.len() - i,
    {
        let k = keys[i];
        proof {
            assert(keys@.to_set().contains(k));
        }
        let hit = match inv.items.get(&k) {
            Some(slot) => slot.item_id == item.item_id && slot.inst_id == item.inst_id,
            None => false,
        };
        if hit {
            proof {
                assert(same_stack(mv, k, item@));
            }
            let add = item.count;
            match map_get_mut(&mut inv.items, k) {
                Some(slot) => {
                    slot.count = slot.count + add;
                },
                None => {},
            }
            proof {
                assert(bag_view(inv.items@) =~= mv.insert(k, (mv[k].0, (mv[k].1 + item@.1) as u32, mv[k].2)));
            }
            return;
        }
        i += 1;
    }
    proof {
        assert forall|k: u32| !#[trigger] same_stack(mv, k, item@) by {
            if mv.contains_key(k) {
                assert(keys@.to_set().contains(k));
                let j = choose|j: int| 0 <= j < keys@.len() && keys@[j] == k;
                assert(!same_stack(mv, keys@[j], item@));
            }
        }
    }
    let key = item.inst_id;
    let ghost iv = item@;
    inv.items.insert(key, item);
    proof {
        assert(bag_view(inv.items@) =~= mv.insert(iv.2, iv));
    }
}

/// Whether some slot holds at least one `item_id`.
pub fn stock_exists(inv: &InventoryState, item_id: &str) -> (r: bool)
    ensures
        r == exists|k: u32| #[trigger] has_stock(inv.items@, k, item_id@),
{
    let keys = map_keys(&inv.items);
    let ghost m = inv.items@;
    let key_s = item_id.to_owned();
    let mut i: usize = 0;
    while i < keys.len()
        invariant
            0 <= i <= keys.len(),
            inv.items@ == m,
            key_s@ == item_id@,
            keys@.to_set() == m.dom(),
            forall|j: int| 0 <= j < i ==> !has_stock(m, #[trigger] keys@[j], item_id@),
        decreases keys.len() - i,
    {
        let k = keys[i];
        proof {
            assert(keys@.to_set().contains(k));
        }
        let hit = match inv.items.get(&k) {
            Some(slot) => slot.item_id == key_s && slot.count > 0,
            None => false,
        };
        if hit {
            proof {
                assert(has_stock(m, k, item_id@));
            }
            return true;
        }
        i += 1;
    }
    proof {
        assert forall|k: u32| !#[trigger] has_stock(m, k, item_id@) by {
            if m.contains_key(k) {
                assert(keys@.to_set().contains(k));
                let j = choose|j: int| 0 <= j < keys@.len() && keys@[j] == k;
                assert(!has_stock(m, keys@[j], item_id@));
            }
        }
    }
    false
}

/// Index of the first slot holding at least one `item_id`.
pub fn find_stock(items: &Vec<ItemSlot>, item_id: &str) -> (r: Option<usize>)
    ensures
        match r {
            Some(i) => first_stock_from(slots_view(items@), item_id@, 0) == Some(i as int),
            None => first_stock_from(slots_view(items@), item_id@, 0) is None,
        },
{
    let ghost v = slots_view(items@);
    let key_s = item_id.to_owned();
    let mut i: usize = 0;
    while i < items.len()
        invariant
            0 <= i <= items@.len(),
            v == slots_view(items@),
            key_s@ == item_id@,
            first_stock_from(v, item_id@, 0) == first_stock_from(v, item_id@, i as int),
        decreases items@.len() - i,
    {
        proof {
            assert(v[i as int] == items@[i as int]@);
        }
        if items[i].item_id == key_s && items[i].count > 0 {
            return Some(i);
        }
        i += 1;
    }
    None
}

/// Index of the first slot in `v` holding at least one `id`.
pub open spec fn first_stock_from(v: Seq<SlotView>, id: Seq<char>, i: int) -> Option<int>
    decreases v.len() - i,
{
    if i < 0 || i >= v.len() {
        None
    } else if v[i].0 == id && v[i].1 > 0 {
        Some(i)
    } else {
        first_stock_from(v, id, i + 1)
    }
}

/// Index of the first slot in `v` holding item `id` (any count).
pub open spec fn first_item_from(v: Seq<SlotView>, id: Seq<char>, i: int) -> Option<int>
    decreases v.len() - i,
{
    if i < 0 || i >= v.len() {
        None
    } else if v[i].0 == id {
        Some(i)
    } else {
        first_item_from(v, id, i + 1)
    }
}

/// Takes one `item_id` from the first cache slot holding some; the slot
/// stays even when it runs empty. Returns whether one was taken.
pub fn take_one_from_slots(items: &mut Vec<ItemSlot>, item_id: &str) -> (r: bool)
    ensures
        r == first_stock_from(slots_view(old(items)@), item_id@, 0) is Some,
        match first_stock_from(slots_view(old(items)@), item_id@, 0) {
            Some(i) => slots_view(final(items)@) == slots_view(old(items)@).update(
                i,
                (item_id@, (old(items)@[i].count - 1) as u32, old(items)@[i].inst_id),
            ),
            None => final(items)@ == old(items)@,
        },
{
    let ghost v = slots_view(items@);
    let key_s = item_id.to_owned();
    let mut i: usize = 0;
    while i < items.len()
        invariant
            0 <= i <= items@.len(),
            v == slots_view(items@),
            items@ == old(items)@,
            key_s@ == item_id@,
            first_stock_from(v, item_id@, 0) == first_stock_from(v, item_id@, i as int),
        decreases items@.len() - i,
    {
        proof {
            assert(v[i as int] == items@[i as int]@);
        }
        if items[i].item_id == key_s && items[i].count > 0 {
            let slot = &mut items[i];
            slot.count = slot.count - 1;
            proof {
                assert(slots_view(items@) =~= v.update(i as int, (item_id@, (old(items)@[i as int].count - 1) as u32, old(items)@[i as int].inst_id)));
            }
            return true;
        }
        i += 1;
    }
    false
}

/// Total count of the slots of `src` that hold item `id`.
pub open spec fn matching_total(src: Seq<SlotView>, id: Seq<char>) -> int
    decreases src.len(),
{
    if src.len() == 0 {
        0
    } else {
        matching_total(src.drop_last(), id) + if src.last().0 == id { src.last().1 as int } else { 0 }
    }
}

/// The first slot of `src` holding item `id`.
pub open spec fn first_match(src: Seq<SlotView>, id: Seq<char>) -> Option<int> {
    first_item_from(src, id, 0)
}

/// `dest` after every stack of item `id` from `src` is merged in: onto the
/// first stack of `id` in `dest`, or, when there is none, onto a copy of
/// the first matching stack appended to `dest`.
pub open spec fn merged_matching(dest: Seq<SlotView>, src: Seq<SlotView>, id: Seq<char>) -> Seq<SlotView> {
    match first_item_from(dest, id, 0) {
        Some(k) => dest.update(k, (dest[k].0, (dest[k].1 + matching_total(src, id)) as u32, dest[k].2)),
        None => match first_match(src, id) {
            Some(j) => dest.push((src[j].0, matching_total(src, id) as u32, src[j].2)),
            None => dest,
        },
    }
}

/// The stacks of `src` that do not hold item `id`, in order.
pub open spec fn other_stacks(src: Seq<SlotView>, id: Seq<char>) -> Seq<SlotView>
    decreases src.len(),
{
    if src.len() == 0 {
        Seq::empty()
    } else {
        let p = other_stacks(src.drop_last(), id);
        if src.last().0 != id {
            p.push(src.last())
        } else {
            p
        }
    }
}

/// Result of moving the stacks taken from a cache, `src`, into cache
/// `dest` when item `id` is moved: the stacks of `id` merge as
/// `merged_matching` says, and the stacks of other items follow at the
/// end, in order, so nothing taken is lost.
pub open spec fn merged_into(dest: Seq<SlotView>, src: Seq<SlotView>, id: Seq<char>) -> Seq<SlotView> {
    merged_matching(dest, src, id) + other_stacks(src, id)
}

proof fn lemma_first_item_from(v: Seq<SlotView>, id: Seq<char>, i: int)
    requires
        0 <= i,
    ensures
        match first_item_from(v, id, i) {
            Some(k) => i <= k < v.len() && v[k].0 == id && forall|j: int| i <= j < k ==> v[j].0 != id,
            None => forall|j: int| i <= j < v.len() ==> v[j].0 != id,
        },
    decreases v.len() - i,
{
    if i < v.len() && v[i].0 != id {
        lemma_first_item_from(v, id, i + 1);
    }
}

pub proof fn lemma_first_item_from_pub(v: Seq<SlotView>, id: Seq<char>, i: int)
    requires
        0 <= i,
    ensures
        match first_item_from(v, id, i) {
            Some(k) => i <= k < v.len() && v[k].0 == id && forall|j: int| i <= j < k ==> v[j].0 != id,
            None => forall|j: int| i <= j < v.len() ==> v[j].0 != id,
        },
{
    lemma_first_item_from(v, id, i);
}

proof fn lemma_first_item_prefix(v: Seq<SlotView>, id: Seq<char>, n: int)
    requires
        0 <= n <= v.len(),
    ensures
        first_item_from(v.subrange(0, n), id, 0) is Some ==> first_item_from(v, id, 0) == first_item_from(
            v.subrange(0, n),
            id,
            0,
        ),
        first_item_from(v.subrange(0, n), id, 0) is None && n < v.len() && v[n].0 == id ==> first_item_from(
            v.subrange(0, n + 1),
            id,
            0,
        ) == Some(n),
        first_item_from(v.subrange(0, n), id, 0) is None && n < v.len() && v[n].0 != id ==> first_item_from(
            v.subrange(0, n + 1),
            id,
            0,
        ) is None,
{
    let p = v.subrange(0, n);
    lemma_first_item_from(p, id, 0);
    lemma_first_item_from(v, id, 0);
    assert(forall|j: int| 0 <= j < n ==> p[j] == v[j]);
    if n < v.len() {
        let q = v.subrange(0, n + 1);
        lemma_first_item_from(q, id, 0);
        assert(forall|j: int| 0 <= j < n + 1 ==> q[j] == v[j]);
    }
}

/// Whether stacking all of `src`'s `id` stacks into `dest` stays in range.
pub open spec fn merge_fits(dest: Seq<SlotView>, src: Seq<SlotView>, id: Seq<char>) -> bool {
    match first_item_from(dest, id, 0) {
        Some(k) => dest[k].1 + matching_total(src, id) <= u32::MAX,
        None => matching_total(src, id) <= u32::MAX,
    }
}

pub proof fn lemma_first_stock_from(v: Seq<SlotView>, id: Seq<char>, i: int)
    requires
        0 <= i,
    ensures
        match first_stock_from(v, id, i) {
            Some(k) => i <= k < v.len() && v[k].0 == id && v[k].1 > 0 && forall|j: int|
                i <= j < k ==> !(v[j].0 == id && v[j].1 > 0),
            None => forall|j: int| i <= j < v.len() ==> !(v[j].0 == id && v[j].1 > 0),
        },
    decreases v.len() - i,
{
    if i < v.len() && !(v[i].0 == id && v[i].1 > 0) {
        lemma_first_stock_from(v, id, i + 1);
    }
}

/// Moves the stacks taken from a cache, `source`, into `dest` when
/// `item_id` is moved (see `merged_into`): stacks of `item_id` merge, and
/// stacks of other items are kept, appended in order.
pub fn move_item_into_cache(dest: &mut Vec<ItemSlot>, item_id: &str, source: Vec<ItemSlot>)
    requires
        merge_fits(slots_view(old(dest)@), slots_view(source@), item_id@),
    ensures
        slots_view(final(dest)@) == merged_into(slots_view(old(dest)@), slots_view(source@), item_id@),
{
    let ghost d0 = slots_view(dest@);
    let ghost s = slots_view(source@);
    let ghost id = item_id@;
    let key_s = item_id.to_owned();
    let mut i: usize = 0;
    proof {
        lemma_first_item_from(d0, id, 0);
        assert(s.subrange(0, 0) =~= Seq::<SlotView>::empty());
    }
    while i < source.len()
        invariant
            0 <= i <= source@.len(),
            s == slots_view(source@),
            key_s@ == id,
            id == item_id@,
            match first_item_from(d0, id, 0) {
                Some(k) => d0[k].1 + matching_total(s, id) <= u32::MAX,
                None => matching_total(s, id) <= u32::MAX,
            },
            slots_view(dest@) == merged_matching(d0, s.subrange(0, i as int), id),
        decreases source@.len() - i,
    {
        let ghost p = s.subrange(0, i as int);
        let ghost q = s.subrange(0, i as int + 1);
        proof {
            assert(q.drop_last() =~= p);
            assert(matching_total(q, id) == matching_total(p, id) + (if s[i as int].0 == id { s[i as int].1 as int } else { 0 }));
            lemma_total_none_zero(p, id);
            assert(q.last() == s[i as int]);
            assert(s[i as int] == source@[i as int]@);
            lemma_total_prefix_le(s, id, i as int + 1);
            assert(q.subrange(0, i as int) =~= p);
            assert(q.subrange(0, i as int + 1) =~= q);
            lemma_first_item_prefix(q, id, i as int);
            lemma_first_item_from(d0, id, 0);
            lemma_first_item_from(p, id, 0);
            lemma_first_item_from(q, id, 0);
        }
        if source[i].item_id == key_s {
            let ghost cur = slots_view(dest@);
            let mut j: usize = 0;
            let mut found: bool = false;
            while j < dest.len()
                invariant_except_break
                    !found,
                invariant
                    0 <= j <= dest@.len(),
                    cur == slots_view(dest@),
                    key_s@ == id,
                    forall|t: int| 0 <= t < j ==> cur[t].0 != id,
                ensures
                    0 <= j <= dest@.len(),
                    forall|t: int| 0 <= t < j ==> cur[t].0 != id,
                    found ==> j < dest@.len() && cur[j as int].0 == id,
                    !found ==> j == dest@.len(),
                decreases dest@.len() - j,
            {
                proof {
                    assert(cur[j as int] == dest@[j as int]@);
                }
                if dest[j].item_id == key_s {
                    found = true;
                    break;
                }
                j += 1;
            }
            proof {
                lemma_first_item_from(cur, id, 0);
                lemma_first_item_from(d0, id, 0);
                lemma_total_prefix_le(s, id, i as int + 1);
                lemma_total_nonneg(p, id);
                if found {
                    match first_item_from(d0, id, 0) {
                        Some(k) => {
                            assert(cur[k].0 == id);
                            assert(forall|t: int| 0 <= t < k ==> cur[t] == d0[t]);
                            assert(j as int == k);
                        },
                        None => {
                            assert(forall|t: int| 0 <= t < d0.len() ==> cur[t] == d0[t]);
                            assert(j as int == d0.len());
                        },
                    }
                    assert(cur[j as int].1 + s[i as int].1 <= u32::MAX);
                }
            }
            if found {
                let add = source[i].count;
                let slot = &mut dest[j];
                slot.count = slot.count + add;
            } else {
                dest.push(source[i].clone());
            }
            proof {
                let nv = slots_view(dest@);
                match first_item_from(d0, id, 0) {
                    Some(k) => {
                        assert(cur == d0.update(k, (d0[k].0, (d0[k].1 + matching_total(p, id)) as u32, d0[k].2)));
                        assert(cur[k].0 == id);
                        assert(found);
                        assert(j as int == k);
                        assert(s[i as int].0 == id);
                        assert(matching_total(q, id) == matching_total(p, id) + s[i as int].1);
                        assert(nv =~= cur.update(k, (cur[k].0, (cur[k].1 + s[i as int].1) as u32, cur[k].2)));
                        assert(nv =~= d0.update(k, (d0[k].0, (d0[k].1 + matching_total(q, id)) as u32, d0[k].2)));
                    },
                    None => {
                        if found {
                            if first_item_from(p, id, 0) is None {
                                assert(cur == d0);
                                assert(false);
                            }
                            let j0 = first_item_from(p, id, 0)->0;
                            assert(first_item_from(q, id, 0) == Some(j0));
                            assert(p[j0] == s[j0]);
                            assert(cur == d0.push((s[j0].0, matching_total(p, id) as u32, s[j0].2)));
                            assert(nv =~= d0.push((s[j0].0, matching_total(q, id) as u32, s[j0].2)));
                        } else {
                            if first_item_from(p, id, 0) is Some {
                                let j0 = first_item_from(p, id, 0)->0;
                                assert(cur[d0.len() as int].0 == id);
                                assert(false);
                            }
                            assert(cur == d0);
                            assert(first_item_from(q, id, 0) == Some(i as int));
                            assert(nv =~= d0.push(s[i as int]));
                        }
                    },
                }
                assert(nv =~= merged_matching(d0, q, id));
            }
        } else {
            proof {
                assert(merged_matching(d0, q, id) == merged_matching(d0, p, id));
            }
        }
        i += 1;
    }
    proof {
        assert(s.subrange(0, i as int) =~= s);
        assert(other_stacks(s.subrange(0, 0), id) =~= Seq::<SlotView>::empty());
        assert(slots_view(dest@) =~= merged_matching(d0, s, id) + other_stacks(s.subrange(0, 0), id));
    }
    let ghost merged = slots_view(dest@);
    let mut i: usize = 0;
    while i < source.len()
        invariant
            0 <= i <= source@.len(),
            s == slots_view(source@),
            key_s@ == id,
            merged == merged_matching(d0, s, id),
            slots_view(dest@) == merged + other_stacks(s.subrange(0, i as int), id),
        decreases source@.len() - i,
    {
        let ghost q = s.subrange(0, i as int + 1);
        proof {
            assert(q.drop_last() =~= s.subrange(0, i as int));
            assert(q.last() == s[i as int]);
            assert(s[i as int] == source@[i as int]@);
        }
        if source[i].item_id != key_s {
            let ghost before = slots_view(dest@);
            dest.push(source[i].clone());
            proof {
                assert(slots_view(dest@) =~= before.push(s[i as int]));
                assert(slots_view(dest@) =~= merged + other_stacks(q, id));
            }
        }
        i += 1;
    }
    proof {
        assert(s.subrange(0, i as int) =~= s);
    }
}

proof fn lemma_total_prefix_le(s: Seq<SlotView>, id: Seq<char>, n: int)
    requires
        0 <= n <= s.len(),
    ensures
        0 <= matching_total(s.subrange(0, n), id) <= matching_total(s, id),
    decreases s.len() - n,
{
    lemma_total_nonneg(s.subrange(0, n), id);
    if n < s.len() {
        lemma_total_prefix_le(s, id, n + 1);
        assert(s.subrange(0, n + 1).drop_last() =~= s.subrange(0, n));
    } else {
        assert(s.subrange(0, n) =~= s);
    }
}

proof fn lemma_total_concat(a: Seq<SlotView>, b: Seq<SlotView>, x: Seq<char>)
    ensures
        matching_total(a + b, x) == matching_total(a, x) + matching_total(b, x),
    decreases b.len(),
{
    if b.len() == 0 {
        assert(a + b =~= a);
    } else {
        lemma_total_concat(a, b.drop_last(), x);
        assert((a + b).drop_last() =~= a + b.drop_last());
        assert((a + b).last() == b.last());
    }
}

proof fn lemma_total_others(s: Seq<SlotView>, id: Seq<char>, x: Seq<char>)
    ensures
        matching_total(other_stacks(s, id), x) == if x == id { 0 } else { matching_total(s, x) },
    decreases s.len(),
{
    if s.len() > 0 {
        lemma_total_others(s.drop_last(), id, x);
        let p = other_stacks(s.drop_last(), id);
        if s.last().0 != id {
            assert(p.push(s.last()).drop_last() =~= p);
        }
    }
}

proof fn lemma_total_update(d: Seq<SlotView>, k: int, e: SlotView, x: Seq<char>)
    requires
        0 <= k < d.len(),
    ensures
        matching_total(d.update(k, e), x) == matching_total(d, x) - (if d[k].0 == x { d[k].1 as int } else { 0 }) + (
        if e.0 == x { e.1 as int } else { 0 }),
    decreases d.len(),
{
    let u = d.update(k, e);
    if k == d.len() - 1 {
        assert(u.drop_last() =~= d.drop_last());
    } else {
        lemma_total_update(d.drop_last(), k, e, x);
        assert(u.drop_last() =~= d.drop_last().update(k, e));
    }
}

/// Moving stacks between caches loses nothing: for every item, the
/// destination afterwards holds what it held plus what the source held.
pub proof fn lemma_merged_into_keeps_totals(dest: Seq<SlotView>, src: Seq<SlotView>, id: Seq<char>, x: Seq<char>)
    requires
        merge_fits(dest, src, id),
    ensures
        matching_total(merged_into(dest, src, id), x) == matching_total(dest, x) + matching_total(src, x),
{
    lemma_total_concat(merged_matching(dest, src, id), other_stacks(src, id), x);
    lemma_total_others(src, id, x);
    lemma_first_item_from(dest, id, 0);
    lemma_first_item_from(src, id, 0);
    lemma_total_none_zero(src, id);
    lemma_total_nonneg(src, id);
    match first_item_from(dest, id, 0) {
        Some(k) => {
            lemma_total_update(dest, k, (dest[k].0, (dest[k].1 + matching_total(src, id)) as u32, dest[k].2), x);
        },
        None => {
            match first_match(src, id) {
                Some(j) => {
                    let e = (src[j].0, matching_total(src, id) as u32, src[j].2);
                    assert(dest.push(e).drop_last() =~= dest);
                },
                None => {},
            }
        },
    }
}

proof fn lemma_total_none_zero(s: Seq<SlotView>, id: Seq<char>)
    ensures
        first_item_from(s, id, 0) is None ==> matching_total(s, id) == 0,
    decreases s.len(),
{
    lemma_first_item_from(s, id, 0);
    if s.len() > 0 {
        let t = s.drop_last();
        lemma_first_item_from(t, id, 0);
        assert(forall|j: int| 0 <= j < t.len() ==> t[j] == s[j]);
        lemma_total_none_zero(t, id);
    }
}

proof fn lemma_total_nonneg(s: Seq<SlotView>, id: Seq<char>)
    ensures
        matching_total(s, id) >= 0,
    decreases s.len(),
{
    if s.len() > 0 {
        lemma_total_nonneg(s.drop_last(), id);
    }
}

/// `k` is the least key that bag `m` does not use.
pub open spec fn lowest_free_key(m: Map<u32, SlotView>, k: u32) -> bool {
    &&& !m.contains_key(k)
    &&& forall|j: u32| j < k ==> m.contains_key(j)
}

/// Result of granting `count` of item `id` to a bag: onto some slot
/// holding that item (any instance), or else a new stack under the least
/// unused key; other slots are untouched. A bag that uses every key and
/// holds no such slot is left as it was.
pub open spec fn granted(old: Map<u32, SlotView>, new: Map<u32, SlotView>, id: Seq<char>, count: u32) -> bool {
    if exists|k: u32| old.contains_key(k) && #[trigger] old[k].0 == id {
        exists|k: u32|
            old.contains_key(k) && #[trigger] old[k].0 == id && new == old.insert(
                k,
                (old[k].0, (old[k].1 + count) as u32, old[k].2),
            )
    } else if exists|k: u32| !#[trigger] old.contains_key(k) {
        exists|k: u32| #[trigger] lowest_free_key(old, k) && new == old.insert(k, (id, count, 0u32))
    } else {
        new == old
    }
}

/// A grant never loses anything: every stack of the bag is still there,
/// stacks of other items unchanged, and a stack of the granted item holds
/// at least as much as before.
pub proof fn lemma_grant_keeps_stacks(old: Map<u32, SlotView>, new: Map<u32, SlotView>, id: Seq<char>, count: u32)
    requires
        granted(old, new, id, count),
        grant_fits(old, id, count),
    ensures
        forall|k: u32| #[trigger] old.contains_key(k) ==> new.contains_key(k) && (old[k].0 != id ==> new[k] == old[k]) && (
        old[k].0 == id ==> new[k].0 == id && new[k].1 >= old[k].1),
{
    if exists|k: u32| old.contains_key(k) && #[trigger] old[k].0 == id {
        let k0 = choose|k: u32|
            old.contains_key(k) && #[trigger] old[k].0 == id && new == old.insert(k, (old[k].0, (old[k].1 + count) as u32, old[k].2));
        assert(old[k0].1 + count <= u32::MAX);
    } else if exists|k: u32| !#[trigger] old.contains_key(k) {
        let k0 = choose|k: u32| #[trigger] lowest_free_key(old, k) && new == old.insert(k, (id, count, 0u32));
        assert(!old.contains_key(k0));
    }
}

/// Grants made one after another never touch a stack of an item other than
/// those granted: such a stack is still in the bag, unchanged.
pub proof fn lemma_granted_all_keeps_other_items(old: Map<u32, SlotView>, new: Map<u32, SlotView>, items: Seq<(Seq<char>, u32)>)
    requires
        granted_all(old, new, items),
    ensures
        forall|k: u32|
            #[trigger] old.contains_key(k) && (forall|i: int| 0 <= i < items.len() ==> items[i].0 != old[k].0) ==> new.contains_key(k)
                && new[k] == old[k],
    decreases items.len(),
{
    let ms = choose|ms: Seq<Map<u32, SlotView>>| #[trigger] granted_chain(ms, items) && ms[0] == old && ms.last() == new;
    if items.len() > 0 {
        let n = items.len() as int;
        let ms2 = ms.drop_last();
        let it2 = items.drop_last();
        assert forall|i: int| 0 <= i < it2.len() implies #[trigger] granted(ms2[i], ms2[i + 1], it2[i].0, it2[i].1) by {
            assert(granted(ms[i], ms[i + 1], items[i].0, items[i].1));
        }
        assert(granted_chain(ms2, it2));
        let mid = ms2.last();
        lemma_granted_all_keeps_other_items(old, mid, it2);
        let it = items[n - 1];
        assert(granted(ms[n - 1], ms[n], it.0, it.1));
        assert forall|k: u32|
            #[trigger] old.contains_key(k) && (forall|i: int| 0 <= i < items.len() ==> items[i].0 != old[k].0) implies new.contains_key(k)
                && new[k] == old[k] by {
            assert forall|i: int| 0 <= i < it2.len() implies it2[i].0 != old[k].0 by {
                assert(it2[i] == items[i]);
            }
            assert(mid.contains_key(k) && mid[k] == old[k]);
            assert(it.0 != old[k].0);
            if exists|k2: u32| mid.contains_key(k2) && #[trigger] mid[k2].0 == it.0 {
                let k2 = choose|k2: u32|
                    mid.contains_key(k2) && #[trigger] mid[k2].0 == it.0 && new == mid.insert(
                        k2,
                        (mid[k2].0, (mid[k2].1 + it.1) as u32, mid[k2].2),
                    );
                assert(k2 != k);
            } else if exists|k2: u32| !#[trigger] mid.contains_key(k2) {
                let k2 = choose|k2: u32| #[trigger] lowest_free_key(mid, k2) && new == mid.insert(k2, (it.0, it.1, 0u32));
                assert(k2 != k);
            }
        }
    }
}

/// Granting `count` of `id` to bag `m` stays within the count range.
pub open spec fn grant_fits(m: Map<u32, SlotView>, id: Seq<char>, count: u32) -> bool {
    forall|k: u32| m.contains_key(k) && #[trigger] m[k].0 == id ==> m[k].1 + count <= u32::MAX
}

/// `ms` lists the bag after each grant in turn.
pub open spec fn granted_chain(ms: Seq<Map<u32, SlotView>>, items: Seq<(Seq<char>, u32)>) -> bool {
    &&& ms.len() == items.len() + 1
    &&& forall|i: int| 0 <= i < items.len() ==> #[trigger] granted(ms[i], ms[i + 1], items[i].0, items[i].1)
}

/// Result of granting `items` one after another (see `granted`).
pub open spec fn granted_all(old: Map<u32, SlotView>, new: Map<u32, SlotView>, items: Seq<(Seq<char>, u32)>) -> bool {
    exists|ms: Seq<Map<u32, SlotView>>| #[trigger] granted_chain(ms, items) && ms[0] == old && ms.last() == new
}

/// Granting `items` one after another never overflows a stack.
pub open spec fn grant_all_fits(old: Map<u32, SlotView>, items: Seq<(Seq<char>, u32)>) -> bool {
    forall|i: int, mid: Map<u32, SlotView>|
        0 <= i < items.len() && #[trigger] granted_all(old, mid, items.subrange(0, i)) ==> grant_fits(
            mid,
            items[i].0,
            items[i].1,
        )
}

/// Grants `count` of `item_id` to a bag (see `granted`).
pub fn grant_to_bag(inv: &mut InventoryState, item_id: &str, count: u32)
    requires
        grant_fits(bag_view(old(inv).items@), item_id@, count),
    ensures
        granted(bag_view(old(inv).items@), bag_view(final(inv).items@), item_id@, count),
{
    let keys = map_keys(&inv.items);
    let ghost m = inv.items@;
    let ghost mv = bag_view(m);
    let key_s = item_id.to_owned();
    let mut i: usize = 0;
    while i < keys.len()
        invariant
            0 <= i <= keys.len(),
            inv.items@ == m,
            m == old(inv).items@,
            mv == bag_view(m),
            key_s@ == item_id@,
            keys@.to_set() == m.dom(),
            grant_fits(mv, item_id@, count),
            forall|j: int| 0 <= j < i ==> !(mv.contains_key(#[trigger] keys@[j]) && mv[keys@[j]].0 == item_id@),
        decreases keys.len() - i,
    {
        let k = keys[i];
        proof {
            assert(keys@.to_set().contains(k));
        }
        let hit = match inv.items.get(&k) {
            Some(slot) => slot.item_id == key_s,
            None => false,
        };
        if hit {
            proof {
                assert(mv.contains_key(k) && mv[k].0 == item_id@);
            }
            match map_get_mut(&mut inv.items, k) {
                Some(slot) => {
                    slot.count = slot.count + count;
                },
                None => {},
            }
            proof {
                assert(bag_view(inv.items@) =~= mv.insert(k, (mv[k].0, (mv[k].1 + count) as u32, mv[k].2)));
            }
            return;
        }
        i += 1;
    }
    proof {
        assert forall|k: u32| !(mv.contains_key(k) && #[trigger] mv[k].0 == item_id@) by {
            if mv.contains_key(k) {
                assert(keys@.to_set().contains(k));
                let j = choose|j: int| 0 <= j < keys@.len() && keys@[j] == k;
                assert(!(mv.contains_key(keys@[j]) && mv[keys@[j]].0 == item_id@));
            }
        }
    }
    let mut key: u32 = 0;
    while inv.items.contains_key(&key) && key < u32::MAX
        invariant
            inv.items@ == m,
            mv == bag_view(m),
            forall|j: u32| j < key ==> m.contains_key(j),
        decreases u32::MAX - key,
    {
        key = key + 1;
    }
    if inv.items.contains_key(&key) {
        proof {
            assert forall|k: u32| #[trigger] mv.contains_key(k) by {
                if k >= key {
                    assert(k == key);
                }
            }
        }
        return;
    }
    inv.items.insert(key, ItemSlot { item_id: key_s, count, inst_id: 0 });
    proof {
        assert(lowest_free_key(mv, key));
        assert(bag_view(inv.items@) =~= mv.insert(key, (item_id@, count, 0u32)));
    }
}

/// Extends a grant chain by one grant.
pub proof fn lemma_granted_step(
    old: Map<u32, SlotView>,
    ms: Seq<Map<u32, SlotView>>,
    items: Seq<(Seq<char>, u32)>,
    new: Map<u32, SlotView>,
    item: (Seq<char>, u32),
)
    requires
        granted_chain(ms, items),
        ms[0] == old,
        granted(ms.last(), new, item.0, item.1),
    ensures
        granted_chain(ms.push(new), items.push(item)),
        ms.push(new)[0] == old,
        granted_all(old, new, items.push(item)),
{
    let ms2 = ms.push(new);
    let it2 = items.push(item);
    assert forall|i: int| 0 <= i < it2.len() implies #[trigger] granted(ms2[i], ms2[i + 1], it2[i].0, it2[i].1) by {
        if i < items.len() {
            assert(granted(ms[i], ms[i + 1], items[i].0, items[i].1));
        }
    }
    assert(granted_chain(ms2, it2));
}

/// The empty grant chain.
pub proof fn lemma_granted_none(old: Map<u32, SlotView>)
    ensures
        granted_chain(seq![old], Seq::<(Seq<char>, u32)>::empty()),
        granted_all(old, old, Seq::<(Seq<char>, u32)>::empty()),
{
    assert(granted_chain(seq![old], Seq::<(Seq<char>, u32)>::empty()));
}

} // verus!
