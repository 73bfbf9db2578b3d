//! The recycler: committed materials add their value; every full round of
//! value runs the product timer, and a product whose time has come goes
//! to temporary storage (while there is room) until it is fetched into
//! the bag.
use vstd::prelude::*;

use super::bag::{bag_ready, fell_short, region_bag, regions_bag_changed, took};
use super::component::{InventoryState, ItemSlot, bag_view, slots_view};
use super::inventory::{inv_total, try_consume_from_inv};
use super::manager::FactoryManager;
use super::slots::{SlotView, lowest_free_key};
use super::table::{FactoryTable, RecyclerConst};
use super::tick::{Tick, current_tick, elapsed_between, spec_elapsed};
use super::RecyclerMachine;
use crate::util::map_keys;

verus! {

broadcast use vstd::std_specs::hash::group_hash_axioms;

/// A material offered to the recycler.
#[derive(Debug, Clone)]
pub struct CommitMaterial {
    pub item_id: String,
    pub count: u32,
}

/// The materials as (item id, count) pairs.
pub open spec fn material_views(mats: Seq<CommitMaterial>) -> Seq<(Seq<char>, u32)> {
    mats.map_values(|m: CommitMaterial| (m.item_id@, m.count))
}

/// The value one item of `id` adds, for recyclable items.
pub open spec fn material_value(table: FactoryTable, id: Seq<char>) -> Option<u64> {
    if table.recycler_materials@.contains_key(id) {
        Some(table.recycler_materials@[id])
    } else {
        None
    }
}

/// One material offered: a recyclable one is taken whole when the bag
/// holds it, adding its value times the count; when the bag does not,
/// every stack of it is drained and nothing is added. Others are skipped.
pub open spec fn recycle_step(b: Map<u32, ItemSlot>, b2: Map<u32, ItemSlot>, m: (Seq<char>, u32), value: Option<u64>, v0: int, v1: int) -> bool {
    match value {
        None => b2 == b && v1 == v0,
        Some(v) => if inv_total(b, m.0) >= m.1 {
            took(b, b2, m.0, m.1 as int) && v1 == v0 + v * m.1
        } else {
            fell_short(b, b2, m.0, m.1 as int) && v1 == v0
        },
    }
}

/// `bs` and `vs` list the bag and the value added after each material.
pub open spec fn recycle_chain(bs: Seq<Map<u32, ItemSlot>>, vs: Seq<int>, mats: Seq<(Seq<char>, u32)>, table: FactoryTable) -> bool {
    &&& bs.len() == mats.len() + 1
    &&& vs.len() == mats.len() + 1
    &&& vs[0] == 0
    &&& forall|i: int|
        0 <= i < mats.len() ==> #[trigger] recycle_step(bs[i], bs[i + 1], mats[i], material_value(table, mats[i].0), vs[i], vs[i + 1])
}

/// Offering `mats` in order turned bag `b0` into `b1`, adding value `v`.
pub open spec fn recycled(b0: Map<u32, ItemSlot>, b1: Map<u32, ItemSlot>, mats: Seq<(Seq<char>, u32)>, table: FactoryTable, v: int) -> bool {
    exists|bs: Seq<Map<u32, ItemSlot>>, vs: Seq<int>|
        #[trigger] recycle_chain(bs, vs, mats, table) && bs[0] == b0 && bs.last() == b1 && vs.last() == v
}

/// The value all recyclable materials of `mats` could add.
pub open spec fn offered_value(mats: Seq<(Seq<char>, u32)>, table: FactoryTable) -> int
    decreases mats.len(),
{
    if mats.len() == 0 {
        0
    } else {
        offered_value(mats.drop_last(), table) + match material_value(table, mats.last().0) {
            Some(v) => v * mats.last().1,
            None => 0,
        }
    }
}

/// One round of value: the timer starts at `now` if it was stopped; when
/// it has run `gen` ticks, a product is stored (if the table lists one
/// and storage holds fewer than `cap`) and the timer stops.
pub open spec fn round_step(
    acc: int,
    timer: Option<Tick>,
    stored: int,
    need: int,
    gen: u64,
    now: Tick,
    has_product: bool,
    cap: i32,
) -> (int, Option<Tick>, int) {
    let t = if timer is None { Some(now) } else { timer };
    if spec_elapsed(now, t->0) >= gen {
        (acc - need, None, if has_product && (stored as i32) < cap { stored + 1 } else { stored })
    } else {
        (acc - need, t, stored)
    }
}

/// Rounds run while the value covers one: (value left, timer, stored).
pub open spec fn run_rounds(
    acc: int,
    timer: Option<Tick>,
    stored: int,
    need: int,
    gen: u64,
    now: Tick,
    has_product: bool,
    cap: i32,
) -> (int, Option<Tick>, int)
    decreases acc,
{
    if need <= 0 || acc < need {
        (acc, timer, stored)
    } else {
        let s = round_step(acc, timer, stored, need, gen, now, has_product, cap);
        run_rounds(s.0, s.1, s.2, need, gen, now, has_product, cap)
    }
}

/// The recycler of region `name`, a fresh one when there is none.
pub open spec fn recycler_or_fresh(m: FactoryManager, name: Seq<char>) -> (u64, Option<Tick>, Seq<SlotView>) {
    if m.recycler_state@.contains_key(name) {
        let r = m.recycler_state@[name];
        (r.accumulated_value, r.product_timer_start, slots_view(r.temp_storage@))
    } else {
        (0, None, Seq::empty())
    }
}

/// The product timer after a fetch at `now`: a timer that has run its
/// generation time stops.
pub open spec fn timer_after_fetch(start: Option<Tick>, now: Tick, gen_time: u64) -> Option<Tick> {
    if start matches Some(st) && spec_elapsed(now, st) >= gen_time {
        None
    } else {
        start
    }
}

/// Only the regions and the recyclers of `old` changed in `new`.
pub open spec fn regions_recyclers_only(old: FactoryManager, new: FactoryManager) -> bool {
    &&& new.current_region == old.current_region
    &&& new.quickbars == old.quickbars
    &&& new.stt_state == old.stt_state
    &&& new.manufacture_state == old.manufacture_state
    &&& new.processor_state == old.processor_state
    &&& new.trade_state == old.trade_state
    &&& new.workshop_state == old.workshop_state
    &&& new.soil_state == old.soil_state
    &&& new.manual_work_state == old.manual_work_state
    &&& new.character_work_state == old.character_work_state
}

/// What committing `mats` at tick `now` does: refused, changing nothing,
/// without a bag; refused with the drained bag when nothing was
/// recycled; else the value is added and the rounds run (see
/// `run_rounds`), new products being the table's first product.
pub open spec fn commit_outcome(
    old: FactoryManager,
    new: FactoryManager,
    table: FactoryTable,
    rc: RecyclerConst,
    name: Seq<char>,
    mats: Seq<(Seq<char>, u32)>,
    now: Tick,
    r: bool,
) -> bool {
    if !bag_ready(old, name) {
        !r && new == old
    } else {
        exists|b1: Map<u32, ItemSlot>, v: int|
            #[trigger] recycled(region_bag(old, name), b1, mats, table, v) && commit_settled(old, new, table, rc, name, now, b1, v, r)
    }
}

/// How a commit settles once the bag became `b1` and value `v` was added.
pub open spec fn commit_settled(
    old: FactoryManager,
    new: FactoryManager,
    table: FactoryTable,
    rc: RecyclerConst,
    name: Seq<char>,
    now: Tick,
    b1: Map<u32, ItemSlot>,
    v: int,
    r: bool,
) -> bool {
    &&& regions_recyclers_only(old, new)
    &&& region_bag(new, name) == b1
    &&& regions_bag_changed(old.regions@, new.regions@, name, bag_view(b1))
    &&& v == 0 ==> !r && new.recycler_state == old.recycler_state
    &&& v > 0 ==> {
        let m0 = recycler_or_fresh(old, name);
        let res = run_rounds(
            m0.0 + v,
            m0.1,
            m0.2.len() as int,
            rc.rec_round_need_value as int,
            rc.rec_basic_generate_time,
            now,
            table.recycler_product_ids@.len() > 0,
            rc.rec_temp_storage_length,
        );
        let m1 = new.recycler_state@[name];
        &&& r
        &&& new.recycler_state@ == old.recycler_state@.insert(name, m1)
        &&& m1.accumulated_value == res.0
        &&& m1.product_timer_start == res.1
        &&& slots_view(m1.temp_storage@).len() == res.2
        &&& slots_view(m1.temp_storage@).subrange(0, m0.2.len() as int) == m0.2
        &&& forall|j: int|
            m0.2.len() <= j < res.2 ==> #[trigger] slots_view(m1.temp_storage@)[j] == (
                table.recycler_product_ids@[0]@,
                1u32,
                0u32,
            )
        &&& old.recycler_state@.contains_key(name) ==> m1.region_name == old.recycler_state@[name].region_name
        &&& !old.recycler_state@.contains_key(name) ==> m1.region_name@ == name
    }
}

/// Committing `mats` stays within the counters: the offered value, and
/// the recycler's value with it, fit.
pub open spec fn commit_fits(m: FactoryManager, table: FactoryTable, name: Seq<char>, mats: Seq<(Seq<char>, u32)>) -> bool {
    &&& offered_value(mats, table) <= u64::MAX
    &&& recycler_or_fresh(m, name).0 + offered_value(mats, table) <= u64::MAX
}

proof fn lemma_offered_prefix(mats: Seq<(Seq<char>, u32)>, table: FactoryTable, n: int)
    requires
        0 <= n <= mats.len(),
    ensures
        offered_value(mats.subrange(0, n), table) <= offered_value(mats, table),
        offered_value(mats.subrange(0, n), table) >= 0,
    decreases mats.len() - n,
{
    lemma_offered_nonneg(mats.subrange(0, n), table);
    if n < mats.len() {
        lemma_offered_prefix(mats, table, n + 1);
        assert(mats.subrange(0, n + 1).drop_last() =~= mats.subrange(0, n));
        match material_value(table, mats[n].0) {
            Some(v) => {
                assert(v * mats[n].1 >= 0) by (nonlinear_arith)
                    requires
                        v >= 0,
                        mats[n].1 >= 0,
                ;
            },
            None => {},
        }
    } else {
        assert(mats.subrange(0, n) =~= mats);
        lemma_offered_nonneg(mats, table);
    }
}

proof fn lemma_offered_nonneg(mats: Seq<(Seq<char>, u32)>, table: FactoryTable)
    ensures
        offered_value(mats, table) >= 0,
    decreases mats.len(),
{
    if mats.len() > 0 {
        lemma_offered_nonneg(mats.drop_last(), table);
        match material_value(table, mats.last().0) {
            Some(v) => {
                assert(v * mats.last().1 >= 0) by (nonlinear_arith)
                    requires
                        v >= 0,
                        mats.last().1 >= 0,
                ;
            },
            None => {},
        }
    }
}

/// Offers each material to the bag in order (see `recycled`); returns the
/// value added.
fn recycle_materials(inv: &mut InventoryState, table: &FactoryTable, mats: &Vec<CommitMaterial>) -> (v: u64)
    requires
        offered_value(material_views(mats@), *table) <= u64::MAX,
    ensures
        recycled(old(inv).items@, final(inv).items@, material_views(mats@), *table, v as int),
        v <= offered_value(material_views(mats@), *table),
{
    let ghost mv = material_views(mats@);
    let ghost b0 = inv.items@;
    let ghost mut bs: Seq<Map<u32, ItemSlot>> = seq![b0];
    let ghost mut vs: Seq<int> = seq![0int];
    let mut total: u64 = 0;
    proof {
        assert(recycle_chain(bs, vs, mv.subrange(0, 0), *table));
        assert(mv.subrange(0, 0) =~= Seq::<(Seq<char>, u32)>::empty());
    }
    let mut i: usize = 0;
    while i < mats.len()
        invariant
            0 <= i <= mats@.len(),
            mv == material_views(mats@),
            offered_value(mv, *table) <= u64::MAX,
            b0 == old(inv).items@,
            recycle_chain(bs, vs, mv.subrange(0, i as int), *table),
            bs[0] == b0,
            bs.last() == inv.items@,
            vs.last() == total as int,
            total <= offered_value(mv.subrange(0, i as int), *table),
        decreases mats@.len() - i,
    {
        let m = &mats[i];
        let ghost cur = inv.items@;
        let ghost t0 = total as int;
        proof {
            assert(mv[i as int] == (m.item_id@, m.count));
            assert(mv.subrange(0, i + 1).drop_last() =~= mv.subrange(0, i as int));
            lemma_offered_prefix(mv, *table, i + 1);
        }
        match table.recycler_materials.get(m.item_id.as_str()) {
            Some(value) => {
                if try_consume_from_inv(inv, m.item_id.as_str(), m.count) {
                    proof {
                        assert(*value * m.count <= u64::MAX);
                    }
                    total = total + *value * (m.count as u64);
                }
            },
            None => {},
        }
        proof {
            let m2 = mv.subrange(0, i + 1);
            let bs2 = bs.push(inv.items@);
            let vs2 = vs.push(total as int);
            assert(recycle_step(cur, inv.items@, mv[i as int], material_value(*table, mv[i as int].0), t0, total as int));
            assert forall|j: int| 0 <= j < m2.len() implies #[trigger] recycle_step(
                bs2[j],
                bs2[j + 1],
                m2[j],
                material_value(*table, m2[j].0),
                vs2[j],
                vs2[j + 1],
            ) by {
                if j < i {
                    assert(m2[j] == mv.subrange(0, i as int)[j]);
                }
            }
            assert(recycle_chain(bs2, vs2, m2, *table));
            bs = bs2;
            vs = vs2;
        }
        i += 1;
    }
    proof {
        assert(mv.subrange(0, mats@.len() as int) =~= mv);
    }
    total
}

/// Runs the rounds on a recycler (see `run_rounds`).
fn run_recycler_rounds(m: &mut RecyclerMachine, need: u64, gen: u64, now: Tick, product: Option<&String>, cap: i32)
    requires
        need > 0,
    ensures
        ({
            let res = run_rounds(
                old(m).accumulated_value as int,
                old(m).product_timer_start,
                old(m).temp_storage@.len() as int,
                need as int,
                gen,
                now,
                product is Some,
                cap,
            );
            &&& final(m).accumulated_value == res.0
            &&& final(m).product_timer_start == res.1
            &&& final(m).temp_storage@.len() == res.2
            &&& slots_view(final(m).temp_storage@).subrange(0, old(m).temp_storage@.len() as int) == slots_view(old(m).temp_storage@)
            &&& forall|j: int|
                old(m).temp_storage@.len() <= j < res.2 ==> #[trigger] slots_view(final(m).temp_storage@)[j] == (
                    product->0@,
                    1u32,
                    0u32,
                )
        }),
        final(m).region_name == old(m).region_name,
        product is None ==> final(m).temp_storage@.len() == old(m).temp_storage@.len(),
{
    let ghost m0 = *m;
    let ghost res = run_rounds(
        m0.accumulated_value as int,
        m0.product_timer_start,
        m0.temp_storage@.len() as int,
        need as int,
        gen,
        now,
        product is Some,
        cap,
    );
    while m.accumulated_value >= need
        invariant
            need > 0,
            run_rounds(
                m.accumulated_value as int,
                m.product_timer_start,
                m.temp_storage@.len() as int,
                need as int,
                gen,
                now,
                product is Some,
                cap,
            ) == res,
            m.temp_storage@.len() >= m0.temp_storage@.len(),
            slots_view(m.temp_storage@).subrange(0, m0.temp_storage@.len() as int) == slots_view(m0.temp_storage@),
            forall|j: int|
                m0.temp_storage@.len() <= j < m.temp_storage@.len() ==> #[trigger] slots_view(m.temp_storage@)[j] == (
                    product->0@,
                    1u32,
                    0u32,
                ),
            m.region_name == m0.region_name,
            product is None ==> m.temp_storage@.len() == m0.temp_storage@.len(),
        decreases m.accumulated_value,
    {
        m.accumulated_value = m.accumulated_value - need;
        if m.product_timer_start.is_none() {
            m.product_timer_start = Some(now);
        }
        match m.product_timer_start {
            Some(start) => {
                if elapsed_between(now, start) >= gen {
                    let len: i32 = #[verifier::truncate] (m.temp_storage.len() as i32);
                    match product {
                        Some(p) => {
                            if len < cap {
                                let ghost before = m.temp_storage@;
                                m.temp_storage.push(ItemSlot { item_id: p.clone(), count: 1, inst_id: 0 });
                                proof {
                                    assert(slots_view(m.temp_storage@) =~= slots_view(before).push((p@, 1u32, 0u32)));
                                }
                            }
                        },
                        None => {},
                    }
                    m.product_timer_start = None;
                }
            },
            None => {},
        }
    }
}

/// `new` is bag `old` after taking `item`: onto some slot of the same
/// item, else as a new stack under the least unused key; other slots are
/// untouched. A bag that uses every key and holds no such slot is left as
/// it was.
pub open spec fn given(old: Map<u32, SlotView>, new: Map<u32, SlotView>, item: SlotView) -> bool {
    if exists|k: u32| old.contains_key(k) && #[trigger] old[k].0 == item.0 {
        exists|k: u32|
            old.contains_key(k) && #[trigger] old[k].0 == item.0 && new == old.insert(k, (old[k].0, (old[k].1 + item.1) as u32, old[k].2))
    } else if exists|k: u32| !#[trigger] old.contains_key(k) {
        exists|k: u32| #[trigger] lowest_free_key(old, k) && new == old.insert(k, item)
    } else {
        new == old
    }
}

/// `ms` lists the bag after each item is given in turn.
pub open spec fn given_chain(ms: Seq<Map<u32, SlotView>>, items: Seq<SlotView>) -> bool {
    &&& ms.len() == items.len() + 1
    &&& forall|i: int| 0 <= i < items.len() ==> #[trigger] given(ms[i], ms[i + 1], items[i])
}

/// Bag `old` became `new` by taking `items` in turn.
pub open spec fn given_all(old: Map<u32, SlotView>, new: Map<u32, SlotView>, items: Seq<SlotView>) -> bool {
    exists|ms: Seq<Map<u32, SlotView>>| #[trigger] given_chain(ms, items) && ms[0] == old && ms.last() == new
}

/// Total count of `items`.
pub open spec fn count_sum(items: Seq<SlotView>) -> int
    decreases items.len(),
{
    if items.len() == 0 { 0 } else { count_sum(items.drop_last()) + items.last().1 }
}

proof fn lemma_count_sum_split(items: Seq<SlotView>, i: int)
    requires
        0 <= i < items.len(),
    ensures
        count_sum(items.subrange(i, items.len() as int)) == items[i].1 + count_sum(items.subrange(i + 1, items.len() as int)),
    decreases items.len() - i,
{
    let n = items.len() as int;
    if i + 1 == n {
        assert(items.subrange(i, n).drop_last() =~= Seq::<SlotView>::empty());
        assert(items.subrange(i + 1, n) =~= Seq::<SlotView>::empty());
    } else {
        lemma_count_sum_split(items.drop_last(), i);
        assert(items.subrange(i, n).drop_last() =~= items.drop_last().subrange(i, n - 1));
        assert(items.subrange(i + 1, n).drop_last() =~= items.drop_last().subrange(i + 1, n - 1));
    }
}

/// Gives `item` to a bag (see `given`).
fn give_to_bag(inv: &mut InventoryState, item: &ItemSlot)
    requires
        forall|k: u32| old(inv).items@.contains_key(k) && #[trigger] old(inv).items@[k].item_id@ == item.item_id@
            ==> old(inv).items@[k].count + item.count <= u32::MAX,
    ensures
        given(bag_view(old(inv).items@), bag_view(final(inv).items@), item@),
{
    let keys = map_keys(&inv.items);
    let ghost m = inv.items@;
    let ghost mv = bag_view(m);
    let mut i: usize = 0;
    while i < keys.len()
        invariant
            0 <= i <= keys.len(),
            inv.items@ == m,
            m == old(inv).items@,
            mv == bag_view(m),
            keys@.to_set() == m.dom(),
            forall|k: u32| m.contains_key(k) && #[trigger] m[k].item_id@ == item.item_id@ ==> m[k].count + item.count <= u32::MAX,
            forall|j: int| 0 <= j < i ==> !(mv.contains_key(#[trigger] keys@[j]) && mv[keys@[j]].0 == item.item_id@),
        decreases keys.len() - i,
    {
        let k = keys[i];
        proof {
            assert(keys@.to_set().contains(k));
        }
        let hit = match inv.items.get(&k) {
            Some(slot) => slot.item_id == item.item_id,
            None => false,
        };
        if hit {
            match crate::util::map_get_mut(&mut inv.items, k) {
                Some(slot) => {
                    slot.count = slot.count + item.count;
                },
                None => {},
            }
            proof {
                assert(bag_view(inv.items@) =~= mv.insert(k, (mv[k].0, (mv[k].1 + item.count) as u32, mv[k].2)));
            }
            return;
        }
        i += 1;
    }
    proof {
        assert forall|k: u32| !(mv.contains_key(k) && #[trigger] mv[k].0 == item.item_id@) by {
            if mv.contains_key(k) {
                assert(keys@.to_set().contains(k));
                let j = choose|j: int| 0 <= j < keys@.len() && keys@[j] == k;
                assert(!(mv.contains_key(keys@[j]) && mv[keys@[j]].0 == item.item_id@));
            }
        }
    }
    let mut key: u32 = 0;
    while inv.items.contains_key(&key) && key < u32::MAX
        invariant
            inv.items@ == m,
            mv == bag_view(m),
            forall|j: u32| j < key ==> m.contains_key(j),
        decreases u32::MAX - key,
    {
        key = key + 1;
    }
    if inv.items.contains_key(&key) {
        proof {
            assert forall|k: u32| #[trigger] mv.contains_key(k) by {
                if k >= key {
                    assert(k == key);
                }
            }
        }
        return;
    }
    inv.items.insert(key, ItemSlot { item_id: item.item_id.clone(), count: item.count, inst_id: item.inst_id });
    proof {
        assert(lowest_free_key(mv, key));
        assert(bag_view(inv.items@) =~= mv.insert(key, item@));
    }
}

/// Gives every item to a bag, in order (see `given_all`).
fn give_all_to_bag(inv: &mut InventoryState, items: &Vec<ItemSlot>)
    requires
        count_sum(slots_view(items@)) <= u32::MAX,
        forall|k: u32| old(inv).items@.contains_key(k) ==> #[trigger] old(inv).items@[k].count + count_sum(slots_view(items@)) <= u32::MAX,
    ensures
        given_all(bag_view(old(inv).items@), bag_view(final(inv).items@), slots_view(items@)),
{
    let ghost sv = slots_view(items@);
    let ghost n = items@.len() as int;
    let ghost b0 = bag_view(inv.items@);
    let ghost mut ms: Seq<Map<u32, SlotView>> = seq![b0];
    proof {
        assert(given_chain(ms, sv.subrange(0, 0)));
        assert(sv.subrange(0, n) =~= sv);
    }
    let mut i: usize = 0;
    while i < items.len()
        invariant
            0 <= i <= n,
            n == items@.len(),
            sv == slots_view(items@),
            b0 == bag_view(old(inv).items@),
            count_sum(sv.subrange(i as int, n)) <= u32::MAX,
            forall|k: u32| inv.items@.contains_key(k) ==> #[trigger] inv.items@[k].count + count_sum(sv.subrange(i as int, n)) <= u32::MAX,
            given_chain(ms, sv.subrange(0, i as int)),
            ms[0] == b0,
            ms.last() == bag_view(inv.items@),
        decreases n - i,
    {
        let it = &items[i];
        let ghost cur = bag_view(inv.items@);
        let ghost cur_items = inv.items@;
        proof {
            lemma_count_sum_split(sv, i as int);
            assert(sv[i as int] == it@);
            lemma_count_sum_nonneg(sv.subrange(i + 1, n));
        }
        give_to_bag(inv, it);
        proof {
            let new = bag_view(inv.items@);
            let ms2 = ms.push(new);
            let s2 = sv.subrange(0, i + 1);
            assert forall|j: int| 0 <= j < s2.len() implies #[trigger] given(ms2[j], ms2[j + 1], s2[j]) by {
                if j < i {
                    assert(s2[j] == sv.subrange(0, i as int)[j]);
                }
            }
            ms = ms2;
            assert forall|k: u32| inv.items@.contains_key(k) implies #[trigger] inv.items@[k].count + count_sum(sv.subrange(i + 1, n)) <= u32::MAX by {
                assert(new.contains_key(k));
                assert(new[k].1 == inv.items@[k].count);
                if exists|k2: u32| cur.contains_key(k2) && #[trigger] cur[k2].0 == it@.0 {
                    let k2 = choose|k2: u32|
                        cur.contains_key(k2) && #[trigger] cur[k2].0 == it@.0 && new == cur.insert(
                            k2,
                            (cur[k2].0, (cur[k2].1 + it@.1) as u32, cur[k2].2),
                        );
                    assert(cur_items.contains_key(k2) && cur[k2].1 == cur_items[k2].count);
                    if k != k2 {
                        assert(cur_items.contains_key(k) && cur[k].1 == cur_items[k].count);
                    }
                } else if exists|k2: u32| !#[trigger] cur.contains_key(k2) {
                    let k0 = choose|k0: u32| #[trigger] lowest_free_key(cur, k0) && new == cur.insert(k0, it@);
                    if k != k0 {
                        assert(cur_items.contains_key(k) && cur[k].1 == cur_items[k].count);
                    }
                } else {
                    assert(cur_items.contains_key(k) && cur[k].1 == cur_items[k].count);
                }
            }
        }
        i += 1;
    }
}

proof fn lemma_count_sum_nonneg(items: Seq<SlotView>)
    ensures
        count_sum(items) >= 0,
    decreases items.len(),
{
    if items.len() > 0 {
        lemma_count_sum_nonneg(items.drop_last());
    }
}

impl FactoryManager {
    /// Commits `mats` to the recycler of `region_name` at tick `now` (see
    /// `commit_outcome`). True when some value was added.
    pub fn recycler_commit_material_at(
        &mut self,
        table: &FactoryTable,
        rc: &RecyclerConst,
        region_name: &str,
        node_id: u32,
        mats: &Vec<CommitMaterial>,
        now: Tick,
    ) -> (r: bool)
        requires
            rc.rec_round_need_value > 0,
            commit_fits(*old(self), *table, region_name@, material_views(mats@)),
        ensures
            commit_outcome(*old(self), *final(self), *table, *rc, region_name@, material_views(mats@), now, r),
    {
        let ghost m0 = *self;
        let value_added = match self.region_bag_mut(region_name) {
            Some(bag) => recycle_materials(bag, table, mats),
            None => return false,
        };
        let ghost after_bag = *self;
        let ghost b1 = region_bag(after_bag, region_name@);
        if value_added == 0 {
            proof {
                assert(commit_settled(m0, *self, *table, *rc, region_name@, now, b1, value_added as int, false));
            }
            return false;
        }
        if !self.recycler_state.contains_key(region_name) {
            self.recycler_state.insert(
                region_name.to_owned(),
                RecyclerMachine {
                    region_name: region_name.to_owned(),
                    accumulated_value: 0,
                    temp_storage: Vec::new(),
                    product_timer_start: None,
                },
            );
        }
        let product: Option<&String> = if table.recycler_product_ids.len() > 0 {
            Some(&table.recycler_product_ids[0])
        } else {
            None
        };
        let ghost mid = *self;
        proof {
            assert(product matches Some(p) ==> p@ == table.recycler_product_ids@[0]@);
            assert(mid.recycler_state@[region_name@].accumulated_value == recycler_or_fresh(m0, region_name@).0);
            assert(slots_view(mid.recycler_state@[region_name@].temp_storage@) =~= recycler_or_fresh(m0, region_name@).2);
        }
        let m = self.recycler_state.get_mut(region_name).unwrap();
        m.accumulated_value = m.accumulated_value + value_added;
        run_recycler_rounds(m, rc.rec_round_need_value, rc.rec_basic_generate_time, now, product, rc.rec_temp_storage_length);
        proof {
            assert(self.recycler_state@ =~= m0.recycler_state@.insert(region_name@, self.recycler_state@[region_name@]));
            assert(slots_view(mid.recycler_state@[region_name@].temp_storage@).len() == mid.recycler_state@[region_name@].temp_storage@.len());
            assert(commit_settled(m0, *self, *table, *rc, region_name@, now, b1, value_added as int, true));
        }
        true
    }

    /// Fetches the stored products of the recycler of `region_name` at
    /// tick `now`: a timer that has run its time stops, storage is
    /// emptied into the bag (when there is one), and the products are
    /// returned. Nothing happens without a recycler.
    pub fn recycler_fetch_product_at(&mut self, rc: &RecyclerConst, region_name: &str, node_id: u32, now: Tick) -> (r: Vec<ItemSlot>)
        requires
            old(self).recycler_state@.contains_key(region_name@) && bag_ready(*old(self), region_name@) ==> ({
                let s = count_sum(slots_view(old(self).recycler_state@[region_name@].temp_storage@));
                &&& s <= u32::MAX
                &&& forall|k: u32| region_bag(*old(self), region_name@).contains_key(k) ==> #[trigger] region_bag(*old(self), region_name@)[k].count + s <= u32::MAX
            }),
        ensures
            !old(self).recycler_state@.contains_key(region_name@) ==> r@.len() == 0 && *final(self) == *old(self),
            old(self).recycler_state@.contains_key(region_name@) ==> {
                let m0 = old(self).recycler_state@[region_name@];
                let m1 = final(self).recycler_state@[region_name@];
                &&& r@ == m0.temp_storage@
                &&& final(self).recycler_state@ == old(self).recycler_state@.insert(region_name@, m1)
                &&& m1.temp_storage@.len() == 0
                &&& m1.accumulated_value == m0.accumulated_value
                &&& m1.region_name == m0.region_name
                &&& m1.product_timer_start == (if m0.product_timer_start matches Some(st) && spec_elapsed(now, st) >= rc.rec_basic_generate_time {
                    None
                } else {
                    m0.product_timer_start
                })
                &&& regions_recyclers_only(*old(self), *final(self))
                &&& r@.len() > 0 && bag_ready(*old(self), region_name@) ==> regions_bag_changed(
                    old(self).regions@,
                    final(self).regions@,
                    region_name@,
                    bag_view(region_bag(*final(self), region_name@)),
                ) && given_all(
                    bag_view(region_bag(*old(self), region_name@)),
                    bag_view(region_bag(*final(self), region_name@)),
                    slots_view(r@),
                )
                &&& !(r@.len() > 0 && bag_ready(*old(self), region_name@)) ==> final(self).regions == old(self).regions
            },
    {
        if !self.recycler_state.contains_key(region_name) {
            return Vec::new();
        }
        let ghost m0 = *self;
        let m = self.recycler_state.get_mut(region_name).unwrap();
        match m.product_timer_start {
            Some(start) => {
                if elapsed_between(now, start) >= rc.rec_basic_generate_time {
                    m.product_timer_start = None;
                }
            },
            None => {},
        }
        let mut items: Vec<ItemSlot> = Vec::new();
        std::mem::swap(&mut items, &mut m.temp_storage);
        proof {
            assert(self.recycler_state@ =~= m0.recycler_state@.insert(region_name@, self.recycler_state@[region_name@]));
        }
        let ghost mid = *self;
        if items.len() > 0 {
            match self.region_bag_mut(region_name) {
                Some(bag) => {
                    proof {
                        assert(items@ == m0.recycler_state@[region_name@].temp_storage@);
                        assert(bag.items@ == region_bag(m0, region_name@));
                        assert forall|k: u32| bag.items@.contains_key(k) implies #[trigger] bag.items@[k].count + count_sum(
                            slots_view(items@),
                        ) <= u32::MAX by {
                            assert(region_bag(m0, region_name@)[k] == bag.items@[k]);
                        }
                    }
                    give_all_to_bag(bag, &items);
                },
                None => {},
            }
        }
        items
    }

    /// Fetches products on the system clock (see
    /// `recycler_fetch_product_at`).
    pub fn recycler_fetch_product(&mut self, rc: &RecyclerConst, region_name: &str, node_id: u32) -> (r: Vec<ItemSlot>)
        requires
            old(self).recycler_state@.contains_key(region_name@) && bag_ready(*old(self), region_name@) ==> ({
                let s = count_sum(slots_view(old(self).recycler_state@[region_name@].temp_storage@));
                &&& s <= u32::MAX
                &&& forall|k: u32| region_bag(*old(self), region_name@).contains_key(k) ==> #[trigger] region_bag(*old(self), region_name@)[k].count + s <= u32::MAX
            }),
        ensures
            !old(self).recycler_state@.contains_key(region_name@) ==> r@.len() == 0 && *final(self) == *old(self),
            old(self).recycler_state@.contains_key(region_name@) ==> {
                let m0 = old(self).recycler_state@[region_name@];
                let m1 = final(self).recycler_state@[region_name@];
                &&& r@ == m0.temp_storage@
                &&& final(self).recycler_state@ == old(self).recycler_state@.insert(region_name@, m1)
                &&& m1.temp_storage@.len() == 0
                &&& m1.accumulated_value == m0.accumulated_value
                &&& m1.region_name == m0.region_name
                &&& exists|now: Tick| m1.product_timer_start == #[trigger] timer_after_fetch(
                    m0.product_timer_start,
                    now,
                    rc.rec_basic_generate_time,
                )
                &&& regions_recyclers_only(*old(self), *final(self))
                &&& r@.len() > 0 && bag_ready(*old(self), region_name@) ==> regions_bag_changed(
                    old(self).regions@,
                    final(self).regions@,
                    region_name@,
                    bag_view(region_bag(*final(self), region_name@)),
                ) && given_all(
                    bag_view(region_bag(*old(self), region_name@)),
                    bag_view(region_bag(*final(self), region_name@)),
                    slots_view(r@),
                )
                &&& !(r@.len() > 0 && bag_ready(*old(self), region_name@)) ==> final(self).regions == old(self).regions
            },
    {
        let now = current_tick();
        let ghost m0 = self.recycler_state@;
        let r = self.recycler_fetch_product_at(rc, region_name, node_id, now);
        proof {
            if m0.contains_key(region_name@) {
                assert(timer_after_fetch(m0[region_name@].product_timer_start, now, rc.rec_basic_generate_time)
                    == self.recycler_state@[region_name@].product_timer_start);
            }
        }
        r
    }

    /// Commits materials on the system clock (see
    /// `recycler_commit_material_at`).
    pub fn recycler_commit_material(
        &mut self,
        table: &FactoryTable,
        rc: &RecyclerConst,
        region_name: &str,
        node_id: u32,
        mats: &Vec<CommitMaterial>,
    ) -> (r: bool)
        requires
            rc.rec_round_need_value > 0,
            commit_fits(*old(self), *table, region_name@, material_views(mats@)),
        ensures
            exists|now: Tick| #[trigger] commit_outcome(*old(self), *final(self), *table, *rc, region_name@, material_views(mats@), now, r),
    {
        let now = current_tick();
        self.recycler_commit_material_at(table, rc, region_name, node_id, mats, now)
    }
}

} // verus!

verus! {

/// After the rounds, less than one round of value is left.
pub proof fn lemma_rounds_leave_less_than_need(
    acc: int,
    timer: Option<Tick>,
    stored: int,
    need: int,
    gen: u64,
    now: Tick,
    has_product: bool,
    cap: i32,
)
    requires
        need > 0,
    ensures
        run_rounds(acc, timer, stored, need, gen, now, has_product, cap).0 < need,
    decreases acc,
{
    if acc >= need {
        let s = round_step(acc, timer, stored, need, gen, now, has_product, cap);
        lemma_rounds_leave_less_than_need(s.0, s.1, s.2, need, gen, now, has_product, cap);
    }
}

/// The rounds store products only while fewer than `cap` are stored: a
/// storage at or under the cap stays at or under it, and one over it does
/// not grow.
pub proof fn lemma_rounds_respect_cap(
    acc: int,
    timer: Option<Tick>,
    stored: int,
    need: int,
    gen: u64,
    now: Tick,
    has_product: bool,
    cap: i32,
)
    requires
        need > 0,
        0 <= stored <= i32::MAX,
    ensures
        run_rounds(acc, timer, stored, need, gen, now, has_product, cap).2 <= if stored <= cap { cap as int } else { stored },
    decreases acc,
{
    if acc >= need {
        let s = round_step(acc, timer, stored, need, gen, now, has_product, cap);
        assert((stored as i32) as int == stored);
        assert(s.2 <= if stored <= cap { cap as int } else { stored });
        if s.2 <= i32::MAX {
            lemma_rounds_respect_cap(s.0, s.1, s.2, need, gen, now, has_product, cap);
        }
    }
}

/// The rounds never lower the number of stored products, and store at
/// most one more per round of value.
pub proof fn lemma_rounds_store_monotone(
    acc: int,
    timer: Option<Tick>,
    stored: int,
    need: int,
    gen: u64,
    now: Tick,
    has_product: bool,
    cap: i32,
)
    requires
        need > 0,
    ensures
        stored <= run_rounds(acc, timer, stored, need, gen, now, has_product, cap).2,
    decreases acc,
{
    if acc >= need {
        let s = round_step(acc, timer, stored, need, gen, now, has_product, cap);
        lemma_rounds_store_monotone(s.0, s.1, s.2, need, gen, now, has_product, cap);
    }
}

} // verus!
