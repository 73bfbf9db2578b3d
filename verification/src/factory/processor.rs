//! The processor: crafting items, equipment and gems from the bag, with
//! refine points that recharge over time.
use vstd::prelude::*;

use super::bag::{bag_changed, bag_ready, paid_all, paid_until_short, pay_costs, region_bag, sat_mul, sat_mul_u32, scaled_costs};
use super::component::{InventoryState, ItemSlot, bag_view};
use super::manager::FactoryManager;
use super::table::{FactoryTable, ProcessorConst, ProcessorCraft};
use super::tick::{Tick, current_tick, spec_elapsed};
use super::ProcessorMachine;
use super::observer::{name_views, without_ids};
use crate::strmap::{StrMap, find_key};

verus! {

broadcast use vstd::std_specs::hash::group_hash_axioms;

/// What a processor craft produced.
#[derive(Debug, Clone)]
pub struct CraftResult {
    pub new_items: Vec<CraftedItem>,
}

/// One produced item.
#[derive(Debug, Clone)]
pub struct CraftedItem {
    pub item_id: String,
    pub count: u32,
}

/// The produced items as (item id, count) pairs.
pub open spec fn crafted(r: CraftResult) -> Seq<(Seq<char>, u32)> {
    r.new_items@.map_values(|c: CraftedItem| (c.item_id@, c.count))
}

/// What crafting `count` times `rc` produces: its outcome times the
/// count, saturating.
pub open spec fn craft_output(rc: ProcessorCraft, count: u32) -> Seq<(Seq<char>, u32)> {
    seq![(rc.outcome.id@, sat_mul_u32(rc.outcome.count as int, count as int) as u32)]
}

/// The level of the processor of region `name`, 0 without one.
pub open spec fn processor_level(m: FactoryManager, name: Seq<char>) -> u32 {
    if m.processor_state@.contains_key(name) { m.processor_state@[name].building_level } else { 0 }
}

/// Refine points and recovery tick of a processor after recovering at
/// `now`: one point per full `recover_time` elapsed, up to `max`; nothing
/// changes without a recovery period or a whole point.
pub open spec fn recovered(points: u32, last: Tick, recover_time: u64, max: u32, now: Tick) -> (u32, Tick) {
    if recover_time == 0 {
        (points, last)
    } else {
        let gained = (spec_elapsed(now, last) / (recover_time as int)) as u32;
        if gained > 0 {
            (if points + gained < max { (points + gained) as u32 } else { max }, now)
        } else {
            (points, last)
        }
    }
}

/// Recovering at `now` stays within `u32`.
pub open spec fn recover_fits(points: u32, last: Tick, recover_time: u64, now: Tick) -> bool {
    recover_time > 0 ==> points + ((spec_elapsed(now, last) / (recover_time as int)) as u32) <= u32::MAX
}

/// Recovers refine points at tick `now` (see `recovered`).
pub fn recover_refine_points(p: &mut ProcessorMachine, recover_time: u64, max_points: u32, now: Tick)
    requires
        recover_fits(old(p).refine_points, old(p).last_recovery_tick, recover_time, now),
    ensures
        (final(p).refine_points, final(p).last_recovery_tick) == recovered(
            old(p).refine_points,
            old(p).last_recovery_tick,
            recover_time,
            max_points,
            now,
        ),
        final(p).region_name == old(p).region_name,
        final(p).building_level == old(p).building_level,
        final(p).unlocked_formulas == old(p).unlocked_formulas,
        final(p).unread_formulas == old(p).unread_formulas,
{
    let elapsed = now.saturating_sub(p.last_recovery_tick);
    if recover_time == 0 {
        return;
    }
    let gained: u32 = #[verifier::truncate] ((elapsed / recover_time) as u32);
    if gained > 0 {
        let total = p.refine_points + gained;
        p.refine_points = if total < max_points { total } else { max_points };
        p.last_recovery_tick = now;
    }
}

/// The result of no craft.
fn nothing() -> (r: CraftResult)
    ensures
        crafted(r).len() == 0,
{
    let r = CraftResult { new_items: Vec::new() };
    proof {
        assert(crafted(r) =~= Seq::<(Seq<char>, u32)>::empty());
    }
    r
}

/// The result of crafting `count` times `rc`.
fn output(rc: &ProcessorCraft, count: u32) -> (r: CraftResult)
    ensures
        crafted(r) == craft_output(*rc, count),
{
    let mut v: Vec<CraftedItem> = Vec::new();
    v.push(CraftedItem { item_id: rc.outcome.id.clone(), count: sat_mul(rc.outcome.count, count) });
    let r = CraftResult { new_items: v };
    proof {
        assert(crafted(r) =~= craft_output(*rc, count));
    }
    r
}

/// How paying `count` times the ingredients of `rc` from the bag of
/// region `name` settles: without a bag nothing changes and nothing is
/// made; otherwise the bag is paid in order and the outcome is made when
/// every ingredient was covered.
pub open spec fn paid_craft(old: FactoryManager, new: FactoryManager, rc: ProcessorCraft, name: Seq<char>, count: u32, r: CraftResult) -> bool {
    let costs = scaled_costs(rc.ingredients@, count);
    let b0 = region_bag(old, name);
    let b1 = region_bag(new, name);
    &&& !bag_ready(old, name) ==> new == old && crafted(r).len() == 0
    &&& bag_ready(old, name) ==> bag_changed(old, new, name, bag_view(b1))
        && (crafted(r).len() == 0 ==> paid_until_short(b0, b1, costs))
        && (crafted(r).len() != 0 ==> paid_all(b0, b1, costs) && crafted(r) == craft_output(rc, count))
}

/// Pays `count` times the ingredients of `rc` from the bag and reports
/// the outcome (see `paid_craft`).
fn pay_and_craft(m: &mut FactoryManager, rc: &ProcessorCraft, region_name: &str, count: u32) -> (r: CraftResult)
    ensures
        paid_craft(*old(m), *final(m), *rc, region_name@, count, r),
{
    let paid = match m.region_bag_mut(region_name) {
        Some(bag) => pay_costs(bag, &rc.ingredients, count),
        None => return nothing(),
    };
    if paid {
        output(rc, count)
    } else {
        nothing()
    }
}

/// Crafts `count` times processor recipe `formula_id`: nothing for an
/// unknown recipe; otherwise as `paid_craft` says.
pub fn make_item(m: &mut FactoryManager, table: &FactoryTable, region_name: &str, formula_id: &str, count: u32) -> (r: CraftResult)
    ensures
        !table.processor_crafts@.contains_key(formula_id@) ==> crafted(r).len() == 0 && *final(m) == *old(m),
        table.processor_crafts@.contains_key(formula_id@) ==> paid_craft(
            *old(m),
            *final(m),
            table.processor_crafts@[formula_id@],
            region_name@,
            count,
            r,
        ),
{
    let rc = match table.processor_crafts.get(formula_id) {
        Some(rc) => rc,
        None => return nothing(),
    };
    pay_and_craft(m, rc, region_name, count)
}

/// The processor of region `name` at `now`, created (level 1, full
/// points) when missing.
pub open spec fn processor_or_fresh(m: FactoryManager, name: Seq<char>, max: u32, now: Tick) -> (u32, Tick) {
    if m.processor_state@.contains_key(name) {
        (m.processor_state@[name].refine_points, m.processor_state@[name].last_recovery_tick)
    } else {
        (max, now)
    }
}

/// The refine point was spent: the processor of region `name` exists in
/// `new` with its points recovered at `now` and one spent; `ok` says
/// whether there was one to spend (when not, the recovery stands).
pub open spec fn point_spent(old: FactoryManager, new: FactoryManager, pc: ProcessorConst, name: Seq<char>, now: Tick, ok: bool) -> bool {
    let p0 = processor_or_fresh(old, name, pc.refine_point_max, now);
    let rec = recovered(p0.0, p0.1, pc.refine_point_recover_time, pc.refine_point_max, now);
    let p1 = new.processor_state@[name];
    &&& new.processor_state@ == old.processor_state@.insert(name, p1)
    &&& ok == (rec.0 > 0)
    &&& p1.refine_points == if ok { (rec.0 - 1) as u32 } else { rec.0 }
    &&& p1.last_recovery_tick == rec.1
    &&& old.processor_state@.contains_key(name) ==> {
        let q = old.processor_state@[name];
        &&& p1.region_name == q.region_name
        &&& p1.building_level == q.building_level
        &&& p1.unlocked_formulas == q.unlocked_formulas
        &&& p1.unread_formulas == q.unread_formulas
    }
    &&& !old.processor_state@.contains_key(name) ==> p1.region_name@ == name && p1.building_level == 1
        && p1.unlocked_formulas@.len() == 0 && p1.unread_formulas@.len() == 0
    &&& new.regions == old.regions
    &&& new.quickbars == old.quickbars
    &&& new.current_region == old.current_region
    &&& new.stt_state == old.stt_state
    &&& new.manufacture_state == old.manufacture_state
    &&& new.recycler_state == old.recycler_state
    &&& new.trade_state == old.trade_state
    &&& new.workshop_state == old.workshop_state
    &&& new.soil_state == old.soil_state
    &&& new.manual_work_state == old.manual_work_state
    &&& new.character_work_state == old.character_work_state
}

/// Spends a refine point of the processor of region `name` at `now`,
/// creating and recovering it first (see `point_spent`).
fn spend_refine_point(m: &mut FactoryManager, pc: &ProcessorConst, region_name: &str, now: Tick) -> (ok: bool)
    requires
        ({
            let p0 = processor_or_fresh(*old(m), region_name@, pc.refine_point_max, now);
            recover_fits(p0.0, p0.1, pc.refine_point_recover_time, now)
        }),
    ensures
        point_spent(*old(m), *final(m), *pc, region_name@, now, ok),
{
    if !m.processor_state.contains_key(region_name) {
        m.processor_state.insert(
            region_name.to_owned(),
            ProcessorMachine {
                region_name: region_name.to_owned(),
                building_level: 1,
                refine_points: pc.refine_point_max,
                last_recovery_tick: now,
                unlocked_formulas: Vec::new(),
                unread_formulas: Vec::new(),
            },
        );
    }
    let p = m.processor_state.get_mut(region_name).unwrap();
    recover_refine_points(p, pc.refine_point_recover_time, pc.refine_point_max, now);
    let ok = if p.refine_points == 0 {
        false
    } else {
        p.refine_points = p.refine_points - 1;
        true
    };
    proof {
        assert(m.processor_state@ =~= old(m).processor_state@.insert(region_name@, m.processor_state@[region_name@]));
    }
    ok
}

/// Crafts equipment at tick `now`: nothing for an unknown recipe; with
/// `use_refine_point`, nothing (changing nothing) below the refine level,
/// else a refine point is spent first (see `point_spent`) and nothing is
/// made without one; then as `paid_craft` says.
pub fn make_equip_at(
    m: &mut FactoryManager,
    table: &FactoryTable,
    pc: &ProcessorConst,
    region_name: &str,
    formula_id: &str,
    count: u32,
    use_refine_point: bool,
    now: Tick,
) -> (r: CraftResult)
    requires
        ({
            let p0 = processor_or_fresh(*old(m), region_name@, pc.refine_point_max, now);
            recover_fits(p0.0, p0.1, pc.refine_point_recover_time, now)
        }),
    ensures
        !table.processor_crafts@.contains_key(formula_id@) ==> crafted(r).len() == 0 && *final(m) == *old(m),
        table.processor_crafts@.contains_key(formula_id@) && use_refine_point && processor_level(*old(m), region_name@)
            < pc.building_level_weapon_refine ==> crafted(r).len() == 0 && *final(m) == *old(m),
        table.processor_crafts@.contains_key(formula_id@) && !use_refine_point ==> paid_craft(
            *old(m),
            *final(m),
            table.processor_crafts@[formula_id@],
            region_name@,
            count,
            r,
        ),
        table.processor_crafts@.contains_key(formula_id@) && use_refine_point && processor_level(*old(m), region_name@)
            >= pc.building_level_weapon_refine ==> exists|mid: FactoryManager, ok: bool|
            #[trigger] point_spent(*old(m), mid, *pc, region_name@, now, ok) && (!ok ==> crafted(r).len() == 0 && *final(m) == mid)
                && (ok ==> paid_craft(mid, *final(m), table.processor_crafts@[formula_id@], region_name@, count, r)),
{
    let rc = match table.processor_crafts.get(formula_id) {
        Some(rc) => rc,
        None => return nothing(),
    };
    if use_refine_point {
        let level = match m.processor_state.get(region_name) {
            Some(p) => p.building_level,
            None => 0,
        };
        if level < pc.building_level_weapon_refine {
            return nothing();
        }
        let ok = spend_refine_point(m, pc, region_name, now);
        let ghost mid = *m;
        if !ok {
            proof {
                assert(point_spent(*old(m), mid, *pc, region_name@, now, ok));
            }
            return nothing();
        }
        let r = pay_and_craft(m, rc, region_name, count);
        proof {
            assert(point_spent(*old(m), mid, *pc, region_name@, now, ok));
        }
        r
    } else {
        pay_and_craft(m, rc, region_name, count)
    }
}

/// Crafts equipment on the system clock (see `make_equip_at`).
pub fn make_equip(
    m: &mut FactoryManager,
    table: &FactoryTable,
    pc: &ProcessorConst,
    region_name: &str,
    formula_id: &str,
    count: u32,
    use_refine_point: bool,
) -> (r: CraftResult)
    requires
        forall|now: Tick| {
            let p0 = #[trigger] processor_or_fresh(*old(m), region_name@, pc.refine_point_max, now);
            recover_fits(p0.0, p0.1, pc.refine_point_recover_time, now)
        },
    ensures
        !table.processor_crafts@.contains_key(formula_id@) ==> crafted(r).len() == 0 && *final(m) == *old(m),
        table.processor_crafts@.contains_key(formula_id@) && !use_refine_point ==> paid_craft(
            *old(m),
            *final(m),
            table.processor_crafts@[formula_id@],
            region_name@,
            count,
            r,
        ),
        table.processor_crafts@.contains_key(formula_id@) && use_refine_point && processor_level(*old(m), region_name@)
            < pc.building_level_weapon_refine ==> crafted(r).len() == 0 && *final(m) == *old(m),
        table.processor_crafts@.contains_key(formula_id@) && use_refine_point && processor_level(*old(m), region_name@)
            >= pc.building_level_weapon_refine ==> exists|now: Tick, mid: FactoryManager, ok: bool|
            #[trigger] point_spent(*old(m), mid, *pc, region_name@, now, ok) && (!ok ==> crafted(r).len() == 0 && *final(m) == mid)
                && (ok ==> paid_craft(mid, *final(m), table.processor_crafts@[formula_id@], region_name@, count, r)),
        crafted(r).len() != 0 ==> table.processor_crafts@.contains_key(formula_id@) && crafted(r) == craft_output(
            table.processor_crafts@[formula_id@],
            count,
        ),
{
    let now = current_tick();
    make_equip_at(m, table, pc, region_name, formula_id, count, use_refine_point, now)
}

/// The bag keys of gem instance ids, taken to 32 bits.
pub open spec fn gem_keys(ids: Seq<u64>) -> Set<u32> {
    ids.map_values(|x: u64| x as u32).to_set()
}

/// Removes the gems with instance ids `ids` from the bag of region `name`.
fn remove_gems_from_bag(m: &mut FactoryManager, region_name: &str, ids: &Vec<u64>)
    ensures
        !bag_ready(*old(m), region_name@) ==> *final(m) == *old(m),
        bag_ready(*old(m), region_name@) ==> bag_changed(*old(m), *final(m), region_name@, bag_view(region_bag(*final(m), region_name@)))
            && region_bag(*final(m), region_name@) == region_bag(*old(m), region_name@).remove_keys(gem_keys(ids@)),
{
    match m.region_bag_mut(region_name) {
        Some(bag) => {
            let ghost b0 = bag.items@;
            let mut i: usize = 0;
            proof {
                assert(gem_keys(ids@.subrange(0, 0)) =~= Set::<u32>::empty());
                assert(b0.remove_keys(Set::<u32>::empty()) =~= b0);
            }
            while i < ids.len()
                invariant
                    0 <= i <= ids@.len(),
                    bag.items@ == b0.remove_keys(gem_keys(ids@.subrange(0, i as int))),
                decreases ids@.len() - i,
            {
                let key: u32 = #[verifier::truncate] (ids[i] as u32);
                let _ = bag.items.remove(&key);
                proof {
                    let s1 = ids@.subrange(0, i + 1);
                    s1.drop_last().lemma_push_to_set_commute(ids@[i as int]);
                    assert(ids@.subrange(0, i + 1).map_values(|x: u64| x as u32) =~= ids@.subrange(0, i as int).map_values(
                        |x: u64| x as u32,
                    ).push(key));
                    ids@.subrange(0, i as int).map_values(|x: u64| x as u32).lemma_push_to_set_commute(key);
                    assert(bag.items@ =~= b0.remove_keys(gem_keys(ids@.subrange(0, i + 1))));
                }
                i += 1;
            }
            proof {
                assert(ids@.subrange(0, ids@.len() as int) =~= ids@);
            }
        },
        None => {},
    }
}

/// Makes gems with recipe `formula_id`: nothing for an unknown recipe;
/// else the cost gems leave the bag (when there is one) and the outcome
/// is made.
pub fn make_gem(m: &mut FactoryManager, table: &FactoryTable, region_name: &str, formula_id: &str, count: u32, cost_gem_inst_ids: &Vec<u64>) -> (r: CraftResult)
    ensures
        !table.processor_crafts@.contains_key(formula_id@) ==> crafted(r).len() == 0 && *final(m) == *old(m),
        table.processor_crafts@.contains_key(formula_id@) ==> crafted(r) == craft_output(table.processor_crafts@[formula_id@], count),
        table.processor_crafts@.contains_key(formula_id@) && !bag_ready(*old(m), region_name@) ==> *final(m) == *old(m),
        table.processor_crafts@.contains_key(formula_id@) && bag_ready(*old(m), region_name@) ==> bag_changed(
            *old(m),
            *final(m),
            region_name@,
            bag_view(region_bag(*final(m), region_name@)),
        ) && region_bag(*final(m), region_name@) == region_bag(*old(m), region_name@).remove_keys(gem_keys(cost_gem_inst_ids@)),
{
    let rc = match table.processor_crafts.get(formula_id) {
        Some(rc) => rc,
        None => return nothing(),
    };
    remove_gems_from_bag(m, region_name, cost_gem_inst_ids);
    output(rc, count)
}

/// Recasts gems: nothing, changing nothing, below the recast level; else
/// as `make_gem`.
pub fn recast_gem(
    m: &mut FactoryManager,
    table: &FactoryTable,
    pc: &ProcessorConst,
    region_name: &str,
    formula_id: &str,
    count: u32,
    cost_gem_inst_ids: &Vec<u64>,
) -> (r: CraftResult)
    ensures
        processor_level(*old(m), region_name@) < pc.building_level_gem_recast ==> crafted(r).len() == 0 && *final(m) == *old(m),
        processor_level(*old(m), region_name@) >= pc.building_level_gem_recast ==> {
            &&& !table.processor_crafts@.contains_key(formula_id@) ==> crafted(r).len() == 0 && *final(m) == *old(m)
            &&& table.processor_crafts@.contains_key(formula_id@) ==> crafted(r) == craft_output(
                table.processor_crafts@[formula_id@],
                count,
            )
            &&& table.processor_crafts@.contains_key(formula_id@) && !bag_ready(*old(m), region_name@) ==> *final(m) == *old(m)
            &&& table.processor_crafts@.contains_key(formula_id@) && bag_ready(*old(m), region_name@) ==> region_bag(
                *final(m),
                region_name@,
            ) == region_bag(*old(m), region_name@).remove_keys(gem_keys(cost_gem_inst_ids@))
        },
{
    let level = match m.processor_state.get(region_name) {
        Some(p) => p.building_level,
        None => 0,
    };
    if level < pc.building_level_gem_recast {
        return nothing();
    }
    make_gem(m, table, region_name, formula_id, count, cost_gem_inst_ids)
}

/// `list` without the names among `ids`.
fn drop_names(list: &mut Vec<String>, ids: &Vec<String>)
    ensures
        name_views(final(list)@) == without_ids(name_views(old(list)@), name_views(ids@)),
{
    let mut src: Vec<String> = Vec::new();
    std::mem::swap(&mut src, list);
    let ghost all = src@;
    let ghost idv = name_views(ids@);
    let mut kept: Vec<String> = Vec::new();
    let mut i: usize = 0;
    proof {
        assert(name_views(kept@) =~= without_ids(name_views(all.subrange(0, 0)), idv));
    }
    while i < src.len()
        invariant
            0 <= i <= all.len(),
            src@ == all,
            all == old(list)@,
            idv == name_views(ids@),
            name_views(kept@) == without_ids(name_views(all.subrange(0, i as int)), idv),
        decreases all.len() - i,
    {
        let ghost before = name_views(kept@);
        proof {
            assert(name_views(all.subrange(0, i + 1)).drop_last() =~= name_views(all.subrange(0, i as int)));
            assert(name_views(all.subrange(0, i + 1)).last() == all[i as int]@);
        }
        if !has_listed(ids, &src[i]) {
            kept.push(src[i].clone());
            proof {
                assert(name_views(kept@) =~= before.push(all[i as int]@));
            }
        } else {
            proof {
                assert(before + Seq::<Seq<char>>::empty() =~= before);
            }
        }
        i += 1;
    }
    proof {
        assert(all.subrange(0, all.len() as int) =~= all);
    }
    *list = kept;
}

/// Whether `names` holds `name`.
fn has_listed(names: &Vec<String>, name: &String) -> (r: bool)
    ensures
        r == name_views(names@).contains(name@),
{
    match find_key(names, name.as_str()) {
        Some(i) => {
            proof {
                assert(name_views(names@)[i as int] == name@);
            }
            true
        },
        None => {
            proof {
                let v = name_views(names@);
                if v.contains(name@) {
                    let j = choose|j: int| 0 <= j < v.len() && #[trigger] v[j] == name@;
                    assert(names@[j]@ == name@);
                }
            }
            false
        },
    }
}

/// Marks formulas read: every processor drops them from its unread list.
pub fn mark_formulas_read(m: &mut FactoryManager, read_formula_ids: &Vec<String>)
    ensures
        final(m).processor_state@.dom() == old(m).processor_state@.dom(),
        forall|k: Seq<char>| #[trigger] old(m).processor_state@.contains_key(k) ==> {
            let p0 = old(m).processor_state@[k];
            let p1 = final(m).processor_state@[k];
            &&& name_views(p1.unread_formulas@) == without_ids(name_views(p0.unread_formulas@), name_views(read_formula_ids@))
            &&& p1.region_name == p0.region_name
            &&& p1.building_level == p0.building_level
            &&& p1.refine_points == p0.refine_points
            &&& p1.last_recovery_tick == p0.last_recovery_tick
            &&& p1.unlocked_formulas == p0.unlocked_formulas
        },
        final(m).regions == old(m).regions,
        final(m).stt_state == old(m).stt_state,
        final(m).trade_state == old(m).trade_state,
{
    let names_ref = m.processor_state.keys();
    let mut names: Vec<String> = Vec::new();
    let mut j: usize = 0;
    while j < names_ref.len()
        invariant
            0 <= j <= names_ref@.len(),
            names@.len() == j,
            forall|x: int| 0 <= x < j ==> #[trigger] names@[x]@ == names_ref@[x]@,
        decreases names_ref@.len() - j,
    {
        names.push(names_ref[j].clone());
        j += 1;
    }
    let ghost m0 = *m;
    let ghost idv = name_views(read_formula_ids@);
    proof {
        assert forall|k: Seq<char>| m0.processor_state@.contains_key(k) implies exists|x: int| 0 <= x < names@.len() && #[trigger] names@[x]@ == k by {
            let a = choose|a: int| 0 <= a < names_ref@.len() && #[trigger] names_ref@[a]@ == k;
            assert(names@[a]@ == k);
        }
    }
    let mut i: usize = 0;
    while i < names.len()
        invariant
            0 <= i <= names@.len(),
            m0 == *old(m),
            idv == name_views(read_formula_ids@),
            forall|k: Seq<char>| m0.processor_state@.contains_key(k) ==> exists|x: int| 0 <= x < names@.len() && #[trigger] names@[x]@ == k,
            forall|x: int, y: int| 0 <= x < names@.len() && 0 <= y < names@.len() && x != y ==> names@[x]@ != names@[y]@,
            m.processor_state@.dom() == m0.processor_state@.dom(),
            forall|k: Seq<char>| #[trigger] m0.processor_state@.contains_key(k) ==> {
                let p0 = m0.processor_state@[k];
                let p1 = m.processor_state@[k];
                &&& (exists|x: int| 0 <= x < i && #[trigger] names@[x]@ == k) ==> name_views(p1.unread_formulas@) == without_ids(
                    name_views(p0.unread_formulas@),
                    idv,
                )
                &&& !(exists|x: int| 0 <= x < i && #[trigger] names@[x]@ == k) ==> p1.unread_formulas == p0.unread_formulas
                &&& p1.region_name == p0.region_name
                &&& p1.building_level == p0.building_level
                &&& p1.refine_points == p0.refine_points
                &&& p1.last_recovery_tick == p0.last_recovery_tick
                &&& p1.unlocked_formulas == p0.unlocked_formulas
            },
            m.regions == m0.regions,
            m.stt_state == m0.stt_state,
            m.trade_state == m0.trade_state,
        decreases names@.len() - i,
    {
        let name = &names[i];
        let ghost key = name@;
        let ghost before = *m;
        match m.processor_state.get_mut(name.as_str()) {
            Some(p) => {
                drop_names(&mut p.unread_formulas, read_formula_ids);
            },
            None => {},
        }
        proof {
            assert forall|k: Seq<char>| #[trigger] m0.processor_state@.contains_key(k) implies {
                let p0 = m0.processor_state@[k];
                let p1 = m.processor_state@[k];
                &&& (exists|x: int| 0 <= x < i + 1 && #[trigger] names@[x]@ == k) ==> name_views(p1.unread_formulas@) == without_ids(
                    name_views(p0.unread_formulas@),
                    idv,
                )
                &&& !(exists|x: int| 0 <= x < i + 1 && #[trigger] names@[x]@ == k) ==> p1.unread_formulas == p0.unread_formulas
                &&& p1.region_name == p0.region_name
                &&& p1.building_level == p0.building_level
                &&& p1.refine_points == p0.refine_points
                &&& p1.last_recovery_tick == p0.last_recovery_tick
                &&& p1.unlocked_formulas == p0.unlocked_formulas
            } by {
                if k == key {
                    assert(names@[i as int]@ == k);
                    assert(!(exists|x: int| 0 <= x < i && #[trigger] names@[x]@ == k));
                } else {
                    if exists|x: int| 0 <= x < i + 1 && #[trigger] names@[x]@ == k {
                        let x = choose|x: int| 0 <= x < i + 1 && #[trigger] names@[x]@ == k;
                        assert(x != i);
                    }
                }
            }
        }
        i += 1;
    }
    proof {
        assert forall|k: Seq<char>| #[trigger] m0.processor_state@.contains_key(k) implies (exists|x: int| 0 <= x < i && #[trigger] names@[x]@ == k) by {
            let x = choose|x: int| 0 <= x < names@.len() && #[trigger] names@[x]@ == k;
        }
    }
}

} // verus!

verus! {

/// Recovery never lifts refine points past the maximum, and never lowers
/// them while they are within it.
pub proof fn lemma_recovered_within_max(points: u32, last: Tick, recover_time: u64, max: u32, now: Tick)
    requires
        points <= max,
    ensures
        recovered(points, last, recover_time, max, now).0 <= max,
        recovered(points, last, recover_time, max, now).0 >= points,
{
}

} // verus!
