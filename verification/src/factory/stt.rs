//! The factory tech tree: unlocking a node checks its conditions and
//! prerequisites, pays its costs from the bag, grants its rewards, runs
//! its action and records the node as unlocked.
use vstd::prelude::*;

use super::bag::{bag_ready, paid_all, paid_until_short, pay_costs, region_bag, regions_bag_changed, scaled_costs};
use super::component::{InventoryState, ItemSlot, bag_view};
use super::manager::{FactoryManager, same_but_regions};
use super::region::FactoryRegion;
use super::slots::{
    SlotView, grant_to_bag, granted, granted_all, granted_chain, lemma_granted_none, lemma_granted_step, lowest_free_key,
};
use super::table::{FactoryTable, SttAction, SttCondition, SttNode, SttParam, SttReward};
use crate::strmap::{StrMap, find_key};

verus! {

/// Condition: at least some number of buildings of a template.
pub const STT_COND_BUILDING_COUNT: i32 = 504;

/// Condition: at least some total production.
pub const STT_COND_PRODUCTION_TOTAL: i32 = 511;

/// Action: grant an item.
pub const STT_ACTION_GRANT_ITEM: i32 = 501;

/// The first string of parameter `i`, empty when there is none.
pub open spec fn param_str(params: Seq<SttParam>, i: int) -> Seq<char> {
    if 0 <= i < params.len() && params[i].value_string_list is Some && params[i].value_string_list->0@.len() > 0 {
        params[i].value_string_list->0@[0]@
    } else {
        Seq::empty()
    }
}

/// The first integer of parameter `i`, `default` when there is none.
pub open spec fn param_int(params: Seq<SttParam>, i: int, default: i64) -> i64 {
    if 0 <= i < params.len() && params[i].value_int_list is Some && params[i].value_int_list->0@.len() > 0 {
        params[i].value_int_list->0@[0]
    } else {
        default
    }
}

/// Sum of all production totals.
pub open spec fn totals_sum(t: Seq<(String, u64)>) -> int
    decreases t.len(),
{
    if t.len() == 0 { 0 } else { totals_sum(t.drop_last()) + t.last().1 }
}

/// Whether region `region` meets condition `c`: enough buildings of a
/// named template, or enough total production; unknown kinds never hold.
pub open spec fn condition_holds(c: SttCondition, region: FactoryRegion) -> bool {
    if c.condition_type == STT_COND_BUILDING_COUNT {
        let id = param_str(c.parameters@, 0);
        let required = param_int(c.parameters@, 1, 0) as usize;
        id.len() > 0 && region.nodes_with_template(id).len() >= required
    } else if c.condition_type == STT_COND_PRODUCTION_TOTAL {
        totals_sum(region.production_totals@) >= param_int(c.parameters@, 0, 0) as u64
    } else {
        false
    }
}

/// The item an action grants: for the grant kind with a named item, that
/// item and the count given (1 by default), taken to 32 bits.
pub open spec fn action_grant(a: SttAction) -> Option<(Seq<char>, u32)> {
    let id = param_str(a.parameters@, 0);
    if a.action_type == STT_ACTION_GRANT_ITEM && id.len() > 0 {
        Some((id, param_int(a.parameters@, 1, 1) as u32))
    } else {
        None
    }
}

/// The first string of parameter `i`.
fn first_str(params: &Vec<SttParam>, i: usize) -> (r: Option<&String>)
    ensures
        match r {
            Some(s) => s@ == param_str(params@, i as int) && s@.len() > 0 || s@.len() == 0 && param_str(params@, i as int).len() == 0,
            None => param_str(params@, i as int).len() == 0,
        },
{
    if i < params.len() {
        match &params[i].value_string_list {
            Some(l) => {
                if l.len() > 0 {
                    return Some(&l[0]);
                }
            },
            None => {},
        }
    }
    None
}

/// The first integer of parameter `i`, or `default`.
fn first_int(params: &Vec<SttParam>, i: usize, default: i64) -> (r: i64)
    ensures
        r == param_int(params@, i as int, default),
{
    if i < params.len() {
        match &params[i].value_int_list {
            Some(l) => {
                if l.len() > 0 {
                    return l[0];
                }
            },
            None => {},
        }
    }
    default
}

/// Whether region `region` meets condition `c` (see `condition_holds`).
pub fn evaluate_condition(c: &SttCondition, region: &FactoryRegion) -> (r: bool)
    requires
        c.condition_type == STT_COND_PRODUCTION_TOTAL ==> totals_sum(region.production_totals@) <= u64::MAX,
    ensures
        r == condition_holds(*c, *region),
{
    if c.condition_type == STT_COND_BUILDING_COUNT {
        let id = first_str(&c.parameters, 0);
        let required: usize = #[verifier::truncate] (first_int(&c.parameters, 1, 0) as usize);
        match id {
            Some(s) => !s.as_str().is_empty() && region.count_buildings_by_template(s.as_str()) >= required,
            None => false,
        }
    } else if c.condition_type == STT_COND_PRODUCTION_TOTAL {
        let required: u64 = #[verifier::truncate] (first_int(&c.parameters, 0, 0) as u64);
        let mut total: u64 = 0;
        let mut i: usize = 0;
        while i < region.production_totals.len()
            invariant
                0 <= i <= region.production_totals@.len(),
                totals_sum(region.production_totals@) <= u64::MAX,
                total == totals_sum(region.production_totals@.subrange(0, i as int)),
            decreases region.production_totals@.len() - i,
        {
            proof {
                assert(region.production_totals@.subrange(0, i + 1).drop_last() =~= region.production_totals@.subrange(0, i as int));
                lemma_totals_prefix(region.production_totals@, i + 1);
            }
            total = total + region.production_totals[i].1;
            i += 1;
        }
        proof {
            assert(region.production_totals@.subrange(0, i as int) =~= region.production_totals@);
        }
        total >= required
    } else {
        false
    }
}

proof fn lemma_totals_prefix(t: Seq<(String, u64)>, n: int)
    requires
        0 <= n <= t.len(),
    ensures
        totals_sum(t.subrange(0, n)) <= totals_sum(t),
    decreases t.len() - n,
{
    if n < t.len() {
        lemma_totals_prefix(t, n + 1);
        assert(t.subrange(0, n + 1).drop_last() =~= t.subrange(0, n));
    } else {
        assert(t.subrange(0, n) =~= t);
    }
}

/// Runs action `a` on a bag: the grant kind grants its item (see
/// `action_grant`, `granted`); other actions change nothing.
pub fn execute_action(a: &SttAction, inv: &mut InventoryState)
    requires
        action_grant(*a) matches Some(g) ==> forall|k: u32|
            old(inv).items@.contains_key(k) && #[trigger] old(inv).items@[k].item_id@ == g.0 ==> old(inv).items@[k].count + g.1 <= u32::MAX,
    ensures
        match action_grant(*a) {
            Some(g) => granted(bag_view(old(inv).items@), bag_view(final(inv).items@), g.0, g.1),
            None => final(inv).items@ == old(inv).items@,
        },
{
    if a.action_type == STT_ACTION_GRANT_ITEM {
        let id = first_str(&a.parameters, 0);
        let count: u32 = #[verifier::truncate] (first_int(&a.parameters, 1, 1) as u32);
        match id {
            Some(s) => {
                if !s.as_str().is_empty() {
                    proof {
                        assert forall|k: u32| bag_view(inv.items@).contains_key(k) && #[trigger] bag_view(inv.items@)[k].0 == s@
                            implies bag_view(inv.items@)[k].1 + count <= u32::MAX by {
                            assert(inv.items@[k].item_id@ == s@);
                        }
                    }
                    grant_to_bag(inv, s.as_str(), count);
                }
            },
            None => {},
        }
    }
}

/// The rewards as grants.
pub open spec fn reward_views(rs: Seq<SttReward>) -> Seq<(Seq<char>, u32)> {
    rs.map_values(|r: SttReward| (r.item_id@, r.count))
}

/// Total count of grants.
pub open spec fn grants_sum(g: Seq<(Seq<char>, u32)>) -> int
    decreases g.len(),
{
    if g.len() == 0 { 0 } else { grants_sum(g.drop_last()) + g.last().1 }
}

/// Everything an unlock grants: the rewards, then the action's item.
pub open spec fn unlock_grants(n: SttNode) -> Seq<(Seq<char>, u32)> {
    reward_views(n.unlock_reward@) + match n.action {
        Some(a) => match action_grant(a) {
            Some(g) => seq![g],
            None => Seq::empty(),
        },
        None => Seq::empty(),
    }
}

/// The unlocked node ids.
pub open spec fn unlocked(m: FactoryManager) -> Seq<Seq<char>> {
    m.stt_state.unlocked_nodes@.map_values(|s: String| s@)
}

/// Node `id` can be unlocked in region `name`: not unlocked yet, in the
/// tree, every condition met in the region, every named prerequisite
/// unlocked.
pub open spec fn stt_ready(m: FactoryManager, tree: Map<Seq<char>, SttNode>, name: Seq<char>, id: Seq<char>) -> bool {
    &&& !unlocked(m).contains(id)
    &&& tree.contains_key(id)
    &&& m.regions@.contains_key(name)
    &&& forall|i: int| 0 <= i < tree[id].conditions@.len() ==> condition_holds(#[trigger] tree[id].conditions@[i], m.regions@[name])
    &&& forall|i: int| 0 <= i < tree[id].pre_node@.len() && (#[trigger] tree[id].pre_node@[i])@.len() > 0 ==> unlocked(m).contains(tree[id].pre_node@[i]@)
}

/// Only the regions and the tech tree of `old` changed in `new`.
pub open spec fn regions_stt_only(old: FactoryManager, new: FactoryManager) -> bool {
    &&& new.current_region == old.current_region
    &&& new.quickbars == old.quickbars
    &&& new.manufacture_state == old.manufacture_state
    &&& new.processor_state == old.processor_state
    &&& new.recycler_state == old.recycler_state
    &&& new.trade_state == old.trade_state
    &&& new.workshop_state == old.workshop_state
    &&& new.soil_state == old.soil_state
    &&& new.manual_work_state == old.manual_work_state
    &&& new.character_work_state == old.character_work_state
}

/// How an unlock settles once paying the costs in order left bag `b1`:
/// refused with that bag when one fell short; else the grants go to the
/// bag and the node is recorded as unlocked.
pub open spec fn unlock_settled(old: FactoryManager, new: FactoryManager, n: SttNode, name: Seq<char>, id: Seq<char>, b1: Map<u32, ItemSlot>, r: bool) -> bool {
    let costs = scaled_costs(n.cost_items@, 1);
    let b0 = region_bag(old, name);
    &&& regions_stt_only(old, new)
    &&& regions_bag_changed(old.regions@, new.regions@, name, bag_view(region_bag(new, name)))
    &&& !r ==> paid_until_short(b0, b1, costs) && region_bag(new, name) == b1 && new.stt_state == old.stt_state
    &&& r ==> {
        &&& paid_all(b0, b1, costs)
        &&& granted_all(bag_view(b1), bag_view(region_bag(new, name)), unlock_grants(n))
        &&& unlocked(new) == unlocked(old).push(id)
        &&& new.stt_state.visible_formulas == old.stt_state.visible_formulas
    }
}

/// Grants the rewards, then runs the action, of node `n` on a bag.
fn grant_unlock(inv: &mut InventoryState, n: &SttNode)
    requires
        grants_sum(unlock_grants(*n)) <= u32::MAX,
        forall|k: u32| old(inv).items@.contains_key(k) ==> #[trigger] old(inv).items@[k].count + grants_sum(unlock_grants(*n)) <= u32::MAX,
    ensures
        granted_all(bag_view(old(inv).items@), bag_view(final(inv).items@), unlock_grants(*n)),
{
    let ghost gs = unlock_grants(*n);
    let ghost len = gs.len() as int;
    let ghost b0 = bag_view(inv.items@);
    let ghost mut ms: Seq<Map<u32, SlotView>> = seq![b0];
    proof {
        lemma_granted_none(b0);
        assert(gs.subrange(0, 0) =~= Seq::<(Seq<char>, u32)>::empty());
        assert(gs.subrange(0, len) =~= gs);
    }
    let mut i: usize = 0;
    while i < n.unlock_reward.len()
        invariant
            0 <= i <= n.unlock_reward@.len(),
            gs == unlock_grants(*n),
            len == gs.len(),
            n.unlock_reward@.len() <= len,
            b0 == bag_view(old(inv).items@),
            grants_sum(gs.subrange(i as int, len)) <= u32::MAX,
            forall|k: u32| inv.items@.contains_key(k) ==> #[trigger] inv.items@[k].count + grants_sum(gs.subrange(i as int, len)) <= u32::MAX,
            granted_chain(ms, gs.subrange(0, i as int)),
            ms[0] == b0,
            ms.last() == bag_view(inv.items@),
        decreases n.unlock_reward@.len() - i,
    {
        let rw = &n.unlock_reward[i];
        proof {
            assert(gs[i as int] == (rw.item_id@, rw.count));
        }
        grant_step(inv, rw.item_id.as_str(), rw.count, Ghost(gs), Ghost(i as int), Ghost(b0), Ghost(ms));
        proof {
            let new = bag_view(inv.items@);
            lemma_granted_step(b0, ms, gs.subrange(0, i as int), new, (rw.item_id@, rw.count));
            assert(gs.subrange(0, i + 1) =~= gs.subrange(0, i as int).push((rw.item_id@, rw.count)));
            ms = ms.push(new);
        }
        i += 1;
    }
    match &n.action {
        Some(a) => {
            proof {
                match action_grant(*a) {
                    Some(g) => {
                        assert(gs[i as int] == g);
                        assert(i as int + 1 == len);
                    },
                    None => {
                        assert(i as int == len);
                    },
                }
            }
            let ghost cur = inv.items@;
            proof {
                if action_grant(*a) is Some {
                    lemma_grants_split(gs, i as int);
                    lemma_grants_nonneg(gs.subrange(i + 1, len));
                    let g = action_grant(*a)->0;
                    assert forall|k: u32| cur.contains_key(k) && #[trigger] cur[k].item_id@ == g.0 implies cur[k].count + g.1 <= u32::MAX by {}
                }
            }
            execute_action(a, inv);
            proof {
                match action_grant(*a) {
                    Some(g) => {
                        let new = bag_view(inv.items@);
                        lemma_granted_step(b0, ms, gs.subrange(0, i as int), new, g);
                        assert(gs.subrange(0, i + 1) =~= gs.subrange(0, i as int).push(g));
                        assert(gs.subrange(0, i + 1) =~= gs);
                    },
                    None => {
                        assert(gs.subrange(0, i as int) =~= gs);
                    },
                }
            }
        },
        None => {
            proof {
                assert(gs.subrange(0, i as int) =~= gs);
            }
        },
    }
}

/// Grants one reward, keeping the room for the rest.
fn grant_step(
    inv: &mut InventoryState,
    id: &str,
    count: u32,
    Ghost(gs): Ghost<Seq<(Seq<char>, u32)>>,
    Ghost(i): Ghost<int>,
    Ghost(b0): Ghost<Map<u32, SlotView>>,
    Ghost(ms): Ghost<Seq<Map<u32, SlotView>>>,
)
    requires
        0 <= i < gs.len(),
        gs[i] == (id@, count),
        grants_sum(gs.subrange(i, gs.len() as int)) <= u32::MAX,
        forall|k: u32| old(inv).items@.contains_key(k) ==> #[trigger] old(inv).items@[k].count + grants_sum(gs.subrange(i, gs.len() as int)) <= u32::MAX,
    ensures
        granted(bag_view(old(inv).items@), bag_view(final(inv).items@), id@, count),
        grants_sum(gs.subrange(i + 1, gs.len() as int)) <= u32::MAX,
        forall|k: u32| final(inv).items@.contains_key(k) ==> #[trigger] final(inv).items@[k].count + grants_sum(gs.subrange(i + 1, gs.len() as int)) <= u32::MAX,
{
    let ghost len = gs.len() as int;
    let ghost cur = bag_view(inv.items@);
    let ghost cur_items = inv.items@;
    proof {
        lemma_grants_split(gs, i);
        lemma_grants_nonneg(gs.subrange(i + 1, len));
        assert forall|k: u32| cur.contains_key(k) && #[trigger] cur[k].0 == id@ implies cur[k].1 + count <= u32::MAX by {
            assert(cur_items.contains_key(k));
        }
    }
    grant_to_bag(inv, id, count);
    proof {
        let new = bag_view(inv.items@);
        assert forall|k: u32| inv.items@.contains_key(k) implies #[trigger] inv.items@[k].count + grants_sum(gs.subrange(i + 1, len)) <= u32::MAX by {
            assert(new.contains_key(k));
            assert(new[k].1 == inv.items@[k].count);
            if exists|k2: u32| cur.contains_key(k2) && #[trigger] cur[k2].0 == id@ {
                let k2 = choose|k2: u32|
                    cur.contains_key(k2) && #[trigger] cur[k2].0 == id@ && new == cur.insert(
                        k2,
                        (cur[k2].0, (cur[k2].1 + count) as u32, cur[k2].2),
                    );
                assert(cur_items.contains_key(k2) && cur[k2].1 == cur_items[k2].count);
                if k != k2 {
                    assert(cur_items.contains_key(k) && cur[k].1 == cur_items[k].count);
                }
            } else if exists|k2: u32| !#[trigger] cur.contains_key(k2) {
                let k0 = choose|k0: u32| #[trigger] lowest_free_key(cur, k0) && new == cur.insert(k0, (id@, count, 0u32));
                if k != k0 {
                    assert(cur_items.contains_key(k) && cur[k].1 == cur_items[k].count);
                }
            } else {
                assert(cur_items.contains_key(k) && cur[k].1 == cur_items[k].count);
            }
        }
    }
}

proof fn lemma_grants_split(g: Seq<(Seq<char>, u32)>, i: int)
    requires
        0 <= i < g.len(),
    ensures
        grants_sum(g.subrange(i, g.len() as int)) == g[i].1 + grants_sum(g.subrange(i + 1, g.len() as int)),
    decreases g.len() - i,
{
    let n = g.len() as int;
    if i + 1 == n {
        assert(g.subrange(i, n).drop_last() =~= Seq::<(Seq<char>, u32)>::empty());
        assert(g.subrange(i + 1, n) =~= Seq::<(Seq<char>, u32)>::empty());
    } else {
        lemma_grants_split(g.drop_last(), i);
        assert(g.subrange(i, n).drop_last() =~= g.drop_last().subrange(i, n - 1));
        assert(g.subrange(i + 1, n).drop_last() =~= g.drop_last().subrange(i + 1, n - 1));
    }
}

proof fn lemma_grants_nonneg(g: Seq<(Seq<char>, u32)>)
    ensures
        grants_sum(g) >= 0,
    decreases g.len(),
{
    if g.len() > 0 {
        lemma_grants_nonneg(g.drop_last());
    }
}

/// Whether `names` holds `name`.
fn contains_name(names: &Vec<String>, name: &str) -> (r: bool)
    ensures
        r == names@.map_values(|s: String| s@).contains(name@),
{
    match find_key(names, name) {
        Some(i) => {
            proof {
                assert(names@.map_values(|s: String| s@)[i as int] == name@);
            }
            true
        },
        None => {
            proof {
                let v = names@.map_values(|s: String| s@);
                if v.contains(name@) {
                    let j = choose|j: int| 0 <= j < v.len() && #[trigger] v[j] == name@;
                    assert(names@[j]@ == name@);
                }
            }
            false
        },
    }
}

impl FactoryManager {
    /// Unlocks tech-tree node `node_id` for region `region_name`: refused,
    /// changing nothing, unless it is ready (see `stt_ready`) and the
    /// region has a bag; else settled as `unlock_settled` says.
    pub fn stt_unlock_node(&mut self, tree: &StrMap<SttNode>, table: &FactoryTable, region_name: &str, node_id: &str) -> (r: bool)
        requires
            old(self).regions@.contains_key(region_name@) ==> totals_sum(old(self).regions@[region_name@].production_totals@) <= u64::MAX,
            tree@.contains_key(node_id@) && bag_ready(*old(self), region_name@) ==> ({
                let s = grants_sum(unlock_grants(tree@[node_id@]));
                &&& s <= u32::MAX
                &&& forall|k: u32| region_bag(*old(self), region_name@).contains_key(k) ==> #[trigger] region_bag(*old(self), region_name@)[k].count + s <= u32::MAX
            }),
        ensures
            !(stt_ready(*old(self), tree@, region_name@, node_id@) && bag_ready(*old(self), region_name@)) ==> !r && *final(self) == *old(self),
            stt_ready(*old(self), tree@, region_name@, node_id@) && bag_ready(*old(self), region_name@) ==> exists|b1: Map<u32, ItemSlot>|
                #[trigger] unlock_settled(*old(self), *final(self), tree@[node_id@], region_name@, node_id@, b1, r),
    {
        if contains_name(&self.stt_state.unlocked_nodes, node_id) {
            return false;
        }
        let node = match tree.get(node_id) {
            Some(n) => n,
            None => return false,
        };
        let region = match self.region(region_name) {
            Some(g) => g,
            None => return false,
        };
        let mut i: usize = 0;
        while i < node.conditions.len()
            invariant
                0 <= i <= node.conditions@.len(),
                *node == tree@[node_id@],
                tree@.contains_key(node_id@),
                *region == self.regions@[region_name@],
                totals_sum(region.production_totals@) <= u64::MAX,
                forall|j: int| 0 <= j < i ==> condition_holds(#[trigger] node.conditions@[j], *region),
            decreases node.conditions@.len() - i,
        {
            if !evaluate_condition(&node.conditions[i], region) {
                proof {
                    assert(!condition_holds(tree@[node_id@].conditions@[i as int], self.regions@[region_name@]));
                    assert(!stt_ready(*self, tree@, region_name@, node_id@));
                }
                return false;
            }
            i += 1;
        }
        let mut i: usize = 0;
        while i < node.pre_node.len()
            invariant
                0 <= i <= node.pre_node@.len(),
                *node == tree@[node_id@],
                tree@.contains_key(node_id@),
                forall|j: int| 0 <= j < i && (#[trigger] node.pre_node@[j])@.len() > 0 ==> unlocked(*self).contains(node.pre_node@[j]@),
            decreases node.pre_node@.len() - i,
        {
            let pre = &node.pre_node[i];
            if !pre.as_str().is_empty() && !contains_name(&self.stt_state.unlocked_nodes, pre.as_str()) {
                proof {
                    assert(tree@[node_id@].pre_node@[i as int]@.len() > 0);
                    assert(!stt_ready(*self, tree@, region_name@, node_id@));
                }
                return false;
            }
            i += 1;
        }
        let ghost m0 = *self;
        let ghost mut b1: Map<u32, ItemSlot> = Map::empty();
        let paid = match self.region_bag_mut(region_name) {
            Some(bag) => {
                let paid = pay_costs(bag, &node.cost_items, 1);
                proof {
                    b1 = bag.items@;
                }
                if paid {
                    proof {
                        assert forall|k: u32| bag.items@.contains_key(k) implies #[trigger] bag.items@[k].count + grants_sum(
                            unlock_grants(*node),
                        ) <= u32::MAX by {
                            assert(region_bag(m0, region_name@).contains_key(k));
                        }
                    }
                    grant_unlock(bag, node);
                }
                paid
            },
            None => return false,
        };
        if !paid {
            proof {
                assert(unlock_settled(m0, *self, *node, region_name@, node_id@, b1, false));
            }
            return false;
        }
        let ghost m2 = *self;
        self.stt_state.unlocked_nodes.push(node_id.to_owned());
        proof {
            assert(unlocked(*self) =~= unlocked(m0).push(node_id@));
            assert(region_bag(*self, region_name@) == region_bag(m2, region_name@));
            assert(unlock_settled(m0, *self, *node, region_name@, node_id@, b1, true));
        }
        true
    }
}

} // verus!

verus! {

/// A node that an unlock recorded cannot be unlocked again.
pub proof fn lemma_unlocked_once(
    old: FactoryManager,
    new: FactoryManager,
    tree: Map<Seq<char>, SttNode>,
    name: Seq<char>,
    id: Seq<char>,
    b1: Map<u32, ItemSlot>,
)
    requires
        tree.contains_key(id),
        unlock_settled(old, new, tree[id], name, id, b1, true),
    ensures
        !stt_ready(new, tree, name, id),
{
    assert(unlocked(new)[unlocked(new).len() - 1] == id);
}

} // verus!
