//! Traders and contracts.
//!
//! A trader works through the active contract: every 360 ticks it may add
//! an order, picked by weight from the contract's order group, up to 10
//! orders. Committing items adds their contract value to an order; when
//! the order reaches the contract's minimum value it is filled, the
//! contract's rewards go to the bag and the order is gone.
use vstd::prelude::*;

use super::bag::{bag_ready, fell_short, lemma_shrunk, region_bag, regions_bag_changed, took};
use super::component::{InventoryState, ItemSlot, bag_view, slots_view};
use super::inventory::{drained_from, inv_total, try_consume_from_inv};
use super::manager::FactoryManager;
use super::slots::{SlotView, grant_to_bag, granted_all, granted_chain, lemma_granted_none, lemma_granted_step, lowest_free_key};
use super::table::{Contract, FactoryTable};
use super::tick::{Tick, current_tick, spec_elapsed};
use super::{TradeMachine, TradeOrder};
use crate::strmap::StrMap;

verus! {

/// Ticks between two generated orders.
pub const TRADE_ORDER_GEN_SPEED: u64 = 360;

/// Most orders a trader holds.
pub const TRADE_MAX_ORDERS: usize = 10;

/// The strings of `s`, as sequences of characters.
pub open spec fn str_views(s: Seq<String>) -> Seq<Seq<char>> {
    s.map_values(|k: String| k@)
}

/// Sum of the first `n` weights.
pub open spec fn weight_prefix(w: Seq<u32>, n: int) -> int
    decreases n,
{
    if n <= 0 || n > w.len() {
        0
    } else {
        weight_prefix(w, n - 1) + w[n - 1]
    }
}

/// Sum of all weights.
pub open spec fn weight_total(w: Seq<u32>) -> int {
    weight_prefix(w, w.len() as int)
}

/// The first index `i`, from `from` on, whose running weight passes
/// `seed`; `w.len()` when none does.
pub open spec fn pick_index(w: Seq<u32>, seed: int, from: int) -> int
    decreases w.len() - from,
{
    if from < 0 || from >= w.len() {
        w.len() as int
    } else if seed < weight_prefix(w, from + 1) {
        from
    } else {
        pick_index(w, seed, from + 1)
    }
}

/// The id picked by weight at tick `now`: empty when either list is
/// empty or every weight is zero; otherwise the id at
/// the first index whose running weight passes `now` modulo the total
/// (empty when that index has no id).
pub open spec fn weighted_pick(ids: Seq<Seq<char>>, w: Seq<u32>, now: Tick) -> Seq<char> {
    if ids.len() == 0 || w.len() == 0 {
        Seq::empty()
    } else if weight_total(w) == 0 {
        Seq::empty()
    } else {
        let i = pick_index(w, now as int % weight_total(w), 0);
        if i < w.len() {
            if i < ids.len() { ids[i] } else { Seq::empty() }
        } else {
            ids.last()
        }
    }
}

proof fn lemma_prefix_mono(w: Seq<u32>, a: int, b: int)
    requires
        0 <= a <= b <= w.len(),
    ensures
        weight_prefix(w, a) <= weight_prefix(w, b),
    decreases b - a,
{
    if a < b {
        lemma_prefix_mono(w, a, b - 1);
    }
}

proof fn lemma_pick_skip(w: Seq<u32>, seed: int, i: int)
    requires
        0 <= i <= w.len(),
        forall|j: int| 0 <= j < i ==> seed >= #[trigger] weight_prefix(w, j + 1),
    ensures
        pick_index(w, seed, 0) == pick_index(w, seed, i),
    decreases i,
{
    if i > 0 {
        lemma_pick_skip(w, seed, i - 1);
        assert(seed >= weight_prefix(w, i));
    }
}

/// Picks an id by weight at tick `now` (see `weighted_pick`).
pub fn weighted_random_at(ids: &Vec<String>, weights: &Vec<u32>, now: Tick) -> (r: String)
    requires
        weight_total(weights@) <= u32::MAX,
    ensures
        r@ == weighted_pick(str_views(ids@), weights@, now),
{
    if ids.len() == 0 || weights.len() == 0 {
        return String::new();
    }
    let mut total: u32 = 0;
    let mut i: usize = 0;
    while i < weights.len()
        invariant
            0 <= i <= weights@.len(),
            total == weight_prefix(weights@, i as int),
            weight_total(weights@) <= u32::MAX,
        decreases weights@.len() - i,
    {
        proof {
            lemma_prefix_mono(weights@, i + 1, weights@.len() as int);
        }
        total = total + weights[i];
        i += 1;
    }
    if total == 0 {
        return String::new();
    }
    let seed: u32 = (now % (total as u64)) as u32;
    let mut acc: u32 = 0;
    let mut i: usize = 0;
    while i < weights.len()
        invariant
            0 <= i <= weights@.len(),
            total == weight_total(weights@),
            total > 0,
            seed == now as int % weight_total(weights@),
            acc == weight_prefix(weights@, i as int),
            forall|j: int| 0 <= j < i ==> seed >= #[trigger] weight_prefix(weights@, j + 1),
        decreases weights@.len() - i,
    {
        proof {
            lemma_prefix_mono(weights@, i + 1, weights@.len() as int);
        }
        acc = acc + weights[i];
        if seed < acc {
            proof {
                lemma_pick_skip(weights@, seed as int, i as int);
            }
            if i < ids.len() {
                return ids[i].clone();
            }
            return String::new();
        }
        i += 1;
    }
    proof {
        lemma_pick_skip(weights@, seed as int, i as int);
    }
    ids[ids.len() - 1].clone()
}

/// Picks an id by weight on the system clock (see `weighted_pick`).
pub fn weighted_random(ids: &Vec<String>, weights: &Vec<u32>) -> (r: String)
    requires
        weight_total(weights@) <= u32::MAX,
    ensures
        exists|now: Tick| r@ == #[trigger] weighted_pick(str_views(ids@), weights@, now),
{
    let now = current_tick();
    weighted_random_at(ids, weights, now)
}

/// The largest order instance id, 0 for none.
pub open spec fn max_inst(orders: Seq<TradeOrder>) -> int
    decreases orders.len(),
{
    if orders.len() == 0 {
        0
    } else {
        let m = max_inst(orders.drop_last());
        if orders.last().inst_id > m { orders.last().inst_id as int } else { m }
    }
}

/// Order slots earned since the last generation.
pub open spec fn gen_slots(t: TradeMachine, now: Tick) -> int {
    spec_elapsed(now, t.last_gen_tick) / (TRADE_ORDER_GEN_SPEED as int)
}

/// Orders to generate: earned slots, up to the free room.
pub open spec fn gen_count(t: TradeMachine, now: Tick) -> int {
    let room = if t.orders@.len() >= TRADE_MAX_ORDERS { 0 } else { TRADE_MAX_ORDERS - t.orders@.len() };
    if gen_slots(t, now) < room { gen_slots(t, now) } else { room }
}

/// The contract that trader `name` works through, when it has one that
/// exists.
pub open spec fn active_contract(m: FactoryManager, contracts: Map<Seq<char>, Contract>, name: Seq<char>) -> Option<Contract> {
    if m.trade_state@.contains_key(name) && m.trade_state@[name].active_contract is Some
        && contracts.contains_key(m.trade_state@[name].active_contract->0@) {
        Some(contracts[m.trade_state@[name].active_contract->0@])
    } else {
        None
    }
}

/// Trader `name` has a contract and has earned an order slot at `now`.
pub open spec fn gen_due(m: FactoryManager, contracts: Map<Seq<char>, Contract>, name: Seq<char>, now: Tick) -> bool {
    active_contract(m, contracts, name) is Some && gen_slots(m.trade_state@[name], now) > 0
}

/// A freshly generated order.
pub open spec fn fresh_order(o: TradeOrder, order_id: Seq<char>, inst: int) -> bool {
    &&& o.order_id@ == order_id
    &&& o.accumulated_value == 0
    &&& o.items_committed@.len() == 0
    &&& o.inst_id == inst
}

/// `t1` is trader `t0` after generating at `now` under contract `c`: the
/// order picked at `now`, when it names an order of the table, is added
/// `gen_count` times with consecutive instance ids after the largest, and
/// the generation tick moves to `now`.
pub open spec fn generated(t0: TradeMachine, t1: TradeMachine, c: Contract, table: FactoryTable, now: Tick) -> bool {
    let pick = weighted_pick(str_views(c.order_id_group@), c.order_weight@, now);
    let n = if pick.len() > 0 && table.orders@.contains_key(pick) { gen_count(t0, now) } else { 0 };
    let k = t0.orders@.len();
    &&& t1.orders@.len() == k + n
    &&& t1.orders@.subrange(0, k as int) == t0.orders@
    &&& forall|i: int| 0 <= i < n ==> fresh_order(#[trigger] t1.orders@[k + i], pick, max_inst(t0.orders@) + 1 + i)
    &&& t1.last_gen_tick == now
    &&& t1.region_name == t0.region_name
    &&& t1.building_level == t0.building_level
    &&& t1.active_contract == t0.active_contract
}

/// `new` is `old` with only trader `name` changed, to `t`.
pub open spec fn trader_changed(old: FactoryManager, new: FactoryManager, name: Seq<char>, t: TradeMachine) -> bool {
    &&& new.trade_state@ == old.trade_state@.insert(name, t)
    &&& new.current_region == old.current_region
    &&& new.regions == old.regions
    &&& new.quickbars == old.quickbars
    &&& new.stt_state == old.stt_state
    &&& new.manufacture_state == old.manufacture_state
    &&& new.processor_state == old.processor_state
    &&& new.recycler_state == old.recycler_state
    &&& new.workshop_state == old.workshop_state
    &&& new.soil_state == old.soil_state
    &&& new.manual_work_state == old.manual_work_state
    &&& new.character_work_state == old.character_work_state
}

/// The state after trader `name` generated its orders at `now`: unchanged
/// unless an order is due, else the trader as `generated` says.
pub open spec fn orders_generated(
    old: FactoryManager,
    new: FactoryManager,
    table: FactoryTable,
    contracts: Map<Seq<char>, Contract>,
    name: Seq<char>,
    now: Tick,
) -> bool {
    if gen_due(old, contracts, name, now) {
        trader_changed(old, new, name, new.trade_state@[name]) && generated(
            old.trade_state@[name],
            new.trade_state@[name],
            active_contract(old, contracts, name)->0,
            table,
            now,
        )
    } else {
        new == old
    }
}

/// The instance ids stay in 32 bits when trader `name` generates at `now`.
pub open spec fn gen_fits(m: FactoryManager, contracts: Map<Seq<char>, Contract>, name: Seq<char>, now: Tick) -> bool {
    gen_due(m, contracts, name, now) ==> {
        &&& weight_total(active_contract(m, contracts, name)->0.order_weight@) <= u32::MAX
        &&& max_inst(m.trade_state@[name].orders@) + 1 + gen_count(m.trade_state@[name], now) <= u32::MAX
    }
}

/// The largest instance id among `orders`.
fn max_order_inst(orders: &Vec<TradeOrder>) -> (r: u32)
    ensures
        r == max_inst(orders@),
{
    let mut m: u32 = 0;
    let mut i: usize = 0;
    while i < orders.len()
        invariant
            0 <= i <= orders@.len(),
            m == max_inst(orders@.subrange(0, i as int)),
        decreases orders@.len() - i,
    {
        proof {
            assert(orders@.subrange(0, i + 1).drop_last() =~= orders@.subrange(0, i as int));
        }
        if orders[i].inst_id > m {
            m = orders[i].inst_id;
        }
        i += 1;
    }
    proof {
        assert(orders@.subrange(0, orders@.len() as int) =~= orders@);
    }
    m
}

/// `orders` without those of instance id `inst`.
pub open spec fn orders_without(orders: Seq<TradeOrder>, inst: u32) -> Seq<TradeOrder>
    decreases orders.len(),
{
    if orders.len() == 0 {
        Seq::empty()
    } else {
        let rest = orders_without(orders.drop_last(), inst);
        if orders.last().inst_id == inst { rest } else { rest.push(orders.last()) }
    }
}

/// Index of the first order of instance id `inst`.
pub open spec fn order_index(orders: Seq<TradeOrder>, inst: u32, from: int) -> Option<int>
    decreases orders.len() - from,
{
    if from < 0 || from >= orders.len() {
        None
    } else if orders[from].inst_id == inst {
        Some(from)
    } else {
        order_index(orders, inst, from + 1)
    }
}

/// The value of one item `id` under a contract: its first listed value,
/// 0 when unlisted.
pub open spec fn item_value(values: Seq<(String, u64)>, id: Seq<char>) -> u64
    decreases values.len(),
{
    if values.len() == 0 {
        0
    } else if values[0].0@ == id {
        values[0].1
    } else {
        item_value(values.drop_first(), id)
    }
}

/// A commit record: item id, count taken, value added.
pub type CommitView = (Seq<char>, u32, u64);

/// The commit records of `cs`.
pub open spec fn commit_views(cs: Seq<(String, u32, u64)>) -> Seq<CommitView> {
    cs.map_values(|c: (String, u32, u64)| (c.0@, c.1, c.2))
}

/// One item offered for an order: a positive count of a valued item is
/// taken from the bag when the bag holds it all (and recorded), else
/// every stack of it is drained (and nothing recorded); others are
/// skipped.
pub open spec fn commit_step(
    b: Map<u32, ItemSlot>,
    b2: Map<u32, ItemSlot>,
    id: Seq<char>,
    count: i64,
    value: u64,
    c0: Seq<CommitView>,
    c1: Seq<CommitView>,
) -> bool {
    if count <= 0 || value == 0 {
        b2 == b && c1 == c0
    } else if inv_total(b, id) >= (count as u32) {
        took(b, b2, id, (count as u32) as int) && c1 == c0.push((id, count as u32, (value * (count as u64)) as u64))
    } else {
        fell_short(b, b2, id, (count as u32) as int) && c1 == c0
    }
}

/// `bs` and `cs` list the bag and the records after each offered item.
pub open spec fn commit_chain(
    bs: Seq<Map<u32, ItemSlot>>,
    cs: Seq<Seq<CommitView>>,
    order: Seq<Seq<char>>,
    items: Map<Seq<char>, i64>,
    values: Seq<(String, u64)>,
) -> bool {
    &&& bs.len() == order.len() + 1
    &&& cs.len() == order.len() + 1
    &&& cs[0] == Seq::<CommitView>::empty()
    &&& forall|i: int|
        0 <= i < order.len() ==> #[trigger] commit_step(
            bs[i],
            bs[i + 1],
            order[i],
            items[order[i]],
            item_value(values, order[i]),
            cs[i],
            cs[i + 1],
        )
}

/// Offering `items` in `order` turned bag `b0` into `b1`, recording `c`.
pub open spec fn committed(
    b0: Map<u32, ItemSlot>,
    b1: Map<u32, ItemSlot>,
    order: Seq<Seq<char>>,
    items: Map<Seq<char>, i64>,
    values: Seq<(String, u64)>,
    c: Seq<CommitView>,
) -> bool {
    exists|bs: Seq<Map<u32, ItemSlot>>, cs: Seq<Seq<CommitView>>|
        #[trigger] commit_chain(bs, cs, order, items, values) && bs[0] == b0 && bs.last() == b1 && cs.last() == c
}

/// Total value of commit records.
pub open spec fn commit_total(c: Seq<CommitView>) -> int
    decreases c.len(),
{
    if c.len() == 0 { 0 } else { commit_total(c.drop_last()) + c.last().2 }
}

/// What one offered item could add: value times count when both are
/// positive.
pub open spec fn offer_value(items: Map<Seq<char>, i64>, values: Seq<(String, u64)>, id: Seq<char>) -> int {
    if items[id] > 0 && item_value(values, id) > 0 { item_value(values, id) * items[id] } else { 0 }
}

/// What all items in `order` could add.
pub open spec fn offered(order: Seq<Seq<char>>, items: Map<Seq<char>, i64>, values: Seq<(String, u64)>) -> int
    decreases order.len(),
{
    if order.len() == 0 { 0 } else { offered(order.drop_last(), items, values) + offer_value(items, values, order.last()) }
}

/// The commit records, as the slots an order keeps.
pub open spec fn commit_slots(c: Seq<CommitView>) -> Seq<(Seq<char>, u32, u32)> {
    c.map_values(|x: CommitView| (x.0, x.1, 0u32))
}

/// The rewards of a contract, one of each listed item.
pub open spec fn reward_grants(rewards: Seq<String>) -> Seq<(Seq<char>, u32)> {
    rewards.map_values(|r: String| (r@, 1u32))
}

/// Index of the first order of instance id `inst`.
fn find_order(orders: &Vec<TradeOrder>, inst: u32) -> (r: Option<usize>)
    ensures
        match r {
            Some(i) => order_index(orders@, inst, 0) == Some(i as int),
            None => order_index(orders@, inst, 0) is None,
        },
{
    let mut i: usize = 0;
    while i < orders.len()
        invariant
            0 <= i <= orders@.len(),
            order_index(orders@, inst, 0) == order_index(orders@, inst, i as int),
        decreases orders@.len() - i,
    {
        if orders[i].inst_id == inst {
            return Some(i);
        }
        i += 1;
    }
    None
}

/// The value of one item `id` (see `item_value`).
fn find_value(values: &Vec<(String, u64)>, id: &str) -> (r: u64)
    ensures
        r == item_value(values@, id@),
{
    let key_s = id.to_owned();
    let mut i: usize = 0;
    proof {
        assert(values@.subrange(0, values@.len() as int) =~= values@);
    }
    while i < values.len()
        invariant
            0 <= i <= values@.len(),
            key_s@ == id@,
            item_value(values@, id@) == item_value(values@.subrange(i as int, values@.len() as int), id@),
        decreases values@.len() - i,
    {
        proof {
            assert(values@.subrange(i as int, values@.len() as int).drop_first() =~= values@.subrange(i + 1, values@.len() as int));
        }
        if values[i].0 == key_s {
            return values[i].1;
        }
        i += 1;
    }
    0
}

proof fn lemma_offered_mono(order: Seq<Seq<char>>, items: Map<Seq<char>, i64>, values: Seq<(String, u64)>, i: int)
    requires
        0 <= i <= order.len(),
    ensures
        offered(order.subrange(0, i), items, values) <= offered(order, items, values),
    decreases order.len() - i,
{
    if i < order.len() {
        lemma_offered_mono(order, items, values, i + 1);
        assert(order.subrange(0, i + 1).drop_last() =~= order.subrange(0, i));
        assert(offer_value(items, values, order[i]) >= 0) by (nonlinear_arith)
            requires
                offer_value(items, values, order[i]) == (if items[order[i]] > 0 && item_value(values, order[i]) > 0 {
                    item_value(values, order[i]) * items[order[i]]
                } else {
                    0
                }),
        ;
    } else {
        assert(order.subrange(0, i) =~= order);
    }
}

/// Offers each item of `items`, in key order, to the bag (see
/// `committed`), returning the records.
fn commit_items(inv: &mut InventoryState, items: &StrMap<i64>, values: &Vec<(String, u64)>) -> (r: Vec<(String, u32, u64)>)
    requires
        forall|k: Seq<char>| items@.contains_key(k) ==> offer_value(items@, values@, k) <= u64::MAX,
    ensures
        committed(old(inv).items@, final(inv).items@, items.key_order(), items@, values@, commit_views(r@)),
        commit_total(commit_views(r@)) <= offered(items.key_order(), items@, values@),
        forall|j: int| 0 <= j < r@.len() ==> #[trigger] r@[j].2 > 0,
        forall|k: u32| final(inv).items@.contains_key(k) ==> old(inv).items@.contains_key(k) && final(inv).items@[k].count <= old(inv).items@[k].count
            && final(inv).items@[k].item_id == old(inv).items@[k].item_id,
{
    let keys = items.keys();
    let ghost order = items.key_order();
    let ghost b0 = inv.items@;
    let ghost mut bs: Seq<Map<u32, ItemSlot>> = seq![b0];
    let ghost mut css: Seq<Seq<CommitView>> = seq![Seq::<CommitView>::empty()];
    let mut out: Vec<(String, u32, u64)> = Vec::new();
    proof {
        assert(commit_chain(bs, css, order.subrange(0, 0), items@, values@));
        assert(commit_views(out@) =~= Seq::<CommitView>::empty());
        assert(order.subrange(0, 0) =~= Seq::<Seq<char>>::empty());
    }
    let mut i: usize = 0;
    while i < keys.len()
        invariant
            0 <= i <= keys@.len(),
            keys@.len() == order.len(),
            keys@.map_values(|k: String| k@) == order,
            forall|k: Seq<char>| items@.contains_key(k) <==> exists|a: int| 0 <= a < keys@.len() && #[trigger] keys@[a]@ == k,
            forall|k: Seq<char>| items@.contains_key(k) ==> offer_value(items@, values@, k) <= u64::MAX,
            b0 == old(inv).items@,
            commit_chain(bs, css, order.subrange(0, i as int), items@, values@),
            bs[0] == b0,
            bs.last() == inv.items@,
            css.last() == commit_views(out@),
            commit_total(commit_views(out@)) <= offered(order.subrange(0, i as int), items@, values@),
            forall|j: int| 0 <= j < out@.len() ==> #[trigger] out@[j].2 > 0,
            forall|k: u32| inv.items@.contains_key(k) ==> b0.contains_key(k) && inv.items@[k].count <= b0[k].count && inv.items@[k].item_id == b0[k].item_id,
        decreases keys@.len() - i,
    {
        let key = &keys[i];
        let ghost id = key@;
        proof {
            assert(order[i as int] == id);
            assert(items@.contains_key(id));
            assert(order.subrange(0, i + 1).drop_last() =~= order.subrange(0, i as int));
            assert(order.subrange(0, i + 1).last() == id);
        }
        let count: i64 = match items.get(key.as_str()) {
            Some(c) => *c,
            None => 0,
        };
        let value = find_value(values, key.as_str());
        let ghost cur = inv.items@;
        let ghost c0 = commit_views(out@);
        if count > 0 && value > 0 {
            proof {
                assert(offer_value(items@, values@, id) == value * count);
                assert(value * count <= u64::MAX);
            }
            let need: u32 = #[verifier::truncate] (count as u32);
            let ok = try_consume_from_inv(inv, key.as_str(), need);
            if ok {
                let added: u64 = value * (count as u64);
                assert(added > 0) by (nonlinear_arith)
                    requires
                        added == value * (count as u64),
                        value > 0,
                        count > 0,
                ;
                out.push((key.clone(), need, added));
                proof {
                    assert(commit_views(out@) =~= c0.push((id, need, added)));
                    assert(commit_views(out@).drop_last() =~= c0);
                }
            }
        }
        proof {
            let o2 = order.subrange(0, i + 1);
            let bs2 = bs.push(inv.items@);
            let css2 = css.push(commit_views(out@));
            assert(commit_step(cur, inv.items@, id, count, value, c0, commit_views(out@)));
            if count > 0 && value > 0 {
                lemma_shrunk(b0, cur, inv.items@, id);
            }
            assert forall|j: int| 0 <= j < o2.len() implies #[trigger] commit_step(
                bs2[j],
                bs2[j + 1],
                o2[j],
                items@[o2[j]],
                item_value(values@, o2[j]),
                css2[j],
                css2[j + 1],
            ) by {
                if j < i {
                    assert(o2[j] == order.subrange(0, i as int)[j]);
                }
            }
            assert(commit_chain(bs2, css2, o2, items@, values@));
            bs = bs2;
            css = css2;
            if !(count > 0 && value > 0) {
                assert(offer_value(items@, values@, id) >= 0);
            }
        }
        i += 1;
    }
    proof {
        assert(order.subrange(0, order.len() as int) =~= order);
    }
    out
}

/// Adds commit records to an order: their values to its total, their
/// items to its committed list. Returns the value added.
fn add_to_order(order: &mut TradeOrder, cs: &Vec<(String, u32, u64)>) -> (total: u64)
    requires
        old(order).accumulated_value + commit_total(commit_views(cs@)) <= u64::MAX,
    ensures
        total == commit_total(commit_views(cs@)),
        final(order).accumulated_value == old(order).accumulated_value + total,
        slots_view(final(order).items_committed@) == slots_view(old(order).items_committed@) + commit_slots(commit_views(cs@)),
        final(order).order_id == old(order).order_id,
        final(order).inst_id == old(order).inst_id,
{
    let ghost cv = commit_views(cs@);
    let ghost o0 = *order;
    let mut total: u64 = 0;
    let mut i: usize = 0;
    proof {
        assert(cv.subrange(0, 0) =~= Seq::<CommitView>::empty());
        assert(slots_view(order.items_committed@) =~= slots_view(o0.items_committed@) + commit_slots(cv.subrange(0, 0)));
    }
    while i < cs.len()
        invariant
            0 <= i <= cs@.len(),
            cv == commit_views(cs@),
            o0.accumulated_value + commit_total(cv) <= u64::MAX,
            total == commit_total(cv.subrange(0, i as int)),
            order.accumulated_value == o0.accumulated_value + total,
            slots_view(order.items_committed@) == slots_view(o0.items_committed@) + commit_slots(cv.subrange(0, i as int)),
            order.order_id == o0.order_id,
            order.inst_id == o0.inst_id,
        decreases cs@.len() - i,
    {
        proof {
            assert(cv.subrange(0, i + 1).drop_last() =~= cv.subrange(0, i as int));
            lemma_commit_total_prefix(cv, i + 1);
        }
        let c = &cs[i];
        total = total + c.2;
        order.accumulated_value = order.accumulated_value + c.2;
        let ghost before = order.items_committed@;
        order.items_committed.push(ItemSlot { item_id: c.0.clone(), count: c.1, inst_id: 0 });
        proof {
            assert(slots_view(order.items_committed@) =~= slots_view(before).push((c.0@, c.1, 0u32)));
            assert(commit_slots(cv.subrange(0, i + 1)) =~= commit_slots(cv.subrange(0, i as int)).push((c.0@, c.1, 0u32)));
            assert(slots_view(order.items_committed@) =~= slots_view(o0.items_committed@) + commit_slots(cv.subrange(0, i + 1)));
        }
        i += 1;
    }
    proof {
        assert(cv.subrange(0, cs@.len() as int) =~= cv);
    }
    total
}

proof fn lemma_commit_total_prefix(c: Seq<CommitView>, i: int)
    requires
        0 <= i <= c.len(),
    ensures
        commit_total(c.subrange(0, i)) <= commit_total(c),
    decreases c.len() - i,
{
    if i < c.len() {
        lemma_commit_total_prefix(c, i + 1);
        assert(c.subrange(0, i + 1).drop_last() =~= c.subrange(0, i));
    } else {
        assert(c.subrange(0, i) =~= c);
    }
}

proof fn lemma_commit_total_pos(c: Seq<CommitView>)
    requires
        c.len() > 0,
        forall|j: int| 0 <= j < c.len() ==> #[trigger] c[j].2 > 0,
    ensures
        commit_total(c) > 0,
    decreases c.len(),
{
    assert(c[c.len() - 1].2 > 0);
    if c.len() > 1 {
        assert forall|j: int| 0 <= j < c.drop_last().len() implies #[trigger] c.drop_last()[j].2 > 0 by {
            assert(c[j].2 > 0);
        }
        lemma_commit_total_pos(c.drop_last());
    } else {
        assert(commit_total(c.drop_last()) == 0);
    }
}

/// Grants one of each reward to the bag, in order.
fn grant_rewards(inv: &mut InventoryState, rewards: &Vec<String>)
    requires
        rewards@.len() <= u32::MAX,
        forall|k: u32|
            old(inv).items@.contains_key(k) && names_reward(rewards@, old(inv).items@[k].item_id@) ==> #[trigger] old(
                inv,
            ).items@[k].count + rewards@.len() <= u32::MAX,
    ensures
        granted_all(bag_view(old(inv).items@), bag_view(final(inv).items@), reward_grants(rewards@)),
{
    let ghost b0 = bag_view(inv.items@);
    let ghost items = reward_grants(rewards@);
    let ghost n = rewards@.len();
    let ghost mut ms: Seq<Map<u32, SlotView>> = seq![b0];
    proof {
        lemma_granted_none(b0);
        assert(items.subrange(0, 0) =~= Seq::<(Seq<char>, u32)>::empty());
    }
    let mut i: usize = 0;
    while i < rewards.len()
        invariant
            0 <= i <= n,
            n == rewards@.len(),
            n <= u32::MAX,
            items == reward_grants(rewards@),
            b0 == bag_view(old(inv).items@),
            granted_chain(ms, items.subrange(0, i as int)),
            ms[0] == b0,
            ms.last() == bag_view(inv.items@),
            forall|k: u32|
                inv.items@.contains_key(k) && names_reward(rewards@, inv.items@[k].item_id@) ==> #[trigger] inv.items@[k].count
                    + (n - i) <= u32::MAX,
        decreases n - i,
    {
        let r = &rewards[i];
        let ghost cur = bag_view(inv.items@);
        let ghost cur_items = inv.items@;
        proof {
            assert(rewards@[i as int]@ == r@);
            assert(names_reward(rewards@, r@));
            assert forall|k: u32| cur.contains_key(k) && #[trigger] cur[k].0 == r@ implies cur[k].1 + 1u32 <= u32::MAX by {
                assert(inv.items@.contains_key(k));
                assert(cur_items[k].item_id@ == r@);
                assert(cur_items[k].count + (n - i) <= u32::MAX);
            }
        }
        grant_to_bag(inv, r.as_str(), 1);
        proof {
            let new = bag_view(inv.items@);
            lemma_granted_step(b0, ms, items.subrange(0, i as int), new, (r@, 1u32));
            assert(items.subrange(0, i + 1) =~= items.subrange(0, i as int).push((r@, 1u32)));
            ms = ms.push(new);
            assert forall|k: u32|
                inv.items@.contains_key(k) && names_reward(rewards@, inv.items@[k].item_id@) implies #[trigger] inv.items@[k].count
                    + (n - (i + 1)) <= u32::MAX by {
                assert(new.contains_key(k));
                assert(new[k].1 == inv.items@[k].count);
                assert(new[k].0 == inv.items@[k].item_id@);
                if exists|k2: u32| cur.contains_key(k2) && #[trigger] cur[k2].0 == r@ {
                    let k2 = choose|k2: u32|
                        cur.contains_key(k2) && #[trigger] cur[k2].0 == r@ && new == cur.insert(
                            k2,
                            (cur[k2].0, (cur[k2].1 + 1u32) as u32, cur[k2].2),
                        );
                    assert(cur_items.contains_key(k2) && cur[k2].1 == cur_items[k2].count);
                    assert(cur_items[k2].item_id@ == r@);
                    assert(cur_items[k2].count + (n - i) <= u32::MAX);
                    if k != k2 {
                        assert(new[k] == cur[k]);
                        assert(cur_items.contains_key(k) && cur[k].1 == cur_items[k].count);
                        assert(cur_items[k].item_id@ == cur[k].0);
                    }
                } else if exists|k2: u32| !#[trigger] cur.contains_key(k2) {
                    let k0 = choose|k0: u32| #[trigger] lowest_free_key(cur, k0) && new == cur.insert(k0, (r@, 1u32, 0u32));
                    if k != k0 {
                        assert(new[k] == cur[k]);
                        assert(cur_items.contains_key(k) && cur[k].1 == cur_items[k].count);
                        assert(cur_items[k].item_id@ == cur[k].0);
                    }
                } else {
                    assert(cur_items.contains_key(k) && cur[k].1 == cur_items[k].count);
                    assert(cur_items[k].item_id@ == cur[k].0);
                }
            }
        }
        i += 1;
    }
    proof {
        assert(items.subrange(0, n as int) =~= items);
    }
}

/// Only the regions and the traders of `old` changed in `new`.
pub open spec fn regions_trades_only(old: FactoryManager, new: FactoryManager) -> bool {
    &&& new.current_region == old.current_region
    &&& new.quickbars == old.quickbars
    &&& new.stt_state == old.stt_state
    &&& new.manufacture_state == old.manufacture_state
    &&& new.processor_state == old.processor_state
    &&& new.recycler_state == old.recycler_state
    &&& new.workshop_state == old.workshop_state
    &&& new.soil_state == old.soil_state
    &&& new.manual_work_state == old.manual_work_state
    &&& new.character_work_state == old.character_work_state
}

/// Trader `name` is `t0` with only its orders changed, in `new`.
pub open spec fn orders_changed(old: FactoryManager, new: FactoryManager, name: Seq<char>) -> bool {
    let t0 = old.trade_state@[name];
    let t1 = new.trade_state@[name];
    &&& new.trade_state@ == old.trade_state@.insert(name, t1)
    &&& t1.region_name == t0.region_name
    &&& t1.building_level == t0.building_level
    &&& t1.active_contract == t0.active_contract
    &&& t1.last_gen_tick == t0.last_gen_tick
}

/// How committing to order `idx` of trader `name` settles, given the
/// bag `b1` and records `cs` the commit left: nothing taken is a refusal
/// (the drained bag stays); a filled order is paid out with the
/// contract's rewards and removed; otherwise the order grows.
pub open spec fn cash_settled(
    g: FactoryManager,
    new: FactoryManager,
    c: Contract,
    name: Seq<char>,
    idx: int,
    b1: Map<u32, ItemSlot>,
    cs: Seq<CommitView>,
    r: bool,
) -> bool {
    let orders = g.trade_state@[name].orders@;
    let o0 = orders[idx];
    let acc = o0.accumulated_value + commit_total(cs);
    let o1 = new.trade_state@[name].orders@[idx];
    &&& regions_trades_only(g, new)
    &&& new.regions@.contains_key(name)
    &&& cs.len() == 0 ==> !r && new.trade_state == g.trade_state && region_bag(new, name) == b1
        && regions_bag_changed(g.regions@, new.regions@, name, bag_view(b1))
    &&& cs.len() > 0 ==> r && orders_changed(g, new, name)
    &&& cs.len() > 0 && acc >= c.min_value ==> new.trade_state@[name].orders@ == orders.remove(idx) && regions_bag_changed(
        g.regions@,
        new.regions@,
        name,
        bag_view(region_bag(new, name)),
    ) && granted_all(bag_view(b1), bag_view(region_bag(new, name)), reward_grants(c.reward_items@))
    &&& cs.len() > 0 && acc < c.min_value ==> {
        &&& region_bag(new, name) == b1
        &&& regions_bag_changed(g.regions@, new.regions@, name, bag_view(b1))
        &&& new.trade_state@[name].orders@.len() == orders.len()
        &&& forall|j: int| 0 <= j < orders.len() && j != idx ==> #[trigger] new.trade_state@[name].orders@[j] == orders[j]
        &&& o1.accumulated_value == acc
        &&& slots_view(o1.items_committed@) == slots_view(o0.items_committed@) + commit_slots(cs)
        &&& o1.order_id == o0.order_id
        &&& o1.inst_id == o0.inst_id
    }
}

/// What committing `items` (offered in `order`) to order `inst` of
/// trader `name` does to `g`: refused, changing nothing, without an
/// active contract, such an order, or a bag; else settled as
/// `cash_settled` says.
pub open spec fn cash_outcome(
    g: FactoryManager,
    new: FactoryManager,
    contracts: Map<Seq<char>, Contract>,
    name: Seq<char>,
    inst: u32,
    order: Seq<Seq<char>>,
    items: Map<Seq<char>, i64>,
    r: bool,
) -> bool {
    match active_contract(g, contracts, name) {
        None => !r && new == g,
        Some(c) => match order_index(g.trade_state@[name].orders@, inst, 0) {
            None => !r && new == g,
            Some(idx) => if !bag_ready(g, name) {
                !r && new == g
            } else {
                exists|b1: Map<u32, ItemSlot>, cs: Seq<CommitView>|
                    #[trigger] committed(region_bag(g, name), b1, order, items, c.item_value_group@, cs) && cash_settled(
                        g,
                        new,
                        c,
                        name,
                        idx,
                        b1,
                        cs,
                        r,
                    )
            },
        },
    }
}

/// Committing to order `inst` of trader `name` stays within the counters:
/// each offered value fits, the order's total with all offered value
/// fits, and every bag stack has room for one of each reward.
pub open spec fn cash_fits(
    m: FactoryManager,
    contracts: Map<Seq<char>, Contract>,
    name: Seq<char>,
    inst: u32,
    order: Seq<Seq<char>>,
    items: Map<Seq<char>, i64>,
) -> bool {
    active_contract(m, contracts, name) matches Some(c) ==> {
        let values = c.item_value_group@;
        &&& forall|k: Seq<char>| items.contains_key(k) ==> offer_value(items, values, k) <= u64::MAX
        &&& offered(order, items, values) <= u64::MAX
        &&& forall|j: int|
            0 <= j < m.trade_state@[name].orders@.len() && (#[trigger] m.trade_state@[name].orders@[j]).inst_id == inst
                ==> m.trade_state@[name].orders@[j].accumulated_value + offered(order, items, values) <= u64::MAX
        &&& c.reward_items@.len() <= u32::MAX
        &&& bag_ready(m, name) ==> forall|k: u32|
            region_bag(m, name).contains_key(k) && names_reward(c.reward_items@, region_bag(m, name)[k].item_id@)
                ==> #[trigger] region_bag(m, name)[k].count + c.reward_items@.len() <= u32::MAX
    }
}

/// Item `id` is one of `rewards`.
pub open spec fn names_reward(rewards: Seq<String>, id: Seq<char>) -> bool {
    exists|j: int| 0 <= j < rewards.len() && #[trigger] rewards[j]@ == id
}

proof fn lemma_without_len(s: Seq<TradeOrder>, inst: u32)
    ensures
        orders_without(s, inst).len() <= s.len(),
        orders_without(s, inst).len() == s.len() <==> (forall|j: int| 0 <= j < s.len() ==> #[trigger] s[j].inst_id != inst),
    decreases s.len(),
{
    if s.len() > 0 {
        let d = s.drop_last();
        lemma_without_len(d, inst);
        assert forall|j: int| 0 <= j < d.len() implies #[trigger] d[j] == s[j] by {}
        if s.last().inst_id == inst {
            assert(s[s.len() - 1].inst_id == inst);
        } else {
            if forall|j: int| 0 <= j < s.len() ==> #[trigger] s[j].inst_id != inst {
                assert forall|j: int| 0 <= j < d.len() implies #[trigger] d[j].inst_id != inst by {
                    assert(s[j].inst_id != inst);
                }
            }
            if forall|j: int| 0 <= j < d.len() ==> #[trigger] d[j].inst_id != inst {
                assert forall|j: int| 0 <= j < s.len() implies #[trigger] s[j].inst_id != inst by {
                    if j < d.len() {
                        assert(d[j].inst_id != inst);
                    }
                }
            }
        }
    }
}

proof fn lemma_order_index_found(orders: Seq<TradeOrder>, inst: u32, from: int)
    requires
        0 <= from,
    ensures
        order_index(orders, inst, from) matches Some(i) ==> from <= i < orders.len() && orders[i].inst_id == inst,
    decreases orders.len() - from,
{
    if from < orders.len() && orders[from].inst_id != inst {
        lemma_order_index_found(orders, inst, from + 1);
    }
}

/// Total value of commit records.
fn sum_commits(cs: &Vec<(String, u32, u64)>) -> (total: u64)
    requires
        commit_total(commit_views(cs@)) <= u64::MAX,
    ensures
        total == commit_total(commit_views(cs@)),
{
    let ghost cv = commit_views(cs@);
    let mut total: u64 = 0;
    let mut i: usize = 0;
    proof {
        assert(cv.subrange(0, 0) =~= Seq::<CommitView>::empty());
    }
    while i < cs.len()
        invariant
            0 <= i <= cs@.len(),
            cv == commit_views(cs@),
            commit_total(cv) <= u64::MAX,
            total == commit_total(cv.subrange(0, i as int)),
        decreases cs@.len() - i,
    {
        proof {
            assert(cv.subrange(0, i + 1).drop_last() =~= cv.subrange(0, i as int));
            lemma_commit_total_prefix(cv, i + 1);
        }
        total = total + cs[i].2;
        i += 1;
    }
    proof {
        assert(cv.subrange(0, cs@.len() as int) =~= cv);
    }
    total
}

proof fn lemma_generated_keeps(
    m0: FactoryManager,
    g: FactoryManager,
    table: FactoryTable,
    contracts: Map<Seq<char>, Contract>,
    name: Seq<char>,
    now: Tick,
    inst: u32,
    order: Seq<Seq<char>>,
    items: Map<Seq<char>, i64>,
)
    requires
        orders_generated(m0, g, table, contracts, name, now),
        cash_fits(m0, contracts, name, inst, order, items),
    ensures
        active_contract(g, contracts, name) == active_contract(m0, contracts, name),
        cash_fits(g, contracts, name, inst, order, items),
        g.regions == m0.regions,
{
    if gen_due(m0, contracts, name, now) {
        let t0 = m0.trade_state@[name];
        let t1 = g.trade_state@[name];
        let k = t0.orders@.len();
        assert(g.trade_state@.contains_key(name));
        if let Some(c) = active_contract(m0, contracts, name) {
            let values = c.item_value_group@;
            assert forall|j: int|
                0 <= j < t1.orders@.len() && (#[trigger] g.trade_state@[name].orders@[j]).inst_id == inst
                    implies g.trade_state@[name].orders@[j].accumulated_value + offered(order, items, values) <= u64::MAX by {
                if j < k {
                    assert(t1.orders@[j] == t1.orders@.subrange(0, k as int)[j]);
                    assert(m0.trade_state@[name].orders@[j].inst_id == inst);
                } else {
                    assert(fresh_order(t1.orders@[k + (j - k)], weighted_pick(str_views(c.order_id_group@), c.order_weight@, now), max_inst(t0.orders@) + 1 + (j - k)));
                }
            }
        }
    }
    assert(region_bag(g, name) == region_bag(m0, name));
    assert(bag_ready(g, name) == bag_ready(m0, name));
}

impl FactoryManager {
    /// Makes `contract_id` the active contract of trader `region_name` at
    /// tick `now`, creating the trader (level 1) if needed, clearing its
    /// orders and restarting generation at `now`. False, changing nothing,
    /// for an unknown contract.
    pub fn trade_set_contract_at(
        &mut self,
        contracts: &StrMap<Contract>,
        region_name: &str,
        node_id: u32,
        contract_id: &str,
        now: Tick,
    ) -> (r: bool)
        ensures
            r == contracts@.contains_key(contract_id@),
            !r ==> *final(self) == *old(self),
            r ==> {
                let t = final(self).trade_state@[region_name@];
                &&& trader_changed(*old(self), *final(self), region_name@, t)
                &&& t.active_contract matches Some(c) && c@ == contract_id@
                &&& t.orders@.len() == 0
                &&& t.last_gen_tick == now
                &&& old(self).trade_state@.contains_key(region_name@) ==> t.region_name == old(self).trade_state@[region_name@].region_name
                    && t.building_level == old(self).trade_state@[region_name@].building_level
                &&& !old(self).trade_state@.contains_key(region_name@) ==> t.region_name@ == region_name@ && t.building_level == 1
            },
    {
        if !contracts.contains_key(contract_id) {
            return false;
        }
        if !self.trade_state.contains_key(region_name) {
            self.trade_state.insert(
                region_name.to_owned(),
                TradeMachine {
                    region_name: region_name.to_owned(),
                    building_level: 1,
                    active_contract: None,
                    orders: Vec::new(),
                    last_gen_tick: now,
                },
            );
        }
        match self.trade_state.get_mut(region_name) {
            Some(t) => {
                t.active_contract = Some(contract_id.to_owned());
                t.orders = Vec::new();
                t.last_gen_tick = now;
            },
            None => {},
        }
        proof {
            assert(self.trade_state@ =~= old(self).trade_state@.insert(region_name@, self.trade_state@[region_name@]));
        }
        true
    }

    /// Sets the active contract on the system clock (see
    /// `trade_set_contract_at`).
    pub fn trade_set_contract(&mut self, contracts: &StrMap<Contract>, region_name: &str, node_id: u32, contract_id: &str) -> (r: bool)
        ensures
            r == contracts@.contains_key(contract_id@),
            !r ==> *final(self) == *old(self),
            r ==> {
                let t = final(self).trade_state@[region_name@];
                &&& trader_changed(*old(self), *final(self), region_name@, t)
                &&& t.active_contract matches Some(c) && c@ == contract_id@
                &&& t.orders@.len() == 0
            },
    {
        let now = current_tick();
        self.trade_set_contract_at(contracts, region_name, node_id, contract_id, now)
    }

    /// Generates the orders trader `region_name` has earned by tick `now`
    /// (see `orders_generated`).
    pub fn trade_generate_orders_at(
        &mut self,
        table: &FactoryTable,
        contracts: &StrMap<Contract>,
        region_name: &str,
        now: Tick,
    )
        requires
            gen_fits(*old(self), contracts@, region_name@, now),
        ensures
            orders_generated(*old(self), *final(self), *table, contracts@, region_name@, now),
    {
        let ghost old_self = *self;
        let (contract, to_generate) = match self.trade_state.get(region_name) {
            Some(t) => {
                let cid = match &t.active_contract {
                    Some(c) => c,
                    None => return,
                };
                let contract = match contracts.get(cid.as_str()) {
                    Some(c) => c,
                    None => return,
                };
                let elapsed = now.saturating_sub(t.last_gen_tick);
                let new_slots = elapsed / TRADE_ORDER_GEN_SPEED;
                if new_slots == 0 {
                    return;
                }
                let room: usize = if t.orders.len() >= TRADE_MAX_ORDERS { 0 } else { TRADE_MAX_ORDERS - t.orders.len() };
                let to_generate: u64 = if new_slots < room as u64 { new_slots } else { room as u64 };
                (contract, to_generate)
            },
            None => return,
        };
        let t = self.trade_state.get_mut(region_name).unwrap();
        let ghost t0 = *t;
        let ghost k = t0.orders@.len();
        let first = max_order_inst(&t.orders) + 1;
        let mut next_inst: u32 = first;
        let ghost pick = weighted_pick(str_views(contract.order_id_group@), contract.order_weight@, now);
        let mut g: u64 = 0;
        while g < to_generate
            invariant
                0 <= g <= to_generate,
                to_generate == gen_count(t0, now),
                first == max_inst(t0.orders@) + 1,
                max_inst(t0.orders@) + 1 + gen_count(t0, now) <= u32::MAX,
                weight_total(contract.order_weight@) <= u32::MAX,
                pick == weighted_pick(str_views(contract.order_id_group@), contract.order_weight@, now),
                t.orders@.subrange(0, k as int) == t0.orders@,
                pick.len() > 0 && table.orders@.contains_key(pick) ==> t.orders@.len() == k + g && next_inst == first + g,
                !(pick.len() > 0 && table.orders@.contains_key(pick)) ==> t.orders@.len() == k && next_inst == first,
                forall|i: int| 0 <= i < t.orders@.len() - k ==> fresh_order(#[trigger] t.orders@[k + i], pick, first + i),
                t.last_gen_tick == t0.last_gen_tick,
                t.region_name == t0.region_name,
                t.building_level == t0.building_level,
                t.active_contract == t0.active_contract,
            decreases to_generate - g,
        {
            let order_id = weighted_random_at(&contract.order_id_group, &contract.order_weight, now);
            if !order_id.as_str().is_empty() && table.orders.contains_key(order_id.as_str()) {
                let ghost before = t.orders@;
                t.orders.push(TradeOrder { order_id, accumulated_value: 0, items_committed: Vec::new(), inst_id: next_inst });
                proof {
                    assert(t.orders@.subrange(0, k as int) =~= before.subrange(0, k as int));
                    assert forall|i: int| 0 <= i < t.orders@.len() - k implies fresh_order(#[trigger] t.orders@[k + i], pick, first + i) by {
                        if k + i < before.len() {
                            assert(t.orders@[k + i] == before[k + i]);
                        }
                    }
                }
                next_inst = next_inst + 1;
            }
            g += 1;
        }
        t.last_gen_tick = now;
        proof {
            assert(self.trade_state@ == old_self.trade_state@.insert(region_name@, self.trade_state@[region_name@]));
        }
    }

    /// Deletes every order of instance id `inst_id` (taken to 32 bits)
    /// from trader `region_name`; true when one was there.
    pub fn trade_delete_order(&mut self, region_name: &str, node_id: u32, inst_id: u64) -> (r: bool)
        ensures
            !old(self).trade_state@.contains_key(region_name@) ==> !r && *final(self) == *old(self),
            old(self).trade_state@.contains_key(region_name@) ==> {
                let t0 = old(self).trade_state@[region_name@];
                let t1 = final(self).trade_state@[region_name@];
                &&& trader_changed(*old(self), *final(self), region_name@, t1)
                &&& orders_changed(*old(self), *final(self), region_name@)
                &&& t1.orders@ == orders_without(t0.orders@, inst_id as u32)
                &&& r == (t1.orders@.len() < t0.orders@.len())
            },
    {
        if !self.trade_state.contains_key(region_name) {
            return false;
        }
        let inst: u32 = #[verifier::truncate] (inst_id as u32);
        let t = self.trade_state.get_mut(region_name).unwrap();
        let before = t.orders.len();
        let mut src: Vec<TradeOrder> = Vec::new();
        std::mem::swap(&mut src, &mut t.orders);
        let ghost all = src@;
        let mut kept: Vec<TradeOrder> = Vec::new();
        proof {
            assert(all.subrange(0, 0) =~= Seq::<TradeOrder>::empty());
            assert(src@ =~= all.subrange(0, all.len() as int));
        }
        while src.len() > 0
            invariant
                src@.len() <= all.len(),
                src@ == all.subrange(all.len() - src@.len(), all.len() as int),
                kept@ == orders_without(all.subrange(0, all.len() - src@.len()), inst),
            decreases src@.len(),
        {
            let ghost done = all.len() - src@.len();
            let o = src.remove(0);
            proof {
                assert(o == all[done]);
                assert(all.subrange(0, done + 1).drop_last() =~= all.subrange(0, done));
                assert(src@ =~= all.subrange(done + 1, all.len() as int));
            }
            if o.inst_id != inst {
                kept.push(o);
            }
        }
        proof {
            assert(all.subrange(0, all.len() as int) =~= all);
            lemma_without_len(all, inst);
        }
        t.orders = kept;
        let after = t.orders.len();
        proof {
            assert(self.trade_state@ =~= old(self).trade_state@.insert(region_name@, self.trade_state@[region_name@]));
        }
        after < before
    }

    /// Commits `items` to order `inst_id` of trader `region_name` at tick
    /// `now`, after generating the orders due then (see
    /// `orders_generated`, `cash_outcome`). True when something was taken
    /// from the bag.
    pub fn trade_cash_order_at(
        &mut self,
        table: &FactoryTable,
        contracts: &StrMap<Contract>,
        region_name: &str,
        node_id: u32,
        inst_id: u64,
        items: &StrMap<i64>,
        now: Tick,
    ) -> (r: bool)
        requires
            gen_fits(*old(self), contracts@, region_name@, now),
            cash_fits(*old(self), contracts@, region_name@, inst_id as u32, items.key_order(), items@),
        ensures
            exists|g: FactoryManager|
                #[trigger] orders_generated(*old(self), g, *table, contracts@, region_name@, now) && cash_outcome(
                    g,
                    *final(self),
                    contracts@,
                    region_name@,
                    inst_id as u32,
                    items.key_order(),
                    items@,
                    r,
                ),
    {
        let ghost m0 = *self;
        self.trade_generate_orders_at(table, contracts, region_name, now);
        let ghost g = *self;
        let inst: u32 = #[verifier::truncate] (inst_id as u32);
        proof {
            assert(orders_generated(m0, g, *table, contracts@, region_name@, now));
            lemma_generated_keeps(m0, g, *table, contracts@, region_name@, now, inst, items.key_order(), items@);
        }
        let (contract, idx) = match self.trade_state.get(region_name) {
            Some(t) => {
                let cid = match &t.active_contract {
                    Some(c) => c,
                    None => return false,
                };
                let contract = match contracts.get(cid.as_str()) {
                    Some(c) => c,
                    None => return false,
                };
                let idx = match find_order(&t.orders, inst) {
                    Some(i) => i,
                    None => return false,
                };
                (contract, idx)
            },
            None => return false,
        };
        let ghost c = *contract;
        let ghost b0 = region_bag(g, region_name@);
        proof {
            lemma_order_index_found(g.trade_state@[region_name@].orders@, inst, 0);
        }
        let acc0 = match self.trade_state.get(region_name) {
            Some(t) => t.orders[idx].accumulated_value,
            None => 0,
        };
        let (cs, filled) = match self.region_bag_mut(region_name) {
            Some(bag) => {
                let cs = commit_items(bag, items, &contract.item_value_group);
                if cs.len() == 0 {
                    return false;
                }
                let ghost b1 = bag.items@;
                proof {
                    lemma_commit_total_prefix(commit_views(cs@), 0);
                }
                let total = sum_commits(&cs);
                let filled = acc0 + total >= contract.min_value;
                if filled {
                    grant_rewards(bag, &contract.reward_items);
                }
                (cs, filled)
            },
            None => return false,
        };
        let ghost after_bag = *self;
        let t = self.trade_state.get_mut(region_name).unwrap();
        if filled {
            let _ = t.orders.remove(idx);
        } else {
            let _ = add_to_order(&mut t.orders[idx], &cs);
        }
        proof {
            assert(self.trade_state@ =~= after_bag.trade_state@.insert(region_name@, self.trade_state@[region_name@]));
        }
        true
    }

    /// Commits items to an order on the system clock (see
    /// `trade_cash_order_at`).
    pub fn trade_cash_order(
        &mut self,
        table: &FactoryTable,
        contracts: &StrMap<Contract>,
        region_name: &str,
        node_id: u32,
        inst_id: u64,
        items: &StrMap<i64>,
    ) -> (r: bool)
        requires
            forall|now: Tick| gen_fits(*old(self), contracts@, region_name@, now),
            cash_fits(*old(self), contracts@, region_name@, inst_id as u32, items.key_order(), items@),
        ensures
            exists|now: Tick, g: FactoryManager|
                #[trigger] orders_generated(*old(self), g, *table, contracts@, region_name@, now) && cash_outcome(
                    g,
                    *final(self),
                    contracts@,
                    region_name@,
                    inst_id as u32,
                    items.key_order(),
                    items@,
                    r,
                ),
    {
        let now = current_tick();
        self.trade_cash_order_at(table, contracts, region_name, node_id, inst_id, items, now)
    }

    /// Generates earned orders on the system clock (see
    /// `trade_generate_orders_at`).
    pub fn trade_generate_orders(&mut self, table: &FactoryTable, contracts: &StrMap<Contract>, region_name: &str)
        requires
            forall|now: Tick| gen_fits(*old(self), contracts@, region_name@, now),
        ensures
            exists|now: Tick| orders_generated(*old(self), *final(self), *table, contracts@, region_name@, now),
    {
        let now = current_tick();
        self.trade_generate_orders_at(table, contracts, region_name, now);
    }
}

} // verus!

verus! {

/// Order generation never takes a trader past 10 orders: a trader with
/// at most 10 orders still has at most 10 afterwards.
pub proof fn lemma_generation_respects_cap(t0: TradeMachine, t1: TradeMachine, c: Contract, table: FactoryTable, now: Tick)
    requires
        generated(t0, t1, c, table, now),
        t0.orders@.len() <= TRADE_MAX_ORDERS,
    ensures
        t1.orders@.len() <= TRADE_MAX_ORDERS,
{
}

/// Deleting an order leaves no order of that instance id.
pub proof fn lemma_deleted_order_gone(orders: Seq<TradeOrder>, inst: u32)
    ensures
        forall|j: int| 0 <= j < orders_without(orders, inst).len() ==> #[trigger] orders_without(orders, inst)[j].inst_id != inst,
    decreases orders.len(),
{
    if orders.len() > 0 {
        let d = orders.drop_last();
        lemma_deleted_order_gone(d, inst);
        let r = orders_without(orders, inst);
        let rd = orders_without(d, inst);
        assert forall|j: int| 0 <= j < r.len() implies #[trigger] r[j].inst_id != inst by {
            if j < rd.len() {
                assert(r[j] == rd[j]);
            }
        }
    }
}

} // verus!
