//! Power graph and fuel math.
//!
//! `StablePower` and `BurnPower` components (with fuel) are sources; power
//! links join nodes. A node is powered when it is a source or is joined to
//! a powered node by a power link. Generation is summed over every source;
//! consumption and storage over the powered nodes.
use std::collections::HashSet;

use vstd::prelude::*;

use super::blackboard::PowerBlackboard;
use super::component::{
    BurnPowerState, CacheTransportState, CollectorState, FactoryComponent, HealTowerState,
    PowerPoleState, PowerSaveState, ProducerState, StablePowerState,
};
use super::node::FactoryNode;
use super::region::{FactoryConnection, FactoryRegion};
use super::tick::{Tick, current_tick, elapsed_between, sat_add_u64, spec_elapsed};
use crate::enums::FCConnectionType;
use crate::util::{
    add_wrapping_i64, lemma_set_sum_insert, lemma_wrap_i64_add, set_sum, u64_as_i64, wrap_i64,
};

verus! {

broadcast use vstd::std_specs::hash::group_hash_axioms;

/// `x` clamped into the `i64` range.
pub open spec fn clamp_i64(x: int) -> int {
    if x > i64::MAX {
        i64::MAX as int
    } else if x < i64::MIN {
        i64::MIN as int
    } else {
        x
    }
}

/// `a * b` for `i64`, saturating at the bounds.
pub fn saturating_mul_i64(a: i64, b: i64) -> (r: i64)
    ensures
        r == clamp_i64(a * b),
{
    assert(-0x4000_0000_0000_0000_0000_0000_0000_0000 <= a * b <= 0x4000_0000_0000_0000_0000_0000_0000_0000)
        by (nonlinear_arith)
        requires
            i64::MIN <= a <= i64::MAX,
            i64::MIN <= b <= i64::MAX,
    {
        assert(-0x8000_0000_0000_0000 <= a <= 0x8000_0000_0000_0000);
        assert(-0x8000_0000_0000_0000 <= b <= 0x8000_0000_0000_0000);
        if a >= 0 && b >= 0 {
            assert(a * b <= 0x8000_0000_0000_0000 * 0x8000_0000_0000_0000);
        } else if a < 0 && b < 0 {
            assert((-a) * (-b) <= 0x8000_0000_0000_0000 * 0x8000_0000_0000_0000);
        } else if a < 0 {
            assert((-a) * b <= 0x8000_0000_0000_0000 * 0x8000_0000_0000_0000);
        } else {
            assert(a * (-b) <= 0x8000_0000_0000_0000 * 0x8000_0000_0000_0000);
        }
    }
    let p: i128 = a as i128 * b as i128;
    if p > i64::MAX as i128 {
        i64::MAX
    } else if p < i64::MIN as i128 {
        i64::MIN
    } else {
        p as i64
    }
}

/// `a - b` for `i64`, saturating at the bounds.
pub fn saturating_sub_i64(a: i64, b: i64) -> (r: i64)
    ensures
        r == clamp_i64(a - b),
{
    let d: i128 = a as i128 - b as i128;
    if d > i64::MAX as i128 {
        i64::MAX
    } else if d < i64::MIN as i128 {
        i64::MIN
    } else {
        d as i64
    }
}

/// Whether a burner still has fuel at tick `now`: some fuel is left and
/// it outlasts the ticks burnt since it was lit.
pub open spec fn spec_has_fuel(burn: BurnPowerState, now: Tick) -> bool {
    &&& burn.fuel_remaining > 0
    &&& match burn.fuel_start_tick {
        Some(start) => burn.fuel_remaining > wrap_i64(spec_elapsed(now, start)),
        None => false,
    }
}

/// Whether a burner still has fuel at tick `now`.
pub fn has_fuel_at(burn: &BurnPowerState, now: Tick) -> (r: bool)
    ensures
        r == spec_has_fuel(*burn, now),
{
    burn.fuel_remaining > 0 && match burn.fuel_start_tick {
        Some(start) => {
            let elapsed = u64_as_i64(elapsed_between(now, start));
            burn.fuel_remaining > elapsed
        },
        None => false,
    }
}

/// Whether a burner currently has fuel, on the system clock.
pub fn has_fuel(burn: &BurnPowerState) -> (r: bool)
    ensures
        exists|now: Tick| r == #[trigger] spec_has_fuel(*burn, now),
{
    let now = current_tick();
    has_fuel_at(burn, now)
}

/// Fuel state of a `BurnPower` component.
#[derive(Debug, Clone, Copy, PartialEq, Eq, Structural)]
pub struct BurnPowerComputed {
    pub has_fuel: bool,
    pub remaining_ticks: u64,
}

/// Fuel left after burning since `start` at `burn_speed` (at least 1)
/// energy per tick, with the `i64` arithmetic saturating.
pub open spec fn spec_fuel_left(burn: BurnPowerState, burn_speed: u64, now: Tick, start: Tick) -> int {
    let speed = if burn_speed == 0 { 1int } else { burn_speed as int };
    let consumed = clamp_i64(wrap_i64(spec_elapsed(now, start)) * wrap_i64(speed));
    clamp_i64(burn.fuel_remaining - consumed)
}

/// Fuel state at tick `now`: no fuel without a start tick; otherwise the
/// fuel left after burning, and how many whole ticks it still lasts.
pub open spec fn spec_fuel_state(burn: BurnPowerState, burn_speed: u64, now: Tick) -> BurnPowerComputed {
    match burn.fuel_start_tick {
        None => BurnPowerComputed { has_fuel: false, remaining_ticks: 0 },
        Some(start) => {
            let speed = if burn_speed == 0 { 1int } else { burn_speed as int };
            let left = spec_fuel_left(burn, burn_speed, now, start);
            BurnPowerComputed {
                has_fuel: left > 0,
                remaining_ticks: ((if left > 0 { left } else { 0 }) / speed) as u64,
            }
        },
    }
}

/// Fuel consumption at tick `now`: `burn_speed` is the energy burnt per
/// tick (0 counts as 1).
pub fn compute_fuel_state_at(burn: &BurnPowerState, burn_speed: u64, now: Tick) -> (r: BurnPowerComputed)
    ensures
        r == spec_fuel_state(*burn, burn_speed, now),
{
    let start = match burn.fuel_start_tick {
        Some(s) => s,
        None => {
            return BurnPowerComputed { has_fuel: false, remaining_ticks: 0 };
        },
    };
    let speed_u: u64 = if burn_speed == 0 { 1 } else { burn_speed };
    let speed = u64_as_i64(speed_u);
    let elapsed = u64_as_i64(elapsed_between(now, start));
    let consumed = saturating_mul_i64(elapsed, speed);
    let remaining = saturating_sub_i64(burn.fuel_remaining, consumed);
    let left: u64 = if remaining > 0 { remaining as u64 } else { 0 };
    BurnPowerComputed { has_fuel: remaining > 0, remaining_ticks: left / speed_u }
}

/// Fuel consumption on the system clock.
pub fn compute_fuel_state(burn: &BurnPowerState, burn_speed: u64) -> (r: BurnPowerComputed)
    ensures
        exists|now: Tick| r == #[trigger] spec_fuel_state(*burn, burn_speed, now),
{
    let now = current_tick();
    compute_fuel_state_at(burn, burn_speed, now)
}

/// Power a component feeds into the network at tick `now`.
pub open spec fn comp_generation(c: FactoryComponent, now: Tick) -> int {
    match c {
        FactoryComponent::StablePower(st) => if st.in_power { st.power_gen_per_sec as int } else { 0 },
        FactoryComponent::BurnPower(b) => if b.in_power && spec_has_fuel(b, now) {
            b.power_gen_per_sec as int
        } else {
            0
        },
        _ => 0,
    }
}

/// Whether a component is a live power source at tick `now`.
pub open spec fn comp_is_source(c: FactoryComponent, now: Tick) -> bool {
    match c {
        FactoryComponent::StablePower(st) => st.in_power,
        FactoryComponent::BurnPower(b) => b.in_power && spec_has_fuel(b, now),
        _ => false,
    }
}

/// Power a component draws.
pub open spec fn comp_consumption(c: FactoryComponent) -> int {
    match c {
        FactoryComponent::Producer(p) => p.power_cost as int,
        FactoryComponent::Collector(col) => col.power_cost as int,
        _ => 0,
    }
}

/// Energy a component holds.
pub open spec fn comp_stored(c: FactoryComponent) -> int {
    match c {
        FactoryComponent::PowerSave(ps) => ps.power_save as int,
        _ => 0,
    }
}

/// Sum of `f` over the components of a list.
pub open spec fn comps_sum(cs: Seq<(u32, FactoryComponent)>, f: spec_fn(FactoryComponent) -> int) -> int
    decreases cs.len(),
{
    if cs.len() == 0 {
        0
    } else {
        comps_sum(cs.drop_last(), f) + f(cs.last().1)
    }
}

pub open spec fn node_generation(n: FactoryNode, now: Tick) -> int {
    comps_sum(n.components@, |c: FactoryComponent| comp_generation(c, now))
}

pub open spec fn node_consumption(n: FactoryNode) -> int {
    comps_sum(n.components@, |c: FactoryComponent| comp_consumption(c))
}

pub open spec fn node_stored(n: FactoryNode) -> int {
    comps_sum(n.components@, |c: FactoryComponent| comp_stored(c))
}

/// Whether a node holds a live power source at tick `now`.
pub open spec fn node_is_source(n: FactoryNode, now: Tick) -> bool {
    exists|i: int| 0 <= i < n.components@.len() && #[trigger] comp_is_source(n.components@[i].1, now)
}

/// Ids of the nodes holding a live source at tick `now`.
pub open spec fn source_ids(nodes: Map<u32, FactoryNode>, now: Tick) -> Set<u32> {
    nodes.dom().filter(|k: u32| node_is_source(nodes[k], now))
}

/// Whether `c` is a power link between `a` and `b`, in either direction.
pub open spec fn is_power_link(c: FactoryConnection) -> bool {
    c.connection_type == FCConnectionType::Power
}

/// A set of nodes that no power link leaves: each link has both ends in it
/// or neither.
pub open spec fn closed_under_links(p: Set<u32>, conns: Seq<FactoryConnection>) -> bool {
    forall|i: int|
        0 <= i < conns.len() && is_power_link(#[trigger] conns[i]) ==> (p.contains(conns[i].node_id_a)
            <==> p.contains(conns[i].node_id_b))
}

/// `p` is the set of nodes reachable over power links from `srcs`: it
/// contains them, no link leaves it, and it lies within every other such set.
pub open spec fn is_power_closure(p: Set<u32>, srcs: Set<u32>, conns: Seq<FactoryConnection>) -> bool {
    &&& srcs <= p
    &&& closed_under_links(p, conns)
    &&& forall|q: Set<u32>| #[trigger] closed_under_links(q, conns) && srcs <= q ==> p <= q
}

/// Computed power graph; recomputed whenever the network changes.
#[derive(Debug)]
pub struct PowerGraph {
    pub powered_nodes: HashSet<u32>,
    pub total_generation: i64,
    pub total_consumption: i64,
    pub total_storage: i64,
    pub total_stored: i64,
}

/// Sum over a node's components, wrapping in `i64`.
fn node_sum(n: &FactoryNode, Ghost(f): Ghost<spec_fn(FactoryComponent) -> int>, which: u8, now: Tick) -> (r: i64)
    requires
        which == 0 ==> f == (|c: FactoryComponent| comp_generation(c, now)),
        which == 1 ==> f == (|c: FactoryComponent| comp_consumption(c)),
        which >= 2 ==> f == (|c: FactoryComponent| comp_stored(c)),
    ensures
        r == wrap_i64(comps_sum(n.components@, f)),
{
    let mut acc: i64 = 0;
    let mut i: usize = 0;
    proof {
        crate::util::lemma_wrap_i64_small(0);
    }
    while i < n.components.len()
        invariant
            0 <= i <= n.components.len(),
            acc == wrap_i64(comps_sum(n.components@.subrange(0, i as int), f)),
            which == 0 ==> f == (|c: FactoryComponent| comp_generation(c, now)),
            which == 1 ==> f == (|c: FactoryComponent| comp_consumption(c)),
            which >= 2 ==> f == (|c: FactoryComponent| comp_stored(c)),
        decreases n.components.len() - i,
    {
        let c = &n.components[i].1;
        let v: i64 = if which == 0 {
            match c {
                FactoryComponent::StablePower(st) => if st.in_power { st.power_gen_per_sec } else { 0 },
                FactoryComponent::BurnPower(b) => if b.in_power && has_fuel_at(b, now) {
                    b.power_gen_per_sec
                } else {
                    0
                },
                _ => 0,
            }
        } else if which == 1 {
            match c {
                FactoryComponent::Producer(p) => p.power_cost,
                FactoryComponent::Collector(col) => col.power_cost,
                _ => 0,
            }
        } else {
            match c {
                FactoryComponent::PowerSave(ps) => ps.power_save,
                _ => 0,
            }
        };
        proof {
            let pre = n.components@.subrange(0, i as int);
            let post = n.components@.subrange(0, i as int + 1);
            assert(post.drop_last() == pre);
            assert(v == f(post.last().1));
            lemma_wrap_i64_add(comps_sum(pre, f), v as int);
        }
        acc = add_wrapping_i64(acc, v);
        i += 1;
    }
    proof {
        assert(n.components@.subrange(0, i as int) == n.components@);
    }
    acc
}

/// Whether any of a node's components is a live source at tick `now`.
fn node_has_source(n: &FactoryNode, now: Tick) -> (r: bool)
    ensures
        r == node_is_source(*n, now),
{
    let mut i: usize = 0;
    while i < n.components.len()
        invariant
            0 <= i <= n.components.len(),
            forall|j: int| 0 <= j < i ==> !comp_is_source(#[trigger] n.components@[j].1, now),
        decreases n.components.len() - i,
    {
        let src = match &n.components[i].1 {
            FactoryComponent::StablePower(st) => st.in_power,
            FactoryComponent::BurnPower(b) => b.in_power && has_fuel_at(b, now),
            _ => false,
        };
        if src {
            assert(comp_is_source(n.components@[i as int].1, now));
            return true;
        }
        i += 1;
    }
    false
}

/// Every node id that appears at an end of some link.
pub open spec fn link_endpoints(conns: Seq<FactoryConnection>) -> Set<u32> {
    conns.map_values(|c: FactoryConnection| c.node_id_a).to_set() + conns.map_values(
        |c: FactoryConnection| c.node_id_b,
    ).to_set()
}

pub open spec fn gen_of(nodes: Map<u32, FactoryNode>, now: Tick) -> spec_fn(u32) -> int {
    |k: u32| node_generation(nodes[k], now)
}

pub open spec fn cons_of(nodes: Map<u32, FactoryNode>) -> spec_fn(u32) -> int {
    |k: u32| node_consumption(nodes[k])
}

pub open spec fn stored_of(nodes: Map<u32, FactoryNode>) -> spec_fn(u32) -> int {
    |k: u32| node_stored(nodes[k])
}

/// The nodes of `region` that are powered at tick `now`.
pub open spec fn spec_powered(region: FactoryRegion, now: Tick) -> Set<u32> {
    choose|p: Set<u32>| is_power_closure(p, source_ids(region.nodes@, now), region.connections@)
}

/// Total generation of `region` at tick `now`, wrapped to `i64`.
pub open spec fn spec_generation(region: FactoryRegion, now: Tick) -> int {
    wrap_i64(set_sum(region.nodes@.dom(), gen_of(region.nodes@, now)))
}

/// Total draw of the powered nodes of `region` at tick `now`, wrapped to `i64`.
pub open spec fn spec_consumption(region: FactoryRegion, now: Tick) -> int {
    wrap_i64(set_sum(spec_powered(region, now).intersect(region.nodes@.dom()), cons_of(region.nodes@)))
}

/// Energy stored in the powered nodes of `region` at tick `now`, wrapped to `i64`.
pub open spec fn spec_stored(region: FactoryRegion, now: Tick) -> int {
    wrap_i64(set_sum(spec_powered(region, now).intersect(region.nodes@.dom()), stored_of(region.nodes@)))
}

/// Whether `region` draws more than it generates plus stores at tick `now`.
pub open spec fn spec_deficit(region: FactoryRegion, now: Tick) -> bool {
    spec_consumption(region, now) > spec_generation(region, now) + spec_stored(region, now)
}

impl PowerGraph {
    /// The graph a region has at tick `now`.
    pub open spec fn is_graph_of(&self, region: FactoryRegion, now: Tick) -> bool {
        let nodes = region.nodes@;
        let powered = self.powered_nodes@;
        &&& is_power_closure(powered, source_ids(nodes, now), region.connections@)
        &&& self.total_generation == wrap_i64(set_sum(nodes.dom(), gen_of(nodes, now)))
        &&& self.total_consumption == wrap_i64(set_sum(powered.intersect(nodes.dom()), cons_of(nodes)))
        &&& self.total_stored == wrap_i64(set_sum(powered.intersect(nodes.dom()), stored_of(nodes)))
        &&& self.total_storage == 0
    }

    /// Sources, reachability and totals at tick `now`: a search from every
    /// source across power links marks the powered nodes; generation sums
    /// over all sources, consumption and storage over the powered nodes.
    pub fn compute_at(region: &FactoryRegion, now: Tick) -> (g: PowerGraph)
        ensures
            g.is_graph_of(*region, now),
            g.powered_nodes@ == spec_powered(*region, now),
            g.total_generation == spec_generation(*region, now),
            g.total_consumption == spec_consumption(*region, now),
            g.total_stored == spec_stored(*region, now),
            g.spec_has_deficit() == spec_deficit(*region, now),
    {
        let g = Self::compute_graph(region, now);
        proof {
            let srcs = source_ids(region.nodes@, now);
            assert(is_power_closure(g.powered_nodes@, srcs, region.connections@));
            let p = spec_powered(*region, now);
            lemma_power_closure_unique(p, g.powered_nodes@, srcs, region.connections@);
        }
        g
    }

    fn compute_graph(region: &FactoryRegion, now: Tick) -> (g: PowerGraph)
        ensures
            g.is_graph_of(*region, now),
    {
        let ghost m = region.nodes@;
        let ghost fgen = gen_of(m, now);
        let ghost srcs = source_ids(m, now);
        let ghost conns = region.connections@;
        let n = region.nodes.len();
        let ghost mut seen: Set<u32> = Set::empty();
        let mut generation: i64 = 0;
        let mut sources: Vec<u32> = Vec::new();
        proof {
            crate::util::lemma_wrap_i64_small(0);
        }
        for (k, node) in it: region.nodes.iter()
            invariant
                m == region.nodes@,
                fgen == gen_of(m, now),
                srcs == source_ids(m, now),
                seen.finite(),
                seen <= m.dom(),
                seen.len() == it.index(),
                generation == wrap_i64(set_sum(seen, fgen)),
                sources@.no_duplicates(),
                forall|x: u32| #[trigger] sources@.contains(x) <==> seen.contains(x) && srcs.contains(x),
                it.seq().no_duplicates(),
                it.seq().len() == n,
                n == m.dom().len(),
                forall|j: int|
                    0 <= j < it.seq().len() ==> m.contains_key(*#[trigger] it.seq()[j].0) && m[*it.seq()[j].0]
                        == *it.seq()[j].1,
                forall|j: int| it.index() <= j < it.seq().len() ==> !seen.contains(*#[trigger] it.seq()[j].0),
        {
            let ghost i = it.index() as int;
            proof {
                assert forall|j: int| i < j < it.seq().len() implies *#[trigger] it.seq()[j].0 != *k by {
                    if *it.seq()[j].0 == *k {
                        assert(it.seq()[j] == it.seq()[i]);
                    }
                }
                assert(it.seq()[i] == (k, node));
                assert(m.contains_key(*it.seq()[i].0));
                assert(m[*k] == *node);
            }
            let g = node_sum(node, Ghost(|c: FactoryComponent| comp_generation(c, now)), 0, now);
            proof {
                assert(fgen(*k) == node_generation(*node, now));
                lemma_set_sum_insert(seen, *k, fgen);
                lemma_wrap_i64_add(set_sum(seen, fgen), g as int);
                lemma_wrap_i64_add(node_generation(*node, now), set_sum(seen, fgen));
            }
            generation = add_wrapping_i64(generation, g);
            let is_src = node_has_source(node, now);
            proof {
                assert(srcs.contains(*k) == is_src);
                assert(!sources@.contains(*k));
            }
            let ghost old_sources = sources@;
            if is_src {
                sources.push(*k);
            }
            proof {
                let old_seen = seen;
                seen = seen.insert(*k);
                assert forall|x: u32| #[trigger] sources@.contains(x) <==> seen.contains(x) && srcs.contains(x) by {
                    if is_src {
                        assert(sources@ == old_sources.push(*k));
                        if x != *k {
                            if sources@.contains(x) {
                                let j = choose|j: int| 0 <= j < sources@.len() && sources@[j] == x;
                                assert(j < old_sources.len());
                                assert(old_sources[j] == x);
                            }
                            if old_sources.contains(x) {
                                let j = choose|j: int| 0 <= j < old_sources.len() && old_sources[j] == x;
                                assert(sources@[j] == x);
                            }
                        } else {
                            assert(sources@[old_sources.len() as int] == x);
                        }
                    } else {
                        assert(old_sources.contains(x) <==> old_seen.contains(x) && srcs.contains(x));
                    }
                }
            }
        }
        proof {
            vstd::set_lib::lemma_subset_equality(seen, m.dom());
            assert(sources@.to_set() =~= srcs);
        }
        Self::search(region, sources, generation, Ghost(now))
    }

    /// Breadth-first search from `sources` across power links.
    fn search(region: &FactoryRegion, sources: Vec<u32>, generation: i64, Ghost(now): Ghost<Tick>) -> (g: PowerGraph)
        requires
            sources@.no_duplicates(),
            sources@.to_set() == source_ids(region.nodes@, now),
            generation == wrap_i64(set_sum(region.nodes@.dom(), gen_of(region.nodes@, now))),
        ensures
            g.is_graph_of(*region, now),
    {
        let ghost m = region.nodes@;
        let ghost srcs = source_ids(m, now);
        let ghost conns = region.connections@;
        let ghost fcons = cons_of(m);
        let ghost fsto = stored_of(m);
        let ghost universe = srcs + link_endpoints(conns);
        proof {
            assert(srcs <= m.dom());
            vstd::set_lib::lemma_set_subset_finite(m.dom(), srcs);
            assert(link_endpoints(conns).finite());
        }
        let mut visited: HashSet<u32> = HashSet::new();
        let mut idx: usize = 0;
        while idx < sources.len()
            invariant
                0 <= idx <= sources.len(),
                visited@ == sources@.subrange(0, idx as int).to_set(),
            decreases sources.len() - idx,
        {
            proof {
                assert(sources@.subrange(0, idx as int + 1) == sources@.subrange(0, idx as int).push(sources@[idx as int]));
                sources@.subrange(0, idx as int).lemma_push_to_set_commute(sources@[idx as int]);
            }
            visited.insert(sources[idx]);
            idx += 1;
        }
        proof {
            assert(sources@.subrange(0, idx as int) == sources@);
        }
        let mut queue = sources;
        let mut head: usize = 0;
        let mut powered: HashSet<u32> = HashSet::new();
        let mut consumption: i64 = 0;
        let mut stored: i64 = 0;
        proof {
            crate::util::lemma_wrap_i64_small(0);
            assert(queue@.subrange(0, 0).to_set() =~= Set::empty());
            assert(Set::<u32>::empty().intersect(m.dom()) =~= Set::empty());
        }
        while head < queue.len()
            invariant
                m == region.nodes@,
                srcs == source_ids(m, now),
                conns == region.connections@,
                fcons == cons_of(m),
                fsto == stored_of(m),
                universe == srcs + link_endpoints(conns),
                universe.finite(),
                generation == wrap_i64(set_sum(m.dom(), gen_of(m, now))),
                head <= queue.len(),
                queue@.no_duplicates(),
                visited@ == queue@.to_set(),
                visited@ <= universe,
                srcs <= visited@,
                forall|q: Set<u32>| #[trigger] closed_under_links(q, conns) && srcs <= q ==> visited@ <= q,
                forall|i: int, c: int|
                    0 <= i < head && 0 <= c < conns.len() && is_power_link(#[trigger] conns[c])
                        ==> (conns[c].node_id_a == #[trigger] queue@[i] ==> visited@.contains(conns[c].node_id_b))
                        && (conns[c].node_id_b == queue@[i] ==> visited@.contains(conns[c].node_id_a)),
                powered@ == queue@.subrange(0, head as int).to_set(),
                consumption == wrap_i64(set_sum(powered@.intersect(m.dom()), fcons)),
                stored == wrap_i64(set_sum(powered@.intersect(m.dom()), fsto)),
            decreases universe.len() - head,
        {
            proof {
                queue@.unique_seq_to_set();
                vstd::set_lib::lemma_len_subset(visited@, universe);
            }
            let a = queue[head];
            let ghost old_powered = powered@;
            proof {
                assert(queue@.subrange(0, head as int + 1) == queue@.subrange(0, head as int).push(a));
                queue@.subrange(0, head as int).lemma_push_to_set_commute(a);
                if old_powered.contains(a) {
                    let j = choose|j: int| 0 <= j < head && queue@.subrange(0, head as int)[j] == a;
                    assert(queue@[j] == queue@[head as int]);
                }
                vstd::set_lib::lemma_set_subset_finite(old_powered, old_powered.intersect(m.dom()));
            }
            powered.insert(a);
            match region.nodes.get(&a) {
                Some(node) => {
                    let c = node_sum(node, Ghost(|c: FactoryComponent| comp_consumption(c)), 1, 0);
                    let st = node_sum(node, Ghost(|c: FactoryComponent| comp_stored(c)), 2, 0);
                    proof {
                        let base = old_powered.intersect(m.dom());
                        assert(powered@.intersect(m.dom()) =~= base.insert(a));
                        assert(!base.contains(a));
                        lemma_set_sum_insert(base, a, fcons);
                        lemma_set_sum_insert(base, a, fsto);
                        assert(fcons(a) == node_consumption(*node));
                        assert(fsto(a) == node_stored(*node));
                        lemma_wrap_i64_add(set_sum(base, fcons), c as int);
                        lemma_wrap_i64_add(node_consumption(*node), set_sum(base, fcons));
                        lemma_wrap_i64_add(set_sum(base, fsto), st as int);
                        lemma_wrap_i64_add(node_stored(*node), set_sum(base, fsto));
                    }
                    consumption = add_wrapping_i64(consumption, c);
                    stored = add_wrapping_i64(stored, st);
                },
                None => {
                    proof {
                        assert(powered@.intersect(m.dom()) =~= old_powered.intersect(m.dom()));
                    }
                },
            }
            let mut ci: usize = 0;
            while ci < region.connections.len()
                invariant
                    m == region.nodes@,
                    srcs == source_ids(m, now),
                    conns == region.connections@,
                    universe == srcs + link_endpoints(conns),
                    universe.finite(),
                    head < queue.len(),
                    queue@[head as int] == a,
                    0 <= ci <= conns.len(),
                    queue@.no_duplicates(),
                    visited@ == queue@.to_set(),
                    visited@ <= universe,
                    srcs <= visited@,
                    forall|q: Set<u32>| #[trigger] closed_under_links(q, conns) && srcs <= q ==> visited@ <= q,
                    forall|i: int, c: int|
                        0 <= i < head && 0 <= c < conns.len() && is_power_link(#[trigger] conns[c])
                            ==> (conns[c].node_id_a == #[trigger] queue@[i] ==> visited@.contains(conns[c].node_id_b))
                            && (conns[c].node_id_b == queue@[i] ==> visited@.contains(conns[c].node_id_a)),
                    forall|c: int|
                        0 <= c < ci && is_power_link(#[trigger] conns[c])
                            ==> (conns[c].node_id_a == a ==> visited@.contains(conns[c].node_id_b))
                            && (conns[c].node_id_b == a ==> visited@.contains(conns[c].node_id_a)),
                    powered@ == queue@.subrange(0, head as int + 1).to_set(),
                decreases conns.len() - ci,
            {
                let conn = region.connections[ci];
                if conn.connection_type == FCConnectionType::Power {
                    if conn.node_id_a == a {
                        let b = conn.node_id_b;
                        proof {
                            assert(conns.map_values(|c: FactoryConnection| c.node_id_b)[ci as int] == b);
                            assert(link_endpoints(conns).contains(b));
                            assert forall|q: Set<u32>| #[trigger] closed_under_links(q, conns) && srcs <= q implies visited@.insert(b) <= q by {
                                assert(visited@ <= q);
                                assert(q.contains(a));
                                assert(is_power_link(conns[ci as int]));
                            }
                            assert(queue@.push(b).subrange(0, head as int + 1) == queue@.subrange(0, head as int + 1));
                            queue@.lemma_push_to_set_commute(b);
                        }
                        if visited.insert(b) {
                            queue.push(b);
                        }
                    }
                    if conn.node_id_b == a {
                        let b = conn.node_id_a;
                        proof {
                            assert(conns.map_values(|c: FactoryConnection| c.node_id_a)[ci as int] == b);
                            assert(link_endpoints(conns).contains(b));
                            assert forall|q: Set<u32>| #[trigger] closed_under_links(q, conns) && srcs <= q implies visited@.insert(b) <= q by {
                                assert(visited@ <= q);
                                assert(q.contains(a));
                                assert(is_power_link(conns[ci as int]));
                            }
                            assert(queue@.push(b).subrange(0, head as int + 1) == queue@.subrange(0, head as int + 1));
                            queue@.lemma_push_to_set_commute(b);
                        }
                        if visited.insert(b) {
                            queue.push(b);
                        }
                    }
                }
                ci += 1;
            }
            head += 1;
        }
        proof {
            assert(queue@.subrange(0, head as int) == queue@);
            assert(powered@ == visited@);
            assert forall|c: int| 0 <= c < conns.len() && is_power_link(#[trigger] conns[c]) implies (powered@.contains(conns[c].node_id_a)
                <==> powered@.contains(conns[c].node_id_b)) by {
                if powered@.contains(conns[c].node_id_a) {
                    let i = choose|i: int| 0 <= i < queue@.len() && queue@[i] == conns[c].node_id_a;
                    assert(queue@[i] == conns[c].node_id_a);
                }
                if powered@.contains(conns[c].node_id_b) {
                    let i = choose|i: int| 0 <= i < queue@.len() && queue@[i] == conns[c].node_id_b;
                    assert(queue@[i] == conns[c].node_id_b);
                }
            }
        }
        PowerGraph {
            powered_nodes: powered,
            total_generation: generation,
            total_consumption: consumption,
            total_storage: 0,
            total_stored: stored,
        }
    }
}

impl PowerGraph {
    /// The graph on the system clock.
    pub fn compute(region: &FactoryRegion) -> (g: PowerGraph)
        ensures
            exists|now: Tick| #[trigger] g.is_graph_of(*region, now),
    {
        let now = current_tick();
        Self::compute_at(region, now)
    }

    pub open spec fn spec_has_deficit(&self) -> bool {
        self.total_consumption > self.total_generation + self.total_stored
    }

    /// Draw exceeds generation plus stored energy.
    pub fn has_deficit(&self) -> (r: bool)
        ensures
            r == self.spec_has_deficit(),
    {
        (self.total_consumption as i128) > (self.total_generation as i128) + (self.total_stored as i128)
    }
}

/// The powered set is determined by the sources and the links: two sets
/// that both meet the description are equal.
pub proof fn lemma_power_closure_unique(p1: Set<u32>, p2: Set<u32>, srcs: Set<u32>, conns: Seq<FactoryConnection>)
    requires
        is_power_closure(p1, srcs, conns),
        is_power_closure(p2, srcs, conns),
    ensures
        p1 == p2,
{
    assert(closed_under_links(p2, conns) && srcs <= p2);
    assert(closed_under_links(p1, conns) && srcs <= p1);
    assert(p1 =~= p2);
}

/// Adding links never unpowers a node: with more links (same sources),
/// the powered set can only grow.
pub proof fn lemma_more_links_power_more(
    p1: Set<u32>,
    p2: Set<u32>,
    srcs: Set<u32>,
    conns: Seq<FactoryConnection>,
    more: Seq<FactoryConnection>,
)
    requires
        is_power_closure(p1, srcs, conns),
        is_power_closure(p2, srcs, conns + more),
    ensures
        p1 <= p2,
{
    assert forall|i: int| 0 <= i < conns.len() && is_power_link(#[trigger] conns[i]) implies (p2.contains(
        conns[i].node_id_a,
    ) <==> p2.contains(conns[i].node_id_b)) by {
        assert((conns + more)[i] == conns[i]);
    }
    assert(closed_under_links(p2, conns));
}

/// A component after a power loss at tick `now`: producers and collectors
/// bank the ticks run so far and stop their timer; every powered kind of
/// component is marked unpowered.
pub open spec fn power_loss_comp(c: FactoryComponent, now: Tick) -> FactoryComponent {
    match c {
        FactoryComponent::Producer(p) => FactoryComponent::Producer(
            ProducerState {
                current_progress: match p.start_tick {
                    Some(start) => sat_add_u64(p.current_progress as int, spec_elapsed(now, start)) as u64,
                    None => p.current_progress,
                },
                start_tick: None,
                in_power: false,
                ..p
            },
        ),
        FactoryComponent::Collector(col) => FactoryComponent::Collector(
            CollectorState {
                current_progress: match col.start_tick {
                    Some(start) => sat_add_u64(col.current_progress as int, spec_elapsed(now, start)) as u64,
                    None => col.current_progress,
                },
                start_tick: None,
                in_power: false,
                ..col
            },
        ),
        FactoryComponent::PowerPole(x) => FactoryComponent::PowerPole(PowerPoleState { in_power: false, ..x }),
        FactoryComponent::PowerSave(x) => FactoryComponent::PowerSave(PowerSaveState { in_power: false, ..x }),
        FactoryComponent::StablePower(x) => FactoryComponent::StablePower(StablePowerState { in_power: false, ..x }),
        FactoryComponent::BurnPower(x) => FactoryComponent::BurnPower(BurnPowerState { in_power: false, ..x }),
        FactoryComponent::HealTower(x) => FactoryComponent::HealTower(HealTowerState { in_power: false, ..x }),
        FactoryComponent::CacheTransport(x) => FactoryComponent::CacheTransport(
            CacheTransportState { in_power: false, ..x },
        ),
        other => other,
    }
}

/// A component after power returns at tick `now`: every powered kind of
/// component is marked powered; collectors, and producers with a recipe,
/// restart their timer at `now`.
pub open spec fn power_recovery_comp(c: FactoryComponent, now: Tick) -> FactoryComponent {
    match c {
        FactoryComponent::Producer(p) => FactoryComponent::Producer(
            ProducerState {
                in_power: true,
                start_tick: if p.formula_id@.len() != 0 { Some(now) } else { p.start_tick },
                ..p
            },
        ),
        FactoryComponent::Collector(col) => FactoryComponent::Collector(
            CollectorState { in_power: true, start_tick: Some(now), ..col },
        ),
        FactoryComponent::PowerPole(x) => FactoryComponent::PowerPole(PowerPoleState { in_power: true, ..x }),
        FactoryComponent::PowerSave(x) => FactoryComponent::PowerSave(PowerSaveState { in_power: true, ..x }),
        FactoryComponent::StablePower(x) => FactoryComponent::StablePower(StablePowerState { in_power: true, ..x }),
        FactoryComponent::BurnPower(x) => FactoryComponent::BurnPower(BurnPowerState { in_power: true, ..x }),
        FactoryComponent::HealTower(x) => FactoryComponent::HealTower(HealTowerState { in_power: true, ..x }),
        FactoryComponent::CacheTransport(x) => FactoryComponent::CacheTransport(
            CacheTransportState { in_power: true, ..x },
        ),
        other => other,
    }
}

/// `new` is `old` with `f` applied to each component and nothing else changed.
pub open spec fn node_comps_mapped(old: FactoryNode, new: FactoryNode, f: spec_fn(FactoryComponent) -> FactoryComponent) -> bool {
    &&& new.node_id == old.node_id
    &&& new.node_type == old.node_type
    &&& new.template_id == old.template_id
    &&& new.transform == old.transform
    &&& new.is_deactive == old.is_deactive
    &&& new.interactive_object == old.interactive_object
    &&& new.dynamic_property == old.dynamic_property
    &&& new.component_pos == old.component_pos
    &&& new.components@.len() == old.components@.len()
    &&& forall|i: int|
        0 <= i < old.components@.len() ==> (#[trigger] new.components@[i]).0 == old.components@[i].0
            && new.components@[i].1 == f(old.components@[i].1)
}

/// Every node of `new` is the node of `old` under the same id with `f`
/// applied to each component.
pub open spec fn nodes_comps_mapped(
    old: Map<u32, FactoryNode>,
    new: Map<u32, FactoryNode>,
    f: spec_fn(FactoryComponent) -> FactoryComponent,
) -> bool {
    &&& new.dom() == old.dom()
    &&& forall|k: u32| #[trigger] old.contains_key(k) ==> node_comps_mapped(old[k], new[k], f)
}

/// Apply a power loss (`lose == true`) or a power recovery to one component.
fn switch_power_comp(c: &mut FactoryComponent, lose: bool, now: Tick)
    ensures
        lose ==> *final(c) == power_loss_comp(*old(c), now),
        !lose ==> *final(c) == power_recovery_comp(*old(c), now),
{
    match c {
        FactoryComponent::Producer(s) => {
            if lose {
                match s.start_tick {
                    Some(start) => {
                        let elapsed = elapsed_between(now, start);
                        s.current_progress = s.current_progress.saturating_add(elapsed);
                    },
                    None => {},
                }
                s.start_tick = None;
                s.in_power = false;
            } else {
                s.in_power = true;
                if !s.formula_id.as_str().is_empty() {
                    s.start_tick = Some(now);
                }
            }
        },
        FactoryComponent::Collector(s) => {
            if lose {
                match s.start_tick {
                    Some(start) => {
                        let elapsed = elapsed_between(now, start);
                        s.current_progress = s.current_progress.saturating_add(elapsed);
                    },
                    None => {},
                }
                s.start_tick = None;
                s.in_power = false;
            } else {
                s.in_power = true;
                s.start_tick = Some(now);
            }
        },
        FactoryComponent::PowerPole(s) => s.in_power = !lose,
        FactoryComponent::PowerSave(s) => s.in_power = !lose,
        FactoryComponent::StablePower(s) => s.in_power = !lose,
        FactoryComponent::BurnPower(s) => s.in_power = !lose,
        FactoryComponent::HealTower(s) => s.in_power = !lose,
        FactoryComponent::CacheTransport(s) => s.in_power = !lose,
        _ => {},
    }
}

pub open spec fn switch_fn(lose: bool, now: Tick) -> spec_fn(FactoryComponent) -> FactoryComponent {
    if lose {
        |c: FactoryComponent| power_loss_comp(c, now)
    } else {
        |c: FactoryComponent| power_recovery_comp(c, now)
    }
}

/// Apply a power loss or recovery to every component of a node.
fn switch_power_node(node: &mut FactoryNode, lose: bool, now: Tick)
    ensures
        node_comps_mapped(*old(node), *final(node), switch_fn(lose, now)),
{
    let ghost f = switch_fn(lose, now);
    let ghost orig = *node;
    let mut i: usize = 0;
    while i < node.components.len()
        invariant
            0 <= i <= node.components.len(),
            f == switch_fn(lose, now),
            node.components@.len() == orig.components@.len(),
            node.node_id == orig.node_id,
            node.node_type == orig.node_type,
            node.template_id == orig.template_id,
            node.transform == orig.transform,
            node.is_deactive == orig.is_deactive,
            node.interactive_object == orig.interactive_object,
            node.dynamic_property == orig.dynamic_property,
            node.component_pos == orig.component_pos,
            forall|j: int|
                0 <= j < i ==> (#[trigger] node.components@[j]).0 == orig.components@[j].0
                    && node.components@[j].1 == f(orig.components@[j].1),
            forall|j: int| i <= j < node.components@.len() ==> #[trigger] node.components@[j] == orig.components@[j],
        decreases node.components.len() - i,
    {
        switch_power_comp(&mut node.components[i].1, lose, now);
        i += 1;
    }
}

/// Apply a power loss or recovery to every node of a region.
fn switch_power_region(region: &mut FactoryRegion, lose: bool, now: Tick)
    ensures
        nodes_comps_mapped(old(region).nodes@, final(region).nodes@, switch_fn(lose, now)),
        final(region).blackboard == old(region).blackboard,
        final(region).connections == old(region).connections,
        final(region).name == old(region).name,
        final(region).region_id == old(region).region_id,
        final(region).scene_name == old(region).scene_name,
        final(region).level == old(region).level,
        final(region).next_node_id == old(region).next_node_id,
        final(region).production_totals == old(region).production_totals,
{
    let keys = crate::util::map_keys(&region.nodes);
    let ghost orig = region.nodes@;
    let ghost f = switch_fn(lose, now);
    let mut i: usize = 0;
    while i < keys.len()
        invariant
            0 <= i <= keys.len(),
            f == switch_fn(lose, now),
            keys@.no_duplicates(),
            keys@.to_set() == orig.dom(),
            region.nodes@.dom() == orig.dom(),
            region.blackboard == old(region).blackboard,
            region.connections == old(region).connections,
            region.name == old(region).name,
            region.region_id == old(region).region_id,
            region.scene_name == old(region).scene_name,
            region.level == old(region).level,
            region.next_node_id == old(region).next_node_id,
            region.production_totals == old(region).production_totals,
            forall|j: int| 0 <= j < i ==> node_comps_mapped(orig[#[trigger] keys@[j]], region.nodes@[keys@[j]], f),
            forall|j: int| i <= j < keys@.len() ==> region.nodes@[#[trigger] keys@[j]] == orig[keys@[j]],
        decreases keys.len() - i,
    {
        let k = keys[i];
        proof {
            assert(keys@.to_set().contains(k));
        }
        match region.node_mut(k) {
            Some(node) => {
                switch_power_node(node, lose, now);
            },
            None => {},
        }
        proof {
            assert forall|j: int| 0 <= j < keys@.len() && j != i implies #[trigger] keys@[j] != k by {
            }
        }
        i += 1;
    }
    proof {
        assert forall|k: u32| #[trigger] orig.contains_key(k) implies node_comps_mapped(orig[k], region.nodes@[k], f) by {
            assert(keys@.to_set().contains(k));
            let j = choose|j: int| 0 <= j < keys@.len() && keys@[j] == k;
        }
    }
}

/// Power loss at tick `now`: pauses every producer and collector (banking
/// elapsed ticks into their progress), marks every powered component
/// unpowered and flags the region as stopped by power.
pub fn handle_power_loss_at(region: &mut FactoryRegion, now: Tick)
    ensures
        nodes_comps_mapped(old(region).nodes@, final(region).nodes@, switch_fn(true, now)),
        final(region).blackboard == (PowerBlackboard { is_stop_by_power: true, ..old(region).blackboard }),
        final(region).connections == old(region).connections,
        final(region).next_node_id == old(region).next_node_id,
        final(region).name == old(region).name,
        final(region).region_id == old(region).region_id,
        final(region).scene_name == old(region).scene_name,
        final(region).level == old(region).level,
        final(region).production_totals == old(region).production_totals,
{
    switch_power_region(region, true, now);
    region.blackboard.is_stop_by_power = true;
}

/// Power loss on the system clock.
pub fn handle_power_loss(region: &mut FactoryRegion)
    ensures
        exists|now: Tick| nodes_comps_mapped(old(region).nodes@, final(region).nodes@, #[trigger] switch_fn(true, now)),
        final(region).blackboard == (PowerBlackboard { is_stop_by_power: true, ..old(region).blackboard }),
        final(region).connections == old(region).connections,
        final(region).next_node_id == old(region).next_node_id,
        final(region).name == old(region).name,
        final(region).region_id == old(region).region_id,
        final(region).scene_name == old(region).scene_name,
        final(region).level == old(region).level,
        final(region).production_totals == old(region).production_totals,
{
    let now = current_tick();
    handle_power_loss_at(region, now);
}

/// Power recovery at tick `now`: marks every powered component powered,
/// restarts collectors and producers that have a recipe at `now`, and
/// clears the stopped-by-power flag.
pub fn handle_power_recovery(region: &mut FactoryRegion, now: Tick)
    ensures
        nodes_comps_mapped(old(region).nodes@, final(region).nodes@, switch_fn(false, now)),
        final(region).blackboard == (PowerBlackboard { is_stop_by_power: false, ..old(region).blackboard }),
        final(region).connections == old(region).connections,
        final(region).next_node_id == old(region).next_node_id,
        final(region).name == old(region).name,
        final(region).region_id == old(region).region_id,
        final(region).scene_name == old(region).scene_name,
        final(region).level == old(region).level,
        final(region).production_totals == old(region).production_totals,
{
    switch_power_region(region, false, now);
    region.blackboard.is_stop_by_power = false;
}

/// `new` is `old` after recomputing its power graph at tick `now`: the
/// blackboard holds the graph's totals and deficit flag; a deficit that
/// starts is handled as a power loss, one that ends as a power recovery,
/// and otherwise the nodes are untouched. Nothing else changes.
pub open spec fn is_recomputed(old: FactoryRegion, new: FactoryRegion, now: Tick) -> bool {
    &&& new.blackboard == (PowerBlackboard {
        inventory_node_id: old.blackboard.inventory_node_id,
        power_gen: spec_generation(old, now) as i64,
        power_cost: spec_consumption(old, now) as i64,
        power_save_max: 0,
        power_save_current: spec_stored(old, now) as i64,
        is_stop_by_power: spec_deficit(old, now),
    })
    &&& if spec_deficit(old, now) && !old.blackboard.is_stop_by_power {
        nodes_comps_mapped(old.nodes@, new.nodes@, switch_fn(true, now))
    } else if !spec_deficit(old, now) && old.blackboard.is_stop_by_power {
        nodes_comps_mapped(old.nodes@, new.nodes@, switch_fn(false, now))
    } else {
        new.nodes == old.nodes
    }
    &&& new.connections == old.connections
    &&& new.next_node_id == old.next_node_id
    &&& new.name == old.name
    &&& new.region_id == old.region_id
    &&& new.scene_name == old.scene_name
    &&& new.level == old.level
    &&& new.production_totals == old.production_totals
}

/// Recomputes the power graph at tick `now` and stores its totals in the
/// blackboard. When the region runs into a deficit it handles a power loss;
/// when a deficit ends it handles a power recovery at `now`; otherwise the
/// nodes are left alone.
pub fn recompute_blackboard_at(region: &mut FactoryRegion, now: Tick)
    ensures
        is_recomputed(*old(region), *final(region), now),
{
    let graph = PowerGraph::compute_at(region, now);
    let was_stop = region.blackboard.is_stop_by_power;
    let is_stop = graph.has_deficit();
    region.blackboard.power_gen = graph.total_generation;
    region.blackboard.power_cost = graph.total_consumption;
    region.blackboard.power_save_max = graph.total_storage;
    region.blackboard.power_save_current = graph.total_stored;
    if is_stop && !was_stop {
        handle_power_loss_at(region, now);
    } else if !is_stop && was_stop {
        handle_power_recovery(region, now);
    } else {
        region.blackboard.is_stop_by_power = is_stop;
    }
}

/// Recomputes the power graph on the system clock and stores it in the
/// blackboard, handling a power loss or recovery when the deficit state
/// changes.
pub fn recompute_blackboard(region: &mut FactoryRegion)
    ensures
        exists|now: Tick| #[trigger] is_recomputed(*old(region), *final(region), now),
{
    let now = current_tick();
    recompute_blackboard_at(region, now);
}

/// Adding a component that is no live source to node `k` leaves the
/// powered nodes as they were and raises the powered nodes' total draw by
/// that component's draw.
proof fn lemma_added_component_draw(r1: FactoryRegion, r2: FactoryRegion, now: Tick, k: u32, cid: u32, c: FactoryComponent)
    requires
        r1.nodes@.contains_key(k),
        spec_powered(r1, now).contains(k),
        !comp_is_source(c, now),
        r2.connections@ == r1.connections@,
        r2.nodes@.dom() == r1.nodes@.dom(),
        forall|j: u32| j != k && r1.nodes@.contains_key(j) ==> #[trigger] r2.nodes@[j] == r1.nodes@[j],
        r2.nodes@[k].components@ == r1.nodes@[k].components@.push((cid, c)),
    ensures
        spec_powered(r2, now) == spec_powered(r1, now),
        set_sum(spec_powered(r2, now).intersect(r2.nodes@.dom()), cons_of(r2.nodes@)) == set_sum(
            spec_powered(r1, now).intersect(r1.nodes@.dom()),
            cons_of(r1.nodes@),
        ) + comp_consumption(c),
{
    let n1 = r1.nodes@[k];
    let n2 = r2.nodes@[k];
    assert(node_is_source(n2, now) == node_is_source(n1, now)) by {
        if node_is_source(n1, now) {
            let i = choose|i: int| 0 <= i < n1.components@.len() && #[trigger] comp_is_source(n1.components@[i].1, now);
            assert(n2.components@[i] == n1.components@[i]);
        }
        if node_is_source(n2, now) {
            let i = choose|i: int| 0 <= i < n2.components@.len() && #[trigger] comp_is_source(n2.components@[i].1, now);
            if i < n1.components@.len() {
                assert(n2.components@[i] == n1.components@[i]);
            } else {
                assert(n2.components@[i] == (cid, c));
            }
        }
    }
    assert(source_ids(r2.nodes@, now) =~= source_ids(r1.nodes@, now)) by {
        assert forall|j: u32| source_ids(r2.nodes@, now).contains(j) <==> source_ids(r1.nodes@, now).contains(j) by {
            if j != k && r1.nodes@.contains_key(j) {
                assert(r2.nodes@[j] == r1.nodes@[j]);
            }
        }
    }
    assert(spec_powered(r2, now) == spec_powered(r1, now));
    let p = spec_powered(r1, now).intersect(r1.nodes@.dom());
    assert(spec_powered(r2, now).intersect(r2.nodes@.dom()) == p);
    assert(p <= r1.nodes@.dom());
    vstd::set_lib::lemma_len_subset(p, r1.nodes@.dom());
    assert(p.finite()) by {
        vstd::set_lib::lemma_set_subset_finite(r1.nodes@.dom(), p);
    }
    assert(n2.components@.drop_last() =~= n1.components@);
    assert(node_consumption(n2) == node_consumption(n1) + comp_consumption(c));
    assert forall|j: u32| p.contains(j) && j != k implies cons_of(r1.nodes@)(j) == cons_of(r2.nodes@)(j) by {
        assert(r2.nodes@[j] == r1.nodes@[j]);
    }
    crate::util::lemma_set_sum_change_one(p, k, cons_of(r1.nodes@), cons_of(r2.nodes@));
}

/// A collector placed on a powered node draws exactly its `power_cost`:
/// adding one to node `k` leaves the powered nodes as they were and raises
/// the region's total draw by that cost (the reported total, when both
/// totals fit in `i64`).
pub proof fn lemma_collector_draws_its_cost(r1: FactoryRegion, r2: FactoryRegion, now: Tick, k: u32, cid: u32, col: CollectorState)
    requires
        r1.nodes@.contains_key(k),
        spec_powered(r1, now).contains(k),
        r2.connections@ == r1.connections@,
        r2.nodes@.dom() == r1.nodes@.dom(),
        forall|j: u32| j != k && r1.nodes@.contains_key(j) ==> #[trigger] r2.nodes@[j] == r1.nodes@[j],
        r2.nodes@[k].components@ == r1.nodes@[k].components@.push((cid, FactoryComponent::Collector(col))),
    ensures
        spec_powered(r2, now) == spec_powered(r1, now),
        set_sum(spec_powered(r2, now).intersect(r2.nodes@.dom()), cons_of(r2.nodes@)) == set_sum(
            spec_powered(r1, now).intersect(r1.nodes@.dom()),
            cons_of(r1.nodes@),
        ) + col.power_cost,
        ({
            let before = set_sum(spec_powered(r1, now).intersect(r1.nodes@.dom()), cons_of(r1.nodes@));
            i64::MIN <= before <= i64::MAX && i64::MIN <= before + col.power_cost <= i64::MAX ==> spec_consumption(r2, now)
                == spec_consumption(r1, now) + col.power_cost
        }),
{
    lemma_added_component_draw(r1, r2, now, k, cid, FactoryComponent::Collector(col));
    let before = set_sum(spec_powered(r1, now).intersect(r1.nodes@.dom()), cons_of(r1.nodes@));
    if i64::MIN <= before <= i64::MAX && i64::MIN <= before + col.power_cost <= i64::MAX {
        crate::util::lemma_wrap_i64_small(before);
        crate::util::lemma_wrap_i64_small(before + col.power_cost);
    }
}

/// A producer placed on a powered node draws exactly its `power_cost`
/// (as `lemma_collector_draws_its_cost` says of a collector).
pub proof fn lemma_producer_draws_its_cost(r1: FactoryRegion, r2: FactoryRegion, now: Tick, k: u32, cid: u32, p: ProducerState)
    requires
        r1.nodes@.contains_key(k),
        spec_powered(r1, now).contains(k),
        r2.connections@ == r1.connections@,
        r2.nodes@.dom() == r1.nodes@.dom(),
        forall|j: u32| j != k && r1.nodes@.contains_key(j) ==> #[trigger] r2.nodes@[j] == r1.nodes@[j],
        r2.nodes@[k].components@ == r1.nodes@[k].components@.push((cid, FactoryComponent::Producer(p))),
    ensures
        spec_powered(r2, now) == spec_powered(r1, now),
        set_sum(spec_powered(r2, now).intersect(r2.nodes@.dom()), cons_of(r2.nodes@)) == set_sum(
            spec_powered(r1, now).intersect(r1.nodes@.dom()),
            cons_of(r1.nodes@),
        ) + p.power_cost,
        ({
            let before = set_sum(spec_powered(r1, now).intersect(r1.nodes@.dom()), cons_of(r1.nodes@));
            i64::MIN <= before <= i64::MAX && i64::MIN <= before + p.power_cost <= i64::MAX ==> spec_consumption(r2, now)
                == spec_consumption(r1, now) + p.power_cost
        }),
{
    lemma_added_component_draw(r1, r2, now, k, cid, FactoryComponent::Producer(p));
    let before = set_sum(spec_powered(r1, now).intersect(r1.nodes@.dom()), cons_of(r1.nodes@));
    if i64::MIN <= before <= i64::MAX && i64::MIN <= before + p.power_cost <= i64::MAX {
        crate::util::lemma_wrap_i64_small(before);
        crate::util::lemma_wrap_i64_small(before + p.power_cost);
    }
}

/// A power store placed on a powered node adds exactly its charge to the
/// stored energy of the region: adding one to node `k` leaves the powered
/// nodes as they were and raises the stored total by `power_save`.
pub proof fn lemma_power_save_stores_its_charge(r1: FactoryRegion, r2: FactoryRegion, now: Tick, k: u32, cid: u32, ps: PowerSaveState)
    requires
        r1.nodes@.contains_key(k),
        spec_powered(r1, now).contains(k),
        r2.connections@ == r1.connections@,
        r2.nodes@.dom() == r1.nodes@.dom(),
        forall|j: u32| j != k && r1.nodes@.contains_key(j) ==> #[trigger] r2.nodes@[j] == r1.nodes@[j],
        r2.nodes@[k].components@ == r1.nodes@[k].components@.push((cid, FactoryComponent::PowerSave(ps))),
    ensures
        spec_powered(r2, now) == spec_powered(r1, now),
        set_sum(spec_powered(r2, now).intersect(r2.nodes@.dom()), stored_of(r2.nodes@)) == set_sum(
            spec_powered(r1, now).intersect(r1.nodes@.dom()),
            stored_of(r1.nodes@),
        ) + ps.power_save,
        set_sum(spec_powered(r2, now).intersect(r2.nodes@.dom()), cons_of(r2.nodes@)) == set_sum(
            spec_powered(r1, now).intersect(r1.nodes@.dom()),
            cons_of(r1.nodes@),
        ),
{
    let c = FactoryComponent::PowerSave(ps);
    lemma_added_component_draw(r1, r2, now, k, cid, c);
    let n1 = r1.nodes@[k];
    let n2 = r2.nodes@[k];
    let p = spec_powered(r1, now).intersect(r1.nodes@.dom());
    assert(p.finite()) by {
        vstd::set_lib::lemma_set_subset_finite(r1.nodes@.dom(), p);
    }
    assert(n2.components@.drop_last() =~= n1.components@);
    assert(node_stored(n2) == node_stored(n1) + ps.power_save);
    assert forall|j: u32| p.contains(j) && j != k implies stored_of(r1.nodes@)(j) == stored_of(r2.nodes@)(j) by {
        assert(r2.nodes@[j] == r1.nodes@[j]);
    }
    crate::util::lemma_set_sum_change_one(p, k, stored_of(r1.nodes@), stored_of(r2.nodes@));
}

/// A stable generator added to any node of a region adds its output to the
/// region's generation when it is switched on, and nothing when it is off.
pub proof fn lemma_stable_power_adds_its_output(r1: FactoryRegion, r2: FactoryRegion, now: Tick, k: u32, cid: u32, st: StablePowerState)
    requires
        r1.nodes@.contains_key(k),
        r2.nodes@.dom() == r1.nodes@.dom(),
        forall|j: u32| j != k && r1.nodes@.contains_key(j) ==> #[trigger] r2.nodes@[j] == r1.nodes@[j],
        r2.nodes@[k].components@ == r1.nodes@[k].components@.push((cid, FactoryComponent::StablePower(st))),
    ensures
        set_sum(r2.nodes@.dom(), gen_of(r2.nodes@, now)) == set_sum(r1.nodes@.dom(), gen_of(r1.nodes@, now)) + if st.in_power {
            st.power_gen_per_sec as int
        } else {
            0
        },
{
    let n1 = r1.nodes@[k];
    let n2 = r2.nodes@[k];
    let d = r1.nodes@.dom();
    assert(n2.components@.drop_last() =~= n1.components@);
    assert(node_generation(n2, now) == node_generation(n1, now) + comp_generation(FactoryComponent::StablePower(st), now));
    assert forall|j: u32| d.contains(j) && j != k implies gen_of(r1.nodes@, now)(j) == gen_of(r2.nodes@, now)(j) by {
        assert(r2.nodes@[j] == r1.nodes@[j]);
    }
    crate::util::lemma_set_sum_change_one(d, k, gen_of(r1.nodes@, now), gen_of(r2.nodes@, now));
}

} // verus!
