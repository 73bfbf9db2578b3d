//! `FactoryRegion`: the placed nodes, links and power totals of one map.
use std::collections::HashMap;

use vstd::prelude::*;

use super::blackboard::{PowerBlackboard, empty_blackboard};
use super::component::{FactoryComponent, ProducerState};
use super::node::FactoryNode;
use super::tick::{Tick, current_tick, elapsed_between, sat_add_u64, sat_mul_u64, spec_elapsed};
use crate::enums::{FCComponentType, FCConnectionPortType, FCConnectionType};
use crate::util::{lemma_filter_insert_len, map_get_mut};

verus! {

broadcast use vstd::std_specs::hash::group_hash_axioms;

/// A power or travel link between two nodes. `index` identifies the link.
#[derive(Debug, Clone, Copy, PartialEq, Eq, Structural)]
pub struct FactoryConnection {
    pub connection_type: FCConnectionType,
    pub port_type: FCConnectionPortType,
    pub node_id_a: u32,
    pub node_id_b: u32,
    pub index: u64,
}

/// One factory region (one per scene / map level).
#[derive(Debug)]
pub struct FactoryRegion {
    /// Wire name sent to the client.
    pub name: String,
    /// Id used for records and table lookups.
    pub region_id: String,
    pub scene_name: String,
    /// Expansion level of the region's map entry.
    pub level: u32,
    /// Next node id to hand out; 1 (inventory) and 2 (hub) are reserved.
    pub next_node_id: u32,
    pub blackboard: PowerBlackboard,
    pub nodes: HashMap<u32, FactoryNode>,
    pub connections: Vec<FactoryConnection>,
    /// Lifetime production totals as (item id, amount) pairs.
    pub production_totals: Vec<(String, u64)>,
}

/// Whether one of `comps` is of kind `kind`.
pub open spec fn has_component_of(comps: Seq<(u32, FactoryComponent)>, kind: FCComponentType) -> bool {
    exists|j: int| 0 <= j < comps.len() && (#[trigger] comps[j]).1.spec_component_type() == kind
}

/// Whether one of `comps` is of kind `kind`.
fn any_component_of(comps: &Vec<(u32, FactoryComponent)>, kind: FCComponentType) -> (r: bool)
    ensures
        r == has_component_of(comps@, kind),
{
    let mut i: usize = 0;
    while i < comps.len()
        invariant
            0 <= i <= comps@.len(),
            forall|j: int| 0 <= j < i ==> (#[trigger] comps@[j]).1.spec_component_type() != kind,
        decreases comps@.len() - i,
    {
        if comps[i].1.component_type() == kind {
            proof {
                assert(comps@[i as int].1.spec_component_type() == kind);
            }
            return true;
        }
        i += 1;
    }
    false
}

/// Progress of a producer at tick `now`: the snapshot plus, while running,
/// the elapsed ticks times the speed, saturating.
pub open spec fn spec_producer_progress(state: ProducerState, speed: u64, now: Tick) -> int {
    match state.start_tick {
        Some(start) => sat_add_u64(
            state.current_progress as int,
            sat_mul_u64(spec_elapsed(now, start), speed as int),
        ),
        None => state.current_progress as int,
    }
}

/// Largest connection index plus one (saturating), or 1 without links.
pub open spec fn spec_next_connection_index(conns: Seq<FactoryConnection>) -> int
    decreases conns.len(),
{
    if conns.len() == 0 {
        1
    } else {
        let rest = spec_next_connection_index(conns.drop_last());
        let mine = sat_add_u64(conns.last().index as int, 1);
        if mine > rest { mine } else { rest }
    }
}

impl FactoryRegion {
    /// Ids of the nodes whose template is `template_id`.
    pub open spec fn nodes_with_template(&self, template_id: Seq<char>) -> Set<u32> {
        self.nodes@.dom().filter(|k: u32| self.nodes@[k].template_id@ == template_id)
    }

    /// An empty region; node ids 1 and 2 are reserved, so allocation starts at 3.
    pub fn new(name: String, region_id: String, scene_name: String, level: u32) -> (r: Self)
        ensures
            r.name == name,
            r.region_id == region_id,
            r.scene_name == scene_name,
            r.level == level,
            r.next_node_id == 3,
            r.blackboard == empty_blackboard(1),
            r.nodes@ == Map::<u32, FactoryNode>::empty(),
            r.connections@.len() == 0,
            r.production_totals@.len() == 0,
    {
        FactoryRegion {
            name,
            region_id,
            scene_name,
            level,
            next_node_id: 3,
            blackboard: PowerBlackboard::default(),
            nodes: HashMap::new(),
            connections: Vec::new(),
            production_totals: Vec::new(),
        }
    }

    /// Hands out the next node id.
    pub fn allocate_node_id(&mut self) -> (r: u32)
        requires
            old(self).next_node_id < u32::MAX,
        ensures
            r == old(self).next_node_id,
            final(self).next_node_id == old(self).next_node_id + 1,
            final(self).nodes == old(self).nodes,
            final(self).connections == old(self).connections,
            final(self).blackboard == old(self).blackboard,
            final(self).name == old(self).name,
            final(self).region_id == old(self).region_id,
            final(self).scene_name == old(self).scene_name,
            final(self).level == old(self).level,
            final(self).production_totals == old(self).production_totals,
    {
        let id = self.next_node_id;
        self.next_node_id = self.next_node_id + 1;
        id
    }

    /// Ids of the nodes holding at least one component of kind `kind`,
    /// each once.
    pub fn node_ids_with_component(&self, kind: FCComponentType) -> (r: Vec<u32>)
        ensures
            r@.no_duplicates(),
            forall|id: u32| #[trigger] r@.contains(id) <==> self.nodes@.contains_key(id) && has_component_of(
                self.nodes@[id].components@,
                kind,
            ),
    {
        let keys = crate::util::map_keys(&self.nodes);
        let ghost m = self.nodes@;
        let mut out: Vec<u32> = Vec::new();
        let mut i: usize = 0;
        while i < keys.len()
            invariant
                0 <= i <= keys@.len(),
                m == self.nodes@,
                keys@.no_duplicates(),
                keys@.to_set() == m.dom(),
                out@.no_duplicates(),
                forall|id: u32| #[trigger] out@.contains(id) <==> exists|j: int|
                    0 <= j < i && keys@[j] == id && m.contains_key(id) && has_component_of(m[id].components@, kind),
            decreases keys@.len() - i,
        {
            let k = keys[i];
            proof {
                assert(keys@.to_set().contains(k));
            }
            let ghost before = out@;
            match self.nodes.get(&k) {
                Some(n) => {
                    if any_component_of(&n.components, kind) {
                        proof {
                            if out@.contains(k) {
                                let j = choose|j: int|
                                    0 <= j < i && keys@[j] == k && m.contains_key(k) && has_component_of(m[k].components@, kind);
                                assert(keys@[j] == keys@[i as int]);
                            }
                        }
                        out.push(k);
                    }
                },
                None => {},
            }
            proof {
                assert forall|id: u32| #[trigger] out@.contains(id) <==> exists|j: int|
                    0 <= j < i + 1 && keys@[j] == id && m.contains_key(id) && has_component_of(m[id].components@, kind) by {
                    if out@.contains(id) {
                        if before.contains(id) {
                            let j = choose|j: int|
                                0 <= j < i && keys@[j] == id && m.contains_key(id) && has_component_of(m[id].components@, kind);
                            assert(0 <= j < i + 1 && keys@[j] == id);
                        } else {
                            let x = choose|x: int| 0 <= x < out@.len() && out@[x] == id;
                            if x < before.len() {
                                assert(before[x] == id);
                            }
                            assert(id == k);
                            assert(keys@[i as int] == id);
                        }
                    }
                    if exists|j: int| 0 <= j < i + 1 && keys@[j] == id && m.contains_key(id) && has_component_of(m[id].components@, kind) {
                        let j = choose|j: int|
                            0 <= j < i + 1 && keys@[j] == id && m.contains_key(id) && has_component_of(m[id].components@, kind);
                        if j < i {
                            assert(before.contains(id));
                            let x = choose|x: int| 0 <= x < before.len() && before[x] == id;
                            assert(out@[x] == id);
                        } else {
                            assert(out@[out@.len() - 1] == id);
                        }
                    }
                }
            }
            i += 1;
        }
        proof {
            assert forall|id: u32| #[trigger] out@.contains(id) <==> m.contains_key(id) && has_component_of(m[id].components@, kind) by {
                if m.contains_key(id) && has_component_of(m[id].components@, kind) {
                    assert(keys@.to_set().contains(id));
                    let j = choose|j: int| 0 <= j < keys@.len() && keys@[j] == id;
                    assert(out@.contains(id));
                }
            }
        }
        out
    }

    /// Number of placed nodes built from `template_id`.
    pub fn count_buildings_by_template(&self, template_id: &str) -> (r: usize)
        ensures
            r == self.nodes_with_template(template_id@).len(),
    {
        let ghost pred = |k: u32| self.nodes@[k].template_id@ == template_id@;
        let ghost mut seen: Set<u32> = Set::empty();
        let mut count: usize = 0;
        let target = template_id.to_owned();
        let ghost m = self.nodes@;
        let n = self.nodes.len();
        proof {
            assert(seen.filter(pred) =~= Set::empty());
        }
        for (k, node) in it: self.nodes.iter()
            invariant
                seen.finite(),
                seen <= m.dom(),
                target@ == template_id@,
                m == self.nodes@,
                pred == (|x: u32| m[x].template_id@ == template_id@),
                seen.len() == it.index(),
                count == seen.filter(pred).len(),
                count <= it.index(),
                it.seq().no_duplicates(),
                it.seq().len() == n,
                n == m.dom().len(),
                forall|j: int| 0 <= j < it.seq().len() ==> m.contains_key(*#[trigger] it.seq()[j].0) && m[*it.seq()[j].0] == *it.seq()[j].1,
                forall|j: int| it.index() <= j < it.seq().len() ==> !seen.contains(*#[trigger] it.seq()[j].0),
        {
            proof {
                let i = it.index() as int;
                assert forall|j: int| i < j < it.seq().len() implies *#[trigger] it.seq()[j].0 != *k by {
                    if *it.seq()[j].0 == *k {
                        assert(it.seq()[j] == it.seq()[i]);
                    }
                }
                assert(it.seq()[i] == (k, node));
                assert(m.contains_key(*it.seq()[i].0));
                assert(m[*k] == *node);
                assert(target@ == template_id@);
                assert(pred(*k) == (node.template_id@ == target@));
                lemma_filter_insert_len(seen, *k, pred);
                seen = seen.insert(*k);
            }
            if node.template_id == target {
                count = count + 1;
            }
        }
        proof {
            vstd::set_lib::lemma_subset_equality(seen, m.dom());
        }
        count
    }

    /// Progress of a producer at tick `now`: the snapshot plus, while it
    /// runs, the elapsed ticks times `speed`, saturating.
    pub fn compute_producer_progress_at(&self, state: &ProducerState, speed: u64, now: Tick) -> (r: u64)
        ensures
            r == spec_producer_progress(*state, speed, now),
    {
        match state.start_tick {
            Some(start) => {
                let elapsed = elapsed_between(now, start);
                let gained = match elapsed.checked_mul(speed) {
                    Some(p) => p,
                    None => u64::MAX,
                };
                state.current_progress.saturating_add(gained)
            },
            None => state.current_progress,
        }
    }

    /// Progress of a producer on the system clock.
    pub fn compute_producer_progress(&self, state: &ProducerState, speed: u64) -> (r: u64)
        ensures
            exists|now: Tick| r == #[trigger] spec_producer_progress(*state, speed, now),
    {
        let now = current_tick();
        self.compute_producer_progress_at(state, speed, now)
    }

    /// The node with id `node_id`, if placed.
    pub fn node(&self, node_id: u32) -> (r: Option<&FactoryNode>)
        ensures
            match r {
                Some(n) => self.nodes@.contains_key(node_id) && *n == self.nodes@[node_id],
                None => !self.nodes@.contains_key(node_id),
            },
    {
        self.nodes.get(&node_id)
    }

    /// Mutable access to the node with id `node_id`, if placed.
    pub fn node_mut(&mut self, node_id: u32) -> (r: Option<&mut FactoryNode>)
        ensures
            match r {
                Some(n) => {
                    &&& old(self).nodes@.contains_key(node_id)
                    &&& *n == old(self).nodes@[node_id]
                    &&& final(self).nodes@ == old(self).nodes@.insert(node_id, *final(n))
                },
                None => !old(self).nodes@.contains_key(node_id) && final(self).nodes@
                    == old(self).nodes@,
            },
            final(self).name == old(self).name,
            final(self).region_id == old(self).region_id,
            final(self).scene_name == old(self).scene_name,
            final(self).level == old(self).level,
            final(self).next_node_id == old(self).next_node_id,
            final(self).blackboard == old(self).blackboard,
            final(self).connections == old(self).connections,
            final(self).production_totals == old(self).production_totals,
    {
        map_get_mut(&mut self.nodes, node_id)
    }

    /// The index for a new link: one past the largest index in use
    /// (saturating), or 1 when there are no links.
    pub fn next_connection_index(&self) -> (r: u64)
        ensures
            r == spec_next_connection_index(self.connections@),
    {
        let mut best: u64 = 1;
        let mut i: usize = 0;
        while i < self.connections.len()
            invariant
                0 <= i <= self.connections.len(),
                best == spec_next_connection_index(self.connections@.subrange(0, i as int)),
            decreases self.connections.len() - i,
        {
            proof {
                assert(self.connections@.subrange(0, i as int + 1).drop_last()
                    == self.connections@.subrange(0, i as int));
            }
            let mine = self.connections[i].index.saturating_add(1);
            if mine > best {
                best = mine;
            }
            i += 1;
        }
        proof {
            assert(self.connections@.subrange(0, i as int) == self.connections@);
        }
        best
    }
}

} // verus!
