//! Observer queries of a region (links, power, outside resources, workers)
//! and production statistics and bookmarks.
use vstd::prelude::*;

use super::component::{CollectorState, FactoryComponent};
use super::manager::FactoryManager;
use super::node::FactoryNode;
use super::power::PowerGraph;
use super::region::FactoryConnection;
use super::tick::{Tick, current_tick};
use super::CharacterWorker;
use crate::strmap::find_key;
use crate::util::map_keys;

verus! {

/// What an observer checkout returns.
#[derive(Debug)]
pub enum ObserverResult {
    /// Every link as (node a, node b, link type code).
    RelationBoard { connections: Vec<(u32, u32, i32)> },
    PowerConnectionMap {
        powered_nodes: Vec<u32>,
        total_generation: i64,
        total_consumption: i64,
        total_storage: i64,
        total_stored: i64,
    },
    /// Every collector as (node, first item of its round, progress).
    OutsideResource { nodes: Vec<(u32, String, i64)> },
    /// Every worker of the region as (character, slot, first skill).
    CharacterWork { workers: Vec<(u32, u32, String)> },
    Error(String),
}

/// The links as (node a, node b, link type code).
pub open spec fn relation_entries(conns: Seq<FactoryConnection>) -> Seq<(u32, u32, i32)> {
    conns.map_values(|c: FactoryConnection| (c.node_id_a, c.node_id_b, c.connection_type.spec_code()))
}

/// The first item of a collector's round, empty when it has none.
pub open spec fn first_round_item(s: CollectorState) -> Seq<char> {
    if s.items_round@.len() > 0 { s.items_round@[0].item_id@ } else { Seq::empty() }
}

/// The collectors among `comps`, as (node, first item, progress).
pub open spec fn collector_entries(node_id: u32, comps: Seq<(u32, FactoryComponent)>) -> Seq<(u32, Seq<char>, i64)>
    decreases comps.len(),
{
    if comps.len() == 0 {
        Seq::empty()
    } else {
        collector_entries(node_id, comps.drop_last()) + match comps.last().1 {
            FactoryComponent::Collector(s) => seq![(node_id, first_round_item(s), s.current_progress as i64)],
            _ => Seq::empty(),
        }
    }
}

/// The collectors of the nodes in `order`, node by node.
pub open spec fn outside_entries(nodes: Map<u32, FactoryNode>, order: Seq<u32>) -> Seq<(u32, Seq<char>, i64)>
    decreases order.len(),
{
    if order.len() == 0 {
        Seq::empty()
    } else {
        outside_entries(nodes, order.drop_last()) + collector_entries(nodes[order.last()].node_id, nodes[order.last()].components@)
    }
}

/// The first skill of a worker, empty when it has none.
pub open spec fn first_skill(w: CharacterWorker) -> Seq<char> {
    if w.skill_ids@.len() > 0 { w.skill_ids@[0]@ } else { Seq::empty() }
}

/// The workers of region `name`, as (character, slot, first skill).
pub open spec fn worker_entries(ws: Seq<CharacterWorker>, name: Seq<char>) -> Seq<(u32, u32, Seq<char>)>
    decreases ws.len(),
{
    if ws.len() == 0 {
        Seq::empty()
    } else {
        worker_entries(ws.drop_last(), name) + if ws.last().region_name@ == name {
            seq![(ws.last().char_inst_id, ws.last().work_slot, first_skill(ws.last()))]
        } else {
            Seq::empty()
        }
    }
}

/// Triples with a string, by the string's view.
pub open spec fn triple_views<A, B>(v: Seq<(A, B, String)>) -> Seq<(A, B, Seq<char>)> {
    v.map_values(|t: (A, B, String)| (t.0, t.1, t.2@))
}

/// Triples with a string in the middle, by the string's view.
pub open spec fn mid_views<A, B>(v: Seq<(A, String, B)>) -> Seq<(A, Seq<char>, B)> {
    v.map_values(|t: (A, String, B)| (t.0, t.1@, t.2))
}

/// `"unknown checkout type: "` followed by `op_type`.
fn unknown_type_message(op_type: &str) -> (r: String)
    ensures
        r@ == "unknown checkout type: "@ + op_type@,
{
    let mut s = String::from_str("unknown checkout type: ");
    s.append(op_type);
    s
}

/// The links of a region (see `relation_entries`).
fn relation_board(conns: &Vec<FactoryConnection>) -> (r: Vec<(u32, u32, i32)>)
    ensures
        r@ == relation_entries(conns@),
{
    let mut out: Vec<(u32, u32, i32)> = Vec::new();
    let mut i: usize = 0;
    while i < conns.len()
        invariant
            0 <= i <= conns@.len(),
            out@ == relation_entries(conns@.subrange(0, i as int)),
        decreases conns@.len() - i,
    {
        let c = &conns[i];
        out.push((c.node_id_a, c.node_id_b, c.connection_type.code()));
        proof {
            assert(relation_entries(conns@.subrange(0, i + 1)) =~= relation_entries(conns@.subrange(0, i as int)).push(
                (c.node_id_a, c.node_id_b, c.connection_type.spec_code()),
            ));
        }
        i += 1;
    }
    proof {
        assert(conns@.subrange(0, conns@.len() as int) =~= conns@);
    }
    out
}

/// Appends the collectors of one node (see `collector_entries`).
fn push_collectors(out: &mut Vec<(u32, String, i64)>, node: &FactoryNode)
    ensures
        mid_views(final(out)@) == mid_views(old(out)@) + collector_entries(node.node_id, node.components@),
{
    let ghost o0 = mid_views(out@);
    let mut i: usize = 0;
    proof {
        assert(node.components@.subrange(0, 0) =~= Seq::<(u32, FactoryComponent)>::empty());
        assert(o0 + Seq::<(u32, Seq<char>, i64)>::empty() =~= o0);
    }
    while i < node.components.len()
        invariant
            0 <= i <= node.components@.len(),
            mid_views(out@) == o0 + collector_entries(node.node_id, node.components@.subrange(0, i as int)),
        decreases node.components@.len() - i,
    {
        let ghost pre = collector_entries(node.node_id, node.components@.subrange(0, i as int));
        proof {
            assert(node.components@.subrange(0, i + 1).drop_last() =~= node.components@.subrange(0, i as int));
        }
        match &node.components[i].1 {
            FactoryComponent::Collector(s) => {
                let item = if s.items_round.len() > 0 {
                    s.items_round[0].item_id.clone()
                } else {
                    String::new()
                };
                let progress: i64 = #[verifier::truncate] (s.current_progress as i64);
                let ghost before = out@;
                out.push((node.node_id, item, progress));
                proof {
                    assert(mid_views(out@) =~= mid_views(before).push((node.node_id, first_round_item(*s), s.current_progress as i64)));
                    assert(o0 + (pre + seq![(node.node_id, first_round_item(*s), s.current_progress as i64)]) =~= (o0 + pre).push(
                        (node.node_id, first_round_item(*s), s.current_progress as i64),
                    ));
                }
            },
            _ => {
                proof {
                    assert(pre + Seq::<(u32, Seq<char>, i64)>::empty() =~= pre);
                }
            },
        }
        i += 1;
    }
    proof {
        assert(node.components@.subrange(0, node.components@.len() as int) =~= node.components@);
    }
}

/// The workers of region `name` (see `worker_entries`).
fn region_workers(ws: &Vec<CharacterWorker>, name: &str) -> (r: Vec<(u32, u32, String)>)
    ensures
        triple_views(r@) == worker_entries(ws@, name@),
{
    let key = name.to_owned();
    let mut out: Vec<(u32, u32, String)> = Vec::new();
    let mut i: usize = 0;
    proof {
        assert(triple_views(out@) =~= worker_entries(ws@.subrange(0, 0), name@));
    }
    while i < ws.len()
        invariant
            0 <= i <= ws@.len(),
            key@ == name@,
            triple_views(out@) == worker_entries(ws@.subrange(0, i as int), name@),
        decreases ws@.len() - i,
    {
        let w = &ws[i];
        let ghost pre = worker_entries(ws@.subrange(0, i as int), name@);
        proof {
            assert(ws@.subrange(0, i + 1).drop_last() =~= ws@.subrange(0, i as int));
        }
        if w.region_name == key {
            let skill = if w.skill_ids.len() > 0 {
                w.skill_ids[0].clone()
            } else {
                String::new()
            };
            let ghost before = out@;
            out.push((w.char_inst_id, w.work_slot, skill));
            proof {
                assert(triple_views(out@) =~= triple_views(before).push((w.char_inst_id, w.work_slot, first_skill(*w))));
            }
        } else {
            proof {
                assert(pre + Seq::<(u32, u32, Seq<char>)>::empty() =~= pre);
            }
        }
        i += 1;
    }
    proof {
        assert(ws@.subrange(0, ws@.len() as int) =~= ws@);
    }
    out
}

/// The result of an observer checkout of kind `op_type` on region `name`
/// at tick `now`.
pub open spec fn checkout_result(m: FactoryManager, name: Seq<char>, op_type: Seq<char>, now: Tick, r: ObserverResult) -> bool {
    if !m.regions@.contains_key(name) {
        r matches ObserverResult::Error(s) && s@ == "region not found"@
    } else {
        let region = m.regions@[name];
        if op_type == "CheckoutRelationBoard"@ {
            r matches ObserverResult::RelationBoard { connections } && connections@ == relation_entries(region.connections@)
        } else if op_type == "CheckoutPowerConnectionMap"@ {
            r matches ObserverResult::PowerConnectionMap {
                powered_nodes,
                total_generation,
                total_consumption,
                total_storage,
                total_stored,
            } && exists|g: PowerGraph|
                #[trigger] g.is_graph_of(region, now) && powered_nodes@.no_duplicates() && powered_nodes@.to_set()
                    == g.powered_nodes@ && total_generation == g.total_generation && total_consumption == g.total_consumption
                    && total_storage == g.total_storage && total_stored == g.total_stored
        } else if op_type == "CheckoutOutsideResource"@ {
            r matches ObserverResult::OutsideResource { nodes } && exists|order: Seq<u32>|
                #[trigger] order.to_set() == region.nodes@.dom() && order.no_duplicates() && mid_views(nodes@) == outside_entries(
                    region.nodes@,
                    order,
                )
        } else if op_type == "CheckoutCharacterWork"@ {
            r matches ObserverResult::CharacterWork { workers } && triple_views(workers@) == worker_entries(
                m.character_work_state.workers@,
                name,
            )
        } else {
            r matches ObserverResult::Error(s) && s@ == "unknown checkout type: "@ + op_type
        }
    }
}

impl FactoryManager {
    /// Answers an observer checkout of kind `op_type` on region
    /// `region_name` at tick `now` (see `checkout_result`).
    pub fn observer_checkout_at(&self, region_name: &str, node_id: u32, component_id: u32, op_type: &str, now: Tick) -> (r: ObserverResult)
        ensures
            checkout_result(*self, region_name@, op_type@, now, r),
    {
        let region = match self.region(region_name) {
            Some(g) => g,
            None => {
                let msg = "region not found".to_owned();
                return ObserverResult::Error(msg);
            },
        };
        let op = op_type.to_owned();
        let relation = "CheckoutRelationBoard".to_owned();
        let power = "CheckoutPowerConnectionMap".to_owned();
        let outside = "CheckoutOutsideResource".to_owned();
        let work = "CheckoutCharacterWork".to_owned();
        if op == relation {
            ObserverResult::RelationBoard { connections: relation_board(&region.connections) }
        } else if op == power {
            let g = PowerGraph::compute_at(region, now);
            let powered = crate::util::set_elems(&g.powered_nodes);
            ObserverResult::PowerConnectionMap {
                powered_nodes: powered,
                total_generation: g.total_generation,
                total_consumption: g.total_consumption,
                total_storage: g.total_storage,
                total_stored: g.total_stored,
            }
        } else if op == outside {
            let keys = map_keys(&region.nodes);
            let mut out: Vec<(u32, String, i64)> = Vec::new();
            let mut i: usize = 0;
            proof {
                assert(mid_views(out@) =~= outside_entries(region.nodes@, keys@.subrange(0, 0)));
            }
            while i < keys.len()
                invariant
                    0 <= i <= keys@.len(),
                    keys@.to_set() == region.nodes@.dom(),
                    mid_views(out@) == outside_entries(region.nodes@, keys@.subrange(0, i as int)),
                decreases keys@.len() - i,
            {
                let k = keys[i];
                proof {
                    assert(keys@.to_set().contains(k));
                    assert(keys@.subrange(0, i + 1).drop_last() =~= keys@.subrange(0, i as int));
                }
                match region.nodes.get(&k) {
                    Some(node) => {
                        push_collectors(&mut out, node);
                    },
                    None => {},
                }
                i += 1;
            }
            proof {
                assert(keys@.subrange(0, keys@.len() as int) =~= keys@);
            }
            ObserverResult::OutsideResource { nodes: out }
        } else if op == work {
            ObserverResult::CharacterWork { workers: region_workers(&self.character_work_state.workers, region_name) }
        } else {
            ObserverResult::Error(unknown_type_message(op_type))
        }
    }

    /// Answers an observer checkout on the system clock (see
    /// `observer_checkout_at`).
    pub fn observer_checkout(&self, region_name: &str, node_id: u32, component_id: u32, op_type: &str) -> (r: ObserverResult)
        ensures
            exists|now: Tick| #[trigger] checkout_result(*self, region_name@, op_type@, now, r),
    {
        let now = current_tick();
        self.observer_checkout_at(region_name, node_id, component_id, op_type, now)
    }
}

/// Totals by the views of their ids.
pub open spec fn total_views(t: Seq<(String, u64)>) -> Seq<(Seq<char>, u64)> {
    t.map_values(|p: (String, u64)| (p.0@, p.1))
}

/// The totals whose id is among `ids`, in order.
pub open spec fn kept_totals(t: Seq<(Seq<char>, u64)>, ids: Seq<Seq<char>>) -> Seq<(Seq<char>, u64)>
    decreases t.len(),
{
    if t.len() == 0 {
        Seq::empty()
    } else {
        kept_totals(t.drop_last(), ids) + if ids.contains(t.last().0) { seq![t.last()] } else { Seq::empty() }
    }
}

/// The strings of `s`, by view.
pub open spec fn name_views(s: Seq<String>) -> Seq<Seq<char>> {
    s.map_values(|x: String| x@)
}

/// `v` without the entries among `ids`.
pub open spec fn without_ids(v: Seq<Seq<char>>, ids: Seq<Seq<char>>) -> Seq<Seq<char>>
    decreases v.len(),
{
    if v.len() == 0 {
        Seq::empty()
    } else {
        without_ids(v.drop_last(), ids) + if ids.contains(v.last()) { Seq::empty() } else { seq![v.last()] }
    }
}

/// `v` with each of `ids` in turn appended unless already present.
pub open spec fn with_ids(v: Seq<Seq<char>>, ids: Seq<Seq<char>>) -> Seq<Seq<char>>
    decreases ids.len(),
{
    if ids.len() == 0 {
        v
    } else {
        let w = with_ids(v, ids.drop_last());
        if w.contains(ids.last()) { w } else { w.push(ids.last()) }
    }
}

/// Whether `names` holds `name`.
fn has_name(names: &Vec<String>, name: &String) -> (r: bool)
    ensures
        r == name_views(names@).contains(name@),
{
    match find_key(names, name.as_str()) {
        Some(i) => {
            proof {
                assert(name_views(names@)[i as int] == name@);
            }
            true
        },
        None => {
            proof {
                let v = name_views(names@);
                if v.contains(name@) {
                    let j = choose|j: int| 0 <= j < v.len() && #[trigger] v[j] == name@;
                    assert(names@[j]@ == name@);
                }
            }
            false
        },
    }
}

impl FactoryManager {
    /// The production totals of region `region_name`: all of them, or
    /// those of the listed items, in order; none without the region.
    pub fn statistic_require(
        &self,
        region_name: &str,
        rank_power: i32,
        rank_productivity: i32,
        productivity_item_ids: &Vec<String>,
        all_productivity: bool,
    ) -> (r: Vec<(String, u64)>)
        ensures
            !self.regions@.contains_key(region_name@) ==> r@.len() == 0,
            self.regions@.contains_key(region_name@) && all_productivity ==> total_views(r@) == total_views(
                self.regions@[region_name@].production_totals@,
            ),
            self.regions@.contains_key(region_name@) && !all_productivity ==> total_views(r@) == kept_totals(
                total_views(self.regions@[region_name@].production_totals@),
                name_views(productivity_item_ids@),
            ),
    {
        let region = match self.region(region_name) {
            Some(g) => g,
            None => return Vec::new(),
        };
        let t = &region.production_totals;
        let ghost tv = total_views(t@);
        let ghost ids = name_views(productivity_item_ids@);
        let mut out: Vec<(String, u64)> = Vec::new();
        let mut i: usize = 0;
        proof {
            assert(total_views(out@) =~= kept_totals(tv.subrange(0, 0), ids));
            assert(total_views(out@) =~= tv.subrange(0, 0));
        }
        while i < t.len()
            invariant
                0 <= i <= t@.len(),
                tv == total_views(t@),
                ids == name_views(productivity_item_ids@),
                all_productivity ==> total_views(out@) == tv.subrange(0, i as int),
                !all_productivity ==> total_views(out@) == kept_totals(tv.subrange(0, i as int), ids),
            decreases t@.len() - i,
        {
            let ghost before = total_views(out@);
            proof {
                assert(tv.subrange(0, i + 1).drop_last() =~= tv.subrange(0, i as int));
                assert(tv[i as int] == (t@[i as int].0@, t@[i as int].1));
            }
            if all_productivity || has_name(productivity_item_ids, &t[i].0) {
                out.push((t[i].0.clone(), t[i].1));
                proof {
                    assert(total_views(out@) =~= before.push(tv[i as int]));
                }
            } else {
                proof {
                    assert(kept_totals(tv.subrange(0, i as int), ids) + Seq::<(Seq<char>, u64)>::empty() =~= kept_totals(
                        tv.subrange(0, i as int),
                        ids,
                    ));
                }
            }
            i += 1;
        }
        proof {
            assert(tv.subrange(0, t@.len() as int) =~= tv);
        }
        out
    }

    /// Removes the listed items from the bookmarks, or adds each that is
    /// not bookmarked yet, in order.
    pub fn statistic_set_bookmark_item_ids(&mut self, item_ids: &Vec<String>, is_remove: bool)
        ensures
            is_remove ==> name_views(final(self).stt_state.visible_formulas@) == without_ids(
                name_views(old(self).stt_state.visible_formulas@),
                name_views(item_ids@),
            ),
            !is_remove ==> name_views(final(self).stt_state.visible_formulas@) == with_ids(
                name_views(old(self).stt_state.visible_formulas@),
                name_views(item_ids@),
            ),
            final(self).stt_state.unlocked_nodes == old(self).stt_state.unlocked_nodes,
            final(self).regions == old(self).regions,
            final(self).quickbars == old(self).quickbars,
            final(self).trade_state == old(self).trade_state,
    {
        let ghost ids = name_views(item_ids@);
        let ghost v0 = name_views(self.stt_state.visible_formulas@);
        if is_remove {
            let mut src: Vec<String> = Vec::new();
            std::mem::swap(&mut src, &mut self.stt_state.visible_formulas);
            let ghost all = src@;
            let mut kept: Vec<String> = Vec::new();
            let mut i: usize = 0;
            proof {
                assert(name_views(kept@) =~= without_ids(name_views(all.subrange(0, 0)), ids));
            }
            while i < src.len()
                invariant
                    0 <= i <= all.len(),
                    src@ == all,
                    name_views(all) == v0,
                    ids == name_views(item_ids@),
                    name_views(kept@) == without_ids(name_views(all.subrange(0, i as int)), ids),
                    self.stt_state.visible_formulas@.len() == 0,
                    self.stt_state.unlocked_nodes == old(self).stt_state.unlocked_nodes,
                    self.regions == old(self).regions,
                    self.quickbars == old(self).quickbars,
                    self.trade_state == old(self).trade_state,
                decreases all.len() - i,
            {
                let ghost before = name_views(kept@);
                proof {
                    assert(name_views(all.subrange(0, i + 1)).drop_last() =~= name_views(all.subrange(0, i as int)));
                    assert(name_views(all.subrange(0, i + 1)).last() == all[i as int]@);
                }
                if !has_name(item_ids, &src[i]) {
                    kept.push(src[i].clone());
                    proof {
                        assert(name_views(kept@) =~= before.push(all[i as int]@));
                    }
                } else {
                    proof {
                        assert(before + Seq::<Seq<char>>::empty() =~= before);
                    }
                }
                i += 1;
            }
            proof {
                assert(all.subrange(0, all.len() as int) =~= all);
            }
            self.stt_state.visible_formulas = kept;
        } else {
            let mut i: usize = 0;
            proof {
                assert(ids.subrange(0, 0) =~= Seq::<Seq<char>>::empty());
            }
            while i < item_ids.len()
                invariant
                    0 <= i <= item_ids@.len(),
                    ids == name_views(item_ids@),
                    name_views(self.stt_state.visible_formulas@) == with_ids(v0, ids.subrange(0, i as int)),
                    v0 == name_views(old(self).stt_state.visible_formulas@),
                    self.stt_state.unlocked_nodes == old(self).stt_state.unlocked_nodes,
                    self.regions == old(self).regions,
                    self.quickbars == old(self).quickbars,
                    self.trade_state == old(self).trade_state,
                decreases item_ids@.len() - i,
            {
                let id = &item_ids[i];
                let ghost before = name_views(self.stt_state.visible_formulas@);
                proof {
                    assert(ids.subrange(0, i + 1).drop_last() =~= ids.subrange(0, i as int));
                    assert(ids.subrange(0, i + 1).last() == id@);
                }
                if !has_name(&self.stt_state.visible_formulas, id) {
                    self.stt_state.visible_formulas.push(id.clone());
                    proof {
                        assert(name_views(self.stt_state.visible_formulas@) =~= before.push(id@));
                    }
                }
                i += 1;
            }
            proof {
                assert(ids.subrange(0, item_ids@.len() as int) =~= ids);
            }
        }
    }
}

} // verus!

verus! {

/// After removing bookmarks, none of the removed ids is bookmarked.
pub proof fn lemma_removed_bookmarks_gone(v: Seq<Seq<char>>, ids: Seq<Seq<char>>)
    ensures
        forall|j: int| 0 <= j < without_ids(v, ids).len() ==> !ids.contains(#[trigger] without_ids(v, ids)[j]),
    decreases v.len(),
{
    if v.len() > 0 {
        let d = v.drop_last();
        lemma_removed_bookmarks_gone(d, ids);
        let r = without_ids(v, ids);
        let rd = without_ids(d, ids);
        assert forall|j: int| 0 <= j < r.len() implies !ids.contains(#[trigger] r[j]) by {
            if j < rd.len() {
                assert(r[j] == rd[j]);
            } else {
                assert(r[j] == v.last());
            }
        }
    }
}

/// After adding bookmarks, every added id is bookmarked.
pub proof fn lemma_added_bookmarks_present(v: Seq<Seq<char>>, ids: Seq<Seq<char>>)
    ensures
        forall|k: int| 0 <= k < ids.len() ==> with_ids(v, ids).contains(#[trigger] ids[k]),
        forall|j: int| 0 <= j < v.len() ==> with_ids(v, ids).contains(#[trigger] v[j]),
    decreases ids.len(),
{
    if ids.len() > 0 {
        let d = ids.drop_last();
        lemma_added_bookmarks_present(v, d);
        let w = with_ids(v, d);
        assert forall|k: int| 0 <= k < ids.len() implies with_ids(v, ids).contains(#[trigger] ids[k]) by {
            if k < d.len() {
                assert(d[k] == ids[k]);
                assert(w.contains(d[k]));
                if !w.contains(ids.last()) {
                    let i = choose|i: int| 0 <= i < w.len() && w[i] == d[k];
                    assert(w.push(ids.last())[i] == d[k]);
                }
            } else {
                if !w.contains(ids.last()) {
                    assert(w.push(ids.last())[w.len() as int] == ids.last());
                }
            }
        }
        assert forall|j: int| 0 <= j < v.len() implies with_ids(v, ids).contains(#[trigger] v[j]) by {
            assert(w.contains(v[j]));
            if !w.contains(ids.last()) {
                let i = choose|i: int| 0 <= i < w.len() && w[i] == v[j];
                assert(w.push(ids.last())[i] == v[j]);
            }
        }
    }
}

} // verus!
