//! Factory operations on `FactoryManager`: enabling nodes, links,
//! component targets and the small geometry helpers they use.
use vstd::prelude::*;

use super::component::{
    CacheTransportState, CollectorState, FactoryComponent, HealTowerState, ItemSlot, ProducerState,
    SelectorState, TravelPoleState,
};
use super::manager::{FactoryManager, corners_fit, rect_corners, same_but_regions};
use super::node::FactoryNode;
use super::power::{is_recomputed, node_comps_mapped, nodes_comps_mapped, recompute_blackboard};
use super::region::{FactoryConnection, FactoryRegion, spec_next_connection_index};
use super::tick::{Tick, current_tick, elapsed_between, sat_add_u64, spec_elapsed};
use super::{GridPos, GridRange};
use super::grid::{is_in_bounds, spec_in_bounds};
use crate::enums::{FCComponentType, FCConnectionPortType, FCConnectionType, FCDirection, FCNodeType};
use crate::factory::node::first_component_index;
use crate::util::map_keys;

verus! {

broadcast use vstd::std_specs::hash::group_hash_axioms;

/// Why a building could not be placed.
#[derive(Debug, Clone, Copy, PartialEq, Eq, Structural)]
pub enum PlaceError {
    RegionNotFound,
    NoBuildingEntry,
    InvalidNodeType,
    OutOfBounds,
    Overlaps(u32),
    NoComponentLayout,
}

/// Why a building could not be dismantled.
#[derive(Debug, Clone, Copy, PartialEq, Eq, Structural)]
pub enum DismantleError {
    RegionNotFound,
    NodeNotFound,
    ReservedNode,
}

/// Why a building could not be moved.
#[derive(Debug, Clone, Copy, PartialEq, Eq, Structural)]
pub enum MoveNodeError {
    RegionNotFound,
    NodeNotFound,
    NoGridPosition,
    NoBuildingEntry,
    OutOfBounds,
    Overlaps(u32),
}

/// Why a node could not be enabled or disabled.
#[derive(Debug, Clone, Copy, PartialEq, Eq, Structural)]
pub enum EnableNodeError {
    RegionNotFound,
    NodeNotFound,
}

/// Why a component setting could not be applied.
#[derive(Debug, Clone, Copy, PartialEq, Eq, Structural)]
pub enum TargetError {
    RegionNotFound,
    ComponentNotFound,
    WrongComponentType,
}

/// Why conveyor belts could not be placed or removed.
#[derive(Debug, Clone, Copy, PartialEq, Eq, Structural)]
pub enum ConveyorError {
    RegionNotFound,
    NoBuildingEntry,
    OutOfBounds,
    Overlaps(u32),
    NoFromTo,
}

/// Why an item could not be moved between a grid box, cache, bag or depot.
#[derive(Debug, Clone, Copy, PartialEq, Eq, Structural)]
pub enum GridBoxError {
    RegionNotFound,
    ComponentNotFound,
    WrongComponentType,
    IndexOutOfRange,
    SlotEmpty,
    InventoryNodeMissing,
    HubNodeMissing,
    InventoryComponentMissing,
    ItemNotFound,
}

/// Live-state snapshot of one component, sent while the player looks at
/// a building.
#[derive(Debug)]
pub struct HsFbEntry {
    pub component_id: u32,
    pub payload: HsFbPayload,
}

/// Per-kind live state; rates are per millisecond.
#[derive(Debug)]
pub enum HsFbPayload {
    Cache { items: Vec<u32> },
    Producer { progress_incr_per_ms: i64, formula_id: String, current_progress: i64 },
    Collector { progress_incr_per_ms: i64, current_progress: i64 },
    BurnPower { progress_decr_per_ms: i64, current_least_progress: i64 },
    CacheTransport { progress_incr_per_ms: i64, current_progress: i64 },
    GridBox { items: Vec<u32> },
    BoxRouterM1 { items: Vec<u32> },
    BoxBridge { items: Vec<u32> },
    HealTower { progress_incr_per_ms: i64, current_progress: i64, current_point: i32 },
}

// ---------------------------------------------------------------------
// Locating components inside a region
// ---------------------------------------------------------------------

/// Node `nid` exists and has a component with id `cid`.
pub open spec fn holds_component(nodes: Map<u32, FactoryNode>, nid: u32, cid: u32) -> bool {
    nodes.contains_key(nid) && nodes[nid].spec_component(cid) is Some
}

/// Some node has a component with id `cid`.
pub open spec fn component_placed(nodes: Map<u32, FactoryNode>, cid: u32) -> bool {
    exists|nid: u32| #[trigger] holds_component(nodes, nid, cid)
}

/// The component `cid` of node `nid`.
pub open spec fn comp_of(nodes: Map<u32, FactoryNode>, nid: u32, cid: u32) -> FactoryComponent {
    nodes[nid].spec_component(cid)->0
}

/// Node `nid` has a component `cid` of kind `kind`.
pub open spec fn holds_kind(nodes: Map<u32, FactoryNode>, nid: u32, cid: u32, kind: FCComponentType) -> bool {
    holds_component(nodes, nid, cid) && comp_of(nodes, nid, cid).spec_component_type() == kind
}

/// Some node has a component `cid` of kind `kind`.
pub open spec fn kind_placed(nodes: Map<u32, FactoryNode>, cid: u32, kind: FCComponentType) -> bool {
    exists|nid: u32| #[trigger] holds_kind(nodes, nid, cid, kind)
}

/// `new` is `old` with node `nid` replaced by `n`; nothing else changed.
pub open spec fn region_node_set(old: FactoryRegion, new: FactoryRegion, nid: u32, n: FactoryNode) -> bool {
    &&& new.nodes@ == old.nodes@.insert(nid, n)
    &&& new.name == old.name
    &&& new.region_id == old.region_id
    &&& new.scene_name == old.scene_name
    &&& new.level == old.level
    &&& new.next_node_id == old.next_node_id
    &&& new.blackboard == old.blackboard
    &&& new.connections == old.connections
    &&& new.production_totals == old.production_totals
}

/// `new` is `old` with its (first) component `cid` replaced by `c`.
pub open spec fn node_component_set(old: FactoryNode, new: FactoryNode, cid: u32, c: FactoryComponent) -> bool {
    &&& old.spec_component(cid) is Some
    &&& new.spec_component(cid) == Some(c)
    &&& new.components@ == old.components@.update(first_component_index(old.components@, cid)->0, (cid, c))
    &&& new.node_id == old.node_id
    &&& new.node_type == old.node_type
    &&& new.template_id == old.template_id
    &&& new.transform == old.transform
    &&& new.is_deactive == old.is_deactive
    &&& new.interactive_object == old.interactive_object
    &&& new.dynamic_property == old.dynamic_property
    &&& new.component_pos == old.component_pos
}

/// `new` is `old` with component `cid` of node `nid` replaced by `c`.
pub open spec fn component_set(old: FactoryRegion, new: FactoryRegion, nid: u32, cid: u32, c: FactoryComponent) -> bool {
    &&& old.nodes@.contains_key(nid)
    &&& new.nodes@.contains_key(nid)
    &&& region_node_set(old, new, nid, new.nodes@[nid])
    &&& node_component_set(old.nodes@[nid], new.nodes@[nid], cid, c)
}

/// After `component_set`, the replaced component reads back, and every
/// other component of every node is as before.
pub proof fn lemma_component_set_frame(
    old: FactoryRegion,
    new: FactoryRegion,
    nid: u32,
    cid: u32,
    c: FactoryComponent,
    nid2: u32,
    cid2: u32,
)
    requires
        component_set(old, new, nid, cid, c),
    ensures
        holds_component(new.nodes@, nid, cid),
        comp_of(new.nodes@, nid, cid) == c,
        nid2 != nid || cid2 != cid ==> holds_component(new.nodes@, nid2, cid2) == holds_component(old.nodes@, nid2, cid2),
        (nid2 != nid || cid2 != cid) && holds_component(old.nodes@, nid2, cid2) ==> comp_of(new.nodes@, nid2, cid2)
            == comp_of(old.nodes@, nid2, cid2),
{
    let on = old.nodes@[nid];
    let nn = new.nodes@[nid];
    let i = first_component_index(on.components@, cid)->0;
    crate::factory::node::lemma_first_component_index(on.components@, cid);
    assert(on.components@[i].0 == cid);
    crate::factory::node::lemma_first_index_update(on.components@, i, c, cid);
    crate::factory::node::lemma_first_index_update(on.components@, i, c, cid2);
    crate::factory::node::lemma_first_component_index(on.components@, cid2);
    assert(nn.components@ == on.components@.update(i, (on.components@[i].0, c)));
}

impl FactoryRegion {
    /// A node holding component `cid`, if any. Which one is found first
    /// follows the node map's iteration order.
    pub(crate) fn find_component_node(&self, cid: u32) -> (r: Option<u32>)
        ensures
            match r {
                Some(nid) => holds_component(self.nodes@, nid, cid),
                None => !component_placed(self.nodes@, cid),
            },
    {
        let keys = map_keys(&self.nodes);
        let mut i: usize = 0;
        while i < keys.len()
            invariant
                0 <= i <= keys.len(),
                keys@.to_set() == self.nodes@.dom(),
                forall|j: int| 0 <= j < i ==> !holds_component(self.nodes@, #[trigger] keys@[j], cid),
            decreases keys.len() - i,
        {
            let k = keys[i];
            proof {
                assert(keys@.to_set().contains(k));
            }
            match self.nodes.get(&k) {
                Some(node) => {
                    if node.component(cid).is_some() {
                        return Some(k);
                    }
                },
                None => {},
            }
            i += 1;
        }
        proof {
            assert forall|nid: u32| !#[trigger] holds_component(self.nodes@, nid, cid) by {
                if self.nodes@.contains_key(nid) {
                    assert(keys@.to_set().contains(nid));
                    let j = choose|j: int| 0 <= j < keys@.len() && keys@[j] == nid;
                    assert(!holds_component(self.nodes@, keys@[j], cid));
                }
            }
        }
        None
    }

    /// A node holding a component `cid` of kind `kind`, if any, in the node
    /// map's iteration order.
    pub(crate) fn find_kind_node(&self, cid: u32, kind: FCComponentType) -> (r: Option<u32>)
        ensures
            match r {
                Some(nid) => holds_kind(self.nodes@, nid, cid, kind),
                None => !kind_placed(self.nodes@, cid, kind),
            },
    {
        let keys = map_keys(&self.nodes);
        let mut i: usize = 0;
        while i < keys.len()
            invariant
                0 <= i <= keys.len(),
                keys@.to_set() == self.nodes@.dom(),
                forall|j: int| 0 <= j < i ==> !holds_kind(self.nodes@, #[trigger] keys@[j], cid, kind),
            decreases keys.len() - i,
        {
            let k = keys[i];
            proof {
                assert(keys@.to_set().contains(k));
            }
            match self.nodes.get(&k) {
                Some(node) => match node.component(cid) {
                    Some(c) => {
                        if c.component_type() == kind {
                            return Some(k);
                        }
                    },
                    None => {},
                },
                None => {},
            }
            i += 1;
        }
        proof {
            assert forall|nid: u32| !#[trigger] holds_kind(self.nodes@, nid, cid, kind) by {
                if self.nodes@.contains_key(nid) {
                    assert(keys@.to_set().contains(nid));
                    let j = choose|j: int| 0 <= j < keys@.len() && keys@[j] == nid;
                    assert(!holds_kind(self.nodes@, keys@[j], cid, kind));
                }
            }
        }
        None
    }

    /// Mutable access to component `cid` of node `nid`.
    pub(crate) fn component_in_mut(&mut self, nid: u32, cid: u32) -> (r: Option<&mut FactoryComponent>)
        ensures
            match r {
                Some(c) => {
                    &&& holds_component(old(self).nodes@, nid, cid)
                    &&& *c == comp_of(old(self).nodes@, nid, cid)
                    &&& component_set(*old(self), *final(self), nid, cid, *final(c))
                },
                None => !holds_component(old(self).nodes@, nid, cid) && *final(self) == *old(self),
            },
    {
        let present = match self.nodes.get(&nid) {
            Some(node) => node.component(cid).is_some(),
            None => false,
        };
        if !present {
            return None;
        }
        let node = self.node_mut(nid).unwrap();
        node.component_mut(cid)
    }

    /// The kind of component `cid` of node `nid`, when node `nid` holds it.
    pub(crate) fn kind_at(&self, nid: u32, cid: u32) -> (r: Option<FCComponentType>)
        ensures
            match r {
                Some(k) => holds_component(self.nodes@, nid, cid) && comp_of(self.nodes@, nid, cid).spec_component_type() == k,
                None => !holds_component(self.nodes@, nid, cid),
            },
    {
        match self.nodes.get(&nid) {
            Some(node) => match node.component(cid) {
                Some(c) => Some(c.component_type()),
                None => None,
            },
            None => None,
        }
    }
}

// ---------------------------------------------------------------------
// Geometry and code helpers
// ---------------------------------------------------------------------

/// The four corners of `r`, clockwise from the top-left.
pub fn rect_mesh_points(r: GridRange) -> (pts: Vec<GridPos>)
    requires
        corners_fit(r),
    ensures
        pts@ == rect_corners(r),
{
    let right = r.x + r.w as i32;
    let bottom = r.y + r.h as i32;
    let mut pts: Vec<GridPos> = Vec::new();
    pts.push(GridPos { x: r.x, y: r.y });
    pts.push(GridPos { x: right, y: r.y });
    pts.push(GridPos { x: right, y: bottom });
    pts.push(GridPos { x: r.x, y: bottom });
    proof {
        assert(pts@ =~= rect_corners(r));
    }
    pts
}

/// The direction with wire code `d`; unknown codes face up.
pub open spec fn spec_direction_from_i32(d: i32) -> FCDirection {
    if d == 1 {
        FCDirection::Right
    } else if d == 2 {
        FCDirection::Down
    } else if d == 3 {
        FCDirection::Left
    } else {
        FCDirection::Up
    }
}

/// The direction with wire code `d`; unknown codes face up.
pub fn direction_from_i32(d: i32) -> (r: FCDirection)
    ensures
        r == spec_direction_from_i32(d),
{
    match d {
        1 => FCDirection::Right,
        2 => FCDirection::Down,
        3 => FCDirection::Left,
        _ => FCDirection::Up,
    }
}

/// The node type with wire code `t` (1 to 20), if any.
pub fn node_type_from_i32(t: i32) -> (r: Option<FCNodeType>)
    ensures
        r == crate::enums::node_type_of_code(t),
        match r {
            Some(n) => n.spec_code() == t,
            None => !(1 <= t <= 20),
        },
{
    match t {
        1 => Some(FCNodeType::Inventory),
        2 => Some(FCNodeType::Bus),
        3 => Some(FCNodeType::Hub),
        4 => Some(FCNodeType::Collector),
        5 => Some(FCNodeType::Producer),
        6 => Some(FCNodeType::BoxConveyor),
        7 => Some(FCNodeType::BoxRouterM1),
        8 => Some(FCNodeType::BusUnloader),
        9 => Some(FCNodeType::BusLoader),
        10 => Some(FCNodeType::BurnPower),
        11 => Some(FCNodeType::PowerPole),
        12 => Some(FCNodeType::PowerSave),
        13 => Some(FCNodeType::DepositBox),
        14 => Some(FCNodeType::HealTower),
        15 => Some(FCNodeType::TravelPole),
        16 => Some(FCNodeType::BoxBridge),
        17 => Some(FCNodeType::Special),
        18 => Some(FCNodeType::PowerTerminal),
        19 => Some(FCNodeType::PowerPort),
        20 => Some(FCNodeType::PowerGate),
        _ => None,
    }
}

/// Points a collector at a new item: its first round slot becomes an empty
/// stack of `item_id` (added when there is none), and its run resets.
pub fn set_collector_target(state: &mut CollectorState, item_id: &str)
    ensures
        old(state).items_round@.len() == 0 ==> final(state).items_round@.len() == 1,
        old(state).items_round@.len() > 0 ==> final(state).items_round@.len() == old(state).items_round@.len()
            && forall|i: int| 1 <= i < old(state).items_round@.len() ==> #[trigger] final(state).items_round@[i]
            == old(state).items_round@[i],
        final(state).items_round@[0].item_id@ == item_id@,
        final(state).items_round@[0].count == 0,
        final(state).items_round@[0].inst_id == 0,
        final(state).start_tick is None,
        final(state).current_progress == 0,
        final(state).in_power == old(state).in_power,
        final(state).in_block == old(state).in_block,
        final(state).power_cost == old(state).power_cost,
{
    let new_item = ItemSlot { item_id: item_id.to_owned(), count: 0, inst_id: 0 };
    if state.items_round.len() == 0 {
        state.items_round.push(new_item);
    } else {
        state.items_round.set(0, new_item);
    }
    state.start_tick = None;
    state.current_progress = 0;
}

// ---------------------------------------------------------------------
// Outcomes of the component-setting operations
// ---------------------------------------------------------------------

/// Outcome of an operation that finds the first node holding component
/// `cid` and, when that component is of kind `kind`, replaces it by a
/// component `c` with `rel(old component, c)`: not found, wrong kind
/// (nothing changes) or applied.
pub open spec fn target_outcome(
    old: FactoryRegion,
    new: FactoryRegion,
    cid: u32,
    kind: FCComponentType,
    rel: spec_fn(FactoryComponent, FactoryComponent) -> bool,
    r: Result<(), TargetError>,
) -> bool {
    match r {
        Err(TargetError::ComponentNotFound) => !component_placed(old.nodes@, cid) && new == old,
        Err(TargetError::WrongComponentType) => exists|nid: u32|
            #[trigger] holds_component(old.nodes@, nid, cid) && comp_of(old.nodes@, nid, cid).spec_component_type()
                != kind && new == old,
        Ok(()) => exists|nid: u32, c: FactoryComponent|
            #[trigger] component_set(old, new, nid, cid, c) && holds_kind(old.nodes@, nid, cid, kind) && rel(
                comp_of(old.nodes@, nid, cid),
                c,
            ),
        Err(TargetError::RegionNotFound) => false,
    }
}

/// The `Ok`/`Err` shape of `r` without its value.
pub open spec fn unit_of<T>(r: Result<T, TargetError>) -> Result<(), TargetError> {
    match r {
        Ok(_) => Ok(()),
        Err(e) => Err(e),
    }
}

/// `new` is `old` with only region `name` possibly replaced, and `name`
/// present before and after.
pub open spec fn region_changed(old: FactoryManager, new: FactoryManager, name: Seq<char>) -> bool {
    &&& old.regions@.contains_key(name)
    &&& new.regions@.contains_key(name)
    &&& new.regions@ == old.regions@.insert(name, new.regions@[name])
    &&& same_but_regions(old, new)
}

/// `new` has the same regions and everything else as `old`.
pub open spec fn unchanged(old: FactoryManager, new: FactoryManager) -> bool {
    new.regions@ == old.regions@ && same_but_regions(old, new)
}

/// Selector update: the selected item becomes `item`.
pub open spec fn select_rel(item: String) -> spec_fn(FactoryComponent, FactoryComponent) -> bool {
    |a: FactoryComponent, b: FactoryComponent|
        a matches FactoryComponent::Selector(s) && b == FactoryComponent::Selector(
            SelectorState { selected_item_id: item, ..s },
        )
}

/// Collector update: retargeted at `item` as `set_collector_target` does.
pub open spec fn collector_rel(item: Seq<char>) -> spec_fn(FactoryComponent, FactoryComponent) -> bool {
    |a: FactoryComponent, b: FactoryComponent|
        a matches FactoryComponent::Collector(s) && b matches FactoryComponent::Collector(t)
            && collector_retargeted(s, t, item)
}

/// `t` is `s` after `set_collector_target(item)`.
pub open spec fn collector_retargeted(s: CollectorState, t: CollectorState, item: Seq<char>) -> bool {
    &&& s.items_round@.len() == 0 ==> t.items_round@.len() == 1
    &&& s.items_round@.len() > 0 ==> t.items_round@.len() == s.items_round@.len() && forall|i: int|
        1 <= i < s.items_round@.len() ==> #[trigger] t.items_round@[i] == s.items_round@[i]
    &&& t.items_round@[0].item_id@ == item
    &&& t.items_round@[0].count == 0
    &&& t.items_round@[0].inst_id == 0
    &&& t.start_tick is None
    &&& t.current_progress == 0
    &&& t.in_power == s.in_power
    &&& t.in_block == s.in_block
    &&& t.power_cost == s.power_cost
}

/// Cache-transport update: enabled becomes `enable`.
pub open spec fn transport_rel(enable: bool) -> spec_fn(FactoryComponent, FactoryComponent) -> bool {
    |a: FactoryComponent, b: FactoryComponent|
        a matches FactoryComponent::CacheTransport(s) && b == FactoryComponent::CacheTransport(
            CacheTransportState { enabled: enable, ..s },
        )
}

/// Travel-pole update: the next pole becomes `next`.
pub open spec fn travel_rel(next: u32) -> spec_fn(FactoryComponent, FactoryComponent) -> bool {
    |a: FactoryComponent, b: FactoryComponent|
        a matches FactoryComponent::TravelPole(_) && b == FactoryComponent::TravelPole(
            TravelPoleState { default_next: Some(next) },
        )
}

/// Heal-tower update: the tower loses the points granted for `use_count`.
pub open spec fn heal_rel(use_count: u32) -> spec_fn(FactoryComponent, FactoryComponent) -> bool {
    |a: FactoryComponent, b: FactoryComponent|
        a matches FactoryComponent::HealTower(s) && b == FactoryComponent::HealTower(
            HealTowerState { points: (s.points - heal_granted(s.points, use_count)) as i64, ..s },
        )
}

/// Points a heal tower can hand out for a request of `use_count`: the
/// request, capped by the points left (never below zero).
pub open spec fn heal_granted(points: i64, use_count: u32) -> int {
    let avail: int = if points > 0 { points as int } else { 0 };
    if (use_count as int) < avail { use_count as int } else { avail }
}

impl FactoryManager {
    /// Sets the item that selector `component_id` routes.
    pub fn set_select_target(&mut self, region_name: &str, component_id: u32, item_id: String) -> (r: Result<(), TargetError>)
        ensures
            !old(self).regions@.contains_key(region_name@) ==> r == Err::<(), TargetError>(TargetError::RegionNotFound)
                && unchanged(*old(self), *final(self)),
            old(self).regions@.contains_key(region_name@) ==> region_changed(*old(self), *final(self), region_name@)
                && target_outcome(
                old(self).regions@[region_name@],
                final(self).regions@[region_name@],
                component_id,
                FCComponentType::Selector,
                select_rel(item_id),
                r,
            ),
    {
        let ghost item = item_id;
        let region = match self.region_mut(region_name) {
            Some(g) => g,
            None => return Err(TargetError::RegionNotFound),
        };
        let ghost r0 = *region;
        let nid = match region.find_component_node(component_id) {
            Some(n) => n,
            None => return Err(TargetError::ComponentNotFound),
        };
        if region.kind_at(nid, component_id) != Some(FCComponentType::Selector) {
            return Err(TargetError::WrongComponentType);
        }
        proof {
            assert(holds_kind(r0.nodes@, nid, component_id, FCComponentType::Selector));
        }
        let slot = region.component_in_mut(nid, component_id).unwrap();
        match slot {
            FactoryComponent::Selector(state) => {
                state.selected_item_id = item_id;
            },
            _ => {},
        }
        Ok(())
    }

    /// Retargets collector `component_id` at `item_id` (the requested
    /// count is not used) and resets its run.
    pub fn set_collect_target(&mut self, region_name: &str, component_id: u32, item_id: String, count: i32) -> (r: Result<(), TargetError>)
        ensures
            !old(self).regions@.contains_key(region_name@) ==> r == Err::<(), TargetError>(TargetError::RegionNotFound)
                && unchanged(*old(self), *final(self)),
            old(self).regions@.contains_key(region_name@) ==> region_changed(*old(self), *final(self), region_name@)
                && target_outcome(
                old(self).regions@[region_name@],
                final(self).regions@[region_name@],
                component_id,
                FCComponentType::Collector,
                collector_rel(item_id@),
                r,
            ),
    {
        let region = match self.region_mut(region_name) {
            Some(g) => g,
            None => return Err(TargetError::RegionNotFound),
        };
        let ghost r0 = *region;
        let nid = match region.find_component_node(component_id) {
            Some(n) => n,
            None => return Err(TargetError::ComponentNotFound),
        };
        if region.kind_at(nid, component_id) != Some(FCComponentType::Collector) {
            return Err(TargetError::WrongComponentType);
        }
        proof {
            assert(holds_kind(r0.nodes@, nid, component_id, FCComponentType::Collector));
        }
        let slot = region.component_in_mut(nid, component_id).unwrap();
        match slot {
            FactoryComponent::Collector(state) => {
                set_collector_target(state, item_id.as_str());
            },
            _ => {},
        }
        Ok(())
    }

    /// Switches cache transport `component_id` on or off.
    pub fn cache_transport_enable(&mut self, region_name: &str, component_id: u32, enable: bool) -> (r: Result<(), TargetError>)
        ensures
            !old(self).regions@.contains_key(region_name@) ==> r == Err::<(), TargetError>(TargetError::RegionNotFound)
                && unchanged(*old(self), *final(self)),
            old(self).regions@.contains_key(region_name@) ==> region_changed(*old(self), *final(self), region_name@)
                && target_outcome(
                old(self).regions@[region_name@],
                final(self).regions@[region_name@],
                component_id,
                FCComponentType::CacheTransport,
                transport_rel(enable),
                r,
            ),
    {
        let region = match self.region_mut(region_name) {
            Some(g) => g,
            None => return Err(TargetError::RegionNotFound),
        };
        let ghost r0 = *region;
        let nid = match region.find_component_node(component_id) {
            Some(n) => n,
            None => return Err(TargetError::ComponentNotFound),
        };
        if region.kind_at(nid, component_id) != Some(FCComponentType::CacheTransport) {
            return Err(TargetError::WrongComponentType);
        }
        proof {
            assert(holds_kind(r0.nodes@, nid, component_id, FCComponentType::CacheTransport));
        }
        let slot = region.component_in_mut(nid, component_id).unwrap();
        match slot {
            FactoryComponent::CacheTransport(state) => {
                state.enabled = enable;
            },
            _ => {},
        }
        Ok(())
    }

    /// Draws up to `use_count` points from heal tower `component_id`;
    /// returns the points granted (never more than it has, never below 0).
    pub fn use_heal_tower(&mut self, region_name: &str, component_id: u32, use_count: u32) -> (r: Result<u32, TargetError>)
        ensures
            !old(self).regions@.contains_key(region_name@) ==> r == Err::<u32, TargetError>(TargetError::RegionNotFound)
                && unchanged(*old(self), *final(self)),
            old(self).regions@.contains_key(region_name@) ==> region_changed(*old(self), *final(self), region_name@)
                && target_outcome(
                old(self).regions@[region_name@],
                final(self).regions@[region_name@],
                component_id,
                FCComponentType::HealTower,
                heal_rel(use_count),
                unit_of(r),
            ),
            r matches Ok(g) ==> exists|nid: u32| #[trigger]
                holds_kind(old(self).regions@[region_name@].nodes@, nid, component_id, FCComponentType::HealTower)
                    && (comp_of(old(self).regions@[region_name@].nodes@, nid, component_id) matches FactoryComponent::HealTower(s)
                    && g == heal_granted(s.points, use_count)),
    {
        let region = match self.region_mut(region_name) {
            Some(g) => g,
            None => return Err(TargetError::RegionNotFound),
        };
        let ghost r0 = *region;
        let nid = match region.find_component_node(component_id) {
            Some(n) => n,
            None => return Err(TargetError::ComponentNotFound),
        };
        if region.kind_at(nid, component_id) != Some(FCComponentType::HealTower) {
            return Err(TargetError::WrongComponentType);
        }
        proof {
            assert(holds_kind(r0.nodes@, nid, component_id, FCComponentType::HealTower));
        }
        let slot = region.component_in_mut(nid, component_id).unwrap();
        let mut granted: u32 = 0;
        match slot {
            FactoryComponent::HealTower(state) => {
                let avail: i64 = if state.points > 0 { state.points } else { 0 };
                let requested = use_count as i64;
                let g: i64 = if requested < avail { requested } else { avail };
                state.points = state.points - g;
                granted = g as u32;
            },
            _ => {},
        }
        Ok(granted)
    }

    /// Sets the next pole of travel pole `component_id` to node
    /// `default_next`, which must exist.
    pub fn set_travel_pole_next(&mut self, region_name: &str, component_id: u32, default_next: u32) -> (r: Result<(), TargetError>)
        ensures
            !old(self).regions@.contains_key(region_name@) ==> r == Err::<(), TargetError>(TargetError::RegionNotFound)
                && unchanged(*old(self), *final(self)),
            old(self).regions@.contains_key(region_name@) && !old(self).regions@[region_name@].nodes@.contains_key(default_next)
                ==> r == Err::<(), TargetError>(TargetError::ComponentNotFound) && region_changed(*old(self), *final(self), region_name@)
                && final(self).regions@[region_name@] == old(self).regions@[region_name@],
            old(self).regions@.contains_key(region_name@) && old(self).regions@[region_name@].nodes@.contains_key(default_next)
                ==> region_changed(*old(self), *final(self), region_name@) && target_outcome(
                old(self).regions@[region_name@],
                final(self).regions@[region_name@],
                component_id,
                FCComponentType::TravelPole,
                travel_rel(default_next),
                r,
            ),
    {
        let region = match self.region_mut(region_name) {
            Some(g) => g,
            None => return Err(TargetError::RegionNotFound),
        };
        let ghost r0 = *region;
        if !region.nodes.contains_key(&default_next) {
            return Err(TargetError::ComponentNotFound);
        }
        let nid = match region.find_component_node(component_id) {
            Some(n) => n,
            None => return Err(TargetError::ComponentNotFound),
        };
        if region.kind_at(nid, component_id) != Some(FCComponentType::TravelPole) {
            return Err(TargetError::WrongComponentType);
        }
        proof {
            assert(holds_kind(r0.nodes@, nid, component_id, FCComponentType::TravelPole));
        }
        let slot = region.component_in_mut(nid, component_id).unwrap();
        match slot {
            FactoryComponent::TravelPole(state) => {
                state.default_next = Some(default_next);
            },
            _ => {},
        }
        Ok(())
    }

    /// Enables or disables node `node_id` at tick `now`. Disabling pauses
    /// its running producers, banking the elapsed ticks into their progress.
    pub fn enable_node_at(&mut self, region_name: &str, node_id: u32, enable: bool, now: Tick) -> (r: Result<(), EnableNodeError>)
        ensures
            !old(self).regions@.contains_key(region_name@) ==> r == Err::<(), EnableNodeError>(EnableNodeError::RegionNotFound)
                && unchanged(*old(self), *final(self)),
            old(self).regions@.contains_key(region_name@) ==> region_changed(*old(self), *final(self), region_name@)
                && enable_outcome(
                old(self).regions@[region_name@],
                final(self).regions@[region_name@],
                node_id,
                enable,
                now,
                r,
            ),
    {
        let region = match self.region_mut(region_name) {
            Some(g) => g,
            None => return Err(EnableNodeError::RegionNotFound),
        };
        if !region.nodes.contains_key(&node_id) {
            return Err(EnableNodeError::NodeNotFound);
        }
        let node = region.node_mut(node_id).unwrap();
        set_node_enabled(node, enable, now);
        Ok(())
    }

    /// Enables or disables node `node_id` on the system clock.
    pub fn enable_node(&mut self, region_name: &str, node_id: u32, enable: bool) -> (r: Result<(), EnableNodeError>)
        ensures
            !old(self).regions@.contains_key(region_name@) ==> r == Err::<(), EnableNodeError>(EnableNodeError::RegionNotFound)
                && unchanged(*old(self), *final(self)),
            old(self).regions@.contains_key(region_name@) ==> region_changed(*old(self), *final(self), region_name@)
                && exists|now: Tick| #[trigger] enable_outcome(
                old(self).regions@[region_name@],
                final(self).regions@[region_name@],
                node_id,
                enable,
                now,
                r,
            ),
    {
        let now = current_tick();
        self.enable_node_at(region_name, node_id, enable, now)
    }

    /// Links nodes `node_id_a` and `node_id_b` with a power or travel link
    /// under the next free index, then recomputes the power network.
    /// Returns the link's index.
    pub fn add_connection(&mut self, region_name: &str, conn_type: FCConnectionType, node_id_a: u32, node_id_b: u32) -> (r: Result<u64, &'static str>)
        ensures
            !old(self).regions@.contains_key(region_name@) ==> r == Err::<u64, &'static str>("region not found")
                && unchanged(*old(self), *final(self)),
            old(self).regions@.contains_key(region_name@) ==> region_changed(*old(self), *final(self), region_name@)
                && add_link_outcome(
                old(self).regions@[region_name@],
                final(self).regions@[region_name@],
                conn_type,
                node_id_a,
                node_id_b,
                r,
            ),
    {
        let region = match self.region_mut(region_name) {
            Some(g) => g,
            None => return Err("region not found"),
        };
        if !region.nodes.contains_key(&node_id_a) || !region.nodes.contains_key(&node_id_b) {
            return Err("one or both endpoints missing");
        }
        let port_type = match conn_type {
            FCConnectionType::Power => FCConnectionPortType::PowerPole,
            FCConnectionType::Travel => FCConnectionPortType::Hub,
        };
        let idx = region.next_connection_index();
        let ghost r0 = *region;
        let link = FactoryConnection { connection_type: conn_type, port_type, node_id_a, node_id_b, index: idx };
        region.connections.push(link);
        let ghost mid = *region;
        proof {
            assert(links_changed(r0, mid, r0.connections@.push(link)));
        }
        recompute_blackboard(region);
        Ok(idx)
    }

    /// Removes every link with index `index` and recomputes the power
    /// network; fails, changing nothing, when no link has that index.
    pub fn del_connection(&mut self, region_name: &str, index: u64) -> (r: Result<(), &'static str>)
        ensures
            !old(self).regions@.contains_key(region_name@) ==> r == Err::<(), &'static str>("region not found")
                && unchanged(*old(self), *final(self)),
            old(self).regions@.contains_key(region_name@) ==> region_changed(*old(self), *final(self), region_name@)
                && del_link_outcome(old(self).regions@[region_name@], final(self).regions@[region_name@], index, r),
    {
        let region = match self.region_mut(region_name) {
            Some(g) => g,
            None => return Err("region not found"),
        };
        let ghost r0 = *region;
        let ghost pred = |c: FactoryConnection| c.index != index;
        let mut kept: Vec<FactoryConnection> = Vec::new();
        let mut i: usize = 0;
        while i < region.connections.len()
            invariant
                0 <= i <= region.connections@.len(),
                *region == r0,
                pred == (|c: FactoryConnection| c.index != index),
                kept@ == region.connections@.subrange(0, i as int).filter(pred),
            decreases region.connections@.len() - i,
        {
            proof {
                reveal(Seq::filter);
                assert(region.connections@.subrange(0, i as int + 1).drop_last() =~= region.connections@.subrange(0, i as int));
            }
            let c = region.connections[i];
            if c.index != index {
                kept.push(c);
            }
            i += 1;
        }
        proof {
            assert(region.connections@.subrange(0, i as int) =~= region.connections@);
        }
        if kept.len() == region.connections.len() {
            proof {
                lemma_filter_same_len_all(region.connections@, pred);
            }
            return Err("no connection with that index");
        }
        proof {
            lemma_filter_shorter_has_dropped(region.connections@, pred);
        }
        region.connections = kept;
        let ghost mid = *region;
        proof {
            assert(links_changed(r0, mid, r0.connections@.filter(pred)));
        }
        recompute_blackboard(region);
        Ok(())
    }

    /// Points every conveyor belt of the region inwards (`in_out`, direction
    /// 0) or outwards (direction 2). Does nothing when the region is missing.
    pub fn hs_inout(&mut self, region_name: &str, in_out: bool)
        ensures
            !old(self).regions@.contains_key(region_name@) ==> unchanged(*old(self), *final(self)),
            old(self).regions@.contains_key(region_name@) ==> region_changed(*old(self), *final(self), region_name@)
                && belts_turned(
                old(self).regions@[region_name@],
                final(self).regions@[region_name@],
                if in_out { 0 } else { 2 },
            ),
    {
        let region = match self.region_mut(region_name) {
            Some(g) => g,
            None => return,
        };
        let new_dir: i32 = if in_out { 0 } else { 2 };
        turn_belts(region, new_dir);
    }
}

/// Component change when a node is enabled (nothing) or disabled (running
/// producers pause at `now`, banking the elapsed ticks).
pub open spec fn enable_fn(enable: bool, now: Tick) -> spec_fn(FactoryComponent) -> FactoryComponent {
    |c: FactoryComponent|
        if enable {
            c
        } else {
            match c {
                FactoryComponent::Producer(s) => match s.start_tick {
                    Some(st) => FactoryComponent::Producer(
                        ProducerState {
                            start_tick: None,
                            current_progress: sat_add_u64(s.current_progress as int, spec_elapsed(now, st)) as u64,
                            ..s
                        },
                    ),
                    None => c,
                },
                _ => c,
            }
        }
}

/// `new` is node `old` enabled or disabled at `now`.
pub open spec fn node_enabled(old: FactoryNode, new: FactoryNode, enable: bool, now: Tick) -> bool {
    &&& new.is_deactive == !enable
    &&& node_comps_mapped(FactoryNode { is_deactive: new.is_deactive, ..old }, new, enable_fn(enable, now))
}

/// Outcome of enabling or disabling node `nid` at `now`.
pub open spec fn enable_outcome(old: FactoryRegion, new: FactoryRegion, nid: u32, enable: bool, now: Tick, r: Result<(), EnableNodeError>) -> bool {
    match r {
        Ok(()) => old.nodes@.contains_key(nid) && new.nodes@.contains_key(nid) && region_node_set(
            old,
            new,
            nid,
            new.nodes@[nid],
        ) && node_enabled(old.nodes@[nid], new.nodes@[nid], enable, now),
        Err(EnableNodeError::NodeNotFound) => !old.nodes@.contains_key(nid) && new == old,
        Err(EnableNodeError::RegionNotFound) => false,
    }
}

/// `mid` is `old` with its links replaced by `links`; nothing else changed.
pub open spec fn links_changed(old: FactoryRegion, mid: FactoryRegion, links: Seq<FactoryConnection>) -> bool {
    &&& mid.connections@ == links
    &&& mid.nodes == old.nodes
    &&& mid.name == old.name
    &&& mid.region_id == old.region_id
    &&& mid.scene_name == old.scene_name
    &&& mid.level == old.level
    &&& mid.next_node_id == old.next_node_id
    &&& mid.blackboard == old.blackboard
    &&& mid.production_totals == old.production_totals
}

/// The port kind used for a link kind.
pub open spec fn port_for(t: FCConnectionType) -> FCConnectionPortType {
    match t {
        FCConnectionType::Power => FCConnectionPortType::PowerPole,
        FCConnectionType::Travel => FCConnectionPortType::Hub,
    }
}

/// Outcome of linking `a` and `b`: both must exist; the new link gets the
/// next index and the power network is recomputed.
pub open spec fn add_link_outcome(
    old: FactoryRegion,
    new: FactoryRegion,
    t: FCConnectionType,
    a: u32,
    b: u32,
    r: Result<u64, &'static str>,
) -> bool {
    match r {
        Ok(idx) => {
            &&& old.nodes@.contains_key(a)
            &&& old.nodes@.contains_key(b)
            &&& idx == spec_next_connection_index(old.connections@)
            &&& exists|mid: FactoryRegion, now: Tick|
                #[trigger] is_recomputed(mid, new, now) && links_changed(
                    old,
                    mid,
                    old.connections@.push(
                        FactoryConnection { connection_type: t, port_type: port_for(t), node_id_a: a, node_id_b: b, index: idx },
                    ),
                )
        },
        Err(e) => e == "one or both endpoints missing" && !(old.nodes@.contains_key(a) && old.nodes@.contains_key(b))
            && new == old,
    }
}

/// Outcome of removing the links with index `index`: fails when there is
/// none; otherwise they are dropped and the power network is recomputed.
pub open spec fn del_link_outcome(old: FactoryRegion, new: FactoryRegion, index: u64, r: Result<(), &'static str>) -> bool {
    match r {
        Ok(()) => {
            &&& exists|i: int| 0 <= i < old.connections@.len() && #[trigger] old.connections@[i].index == index
            &&& exists|mid: FactoryRegion, now: Tick|
                #[trigger] is_recomputed(mid, new, now) && links_changed(
                    old,
                    mid,
                    old.connections@.filter(|c: FactoryConnection| c.index != index),
                )
        },
        Err(e) => e == "no connection with that index" && (forall|i: int|
            0 <= i < old.connections@.len() ==> #[trigger] old.connections@[i].index != index) && new == old,
    }
}

proof fn lemma_filter_same_len_all(s: Seq<FactoryConnection>, p: spec_fn(FactoryConnection) -> bool)
    requires
        s.filter(p).len() == s.len(),
    ensures
        forall|i: int| 0 <= i < s.len() ==> p(#[trigger] s[i]),
    decreases s.len(),
{
    reveal(Seq::filter);
    if s.len() > 0 {
        s.drop_last().lemma_filter_len(p);
        assert(s.drop_last().filter(p).len() <= s.drop_last().len());
        if !p(s.last()) {
            assert(s.filter(p) == s.drop_last().filter(p));
        }
        lemma_filter_same_len_all(s.drop_last(), p);
        assert forall|i: int| 0 <= i < s.len() implies p(#[trigger] s[i]) by {
            if i < s.len() - 1 {
                assert(s[i] == s.drop_last()[i]);
            }
        }
    }
}

proof fn lemma_filter_shorter_has_dropped(s: Seq<FactoryConnection>, p: spec_fn(FactoryConnection) -> bool)
    requires
        s.filter(p).len() != s.len(),
    ensures
        exists|i: int| 0 <= i < s.len() && !p(#[trigger] s[i]),
{
    if forall|i: int| 0 <= i < s.len() ==> p(#[trigger] s[i]) {
        lemma_filter_all(s, p);
    }
}

proof fn lemma_filter_all(s: Seq<FactoryConnection>, p: spec_fn(FactoryConnection) -> bool)
    requires
        forall|i: int| 0 <= i < s.len() ==> p(#[trigger] s[i]),
    ensures
        s.filter(p) == s,
    decreases s.len(),
{
    reveal(Seq::filter);
    if s.len() > 0 {
        assert forall|i: int| 0 <= i < s.drop_last().len() implies p(#[trigger] s.drop_last()[i]) by {
            assert(s.drop_last()[i] == s[i]);
        }
        lemma_filter_all(s.drop_last(), p);
        assert(p(s[s.len() - 1]));
        assert(s.drop_last().push(s.last()) =~= s);
    }
}

/// Sets a node's active flag and, when disabling, pauses its producers.
fn set_node_enabled(node: &mut FactoryNode, enable: bool, now: Tick)
    ensures
        node_enabled(*old(node), *final(node), enable, now),
{
    node.is_deactive = !enable;
    let ghost f = enable_fn(enable, now);
    let ghost orig = *node;
    let mut i: usize = 0;
    while i < node.components.len()
        invariant
            0 <= i <= node.components.len(),
            f == enable_fn(enable, now),
            node.components@.len() == orig.components@.len(),
            node.node_id == orig.node_id,
            node.node_type == orig.node_type,
            node.template_id == orig.template_id,
            node.transform == orig.transform,
            node.is_deactive == orig.is_deactive,
            node.is_deactive == !enable,
            node.interactive_object == orig.interactive_object,
            node.dynamic_property == orig.dynamic_property,
            node.component_pos == orig.component_pos,
            forall|j: int|
                0 <= j < i ==> (#[trigger] node.components@[j]).0 == orig.components@[j].0
                    && node.components@[j].1 == f(orig.components@[j].1),
            forall|j: int| i <= j < node.components@.len() ==> #[trigger] node.components@[j] == orig.components@[j],
        decreases node.components.len() - i,
    {
        if !enable {
            match &mut node.components[i].1 {
                FactoryComponent::Producer(state) => match state.start_tick {
                    Some(start) => {
                        let elapsed = elapsed_between(now, start);
                        state.current_progress = state.current_progress.saturating_add(elapsed);
                        state.start_tick = None;
                    },
                    None => {},
                },
                _ => {},
            }
        }
        i += 1;
    }
}

/// Component change that points a conveyor belt in direction `d`.
pub open spec fn belt_dir_fn(d: i32) -> spec_fn(FactoryComponent) -> FactoryComponent {
    |c: FactoryComponent| match c {
        FactoryComponent::BoxConveyor(s) => FactoryComponent::BoxConveyor(
            super::component::BoxConveyorState { direction: d, ..s },
        ),
        other => other,
    }
}

/// `new` is `old` with every conveyor belt pointing in direction `d`.
pub open spec fn belts_turned(old: FactoryRegion, new: FactoryRegion, d: i32) -> bool {
    &&& nodes_comps_mapped(old.nodes@, new.nodes@, belt_dir_fn(d))
    &&& new.name == old.name
    &&& new.region_id == old.region_id
    &&& new.scene_name == old.scene_name
    &&& new.level == old.level
    &&& new.next_node_id == old.next_node_id
    &&& new.blackboard == old.blackboard
    &&& new.connections == old.connections
    &&& new.production_totals == old.production_totals
}

fn turn_node_belts(node: &mut FactoryNode, d: i32)
    ensures
        node_comps_mapped(*old(node), *final(node), belt_dir_fn(d)),
{
    let ghost f = belt_dir_fn(d);
    let ghost orig = *node;
    let mut i: usize = 0;
    while i < node.components.len()
        invariant
            0 <= i <= node.components.len(),
            f == belt_dir_fn(d),
            node.components@.len() == orig.components@.len(),
            node.node_id == orig.node_id,
            node.node_type == orig.node_type,
            node.template_id == orig.template_id,
            node.transform == orig.transform,
            node.is_deactive == orig.is_deactive,
            node.interactive_object == orig.interactive_object,
            node.dynamic_property == orig.dynamic_property,
            node.component_pos == orig.component_pos,
            forall|j: int|
                0 <= j < i ==> (#[trigger] node.components@[j]).0 == orig.components@[j].0
                    && node.components@[j].1 == f(orig.components@[j].1),
            forall|j: int| i <= j < node.components@.len() ==> #[trigger] node.components@[j] == orig.components@[j],
        decreases node.components.len() - i,
    {
        match &mut node.components[i].1 {
            FactoryComponent::BoxConveyor(state) => {
                state.direction = d;
            },
            _ => {},
        }
        i += 1;
    }
}

fn turn_belts(region: &mut FactoryRegion, d: i32)
    ensures
        belts_turned(*old(region), *final(region), d),
{
    let keys = map_keys(&region.nodes);
    let ghost orig = region.nodes@;
    let ghost f = belt_dir_fn(d);
    let ghost r0 = *region;
    let mut i: usize = 0;
    while i < keys.len()
        invariant
            0 <= i <= keys.len(),
            f == belt_dir_fn(d),
            orig == r0.nodes@,
            keys@.no_duplicates(),
            keys@.to_set() == orig.dom(),
            region.nodes@.dom() == orig.dom(),
            region.blackboard == r0.blackboard,
            region.connections == r0.connections,
            region.name == r0.name,
            region.region_id == r0.region_id,
            region.scene_name == r0.scene_name,
            region.level == r0.level,
            region.next_node_id == r0.next_node_id,
            region.production_totals == r0.production_totals,
            forall|j: int| 0 <= j < i ==> node_comps_mapped(orig[#[trigger] keys@[j]], region.nodes@[keys@[j]], f),
            forall|j: int| i <= j < keys@.len() ==> region.nodes@[#[trigger] keys@[j]] == orig[keys@[j]],
        decreases keys.len() - i,
    {
        let k = keys[i];
        proof {
            assert(keys@.to_set().contains(k));
        }
        match region.node_mut(k) {
            Some(node) => {
                turn_node_belts(node, d);
            },
            None => {},
        }
        proof {
            assert forall|j: int| 0 <= j < keys@.len() && j != i implies #[trigger] keys@[j] != k by {}
        }
        i += 1;
    }
    proof {
        assert forall|k: u32| #[trigger] orig.contains_key(k) implies node_comps_mapped(orig[k], region.nodes@[k], f) by {
            assert(keys@.to_set().contains(k));
            let j = choose|j: int| 0 <= j < keys@.len() && keys@[j] == k;
        }
    }
}

// ---------------------------------------------------------------------
// Live-state feedback for the building the player looks at
// ---------------------------------------------------------------------

/// Progress of a running machine at `now`: the stored progress plus the
/// elapsed ticks times `rate` (that product wrapping like unsigned 64-bit
/// arithmetic), saturating.
pub open spec fn live_progress(current: u64, start: Option<Tick>, rate: u64, now: Tick) -> u64 {
    match start {
        Some(st) => sat_add_u64(
            current as int,
            vstd::wrapping::u64_specs::wrapping_mul(spec_elapsed(now, st) as u64, rate) as int,
        ) as u64,
        None => current,
    }
}

/// Whether a component reports live state.
pub open spec fn has_payload(c: FactoryComponent) -> bool {
    match c {
        FactoryComponent::Cache(_) | FactoryComponent::Producer(_) | FactoryComponent::Collector(_)
        | FactoryComponent::BurnPower(_) | FactoryComponent::CacheTransport(_) | FactoryComponent::GridBox(_)
        | FactoryComponent::BoxRouterM1 | FactoryComponent::BoxBridge | FactoryComponent::HealTower(_) => true,
        _ => false,
    }
}

/// The instance ids of a slot list.
pub open spec fn inst_ids(v: Seq<ItemSlot>) -> Seq<u32> {
    v.map_values(|s: ItemSlot| s.inst_id)
}

/// `p` is the live state of component `c` at `now`.
pub open spec fn payload_of(c: FactoryComponent, now: Tick, p: HsFbPayload) -> bool {
    match c {
        FactoryComponent::Cache(s) => p matches HsFbPayload::Cache { items } && items@ == inst_ids(s.items@),
        FactoryComponent::Producer(s) => p matches HsFbPayload::Producer {
            progress_incr_per_ms,
            formula_id,
            current_progress,
        } && progress_incr_per_ms == 100 && formula_id@ == s.formula_id@ && current_progress == live_progress(
            s.current_progress,
            s.start_tick,
            100,
            now,
        ) as i64,
        FactoryComponent::Collector(s) => p matches HsFbPayload::Collector { progress_incr_per_ms, current_progress }
            && progress_incr_per_ms == 250 && current_progress == live_progress(
            s.current_progress,
            s.start_tick,
            250,
            now,
        ) as i64,
        FactoryComponent::BurnPower(s) => p == HsFbPayload::BurnPower {
            progress_decr_per_ms: 125,
            current_least_progress: s.fuel_remaining,
        },
        FactoryComponent::CacheTransport(s) => p == HsFbPayload::CacheTransport {
            progress_incr_per_ms: if s.total_progress > 0 { (1000i64 / s.total_progress) as i64 } else { 0i64 },
            current_progress: s.current_progress,
        },
        FactoryComponent::GridBox(s) => p matches HsFbPayload::GridBox { items } && items@ == inst_ids(s.items@),
        FactoryComponent::BoxRouterM1 => p matches HsFbPayload::BoxRouterM1 { items } && items@.len() == 0,
        FactoryComponent::BoxBridge => p matches HsFbPayload::BoxBridge { items } && items@.len() == 0,
        FactoryComponent::HealTower(s) => p == HsFbPayload::HealTower {
            progress_incr_per_ms: 1,
            current_progress: s.current_progress,
            current_point: s.points as i32,
        },
        _ => false,
    }
}

/// The instance ids of a slot list.
fn collect_inst_ids(v: &Vec<ItemSlot>) -> (r: Vec<u32>)
    ensures
        r@ == inst_ids(v@),
{
    let mut out: Vec<u32> = Vec::new();
    let mut i: usize = 0;
    while i < v.len()
        invariant
            0 <= i <= v@.len(),
            out@ == inst_ids(v@.subrange(0, i as int)),
        decreases v@.len() - i,
    {
        out.push(v[i].inst_id);
        proof {
            assert(inst_ids(v@.subrange(0, i as int + 1)) =~= inst_ids(v@.subrange(0, i as int)).push(v@[i as int].inst_id));
        }
        i += 1;
    }
    proof {
        assert(v@.subrange(0, i as int) =~= v@);
    }
    out
}

/// Progress of a running machine at `now` (see `live_progress`).
fn live_progress_at(current: u64, start: Option<Tick>, rate: u64, now: Tick) -> (r: u64)
    ensures
        r == live_progress(current, start, rate, now),
{
    match start {
        Some(st) => current.saturating_add(elapsed_between(now, st).wrapping_mul(rate)),
        None => current,
    }
}

/// The live state of component `comp` at tick `now`, for the kinds that
/// report one.
pub fn build_hs_fb_payload_at(comp: &FactoryComponent, now: Tick) -> (r: Option<HsFbPayload>)
    ensures
        match r {
            Some(p) => has_payload(*comp) && payload_of(*comp, now, p),
            None => !has_payload(*comp),
        },
{
    match comp {
        FactoryComponent::Cache(state) => Some(HsFbPayload::Cache { items: collect_inst_ids(&state.items) }),
        FactoryComponent::Producer(state) => {
            let progress = live_progress_at(state.current_progress, state.start_tick, 100, now);
            Some(
                HsFbPayload::Producer {
                    progress_incr_per_ms: 100,
                    formula_id: state.formula_id.clone(),
                    current_progress: progress as i64,
                },
            )
        },
        FactoryComponent::Collector(state) => {
            let progress = live_progress_at(state.current_progress, state.start_tick, 250, now);
            Some(HsFbPayload::Collector { progress_incr_per_ms: 250, current_progress: progress as i64 })
        },
        FactoryComponent::BurnPower(state) => Some(
            HsFbPayload::BurnPower { progress_decr_per_ms: 125, current_least_progress: state.fuel_remaining },
        ),
        FactoryComponent::CacheTransport(state) => Some(
            HsFbPayload::CacheTransport {
                progress_incr_per_ms: if state.total_progress > 0 { 1000i64 / state.total_progress } else { 0 },
                current_progress: state.current_progress,
            },
        ),
        FactoryComponent::GridBox(state) => Some(HsFbPayload::GridBox { items: collect_inst_ids(&state.items) }),
        FactoryComponent::BoxRouterM1 => Some(HsFbPayload::BoxRouterM1 { items: Vec::new() }),
        FactoryComponent::BoxBridge => Some(HsFbPayload::BoxBridge { items: Vec::new() }),
        FactoryComponent::HealTower(state) => Some(
            HsFbPayload::HealTower {
                progress_incr_per_ms: 1,
                current_progress: state.current_progress,
                current_point: state.points as i32,
            },
        ),
        _ => None,
    }
}

/// The live state of component `comp` on the system clock.
pub fn build_hs_fb_payload(comp: &FactoryComponent) -> (r: Option<HsFbPayload>)
    ensures
        match r {
            Some(p) => has_payload(*comp) && exists|now: Tick| #[trigger] payload_of(*comp, now, p),
            None => !has_payload(*comp),
        },
{
    let now = current_tick();
    build_hs_fb_payload_at(comp, now)
}

/// The components of a node that report live state, in order.
pub open spec fn payload_sources(comps: Seq<(u32, FactoryComponent)>) -> Seq<(u32, FactoryComponent)>
    decreases comps.len(),
{
    if comps.len() == 0 {
        Seq::empty()
    } else if has_payload(comps.last().1) {
        payload_sources(comps.drop_last()).push(comps.last())
    } else {
        payload_sources(comps.drop_last())
    }
}

/// The reporting components of the listed nodes (missing ones skipped), in
/// order.
pub open spec fn fb_sources(nodes: Map<u32, FactoryNode>, ids: Seq<u32>) -> Seq<(u32, FactoryComponent)>
    decreases ids.len(),
{
    if ids.len() == 0 {
        Seq::empty()
    } else {
        fb_sources(nodes, ids.drop_last()) + if nodes.contains_key(ids.last()) {
            payload_sources(nodes[ids.last()].components@)
        } else {
            Seq::empty()
        }
    }
}

/// `entries` reports the components `srcs` at `now`, one entry each.
pub open spec fn entries_report(entries: Seq<HsFbEntry>, srcs: Seq<(u32, FactoryComponent)>, now: Tick) -> bool {
    &&& entries.len() == srcs.len()
    &&& forall|i: int|
        0 <= i < entries.len() ==> (#[trigger] entries[i]).component_id == srcs[i].0 && payload_of(
            srcs[i].1,
            now,
            entries[i].payload,
        )
}

impl FactoryManager {
    /// Live state at tick `now` of every reporting component of the listed
    /// nodes (missing nodes skipped); empty when the region is missing.
    pub fn build_hs_fb_list_at(&self, region_name: &str, node_ids: &[u32], now: Tick) -> (r: Vec<HsFbEntry>)
        ensures
            !self.regions@.contains_key(region_name@) ==> r@.len() == 0,
            self.regions@.contains_key(region_name@) ==> entries_report(
                r@,
                fb_sources(self.regions@[region_name@].nodes@, node_ids@),
                now,
            ),
    {
        let mut entries: Vec<HsFbEntry> = Vec::new();
        let region = match self.region(region_name) {
            Some(g) => g,
            None => return entries,
        };
        let ghost nodes = region.nodes@;
        let mut i: usize = 0;
        while i < node_ids.len()
            invariant
                0 <= i <= node_ids@.len(),
                nodes == region.nodes@,
                entries_report(entries@, fb_sources(nodes, node_ids@.subrange(0, i as int)), now),
            decreases node_ids@.len() - i,
        {
            let node_id = node_ids[i];
            let ghost before = fb_sources(nodes, node_ids@.subrange(0, i as int));
            proof {
                assert(node_ids@.subrange(0, i as int + 1).drop_last() =~= node_ids@.subrange(0, i as int));
            }
            match region.nodes.get(&node_id) {
                Some(node) => {
                    let ghost comps = node.components@;
                    let mut j: usize = 0;
                    proof {
                        assert(comps.subrange(0, 0) =~= Seq::<(u32, FactoryComponent)>::empty());
                        assert(before + payload_sources(comps.subrange(0, 0)) =~= before);
                    }
                    while j < node.components.len()
                        invariant
                            0 <= j <= comps.len(),
                            comps == node.components@,
                            entries_report(entries@, before + payload_sources(comps.subrange(0, j as int)), now),
                        decreases comps.len() - j,
                    {
                        proof {
                            assert(comps.subrange(0, j as int + 1).drop_last() =~= comps.subrange(0, j as int));
                        }
                        let cid = node.components[j].0;
                        match build_hs_fb_payload_at(&node.components[j].1, now) {
                            Some(payload) => {
                                let ghost old_e = entries@;
                                entries.push(HsFbEntry { component_id: cid, payload });
                                proof {
                                    let srcs = before + payload_sources(comps.subrange(0, j as int + 1));
                                    assert(srcs =~= (before + payload_sources(comps.subrange(0, j as int))).push(comps[j as int]));
                                    assert forall|t: int| 0 <= t < entries@.len() implies (#[trigger] entries@[t]).component_id
                                        == srcs[t].0 && payload_of(srcs[t].1, now, entries@[t].payload) by {
                                        if t < old_e.len() {
                                            assert(entries@[t] == old_e[t]);
                                        }
                                    }
                                }
                            },
                            None => {
                                proof {
                                    assert(before + payload_sources(comps.subrange(0, j as int + 1)) =~= before
                                        + payload_sources(comps.subrange(0, j as int)));
                                }
                            },
                        }
                        j += 1;
                    }
                    proof {
                        assert(comps.subrange(0, j as int) =~= comps);
                        assert(fb_sources(nodes, node_ids@.subrange(0, i as int + 1)) == before + payload_sources(comps));
                    }
                },
                None => {
                    proof {
                        assert(fb_sources(nodes, node_ids@.subrange(0, i as int + 1)) =~= before);
                    }
                },
            }
            i += 1;
        }
        proof {
            assert(node_ids@.subrange(0, i as int) =~= node_ids@);
        }
        entries
    }

    /// Live state on the system clock of every reporting component of the
    /// listed nodes.
    pub fn build_hs_fb_list(&self, region_name: &str, node_ids: &[u32]) -> (r: Vec<HsFbEntry>)
        ensures
            !self.regions@.contains_key(region_name@) ==> r@.len() == 0,
            self.regions@.contains_key(region_name@) ==> exists|now: Tick|
                #[trigger] entries_report(r@, fb_sources(self.regions@[region_name@].nodes@, node_ids@), now),
    {
        let now = current_tick();
        self.build_hs_fb_list_at(region_name, node_ids, now)
    }
}

// ---------------------------------------------------------------------
// Removing conveyor belts
// ---------------------------------------------------------------------

/// The box spanned by two belt tiles, both included.
pub open spec fn belt_box(from: GridPos, to: GridPos) -> GridRange {
    GridRange {
        x: if from.x < to.x { from.x } else { to.x },
        y: if from.y < to.y { from.y } else { to.y },
        w: ((if from.x >= to.x { from.x - to.x } else { to.x - from.x }) + 1) as u32,
        h: ((if from.y >= to.y { from.y - to.y } else { to.y - from.y }) + 1) as u32,
    }
}

/// A placed conveyor belt inside `b`.
pub open spec fn belt_in_box(n: FactoryNode, b: GridRange) -> bool {
    n.node_type == FCNodeType::BoxConveyor && (n.transform.position matches Some(p) && spec_in_bounds(p, b))
}

/// Keys of the belts inside `b`.
pub open spec fn belts_in_box(nodes: Map<u32, FactoryNode>, b: GridRange) -> Set<u32> {
    nodes.dom().filter(|k: u32| belt_in_box(nodes[k], b))
}

/// `ids` lists, in some order, the node ids of the belts inside `b`, one
/// per belt.
pub open spec fn lists_belts(nodes: Map<u32, FactoryNode>, b: GridRange, ids: Seq<u32>) -> bool {
    exists|ks: Seq<u32>|
        #[trigger] ks.to_set() == belts_in_box(nodes, b) && ks.no_duplicates() && ids == ks.map_values(
            |k: u32| nodes[k].node_id,
        )
}

/// `new` is `old` without the nodes listed in `ids` and without the links
/// that touch them.
pub open spec fn belts_removed(old: FactoryRegion, new: FactoryRegion, ids: Seq<u32>) -> bool {
    &&& new.nodes@ == old.nodes@.remove_keys(ids.to_set())
    &&& new.connections@ == old.connections@.filter(
        |c: FactoryConnection| !ids.contains(c.node_id_a) && !ids.contains(c.node_id_b),
    )
    &&& new.name == old.name
    &&& new.region_id == old.region_id
    &&& new.scene_name == old.scene_name
    &&& new.level == old.level
    &&& new.next_node_id == old.next_node_id
    &&& new.blackboard == old.blackboard
    &&& new.production_totals == old.production_totals
}

/// Whether `v` holds `x`.
fn contains_id(v: &Vec<u32>, x: u32) -> (r: bool)
    ensures
        r == v@.contains(x),
{
    let mut i: usize = 0;
    while i < v.len()
        invariant
            0 <= i <= v@.len(),
            forall|j: int| 0 <= j < i ==> v@[j] != x,
        decreases v@.len() - i,
    {
        if v[i] == x {
            return true;
        }
        i += 1;
    }
    false
}

impl FactoryManager {
    /// Removes every conveyor belt inside the box spanned by tiles `from`
    /// and `to`, with the links touching them, and returns their ids.
    pub fn dismantle_box_conveyor(&mut self, region_name: &str, from: GridPos, to: GridPos) -> (r: Result<Vec<u32>, ConveyorError>)
        requires
            i32::MIN <= from.x - to.x <= i32::MAX,
            i32::MIN <= from.y - to.y <= i32::MAX,
        ensures
            !old(self).regions@.contains_key(region_name@) ==> (r matches Err(ConveyorError::RegionNotFound) && unchanged(
                *old(self),
                *final(self),
            )),
            old(self).regions@.contains_key(region_name@) ==> region_changed(*old(self), *final(self), region_name@)
                && (r matches Ok(ids) && lists_belts(old(self).regions@[region_name@].nodes@, belt_box(from, to), ids@)
                && belts_removed(old(self).regions@[region_name@], final(self).regions@[region_name@], ids@)),
    {
        let region = match self.region_mut(region_name) {
            Some(g) => g,
            None => return Err(ConveyorError::RegionNotFound),
        };
        let ghost r0 = *region;
        let dx: i32 = from.x - to.x;
        let dy: i32 = from.y - to.y;
        let w: u32 = if dx >= 0 { dx as u32 } else { (-(dx as i64)) as u32 } + 1;
        let h: u32 = if dy >= 0 { dy as u32 } else { (-(dy as i64)) as u32 } + 1;
        let bbox = GridRange {
            x: if from.x < to.x { from.x } else { to.x },
            y: if from.y < to.y { from.y } else { to.y },
            w,
            h,
        };
        proof {
            assert(bbox == belt_box(from, to));
        }
        let keys = map_keys(&region.nodes);
        let ghost nodes = region.nodes@;
        let ghost mut ks: Seq<u32> = Seq::empty();
        let ghost pred = |k: u32| belt_in_box(nodes[k], bbox);
        let mut ids: Vec<u32> = Vec::new();
        let mut i: usize = 0;
        while i < keys.len()
            invariant
                0 <= i <= keys.len(),
                nodes == region.nodes@,
                *region == r0,
                keys@.no_duplicates(),
                keys@.to_set() == nodes.dom(),
                pred == (|k: u32| belt_in_box(nodes[k], bbox)),
                ks.no_duplicates(),
                ks.to_set() == keys@.subrange(0, i as int).to_set().filter(pred),
                ids@ == ks.map_values(|k: u32| nodes[k].node_id),
                forall|j: int| 0 <= j < ks.len() ==> keys@.subrange(0, i as int).contains(#[trigger] ks[j]),
            decreases keys.len() - i,
        {
            let k = keys[i];
            proof {
                assert(keys@.to_set().contains(k));
                assert(keys@.subrange(0, i as int + 1) =~= keys@.subrange(0, i as int).push(k));
                assert(!keys@.subrange(0, i as int).contains(k)) by {
                    if keys@.subrange(0, i as int).contains(k) {
                        let j = choose|j: int| 0 <= j < i && keys@.subrange(0, i as int)[j] == k;
                        assert(keys@[j] == keys@[i as int]);
                    }
                }
            }
            let node = region.nodes.get(&k).unwrap();
            let hit = node.node_type == FCNodeType::BoxConveyor && match node.transform.position {
                Some(p) => is_in_bounds(p, bbox),
                None => false,
            };
            proof {
                assert(nodes[k] == *node);
                assert(hit == pred(k));
                keys@.subrange(0, i as int).lemma_push_to_set_commute(k);
                ks.lemma_push_to_set_commute(k);
            }
            if hit {
                ids.push(node.node_id);
                proof {
                    let ks2 = ks.push(k);
                    assert(ks2.to_set() =~= keys@.subrange(0, i as int + 1).to_set().filter(pred));
                    assert(ids@ =~= ks2.map_values(|k: u32| nodes[k].node_id));
                    assert forall|j: int| 0 <= j < ks2.len() implies keys@.subrange(0, i as int + 1).contains(#[trigger] ks2[j]) by {
                        if j < ks.len() {
                            let t = choose|t: int| 0 <= t < i && keys@.subrange(0, i as int)[t] == ks[j];
                            assert(keys@.subrange(0, i as int + 1)[t] == ks[j]);
                        } else {
                            assert(keys@.subrange(0, i as int + 1)[i as int] == k);
                        }
                    }
                    ks = ks2;
                }
            } else {
                proof {
                    assert(ks.to_set() =~= keys@.subrange(0, i as int + 1).to_set().filter(pred));
                    assert forall|j: int| 0 <= j < ks.len() implies keys@.subrange(0, i as int + 1).contains(#[trigger] ks[j]) by {
                        let t = choose|t: int| 0 <= t < i && keys@.subrange(0, i as int)[t] == ks[j];
                        assert(keys@.subrange(0, i as int + 1)[t] == ks[j]);
                    }
                }
            }
            i += 1;
        }
        proof {
            assert(keys@.subrange(0, i as int) =~= keys@);
            assert(ks.to_set() =~= belts_in_box(nodes, bbox));
            assert(lists_belts(nodes, bbox, ids@));
        }
        let mut t: usize = 0;
        while t < ids.len()
            invariant
                0 <= t <= ids@.len(),
                region.nodes@ == nodes.remove_keys(ids@.subrange(0, t as int).to_set()),
                region.connections == r0.connections,
                region.name == r0.name,
                region.region_id == r0.region_id,
                region.scene_name == r0.scene_name,
                region.level == r0.level,
                region.next_node_id == r0.next_node_id,
                region.blackboard == r0.blackboard,
                region.production_totals == r0.production_totals,
            decreases ids@.len() - t,
        {
            let id = ids[t];
            region.nodes.remove(&id);
            proof {
                assert(ids@.subrange(0, t as int + 1) =~= ids@.subrange(0, t as int).push(id));
                ids@.subrange(0, t as int).lemma_push_to_set_commute(id);
                assert(region.nodes@ =~= nodes.remove_keys(ids@.subrange(0, t as int + 1).to_set()));
            }
            t += 1;
        }
        proof {
            assert(ids@.subrange(0, t as int) =~= ids@);
        }
        let ghost pred2 = |c: FactoryConnection| !ids@.contains(c.node_id_a) && !ids@.contains(c.node_id_b);
        let mut kept: Vec<FactoryConnection> = Vec::new();
        let mut j: usize = 0;
        while j < region.connections.len()
            invariant
                0 <= j <= region.connections@.len(),
                region.connections == r0.connections,
                pred2 == (|c: FactoryConnection| !ids@.contains(c.node_id_a) && !ids@.contains(c.node_id_b)),
                kept@ == region.connections@.subrange(0, j as int).filter(pred2),
            decreases region.connections@.len() - j,
        {
            proof {
                reveal(Seq::filter);
                assert(region.connections@.subrange(0, j as int + 1).drop_last() =~= region.connections@.subrange(0, j as int));
            }
            let c = region.connections[j];
            if !contains_id(&ids, c.node_id_a) && !contains_id(&ids, c.node_id_b) {
                kept.push(c);
            }
            j += 1;
        }
        proof {
            assert(region.connections@.subrange(0, j as int) =~= region.connections@);
        }
        region.connections = kept;
        Ok(ids)
    }
}

} // verus!
