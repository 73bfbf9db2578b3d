//! Placing, moving and dismantling buildings and conveyor belts.
use vstd::prelude::*;

use super::component::{BoxConveyorState, FactoryComponent, bag_view};
use super::component_factory::{BuiltComponents, built_ok, create_components_from_template};
use super::grid::{range_within, ranges_overlap, spec_range_within, spec_ranges_overlap};
use super::manager::{FactoryManager, rect_corners};
use super::moves::{bag_of, inv_error, inv_updated};
use super::node::{FactoryNode, InteractiveObject, Mesh, NodeTransform, SubPort};
use super::ops::{
    ConveyorError, DismantleError, GridBoxError, MoveNodeError, PlaceError, direction_from_i32,
    holds_kind, links_changed, node_type_from_i32, rect_mesh_points, region_changed,
    spec_direction_from_i32, unchanged,
};
use super::power::{is_recomputed, recompute_blackboard};
use super::region::{FactoryConnection, FactoryRegion};
use super::slots::{SlotView, grant_fits, grant_to_bag, granted};
use super::table::{BuildingEntry, FactoryTable, RegionMaps};
use super::tick::Tick;
use super::{GridPos, GridRange};
use crate::enums::{FCComponentType, FCDirection, FCMeshType, FCNodeType, node_type_of_code};

verus! {

broadcast use vstd::std_specs::hash::group_hash_axioms;

/// The footprint of a building of `entry` placed at `pos`.
pub open spec fn footprint(pos: GridPos, entry: BuildingEntry) -> GridRange {
    GridRange { x: pos.x, y: pos.y, w: entry.width, h: entry.height }
}

/// Node `k` stands on the grid with a known building whose footprint
/// overlaps `fp`.
pub open spec fn blocks(nodes: Map<u32, FactoryNode>, table: FactoryTable, k: u32, fp: GridRange) -> bool {
    &&& nodes.contains_key(k)
    &&& nodes[k].transform.position is Some
    &&& table.buildings@.contains_key(nodes[k].template_id@)
    &&& spec_ranges_overlap(
        fp,
        footprint(nodes[k].transform.position->0, table.buildings@[nodes[k].template_id@]),
    )
}

/// Node `k` blocks `fp` and is not the node with id `skip`.
pub open spec fn blocks_other(nodes: Map<u32, FactoryNode>, table: FactoryTable, k: u32, fp: GridRange, skip: Option<u32>) -> bool {
    blocks(nodes, table, k, fp) && match skip {
        Some(id) => nodes[k].node_id != id,
        None => true,
    }
}

/// The first port of a port list, if any.
pub open spec fn first_port(ports: Seq<SubPort>) -> Option<SubPort> {
    if ports.len() > 0 {
        Some(ports[0])
    } else {
        None
    }
}

/// `n` is the node placed with id `nid` for template `template_id` of
/// `table` at `pos`, facing `dir`, in scene `scene`: active, clickable
/// through interactive object `nid`, with the building's fresh components
/// and belt ports.
pub open spec fn is_placed_node(
    n: FactoryNode,
    nid: u32,
    table: FactoryTable,
    template_id: Seq<char>,
    pos: GridPos,
    dir: i32,
    scene: Seq<char>,
) -> bool {
    let entry = table.buildings@[template_id];
    let nt = node_type_of_code(entry.building_type)->0;
    &&& n.node_id == nid
    &&& n.node_type == nt
    &&& n.template_id@ == template_id
    &&& n.transform.position == Some(pos)
    &&& n.transform.direction == spec_direction_from_i32(dir)
    &&& n.transform.mesh matches Some(m) && m.mesh_type == FCMeshType::Rect && m.points@ == rect_corners(
        footprint(pos, entry),
    )
    &&& n.transform.scene_name@ == scene
    &&& n.transform.world_position is None
    &&& n.transform.world_rotation is None
    &&& n.transform.bc_port_in == first_port(entry.input_ports@)
    &&& n.transform.bc_port_out == first_port(entry.output_ports@)
    &&& !n.is_deactive
    &&& n.interactive_object == Some(InteractiveObject { object_id: nid })
    &&& n.dynamic_property@.len() == 0
    &&& built_ok(
        BuiltComponents { components: n.components, component_pos: n.component_pos },
        nt,
        entry.power_consume,
        table.spec_hub_power(template_id),
        table.spec_station_power(template_id),
    )
}

/// `mid` is `old` with node `nid` added (or replaced) and the id counter
/// advanced; nothing else changed.
pub open spec fn node_added(old: FactoryRegion, mid: FactoryRegion, nid: u32) -> bool {
    &&& mid.nodes@.contains_key(nid)
    &&& mid.nodes@ == old.nodes@.insert(nid, mid.nodes@[nid])
    &&& mid.next_node_id == old.next_node_id + 1
    &&& mid.connections == old.connections
    &&& mid.blackboard == old.blackboard
    &&& mid.name == old.name
    &&& mid.region_id == old.region_id
    &&& mid.scene_name == old.scene_name
    &&& mid.level == old.level
    &&& mid.production_totals == old.production_totals
}

/// Outcome of `place` on a present region with a known, typed building.
pub open spec fn place_outcome(
    old: FactoryRegion,
    new: FactoryRegion,
    table: FactoryTable,
    maps: RegionMaps,
    template_id: Seq<char>,
    pos: GridPos,
    dir: i32,
    r: Result<u32, PlaceError>,
) -> bool {
    let fp = footprint(pos, table.buildings@[template_id]);
    let area = maps.spec_area(old.scene_name@, old.level);
    match r {
        Err(PlaceError::OutOfBounds) => (area is None || !spec_range_within(fp, area->0)) && new == old,
        Err(PlaceError::Overlaps(id)) => area is Some && spec_range_within(fp, area->0) && exists|k: u32|
            #[trigger] blocks(old.nodes@, table, k, fp) && old.nodes@[k].node_id == id && new == old,
        Ok(nid) => {
            &&& area is Some
            &&& spec_range_within(fp, area->0)
            &&& forall|k: u32| !#[trigger] blocks(old.nodes@, table, k, fp)
            &&& nid == old.next_node_id
            &&& exists|mid: FactoryRegion, now: Tick|
                #[trigger] is_recomputed(mid, new, now) && node_added(old, mid, nid) && is_placed_node(
                    mid.nodes@[nid],
                    nid,
                    table,
                    template_id,
                    pos,
                    dir,
                    old.scene_name@,
                )
        },
        _ => false,
    }
}

impl FactoryRegion {
    /// Some node other than id `skip` blocking `fp`, in the node map's
    /// iteration order.
    fn find_blocker(&self, table: &FactoryTable, fp: GridRange, skip: Option<u32>) -> (r: Option<u32>)
        ensures
            match r {
                Some(k) => blocks_other(self.nodes@, *table, k, fp, skip),
                None => forall|k: u32| !#[trigger] blocks_other(self.nodes@, *table, k, fp, skip),
            },
    {
        let keys = crate::util::map_keys(&self.nodes);
        let mut i: usize = 0;
        while i < keys.len()
            invariant
                0 <= i <= keys.len(),
                keys@.to_set() == self.nodes@.dom(),
                forall|j: int| 0 <= j < i ==> !blocks_other(self.nodes@, *table, #[trigger] keys@[j], fp, skip),
            decreases keys.len() - i,
        {
            let k = keys[i];
            proof {
                assert(keys@.to_set().contains(k));
            }
            let other = self.nodes.get(&k).unwrap();
            let skipped = match skip {
                Some(id) => other.node_id == id,
                None => false,
            };
            if !skipped {
                match other.transform.position {
                    Some(p) => match table.buildings.get(other.template_id.as_str()) {
                        Some(b) => {
                            let other_fp = GridRange { x: p.x, y: p.y, w: b.width, h: b.height };
                            if ranges_overlap(fp, other_fp) {
                                return Some(k);
                            }
                        },
                        None => {},
                    },
                    None => {},
                }
            }
            i += 1;
        }
        proof {
            assert forall|k: u32| !#[trigger] blocks_other(self.nodes@, *table, k, fp, skip) by {
                if self.nodes@.contains_key(k) {
                    assert(keys@.to_set().contains(k));
                    let j = choose|j: int| 0 <= j < keys@.len() && keys@[j] == k;
                    assert(!blocks_other(self.nodes@, *table, keys@[j], fp, skip));
                }
            }
        }
        None
    }
}

/// Clones the first port of a list, if any.
fn first_port_of(ports: &Vec<SubPort>) -> (r: Option<SubPort>)
    ensures
        r == first_port(ports@),
{
    if ports.len() > 0 {
        Some(ports[0])
    } else {
        None
    }
}

impl FactoryManager {
    /// Places a building of `template_id` at `position` facing `direction`:
    /// the building must be known and typed, the region present, the
    /// footprint inside the region's buildable area and clear of every
    /// other building. The new node takes the next node id, then the power
    /// network is recomputed. Returns the new node's id.
    pub fn place(
        &mut self,
        table: &FactoryTable,
        maps: &RegionMaps,
        region_name: &str,
        template_id: &str,
        position: GridPos,
        direction: i32,
    ) -> (r: Result<u32, PlaceError>)
        requires
            table.buildings@.contains_key(template_id@) ==> position.x + table.buildings@[template_id@].width
                <= i32::MAX && position.y + table.buildings@[template_id@].height <= i32::MAX
                && table.buildings@[template_id@].width <= i32::MAX && table.buildings@[template_id@].height
                <= i32::MAX,
            old(self).regions@.contains_key(region_name@) ==> old(self).regions@[region_name@].next_node_id < u32::MAX,
        ensures
            !table.buildings@.contains_key(template_id@) ==> r == Err::<u32, PlaceError>(PlaceError::NoBuildingEntry)
                && unchanged(*old(self), *final(self)),
            table.buildings@.contains_key(template_id@) && node_type_of_code(
                table.buildings@[template_id@].building_type,
            ) is None ==> r == Err::<u32, PlaceError>(PlaceError::InvalidNodeType) && unchanged(
                *old(self),
                *final(self),
            ),
            table.buildings@.contains_key(template_id@) && node_type_of_code(
                table.buildings@[template_id@].building_type,
            ) is Some && !old(self).regions@.contains_key(region_name@) ==> r == Err::<u32, PlaceError>(
                PlaceError::RegionNotFound,
            ) && unchanged(*old(self), *final(self)),
            table.buildings@.contains_key(template_id@) && node_type_of_code(
                table.buildings@[template_id@].building_type,
            ) is Some && old(self).regions@.contains_key(region_name@) ==> region_changed(
                *old(self),
                *final(self),
                region_name@,
            ) && place_outcome(
                old(self).regions@[region_name@],
                final(self).regions@[region_name@],
                *table,
                *maps,
                template_id@,
                position,
                direction,
                r,
            ),
    {
        let building = match table.buildings.get(template_id) {
            Some(b) => b,
            None => return Err(PlaceError::NoBuildingEntry),
        };
        let node_type = match node_type_from_i32(building.building_type) {
            Some(t) => t,
            None => return Err(PlaceError::InvalidNodeType),
        };
        let fp = GridRange { x: position.x, y: position.y, w: building.width, h: building.height };
        let region = match self.region_mut(region_name) {
            Some(g) => g,
            None => return Err(PlaceError::RegionNotFound),
        };
        let ghost r0 = *region;
        let area = match maps.area(region.scene_name.as_str(), region.level) {
            Some(a) => a,
            None => return Err(PlaceError::OutOfBounds),
        };
        if !range_within(fp, area) {
            return Err(PlaceError::OutOfBounds);
        }
        match region.find_blocker(table, fp, None) {
            Some(k) => {
                let id = region.nodes.get(&k).unwrap().node_id;
                return Err(PlaceError::Overlaps(id));
            },
            None => {},
        }
        proof {
            assert forall|k: u32| !#[trigger] blocks(r0.nodes@, *table, k, fp) by {
                assert(!blocks_other(r0.nodes@, *table, k, fp, None));
            }
        }
        let built = match create_components_from_template(template_id, table) {
            Some(b) => b,
            None => return Err(PlaceError::NoComponentLayout),
        };
        let bc_port_in = first_port_of(&building.input_ports);
        let bc_port_out = first_port_of(&building.output_ports);
        let node_id = region.allocate_node_id();
        let points = rect_mesh_points(fp);
        let node = FactoryNode {
            node_id,
            node_type,
            template_id: template_id.to_owned(),
            transform: NodeTransform {
                position: Some(position),
                direction: direction_from_i32(direction),
                mesh: Some(Mesh { mesh_type: FCMeshType::Rect, points }),
                scene_name: region.scene_name.clone(),
                world_position: None,
                world_rotation: None,
                bc_port_in,
                bc_port_out,
            },
            is_deactive: false,
            interactive_object: Some(InteractiveObject { object_id: node_id }),
            dynamic_property: Vec::new(),
            component_pos: built.component_pos,
            components: built.components,
        };
        region.nodes.insert(node_id, node);
        let ghost mid = *region;
        proof {
            assert(node_added(r0, mid, node_id));
            assert(is_placed_node(mid.nodes@[node_id], node_id, *table, template_id@, position, direction, r0.scene_name@));
        }
        recompute_blackboard(region);
        Ok(node_id)
    }
}

/// `new` is `old` with node `nid` moved to `pos` facing `dir`, its mesh
/// the rect of footprint `fp`; nothing else changed.
pub open spec fn node_moved(old: FactoryRegion, new: FactoryRegion, nid: u32, pos: GridPos, dir: i32, fp: GridRange) -> bool {
    let o = old.nodes@[nid];
    let n = new.nodes@[nid];
    &&& new.nodes@.contains_key(nid)
    &&& new.nodes@ == old.nodes@.insert(nid, n)
    &&& n.transform.position == Some(pos)
    &&& n.transform.direction == spec_direction_from_i32(dir)
    &&& n.transform.mesh matches Some(m) && m.mesh_type == FCMeshType::Rect && m.points@ == rect_corners(fp)
    &&& n.transform.scene_name == o.transform.scene_name
    &&& n.transform.world_position == o.transform.world_position
    &&& n.transform.world_rotation == o.transform.world_rotation
    &&& n.transform.bc_port_in == o.transform.bc_port_in
    &&& n.transform.bc_port_out == o.transform.bc_port_out
    &&& n.node_id == o.node_id
    &&& n.node_type == o.node_type
    &&& n.template_id == o.template_id
    &&& n.is_deactive == o.is_deactive
    &&& n.interactive_object == o.interactive_object
    &&& n.dynamic_property == o.dynamic_property
    &&& n.component_pos == o.component_pos
    &&& n.components == o.components
    &&& new.next_node_id == old.next_node_id
    &&& new.connections == old.connections
    &&& new.blackboard == old.blackboard
    &&& new.name == old.name
    &&& new.region_id == old.region_id
    &&& new.scene_name == old.scene_name
    &&& new.level == old.level
    &&& new.production_totals == old.production_totals
}

/// Outcome of `move_node` on a present region.
pub open spec fn move_outcome(
    old: FactoryRegion,
    new: FactoryRegion,
    table: FactoryTable,
    maps: RegionMaps,
    nid: u32,
    pos: GridPos,
    dir: i32,
    r: Result<(), MoveNodeError>,
) -> bool {
    let node = old.nodes@[nid];
    let fp = footprint(pos, table.buildings@[node.template_id@]);
    let area = maps.spec_area(old.scene_name@, old.level);
    if !old.nodes@.contains_key(nid) {
        r == Err::<(), MoveNodeError>(MoveNodeError::NodeNotFound) && new == old
    } else if node.transform.position is None {
        r == Err::<(), MoveNodeError>(MoveNodeError::NoGridPosition) && new == old
    } else if !table.buildings@.contains_key(node.template_id@) {
        r == Err::<(), MoveNodeError>(MoveNodeError::NoBuildingEntry) && new == old
    } else if area is None || !spec_range_within(fp, area->0) {
        r == Err::<(), MoveNodeError>(MoveNodeError::OutOfBounds) && new == old
    } else {
        match r {
            Err(MoveNodeError::Overlaps(id)) => exists|k: u32|
                #[trigger] blocks_other(old.nodes@, table, k, fp, Some(nid)) && old.nodes@[k].node_id == id && new == old,
            Ok(()) => (forall|k: u32| !#[trigger] blocks_other(old.nodes@, table, k, fp, Some(nid))) && node_moved(
                old,
                new,
                nid,
                pos,
                dir,
                fp,
            ),
            _ => false,
        }
    }
}

impl FactoryManager {
    /// Moves node `node_id` to `position` facing `direction`: the node must
    /// stand on the grid with a known building, and its new footprint must
    /// lie inside the buildable area and clear of every other building
    /// (other than one whose id is `node_id`).
    pub fn move_node(
        &mut self,
        table: &FactoryTable,
        maps: &RegionMaps,
        region_name: &str,
        node_id: u32,
        position: GridPos,
        direction: i32,
    ) -> (r: Result<(), MoveNodeError>)
        requires
            old(self).regions@.contains_key(region_name@) && old(self).regions@[region_name@].nodes@.contains_key(node_id)
                && table.buildings@.contains_key(old(self).regions@[region_name@].nodes@[node_id].template_id@) ==> ({
                let e = table.buildings@[old(self).regions@[region_name@].nodes@[node_id].template_id@];
                position.x + e.width <= i32::MAX && position.y + e.height <= i32::MAX && e.width <= i32::MAX
                    && e.height <= i32::MAX
            }),
        ensures
            !old(self).regions@.contains_key(region_name@) ==> r == Err::<(), MoveNodeError>(MoveNodeError::RegionNotFound)
                && unchanged(*old(self), *final(self)),
            old(self).regions@.contains_key(region_name@) ==> region_changed(*old(self), *final(self), region_name@)
                && move_outcome(
                old(self).regions@[region_name@],
                final(self).regions@[region_name@],
                *table,
                *maps,
                node_id,
                position,
                direction,
                r,
            ),
    {
        let region = match self.region_mut(region_name) {
            Some(g) => g,
            None => return Err(MoveNodeError::RegionNotFound),
        };
        let ghost r0 = *region;
        let fp = match region.nodes.get(&node_id) {
            None => return Err(MoveNodeError::NodeNotFound),
            Some(node) => {
                if node.transform.position.is_none() {
                    return Err(MoveNodeError::NoGridPosition);
                }
                match table.buildings.get(node.template_id.as_str()) {
                    Some(b) => GridRange { x: position.x, y: position.y, w: b.width, h: b.height },
                    None => return Err(MoveNodeError::NoBuildingEntry),
                }
            },
        };
        let area = match maps.area(region.scene_name.as_str(), region.level) {
            Some(a) => a,
            None => return Err(MoveNodeError::OutOfBounds),
        };
        if !range_within(fp, area) {
            return Err(MoveNodeError::OutOfBounds);
        }
        match region.find_blocker(table, fp, Some(node_id)) {
            Some(k) => {
                let id = region.nodes.get(&k).unwrap().node_id;
                return Err(MoveNodeError::Overlaps(id));
            },
            None => {},
        }
        let points = rect_mesh_points(fp);
        let node = region.node_mut(node_id).unwrap();
        node.transform.position = Some(position);
        node.transform.direction = direction_from_i32(direction);
        node.transform.mesh = Some(Mesh { mesh_type: FCMeshType::Rect, points });
        Ok(())
    }
}

/// Region `mid` is `m1` with the building's item `item` given back to the
/// bag as a grant of one (see `granted`).
pub open spec fn refunded(m1: FactoryRegion, mid: FactoryRegion, item: Seq<char>) -> bool {
    exists|b: Map<u32, SlotView>| #[trigger] granted(bag_view(bag_of(m1)), b, item, 1) && inv_updated(m1, mid, 1, 1, b)
}

/// `mid` is `old` without node `nid` and the links touching it.
pub open spec fn node_removed(old: FactoryRegion, mid: FactoryRegion, nid: u32) -> bool {
    &&& mid.nodes@ == old.nodes@.remove(nid)
    &&& mid.connections@ == old.connections@.filter(
        |c: FactoryConnection| c.node_id_a != nid && c.node_id_b != nid,
    )
    &&& mid.next_node_id == old.next_node_id
    &&& mid.blackboard == old.blackboard
    &&& mid.name == old.name
    &&& mid.region_id == old.region_id
    &&& mid.scene_name == old.scene_name
    &&& mid.level == old.level
    &&& mid.production_totals == old.production_totals
}

/// Outcome of `dismantle` on a present region.
pub open spec fn dismantle_outcome(old: FactoryRegion, new: FactoryRegion, table: FactoryTable, nid: u32, r: Result<String, DismantleError>) -> bool {
    if !old.nodes@.contains_key(nid) {
        r == Err::<String, DismantleError>(DismantleError::NodeNotFound) && new == old
    } else if old.nodes@[nid].node_id <= 2 {
        r == Err::<String, DismantleError>(DismantleError::ReservedNode) && new == old
    } else {
        let t = old.nodes@[nid].template_id@;
        r matches Ok(s) && s@ == t && exists|m1: FactoryRegion, mid: FactoryRegion, now: Tick|
            #[trigger] node_removed(old, m1, nid) && #[trigger] is_recomputed(mid, new, now) && if table.building_items@.contains_key(t)
                && inv_error(m1, 1, 1, GridBoxError::InventoryNodeMissing) is None {
                refunded(m1, mid, table.building_items@[t]@)
            } else {
                mid == m1
            }
    }
}

impl FactoryManager {
    /// Dismantles node `node_id` (nodes 1 and 2 are reserved): removes it
    /// and its links, returns its building's item to the bag (see
    /// `refunded`), recomputes the power network and returns the template.
    pub fn dismantle(&mut self, table: &FactoryTable, region_name: &str, node_id: u32) -> (r: Result<String, DismantleError>)
        requires
            old(self).regions@.contains_key(region_name@) && node_id != 1 ==> ({
                let reg = old(self).regions@[region_name@];
                reg.nodes@.contains_key(node_id) && table.building_items@.contains_key(reg.nodes@[node_id].template_id@)
                    ==> grant_fits(bag_view(bag_of(reg)), table.building_items@[reg.nodes@[node_id].template_id@]@, 1)
            }),
        ensures
            !old(self).regions@.contains_key(region_name@) ==> r == Err::<String, DismantleError>(DismantleError::RegionNotFound)
                && unchanged(*old(self), *final(self)),
            old(self).regions@.contains_key(region_name@) ==> region_changed(*old(self), *final(self), region_name@)
                && dismantle_outcome(old(self).regions@[region_name@], final(self).regions@[region_name@], *table, node_id, r),
    {
        let region = match self.region_mut(region_name) {
            Some(g) => g,
            None => return Err(DismantleError::RegionNotFound),
        };
        let ghost r0 = *region;
        let template_id = match region.nodes.get(&node_id) {
            None => return Err(DismantleError::NodeNotFound),
            Some(n) => {
                if n.node_id <= 2 {
                    return Err(DismantleError::ReservedNode);
                }
                n.template_id.clone()
            },
        };
        region.nodes.remove(&node_id);
        let ghost pred = |c: FactoryConnection| c.node_id_a != node_id && c.node_id_b != node_id;
        let mut kept: Vec<FactoryConnection> = Vec::new();
        let mut j: usize = 0;
        while j < region.connections.len()
            invariant
                0 <= j <= region.connections@.len(),
                region.connections == r0.connections,
                pred == (|c: FactoryConnection| c.node_id_a != node_id && c.node_id_b != node_id),
                kept@ == region.connections@.subrange(0, j as int).filter(pred),
            decreases region.connections@.len() - j,
        {
            proof {
                reveal(Seq::filter);
                assert(region.connections@.subrange(0, j as int + 1).drop_last() =~= region.connections@.subrange(0, j as int));
            }
            let c = region.connections[j];
            if c.node_id_a != node_id && c.node_id_b != node_id {
                kept.push(c);
            }
            j += 1;
        }
        proof {
            assert(region.connections@.subrange(0, j as int) =~= region.connections@);
        }
        region.connections = kept;
        let ghost m1 = *region;
        proof {
            assert(node_removed(r0, m1, node_id));
            if node_id != 1 {
                assert(region.nodes@[1] == r0.nodes@[1]);
            }
        }
        match table.building_items.get(template_id.as_str()) {
            Some(item_id) => {
                if region.inv_check_pub(1, 1) {
                    let bag = region.bag_mut().unwrap();
                    grant_to_bag(bag, item_id.as_str(), 1);
                }
            },
            None => {},
        }
        recompute_blackboard(region);
        Ok(template_id)
    }
}

/// The one-cell footprint of a belt tile.
pub open spec fn tile(p: GridPos) -> GridRange {
    GridRange { x: p.x, y: p.y, w: 1, h: 1 }
}

/// Tile `p` lies in `area` and no building blocks it.
pub open spec fn tile_free(nodes: Map<u32, FactoryNode>, table: FactoryTable, area: GridRange, p: GridPos) -> bool {
    spec_range_within(tile(p), area) && forall|k: u32| !#[trigger] blocks(nodes, table, k, tile(p))
}

/// `n` is the belt node `nid` on tile `p` of template `template_id`,
/// carrying nothing and pointing its output in `dir`.
pub open spec fn is_belt_node(n: FactoryNode, nid: u32, template_id: Seq<char>, p: GridPos, dir: i32, scene: Seq<char>) -> bool {
    &&& n.node_id == nid
    &&& n.node_type == FCNodeType::BoxConveyor
    &&& n.template_id@ == template_id
    &&& n.transform.position == Some(p)
    &&& n.transform.direction == FCDirection::Up
    &&& n.transform.mesh matches Some(m) && m.mesh_type == FCMeshType::Rect && m.points@ == rect_corners(tile(p))
    &&& n.transform.scene_name@ == scene
    &&& n.transform.world_position is None
    &&& n.transform.world_rotation is None
    &&& n.transform.bc_port_in is None
    &&& n.transform.bc_port_out is None
    &&& !n.is_deactive
    &&& n.interactive_object == Some(InteractiveObject { object_id: nid })
    &&& n.dynamic_property@.len() == 0
    &&& n.component_pos@.len() == 0
    &&& n.components@.len() == 1
    &&& n.components@[0].0 == 1
    &&& n.components@[0].1 matches FactoryComponent::BoxConveyor(b) && b.items@.len() == 0 && b.direction == dir
}

/// Outcome of `place_box_conveyor` on a present region with a known
/// belt template and at least one tile.
pub open spec fn belts_outcome(
    old: FactoryRegion,
    new: FactoryRegion,
    table: FactoryTable,
    maps: RegionMaps,
    template_id: Seq<char>,
    dir: i32,
    points: Seq<GridPos>,
    r: Result<Vec<u32>, ConveyorError>,
) -> bool {
    let area = maps.spec_area(old.scene_name@, old.level);
    match r {
        Err(ConveyorError::OutOfBounds) => (area is None || exists|i: int|
            0 <= i < points.len() && (forall|j: int| 0 <= j < i ==> tile_free(old.nodes@, table, area->0, #[trigger] points[j]))
                && !spec_range_within(tile(#[trigger] points[i]), area->0)) && new == old,
        Err(ConveyorError::Overlaps(id)) => area is Some && (exists|i: int, k: u32|
            0 <= i < points.len() && (forall|j: int| 0 <= j < i ==> tile_free(old.nodes@, table, area->0, #[trigger] points[j]))
                && spec_range_within(tile(points[i]), area->0) && #[trigger] blocks(old.nodes@, table, k, tile(points[i]))
                && old.nodes@[k].node_id == id) && new == old,
        Ok(ids) => {
            &&& area is Some
            &&& forall|j: int| 0 <= j < points.len() ==> tile_free(old.nodes@, table, area->0, #[trigger] points[j])
            &&& ids@.len() == points.len()
            &&& forall|j: int| 0 <= j < points.len() ==> #[trigger] ids@[j] == old.next_node_id + j
            &&& new.next_node_id == old.next_node_id + points.len()
            &&& forall|j: int|
                0 <= j < points.len() ==> new.nodes@.contains_key(#[trigger] ids@[j]) && is_belt_node(
                    new.nodes@[ids@[j]],
                    ids@[j],
                    template_id,
                    points[j],
                    dir,
                    old.scene_name@,
                )
            &&& new.nodes@.dom() == old.nodes@.dom() + ids@.to_set()
            &&& forall|k: u32| #[trigger] old.nodes@.contains_key(k) && !ids@.contains(k) ==> new.nodes@[k] == old.nodes@[k]
            &&& new.connections == old.connections
            &&& new.blackboard == old.blackboard
            &&& new.name == old.name
            &&& new.region_id == old.region_id
            &&& new.scene_name == old.scene_name
            &&& new.level == old.level
            &&& new.production_totals == old.production_totals
        },
        _ => false,
    }
}

/// Outcome of checking belt tiles in order against `area` and the
/// existing buildings.
pub open spec fn tiles_checked(nodes: Map<u32, FactoryNode>, table: FactoryTable, area: GridRange, points: Seq<GridPos>, r: Result<(), ConveyorError>) -> bool {
    match r {
        Ok(()) => forall|j: int| 0 <= j < points.len() ==> tile_free(nodes, table, area, #[trigger] points[j]),
        Err(ConveyorError::OutOfBounds) => exists|i: int|
            0 <= i < points.len() && (forall|j: int| 0 <= j < i ==> tile_free(nodes, table, area, #[trigger] points[j]))
                && !spec_range_within(tile(#[trigger] points[i]), area),
        Err(ConveyorError::Overlaps(id)) => exists|i: int, k: u32|
            0 <= i < points.len() && (forall|j: int| 0 <= j < i ==> tile_free(nodes, table, area, #[trigger] points[j]))
                && spec_range_within(tile(points[i]), area) && #[trigger] blocks(nodes, table, k, tile(points[i]))
                && nodes[k].node_id == id,
        _ => false,
    }
}

impl FactoryRegion {
    /// Checks belt tiles in order; the first one outside `area` or on an
    /// existing building decides the error.
    fn check_tiles(&self, table: &FactoryTable, area: GridRange, points: &[GridPos]) -> (r: Result<(), ConveyorError>)
        ensures
            tiles_checked(self.nodes@, *table, area, points@, r),
    {
        let mut i: usize = 0;
        while i < points.len()
            invariant
                0 <= i <= points@.len(),
                forall|j: int| 0 <= j < i ==> tile_free(self.nodes@, *table, area, #[trigger] points@[j]),
            decreases points@.len() - i,
        {
            let p = points[i];
            let t = GridRange { x: p.x, y: p.y, w: 1, h: 1 };
            if !range_within(t, area) {
                proof {
                    assert(!spec_range_within(tile(points@[i as int]), area));
                }
                return Err(ConveyorError::OutOfBounds);
            }
            match self.find_blocker(table, t, None) {
                Some(k) => {
                    let id = self.nodes.get(&k).unwrap().node_id;
                    proof {
                        assert(blocks(self.nodes@, *table, k, tile(points@[i as int])));
                    }
                    return Err(ConveyorError::Overlaps(id));
                },
                None => {},
            }
            proof {
                assert forall|k: u32| !#[trigger] blocks(self.nodes@, *table, k, tile(p)) by {
                    assert(!blocks_other(self.nodes@, *table, k, t, None));
                }
                assert(tile_free(self.nodes@, *table, area, points@[i as int]));
            }
            i += 1;
        }
        Ok(())
    }
}

impl FactoryManager {
    /// Lays conveyor belt tiles of `template_id` on `points`, each output
    /// pointing in `direction_out`: every tile must lie in the buildable
    /// area and be clear of the existing buildings (tiles are checked in
    /// order; the first failing one decides the error). The belts take
    /// consecutive node ids, which are returned in tile order.
    pub fn place_box_conveyor(
        &mut self,
        table: &FactoryTable,
        maps: &RegionMaps,
        region_name: &str,
        template_id: &str,
        direction_out: i32,
        points: &[GridPos],
    ) -> (r: Result<Vec<u32>, ConveyorError>)
        requires
            old(self).regions@.contains_key(region_name@) ==> old(self).regions@[region_name@].next_node_id
                + points@.len() <= u32::MAX,
            forall|j: int| 0 <= j < points@.len() ==> (#[trigger] points@[j]).x < i32::MAX && points@[j].y < i32::MAX,
        ensures
            points@.len() == 0 ==> (r matches Err(ConveyorError::NoFromTo) && unchanged(*old(self), *final(self))),
            points@.len() > 0 && !table.buildings@.contains_key(template_id@) ==> (r matches Err(ConveyorError::NoBuildingEntry)
                && unchanged(*old(self), *final(self))),
            points@.len() > 0 && table.buildings@.contains_key(template_id@) && !old(self).regions@.contains_key(
                region_name@,
            ) ==> (r matches Err(ConveyorError::RegionNotFound) && unchanged(*old(self), *final(self))),
            points@.len() > 0 && table.buildings@.contains_key(template_id@) && old(self).regions@.contains_key(
                region_name@,
            ) ==> region_changed(*old(self), *final(self), region_name@) && belts_outcome(
                old(self).regions@[region_name@],
                final(self).regions@[region_name@],
                *table,
                *maps,
                template_id@,
                direction_out,
                points@,
                r,
            ),
    {
        if points.len() == 0 {
            return Err(ConveyorError::NoFromTo);
        }
        if !table.buildings.contains_key(template_id) {
            return Err(ConveyorError::NoBuildingEntry);
        }
        let region = match self.region_mut(region_name) {
            Some(g) => g,
            None => return Err(ConveyorError::RegionNotFound),
        };
        let ghost r0 = *region;
        let area = match maps.area(region.scene_name.as_str(), region.level) {
            Some(a) => a,
            None => return Err(ConveyorError::OutOfBounds),
        };
        match region.check_tiles(table, area, points) {
            Err(e) => return Err(e),
            Ok(()) => {},
        }
        let scene_name = region.scene_name.clone();
        let mut node_ids: Vec<u32> = Vec::new();
        let mut i: usize = 0;
        while i < points.len()
            invariant
                0 <= i <= points@.len(),
                points@.len() > 0,
                table.buildings@.contains_key(template_id@),
                old(self).regions@.contains_key(region_name@),
                r0.next_node_id + points@.len() <= u32::MAX,
                forall|j: int| 0 <= j < points@.len() ==> (#[trigger] points@[j]).x < i32::MAX && points@[j].y < i32::MAX,
                scene_name@ == r0.scene_name@,
                node_ids@.len() == i,
                forall|j: int| 0 <= j < i ==> #[trigger] node_ids@[j] == r0.next_node_id + j,
                region.next_node_id == r0.next_node_id + i,
                forall|j: int|
                    0 <= j < i ==> region.nodes@.contains_key(#[trigger] node_ids@[j]) && is_belt_node(
                        region.nodes@[node_ids@[j]],
                        node_ids@[j],
                        template_id@,
                        points@[j],
                        direction_out,
                        r0.scene_name@,
                    ),
                region.nodes@.dom() == r0.nodes@.dom() + node_ids@.to_set(),
                forall|k: u32| #[trigger] r0.nodes@.contains_key(k) && !node_ids@.contains(k) ==> region.nodes@[k] == r0.nodes@[k],
                region.connections == r0.connections,
                region.blackboard == r0.blackboard,
                region.name == r0.name,
                region.region_id == r0.region_id,
                region.scene_name == r0.scene_name,
                region.level == r0.level,
                region.production_totals == r0.production_totals,
            decreases points@.len() - i,
        {
            let p = points[i];
            let node_id = region.allocate_node_id();
            let mut comps: Vec<(u32, FactoryComponent)> = Vec::new();
            comps.push((1, FactoryComponent::BoxConveyor(BoxConveyorState { items: Vec::new(), direction: direction_out })));
            let node = FactoryNode {
                node_id,
                node_type: FCNodeType::BoxConveyor,
                template_id: template_id.to_owned(),
                transform: NodeTransform {
                    position: Some(p),
                    direction: FCDirection::Up,
                    mesh: Some(Mesh { mesh_type: FCMeshType::Rect, points: rect_mesh_points(GridRange { x: p.x, y: p.y, w: 1, h: 1 }) }),
                    scene_name: scene_name.clone(),
                    world_position: None,
                    world_rotation: None,
                    bc_port_in: None,
                    bc_port_out: None,
                },
                is_deactive: false,
                interactive_object: Some(InteractiveObject { object_id: node_id }),
                dynamic_property: Vec::new(),
                component_pos: Vec::new(),
                components: comps,
            };
            let ghost before = node_ids@;
            region.nodes.insert(node_id, node);
            node_ids.push(node_id);
            proof {
                before.lemma_push_to_set_commute(node_id);
                assert(!before.contains(node_id)) by {
                    if before.contains(node_id) {
                        let j = choose|j: int| 0 <= j < before.len() && before[j] == node_id;
                        assert(before[j] == r0.next_node_id + j);
                    }
                }
                assert(region.nodes@.dom() =~= r0.nodes@.dom() + node_ids@.to_set());
                assert forall|j: int| 0 <= j < i + 1 implies region.nodes@.contains_key(#[trigger] node_ids@[j]) && is_belt_node(
                    region.nodes@[node_ids@[j]],
                    node_ids@[j],
                    template_id@,
                    points@[j],
                    direction_out,
                    r0.scene_name@,
                ) by {
                    if j < i {
                        assert(node_ids@[j] == before[j]);
                        assert(node_ids@[j] != node_id);
                    }
                }
                assert forall|k: u32| #[trigger] r0.nodes@.contains_key(k) && !node_ids@.contains(k) implies region.nodes@[k] == r0.nodes@[k] by {
                    assert(node_ids@[i as int] == node_id);
                    assert(k != node_id);
                    assert(!before.contains(k)) by {
                        if before.contains(k) {
                            let j = choose|j: int| 0 <= j < before.len() && before[j] == k;
                            assert(node_ids@[j] == k);
                        }
                    }
                }
            }
            i += 1;
        }
        Ok(node_ids)
    }
}

} // verus!
