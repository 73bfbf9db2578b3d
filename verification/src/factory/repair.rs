//! Repairing a broken pre-placed building: its costs are paid from the
//! bag, then a node of the building's template is added where the scene
//! already shows it.
use vstd::prelude::*;

use super::bag::{bag_changed, bag_ready, paid_all, paid_until_short, pay_costs, region_bag, scaled_costs};
use super::component::bag_view;
use super::manager::{FactoryManager, same_but_regions};
use super::node::{FactoryNode, InteractiveObject, NodeTransform};
use super::ops::node_type_from_i32;
use super::region::FactoryRegion;
use super::table::{BuildingEntry, FactoryTable, RepairEntry};
use crate::enums::{FCDirection, FCNodeType, node_type_of_code};
use crate::strmap::StrMap;

verus! {

/// Node `n` is the repaired building `b` of entry `e`, under id `id`:
/// no grid position or mesh, facing up, in the entry's level, with the
/// building's first belt ports, active, bound to an interactive object
/// of its id, with no properties or components yet.
pub open spec fn repaired_node(n: FactoryNode, id: u32, nt: FCNodeType, b: BuildingEntry, e: RepairEntry) -> bool {
    &&& n.node_id == id
    &&& n.node_type == nt
    &&& n.template_id@ == e.building_id@
    &&& n.transform.position is None
    &&& n.transform.direction == FCDirection::Up
    &&& n.transform.mesh is None
    &&& n.transform.scene_name@ == e.level_id@
    &&& n.transform.world_position is None
    &&& n.transform.world_rotation is None
    &&& n.transform.bc_port_in == (if b.input_ports@.len() > 0 { Some(b.input_ports@[0]) } else { None })
    &&& n.transform.bc_port_out == (if b.output_ports@.len() > 0 { Some(b.output_ports@[0]) } else { None })
    &&& !n.is_deactive
    &&& n.interactive_object == Some(InteractiveObject { object_id: id })
    &&& n.dynamic_property@.len() == 0
    &&& n.component_pos@.len() == 0
    &&& n.components@.len() == 0
}

/// `new` is `mid` with the repaired building added to region `name`.
pub open spec fn building_added(mid: FactoryManager, new: FactoryManager, table: FactoryTable, e: RepairEntry, name: Seq<char>, r: Option<u32>) -> bool {
    let b = table.buildings@[e.building_id@];
    let nt = node_type_of_code(b.building_type)->0;
    let g0 = mid.regions@[name];
    let g1 = new.regions@[name];
    let id = g0.next_node_id;
    &&& r == Some(id)
    &&& same_but_regions(mid, new)
    &&& new.regions@ == mid.regions@.insert(name, g1)
    &&& g1.next_node_id == id + 1
    &&& g1.nodes@ == g0.nodes@.insert(id, g1.nodes@[id])
    &&& repaired_node(g1.nodes@[id], id, nt, b, e)
    &&& g1.name == g0.name
    &&& g1.region_id == g0.region_id
    &&& g1.scene_name == g0.scene_name
    &&& g1.level == g0.level
    &&& g1.blackboard == g0.blackboard
    &&& g1.connections == g0.connections
    &&& g1.production_totals == g0.production_totals
}

/// The repair settles from `mid`, the state after paying in order:
/// refused there when a cost fell short, or when all were paid but the
/// building or its type is unknown; else the building is added.
pub open spec fn repair_settled(
    old: FactoryManager,
    mid: FactoryManager,
    new: FactoryManager,
    table: FactoryTable,
    e: RepairEntry,
    name: Seq<char>,
    r: Option<u32>,
) -> bool {
    let costs = scaled_costs(e.cost_items@, 1);
    let b0 = region_bag(old, name);
    let b1 = region_bag(mid, name);
    let known = table.buildings@.contains_key(e.building_id@) && node_type_of_code(
        table.buildings@[e.building_id@].building_type,
    ) is Some;
    &&& bag_changed(old, mid, name, bag_view(b1))
    &&& r is None ==> new == mid && (paid_until_short(b0, b1, costs) || (paid_all(b0, b1, costs) && !known))
    &&& r is Some ==> paid_all(b0, b1, costs) && known && building_added(mid, new, table, e, name, r)
}

impl FactoryManager {
    /// Repairs building `repair_id` in region `region_name`: refused,
    /// changing nothing, for an unknown repair or without a bag; else the
    /// costs are paid in order and the building added (see
    /// `repair_settled`).
    pub fn repair_building(&mut self, repairs: &StrMap<RepairEntry>, table: &FactoryTable, region_name: &str, repair_id: &str) -> (r: Option<u32>)
        requires
            old(self).regions@.contains_key(region_name@) ==> old(self).regions@[region_name@].next_node_id < u32::MAX,
        ensures
            !(repairs@.contains_key(repair_id@) && bag_ready(*old(self), region_name@)) ==> r is None && *final(self) == *old(self),
            repairs@.contains_key(repair_id@) && bag_ready(*old(self), region_name@) ==> exists|mid: FactoryManager|
                #[trigger] repair_settled(*old(self), mid, *final(self), *table, repairs@[repair_id@], region_name@, r),
    {
        let entry = match repairs.get(repair_id) {
            Some(e) => e,
            None => return None,
        };
        let ghost m0 = *self;
        let paid = match self.region_bag_mut(region_name) {
            Some(bag) => pay_costs(bag, &entry.cost_items, 1),
            None => return None,
        };
        let ghost m1 = *self;
        if !paid {
            proof {
                assert(repair_settled(m0, m1, *self, *table, *entry, region_name@, None));
            }
            return None;
        }
        let building = match table.buildings.get(entry.building_id.as_str()) {
            Some(b) => b,
            None => {
                proof {
                    assert(repair_settled(m0, m1, *self, *table, *entry, region_name@, None));
                }
                return None;
            },
        };
        let nt = match node_type_from_i32(building.building_type) {
            Some(t) => t,
            None => {
                proof {
                    assert(repair_settled(m0, m1, *self, *table, *entry, region_name@, None));
                }
                return None;
            },
        };
        let region = self.region_mut(region_name).unwrap();
        let node_id = region.allocate_node_id();
        let port_in = if building.input_ports.len() > 0 {
            Some(building.input_ports[0])
        } else {
            None
        };
        let port_out = if building.output_ports.len() > 0 {
            Some(building.output_ports[0])
        } else {
            None
        };
        let node = FactoryNode {
            node_id,
            node_type: nt,
            template_id: entry.building_id.clone(),
            transform: NodeTransform {
                position: None,
                direction: FCDirection::Up,
                mesh: None,
                scene_name: entry.level_id.clone(),
                world_position: None,
                world_rotation: None,
                bc_port_in: port_in,
                bc_port_out: port_out,
            },
            is_deactive: false,
            interactive_object: Some(InteractiveObject { object_id: node_id }),
            dynamic_property: Vec::new(),
            component_pos: Vec::new(),
            components: Vec::new(),
        };
        region.nodes.insert(node_id, node);
        proof {
            assert(repair_settled(m0, m1, *self, *table, *entry, region_name@, Some(node_id)));
        }
        Some(node_id)
    }
}

} // verus!
