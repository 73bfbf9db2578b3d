//! Item moves between grid boxes, caches, conveyor belts, the player's bag
//! (inventory node 1, component 1) and the hub depot (node 2, component 8).
use vstd::prelude::*;

use super::component::{
    BoxConveyorState, CacheState, ConveyorItem, FactoryComponent, GridBoxState, InventoryState,
    ItemSlot, bag_view, empty_slot, slots_view,
};
use super::manager::FactoryManager;
use super::node::FactoryNode;
use super::component::CacheTransportState;
use super::ops::{
    TargetError, region_node_set, GridBoxError, comp_of, component_placed, component_set, holds_component, holds_kind,
    kind_placed, lemma_component_set_frame, region_changed, unchanged,
};
use super::region::FactoryRegion;
use super::slots::{
    first_stock_from, find_stock, merge_fits, lemma_first_stock_from, merged_into, first_item_from, matching_total, move_item_into_cache,
    take_one_from_slots,
    SlotView, padded, put_fits, put_into_slot, put_result, stock_exists, take_one_from_bag,
    has_stock, took_one, stack_fits, stacked_into, stack_into_bag, stacked_all, stack_all_fits, stacked_chain,
    grant_fits, grant_to_bag, granted,
};
use crate::enums::FCComponentType;

verus! {

broadcast use vstd::std_specs::hash::group_hash_axioms;

/// Slots of grid box `cid` on node `nid`.
pub open spec fn gb_slots(r: FactoryRegion, nid: u32, cid: u32) -> Seq<SlotView> {
    match comp_of(r.nodes@, nid, cid) {
        FactoryComponent::GridBox(s) => slots_view(s.items@),
        _ => Seq::empty(),
    }
}

/// Whether looking up grid box `cid` can come back empty: no node holds
/// the component, or some holder has another kind.
pub open spec fn gb_missing(r: FactoryRegion, cid: u32) -> bool {
    !component_placed(r.nodes@, cid) || exists|nid: u32|
        #[trigger] holds_component(r.nodes@, nid, cid) && comp_of(r.nodes@, nid, cid).spec_component_type()
            != FCComponentType::GridBox
}

/// `new` is `old` with grid box `cid` of node `nid` holding slots `v`.
pub open spec fn gb_updated(old: FactoryRegion, new: FactoryRegion, nid: u32, cid: u32, v: Seq<SlotView>) -> bool {
    exists|c: FactoryComponent|
        #[trigger] component_set(old, new, nid, cid, c) && (c matches FactoryComponent::GridBox(t) && slots_view(
            t.items@,
        ) == v)
}

/// Result of moving slot `from` onto slot `to` inside a grid box: onto a
/// slot past the end the box grows and the item moves there; onto a slot
/// holding the same item and instance the stacks merge; otherwise the two
/// slots swap.
pub open spec fn inner_move_result(v: Seq<SlotView>, from: int, to: int) -> Seq<SlotView> {
    if to >= v.len() {
        padded(v, to + 1).update(to, v[from]).update(from, empty_slot())
    } else if v[to].0 == v[from].0 && v[to].2 == v[from].2 && v[to].0.len() > 0 {
        v.update(to, (v[to].0, (v[to].1 + v[from].1) as u32, v[to].2)).update(from, empty_slot())
    } else {
        v.update(from, v[to]).update(to, v[from])
    }
}

/// The indices of an inner move are usable: both non-negative and the
/// source inside the box.
pub open spec fn inner_move_ok(v: Seq<SlotView>, from: i32, to: i32) -> bool {
    0 <= from && 0 <= to && from < v.len()
}

/// An inner move on valid indices does not overflow a stack and does not
/// swap a slot with itself.
pub open spec fn inner_move_safe(v: Seq<SlotView>, from: int, to: int) -> bool {
    to < v.len() ==> if v[to].0 == v[from].0 && v[to].2 == v[from].2 && v[to].0.len() > 0 {
        v[to].1 + v[from].1 <= u32::MAX
    } else {
        from != to
    }
}

/// Split: the box padded to reach `to`.
pub open spec fn split_pad(v: Seq<SlotView>, to: int) -> Seq<SlotView> {
    padded(v, to + 1)
}

/// Split: the destination may take the items (same item and instance, or
/// an empty slot).
pub open spec fn split_dest_ok(w: Seq<SlotView>, from: int, to: int) -> bool {
    (w[to].0 == w[from].0 && w[to].2 == w[from].2) || w[to].0.len() == 0
}

/// Split: the source after giving away `c`.
pub open spec fn split_src(w: Seq<SlotView>, from: int, c: int) -> Seq<SlotView> {
    w.update(from, (w[from].0, (w[from].1 - c) as u32, w[from].2))
}

/// Result of splitting `c` items from slot `from` onto slot `to`: the
/// destination takes the source's item and instance and gains `c`; a
/// source left at zero is cleared.
pub open spec fn split_result(v: Seq<SlotView>, from: int, to: int, c: int) -> Seq<SlotView> {
    let w1 = split_src(split_pad(v, to), from, c);
    let w2 = w1.update(to, (w1[from].0, (w1[to].1 + c) as u32, w1[from].2));
    if w2[from].1 == 0 {
        w2.update(from, empty_slot())
    } else {
        w2
    }
}

/// The first checks of a split pass: indices and count non-negative, the
/// source inside the box with at least `c` items.
pub open spec fn split_ok(v: Seq<SlotView>, from: i32, to: i32, c: i32) -> bool {
    0 <= from && 0 <= to && 0 <= c && from < v.len() && v[from as int].1 >= c
}

/// A split that passes all checks does not overflow the destination.
pub open spec fn split_safe(v: Seq<SlotView>, from: int, to: int, c: int) -> bool {
    split_dest_ok(split_pad(v, to), from, to) ==> split_src(split_pad(v, to), from, c)[to].1 + c <= u32::MAX
}

/// Slots of the inventory component `cid` on node `nid`.
pub open spec fn inv_items(r: FactoryRegion, nid: u32, cid: u32) -> Map<u32, ItemSlot> {
    match comp_of(r.nodes@, nid, cid) {
        FactoryComponent::Inventory(s) => s.items@,
        _ => Map::empty(),
    }
}

/// Why inventory `cid` of node `nid` is unusable: the node is missing
/// (`node_err`), or it has no inventory component under `cid`.
pub open spec fn inv_error(r: FactoryRegion, nid: u32, cid: u32, node_err: GridBoxError) -> Option<GridBoxError> {
    if !r.nodes@.contains_key(nid) {
        Some(node_err)
    } else if !holds_kind(r.nodes@, nid, cid, FCComponentType::Inventory) {
        Some(GridBoxError::InventoryComponentMissing)
    } else {
        None
    }
}

/// `new` is `old` with inventory `cid` of node `nid` holding slots `m`.
pub open spec fn inv_updated(old: FactoryRegion, new: FactoryRegion, nid: u32, cid: u32, m: Map<u32, SlotView>) -> bool {
    exists|c: FactoryComponent|
        #[trigger] component_set(old, new, nid, cid, c) && (c matches FactoryComponent::Inventory(t) && bag_view(
            t.items@,
        ) == m)
}

/// The player's bag: inventory component 1 of node 1.
pub open spec fn bag_of(r: FactoryRegion) -> Map<u32, ItemSlot> {
    inv_items(r, 1, 1)
}

/// The hub depot: inventory component 8 of node 2.
pub open spec fn depot_of(r: FactoryRegion) -> Map<u32, ItemSlot> {
    inv_items(r, 2, 8)
}

impl FactoryRegion {
    /// Whether the bag (inventory 1 of node 1) is usable.
    pub(crate) fn inv_check_pub(&self, nid: u32, cid: u32) -> (r: bool)
        ensures
            r == (inv_error(*self, nid, cid, GridBoxError::InventoryNodeMissing) is None),
    {
        self.inv_check(nid, cid, GridBoxError::InventoryNodeMissing).is_none()
    }

    /// The bag (inventory 1 of node 1), for editing.
    pub(crate) fn bag_mut(&mut self) -> (r: Option<&mut InventoryState>)
        requires
            inv_error(*old(self), 1, 1, GridBoxError::InventoryNodeMissing) is None,
        ensures
            r matches Some(inv) && inv.items@ == bag_of(*old(self)) && inv_updated(
                *old(self),
                *final(self),
                1,
                1,
                bag_view(final(inv).items@),
            ) && bag_of(*final(self)) == final(inv).items@,
    {
        self.inventory_mut(1, 1)
    }

    /// `inv_error` for inventory `cid` of node `nid`.
    fn inv_check(&self, nid: u32, cid: u32, node_err: GridBoxError) -> (r: Option<GridBoxError>)
        ensures
            r == inv_error(*self, nid, cid, node_err),
    {
        if !self.nodes.contains_key(&nid) {
            return Some(node_err);
        }
        if self.kind_at(nid, cid) != Some(FCComponentType::Inventory) {
            return Some(GridBoxError::InventoryComponentMissing);
        }
        None
    }

    /// Inventory `cid` of node `nid`, for reading.
    fn inventory_ref(&self, nid: u32, cid: u32) -> (r: Option<&InventoryState>)
        requires
            holds_kind(self.nodes@, nid, cid, FCComponentType::Inventory),
        ensures
            r matches Some(inv) && inv.items@ == inv_items(*self, nid, cid),
    {
        match self.nodes.get(&nid) {
            Some(node) => match node.component(cid) {
                Some(FactoryComponent::Inventory(state)) => Some(state),
                _ => None,
            },
            None => None,
        }
    }

    /// Inventory `cid` of node `nid`, for editing.
    fn inventory_mut(&mut self, nid: u32, cid: u32) -> (r: Option<&mut InventoryState>)
        requires
            holds_kind(old(self).nodes@, nid, cid, FCComponentType::Inventory),
        ensures
            r matches Some(inv) && inv.items@ == inv_items(*old(self), nid, cid) && inv_updated(
                *old(self),
                *final(self),
                nid,
                cid,
                bag_view(final(inv).items@),
            ) && inv_items(*final(self), nid, cid) == final(inv).items@,
    {
        let c = self.component_in_mut(nid, cid).unwrap();
        match c {
            FactoryComponent::Inventory(state) => Some(state),
            _ => None,
        }
    }

    /// The node holding grid box `cid`: the first holder of `cid`, when it
    /// is a grid box.
    fn find_gridbox(&self, cid: u32) -> (r: Option<u32>)
        ensures
            match r {
                Some(nid) => holds_kind(self.nodes@, nid, cid, FCComponentType::GridBox),
                None => gb_missing(*self, cid),
            },
    {
        let nid = match self.find_component_node(cid) {
            Some(n) => n,
            None => return None,
        };
        if self.kind_at(nid, cid) == Some(FCComponentType::GridBox) {
            Some(nid)
        } else {
            None
        }
    }

    /// The slots of grid box `cid` on node `nid`, for editing.
    fn gridbox_items_mut(&mut self, nid: u32, cid: u32) -> (r: Option<&mut Vec<ItemSlot>>)
        requires
            holds_kind(old(self).nodes@, nid, cid, FCComponentType::GridBox),
        ensures
            r matches Some(items) && slots_view(items@) == gb_slots(*old(self), nid, cid) && gb_updated(
                *old(self),
                *final(self),
                nid,
                cid,
                slots_view(final(items)@),
            ),
    {
        let c = self.component_in_mut(nid, cid).unwrap();
        match c {
            FactoryComponent::GridBox(state) => Some(&mut state.items),
            _ => None,
        }
    }
}

/// Moves slot `from` onto slot `to` (see `inner_move_result`).
fn inner_move(items: &mut Vec<ItemSlot>, from: usize, to: usize)
    requires
        from < old(items)@.len(),
        to <= i32::MAX,
        inner_move_safe(slots_view(old(items)@), from as int, to as int),
    ensures
        slots_view(final(items)@) == inner_move_result(slots_view(old(items)@), from as int, to as int),
{
    let ghost v = slots_view(items@);
    proof {
        assert(v[from as int] == items@[from as int]@);
    }
    if to >= items.len() {
        super::slots::pad_slots(items, to + 1);
        let moved = items[from].clone();
        items.set(to, moved);
        items.set(from, ItemSlot::empty());
        proof {
            assert(slots_view(items@) =~= inner_move_result(v, from as int, to as int));
        }
    } else {
        proof {
            assert(v[to as int] == items@[to as int]@);
        }
        if items[to].item_id == items[from].item_id && items[to].inst_id == items[from].inst_id
            && !items[to].item_id.as_str().is_empty() {
            let add = items[from].count;
            let slot = &mut items[to];
            slot.count = slot.count + add;
            items.set(from, ItemSlot::empty());
            proof {
                assert(slots_view(items@) =~= inner_move_result(v, from as int, to as int));
            }
        } else {
            let a = items[from].clone();
            let b = items[to].clone();
            items.set(from, b);
            items.set(to, a);
            proof {
                assert(slots_view(items@) =~= inner_move_result(v, from as int, to as int));
            }
        }
    }
}

/// Outcome of `gridbox_inner_move` on a present region.
pub open spec fn inner_move_outcome(old: FactoryRegion, new: FactoryRegion, cid: u32, from: i32, to: i32, r: Result<(), GridBoxError>) -> bool {
    match r {
        Err(GridBoxError::ComponentNotFound) => gb_missing(old, cid) && new == old,
        Err(GridBoxError::IndexOutOfRange) => exists|nid: u32|
            #[trigger] holds_kind(old.nodes@, nid, cid, FCComponentType::GridBox) && !inner_move_ok(
                gb_slots(old, nid, cid),
                from,
                to,
            ) && new == old,
        Ok(()) => exists|nid: u32|
            #[trigger] holds_kind(old.nodes@, nid, cid, FCComponentType::GridBox) && inner_move_ok(
                gb_slots(old, nid, cid),
                from,
                to,
            ) && gb_updated(old, new, nid, cid, inner_move_result(gb_slots(old, nid, cid), from as int, to as int)),
        _ => false,
    }
}

/// Outcome of `gridbox_inner_split` on a present region.
pub open spec fn inner_split_outcome(
    old: FactoryRegion,
    new: FactoryRegion,
    cid: u32,
    from: i32,
    to: i32,
    count: i32,
    r: Result<(), GridBoxError>,
) -> bool {
    match r {
        Err(GridBoxError::ComponentNotFound) => gb_missing(old, cid) && new == old,
        Err(GridBoxError::IndexOutOfRange) => exists|nid: u32|
            #[trigger] holds_kind(old.nodes@, nid, cid, FCComponentType::GridBox) && ((!split_ok(
                gb_slots(old, nid, cid),
                from,
                to,
                count,
            ) && new == old) || (split_ok(gb_slots(old, nid, cid), from, to, count) && !split_dest_ok(
                split_pad(gb_slots(old, nid, cid), to as int),
                from as int,
                to as int,
            ) && gb_updated(old, new, nid, cid, split_pad(gb_slots(old, nid, cid), to as int)))),
        Ok(()) => exists|nid: u32|
            #[trigger] holds_kind(old.nodes@, nid, cid, FCComponentType::GridBox) && split_ok(
                gb_slots(old, nid, cid),
                from,
                to,
                count,
            ) && split_dest_ok(split_pad(gb_slots(old, nid, cid), to as int), from as int, to as int)
                && gb_updated(
                old,
                new,
                nid,
                cid,
                split_result(gb_slots(old, nid, cid), from as int, to as int, count as int),
            ),
        _ => false,
    }
}

impl FactoryManager {
    /// Moves slot `from_index` of grid box `component_id` onto slot
    /// `to_index` (see `inner_move_result`).
    pub fn gridbox_inner_move(&mut self, region_name: &str, component_id: u32, from_index: i32, to_index: i32) -> (r: Result<(), GridBoxError>)
        requires
            old(self).regions@.contains_key(region_name@) ==> forall|nid: u32|
                #[trigger] holds_kind(old(self).regions@[region_name@].nodes@, nid, component_id, FCComponentType::GridBox)
                    && inner_move_ok(gb_slots(old(self).regions@[region_name@], nid, component_id), from_index, to_index)
                    ==> inner_move_safe(
                    gb_slots(old(self).regions@[region_name@], nid, component_id),
                    from_index as int,
                    to_index as int,
                ),
        ensures
            !old(self).regions@.contains_key(region_name@) ==> r == Err::<(), GridBoxError>(GridBoxError::RegionNotFound)
                && unchanged(*old(self), *final(self)),
            old(self).regions@.contains_key(region_name@) ==> region_changed(*old(self), *final(self), region_name@)
                && inner_move_outcome(
                old(self).regions@[region_name@],
                final(self).regions@[region_name@],
                component_id,
                from_index,
                to_index,
                r,
            ),
    {
        let region = match self.region_mut(region_name) {
            Some(g) => g,
            None => return Err(GridBoxError::RegionNotFound),
        };
        let ghost r0 = *region;
        let nid = match region.find_gridbox(component_id) {
            Some(n) => n,
            None => return Err(GridBoxError::ComponentNotFound),
        };
        if from_index < 0 || to_index < 0 {
            return Err(GridBoxError::IndexOutOfRange);
        }
        let from = from_index as usize;
        let to = to_index as usize;
        let len = match region.nodes.get(&nid) {
            Some(node) => match node.component(component_id) {
                Some(FactoryComponent::GridBox(state)) => state.items.len(),
                _ => 0,
            },
            None => 0,
        };
        proof {
            assert(len == gb_slots(r0, nid, component_id).len());
        }
        if from >= len {
            return Err(GridBoxError::IndexOutOfRange);
        }
        let items = region.gridbox_items_mut(nid, component_id).unwrap();
        inner_move(items, from, to);
        Ok(())
    }

    /// Moves `count` items from slot `from_index` of grid box
    /// `component_id` onto slot `to_index` (see `split_result`). The box
    /// grows to reach `to_index` before the destination is checked.
    pub fn gridbox_inner_split(
        &mut self,
        region_name: &str,
        component_id: u32,
        from_index: i32,
        to_index: i32,
        count: i32,
    ) -> (r: Result<(), GridBoxError>)
        requires
            old(self).regions@.contains_key(region_name@) ==> forall|nid: u32|
                #[trigger] holds_kind(old(self).regions@[region_name@].nodes@, nid, component_id, FCComponentType::GridBox)
                    && split_ok(gb_slots(old(self).regions@[region_name@], nid, component_id), from_index, to_index, count)
                    ==> split_safe(
                    gb_slots(old(self).regions@[region_name@], nid, component_id),
                    from_index as int,
                    to_index as int,
                    count as int,
                ),
        ensures
            !old(self).regions@.contains_key(region_name@) ==> r == Err::<(), GridBoxError>(GridBoxError::RegionNotFound)
                && unchanged(*old(self), *final(self)),
            old(self).regions@.contains_key(region_name@) ==> region_changed(*old(self), *final(self), region_name@)
                && inner_split_outcome(
                old(self).regions@[region_name@],
                final(self).regions@[region_name@],
                component_id,
                from_index,
                to_index,
                count,
                r,
            ),
    {
        let region = match self.region_mut(region_name) {
            Some(g) => g,
            None => return Err(GridBoxError::RegionNotFound),
        };
        let ghost r0 = *region;
        let nid = match region.find_gridbox(component_id) {
            Some(n) => n,
            None => return Err(GridBoxError::ComponentNotFound),
        };
        if from_index < 0 || to_index < 0 || count < 0 {
            return Err(GridBoxError::IndexOutOfRange);
        }
        let from = from_index as usize;
        let to = to_index as usize;
        let c = count as u32;
        let (len, have) = match region.nodes.get(&nid) {
            Some(node) => match node.component(component_id) {
                Some(FactoryComponent::GridBox(state)) => (
                    state.items.len(),
                    if from < state.items.len() { state.items[from].count } else { 0 },
                ),
                _ => (0, 0),
            },
            None => (0, 0),
        };
        let ghost v = gb_slots(r0, nid, component_id);
        proof {
            assert(len == v.len());
            assert(from < len ==> have == v[from as int].1);
        }
        if from >= len || have < c {
            return Err(GridBoxError::IndexOutOfRange);
        }
        let items = region.gridbox_items_mut(nid, component_id).unwrap();
        super::slots::pad_slots(items, to + 1);
        let ghost w = slots_view(items@);
        proof {
            assert(w == split_pad(v, to as int));
            assert(w[from as int] == items@[from as int]@);
            assert(w[to as int] == items@[to as int]@);
        }
        let same_dest = items[to].item_id == items[from].item_id && items[to].inst_id == items[from].inst_id;
        let empty_dest = items[to].item_id.as_str().is_empty();
        if !same_dest && !empty_dest {
            return Err(GridBoxError::IndexOutOfRange);
        }
        let src_left = items[from].count - c;
        let slot_from = &mut items[from];
        slot_from.count = src_left;
        let src_id = items[from].item_id.clone();
        let src_inst = items[from].inst_id;
        let dest_count = items[to].count + c;
        items.set(to, ItemSlot { item_id: src_id, count: dest_count, inst_id: src_inst });
        if items[from].count == 0 {
            items.set(from, ItemSlot::empty());
        }
        proof {
            assert(slots_view(items@) =~= split_result(v, from as int, to as int, count as int));
        }
        Ok(())
    }

    /// Moves the bag slot under key `bag_grid_index` into slot
    /// `grid_box_index` of grid box `component_id` (see `put_result`).
    /// The bag slot is taken before the grid box is looked up.
    pub fn move_bag_to_gridbox(
        &mut self,
        region_name: &str,
        component_id: u32,
        bag_grid_index: i32,
        grid_box_index: i32,
    ) -> (r: Result<(), GridBoxError>)
        requires
            old(self).regions@.contains_key(region_name@) && bag_of(old(self).regions@[region_name@]).contains_key(
                bag_grid_index as u32,
            ) ==> forall|nid: u32|
                #[trigger] holds_kind(old(self).regions@[region_name@].nodes@, nid, component_id, FCComponentType::GridBox)
                    ==> grid_box_index >= 0 && put_fits(
                    gb_slots(old(self).regions@[region_name@], nid, component_id),
                    grid_box_index as int,
                    bag_of(old(self).regions@[region_name@])[bag_grid_index as u32]@,
                ),
        ensures
            !old(self).regions@.contains_key(region_name@) ==> r == Err::<(), GridBoxError>(GridBoxError::RegionNotFound)
                && unchanged(*old(self), *final(self)),
            old(self).regions@.contains_key(region_name@) ==> region_changed(*old(self), *final(self), region_name@)
                && bag_to_gridbox_outcome(
                old(self).regions@[region_name@],
                final(self).regions@[region_name@],
                component_id,
                bag_grid_index as u32,
                grid_box_index,
                r,
            ),
    {
        let region = match self.region_mut(region_name) {
            Some(g) => g,
            None => return Err(GridBoxError::RegionNotFound),
        };
        let ghost r0 = *region;
        match region.inv_check(1, 1, GridBoxError::InventoryNodeMissing) {
            Some(e) => return Err(e),
            None => {},
        }
        let key = bag_grid_index as u32;
        let present = region.inventory_ref(1, 1).unwrap().items.contains_key(&key);
        if !present {
            return Err(GridBoxError::SlotEmpty);
        }
        let bag = region.inventory_mut(1, 1).unwrap();
        let item = bag.items.remove(&key).unwrap();
        proof {
            assert(bag_view(bag.items@) =~= bag_view(bag_of(r0)).remove(key));
        }
        let ghost mid = *region;
        proof {
            assert(inv_updated(r0, mid, 1, 1, bag_view(bag_of(r0)).remove(key)));
        }
        let nid = match region.find_gridbox(component_id) {
            Some(n) => n,
            None => return Err(GridBoxError::ComponentNotFound),
        };
        proof {
            let c = choose|c: FactoryComponent| #[trigger] component_set(r0, mid, 1, 1, c) && (c matches FactoryComponent::Inventory(t) && bag_view(t.items@) == bag_view(bag_of(r0)).remove(key));
            lemma_component_set_frame(r0, mid, 1, 1, c, nid, component_id);
            assert(holds_kind(r0.nodes@, nid, component_id, FCComponentType::GridBox));
            assert(gb_slots(mid, nid, component_id) == gb_slots(r0, nid, component_id));
        }
        let idx = grid_box_index as usize;
        let items = region.gridbox_items_mut(nid, component_id).unwrap();
        put_into_slot(items, idx, item);
        Ok(())
    }

    /// Empties slot `grid_box_index` of grid box `component_id` and stores
    /// its stack in the bag under key `bag_grid_index` (replacing what was
    /// there). The slot is emptied before the stack and the bag are checked.
    pub fn move_gridbox_to_bag(
        &mut self,
        region_name: &str,
        component_id: u32,
        grid_box_index: i32,
        bag_grid_index: i32,
    ) -> (r: Result<(), GridBoxError>)
        ensures
            !old(self).regions@.contains_key(region_name@) ==> r == Err::<(), GridBoxError>(GridBoxError::RegionNotFound)
                && unchanged(*old(self), *final(self)),
            old(self).regions@.contains_key(region_name@) ==> region_changed(*old(self), *final(self), region_name@)
                && gridbox_out_outcome(
                old(self).regions@[region_name@],
                final(self).regions@[region_name@],
                component_id,
                grid_box_index,
                1,
                1,
                GridBoxError::InventoryNodeMissing,
                |bag: Map<u32, SlotView>, item: SlotView, out: Map<u32, SlotView>|
                    out == bag.insert(bag_grid_index as u32, item),
                r,
            ),
    {
        let region = match self.region_mut(region_name) {
            Some(g) => g,
            None => return Err(GridBoxError::RegionNotFound),
        };
        let ghost r0 = *region;
        let nid = match region.find_gridbox(component_id) {
            Some(n) => n,
            None => return Err(GridBoxError::ComponentNotFound),
        };
        let item = match region.take_gridbox_slot(nid, component_id, grid_box_index) {
            Ok(it) => it,
            Err(e) => return Err(e),
        };
        let ghost mid = *region;
        match region.inv_check(1, 1, GridBoxError::InventoryNodeMissing) {
            Some(e) => return Err(e),
            None => {},
        }
        let bag = region.inventory_mut(1, 1).unwrap();
        let ghost iv = item@;
        bag.items.insert(bag_grid_index as u32, item);
        proof {
            assert(bag_view(bag.items@) =~= bag_view(bag_of(mid)).insert(bag_grid_index as u32, iv));
        }
        Ok(())
    }
}

/// Outcome of `move_bag_to_gridbox` on a present region.
pub open spec fn bag_to_gridbox_outcome(
    old: FactoryRegion,
    new: FactoryRegion,
    cid: u32,
    key: u32,
    gbi: i32,
    r: Result<(), GridBoxError>,
) -> bool {
    match r {
        Err(GridBoxError::InventoryNodeMissing) | Err(GridBoxError::InventoryComponentMissing) => inv_error(
            old,
            1,
            1,
            GridBoxError::InventoryNodeMissing,
        ) == Some(r->Err_0) && new == old,
        Err(GridBoxError::SlotEmpty) => inv_error(old, 1, 1, GridBoxError::InventoryNodeMissing) is None
            && !bag_of(old).contains_key(key) && new == old,
        Err(GridBoxError::ComponentNotFound) => inv_error(old, 1, 1, GridBoxError::InventoryNodeMissing) is None
            && bag_of(old).contains_key(key) && inv_updated(old, new, 1, 1, bag_view(bag_of(old)).remove(key))
            && gb_missing(new, cid),
        Ok(()) => inv_error(old, 1, 1, GridBoxError::InventoryNodeMissing) is None && bag_of(old).contains_key(key)
            && exists|mid: FactoryRegion, nid: u32|
            #[trigger] inv_updated(old, mid, 1, 1, bag_view(bag_of(old)).remove(key)) && #[trigger] holds_kind(
                mid.nodes@,
                nid,
                cid,
                FCComponentType::GridBox,
            ) && gb_updated(mid, new, nid, cid, put_result(gb_slots(mid, nid, cid), gbi as int, bag_of(old)[key]@)),
        _ => false,
    }
}

/// Outcome of taking slot `gbi` out of grid box `cid` and handing its stack
/// to inventory `cid2` of node `nid2`, whose slots `out` then satisfy
/// `put(inventory, stack, out)`.
pub open spec fn gridbox_out_outcome(
    old: FactoryRegion,
    new: FactoryRegion,
    cid: u32,
    gbi: i32,
    nid2: u32,
    cid2: u32,
    node_err: GridBoxError,
    put: spec_fn(Map<u32, SlotView>, SlotView, Map<u32, SlotView>) -> bool,
    r: Result<(), GridBoxError>,
) -> bool {
    match r {
        Err(GridBoxError::ComponentNotFound) => gb_missing(old, cid) && new == old,
        Err(GridBoxError::IndexOutOfRange) => exists|nid: u32|
            #[trigger] holds_kind(old.nodes@, nid, cid, FCComponentType::GridBox) && !(0 <= gbi < gb_slots(
                old,
                nid,
                cid,
            ).len()) && new == old,
        Err(GridBoxError::SlotEmpty) => exists|nid: u32|
            #[trigger] holds_kind(old.nodes@, nid, cid, FCComponentType::GridBox) && 0 <= gbi < gb_slots(
                old,
                nid,
                cid,
            ).len() && gb_slots(old, nid, cid)[gbi as int].1 == 0 && gb_updated(
                old,
                new,
                nid,
                cid,
                gb_slots(old, nid, cid).update(gbi as int, empty_slot()),
            ),
        Err(e) => exists|nid: u32|
            #[trigger] holds_kind(old.nodes@, nid, cid, FCComponentType::GridBox) && 0 <= gbi < gb_slots(
                old,
                nid,
                cid,
            ).len() && gb_slots(old, nid, cid)[gbi as int].1 > 0 && gb_updated(
                old,
                new,
                nid,
                cid,
                gb_slots(old, nid, cid).update(gbi as int, empty_slot()),
            ) && inv_error(new, nid2, cid2, node_err) == Some(e),
        Ok(()) => exists|nid: u32, mid: FactoryRegion|
            #[trigger] gb_updated(old, mid, nid, cid, gb_slots(old, nid, cid).update(gbi as int, empty_slot()))
                && holds_kind(old.nodes@, nid, cid, FCComponentType::GridBox) && 0 <= gbi < gb_slots(
                old,
                nid,
                cid,
            ).len() && gb_slots(old, nid, cid)[gbi as int].1 > 0 && inv_error(mid, nid2, cid2, node_err) is None
                && exists|out: Map<u32, SlotView>|
                #[trigger] inv_updated(mid, new, nid2, cid2, out) && put(
                    bag_view(inv_items(mid, nid2, cid2)),
                    gb_slots(old, nid, cid)[gbi as int],
                    out,
                ),
    }
}

impl FactoryRegion {
    /// Empties slot `gbi` of grid box `cid` on node `nid` and returns its
    /// stack; fails when the slot does not exist or (after emptying it)
    /// held nothing.
    fn take_gridbox_slot(&mut self, nid: u32, cid: u32, gbi: i32) -> (r: Result<ItemSlot, GridBoxError>)
        requires
            holds_kind(old(self).nodes@, nid, cid, FCComponentType::GridBox),
        ensures
            !(0 <= gbi < gb_slots(*old(self), nid, cid).len()) ==> r == Err::<ItemSlot, GridBoxError>(
                GridBoxError::IndexOutOfRange,
            ) && *final(self) == *old(self),
            0 <= gbi < gb_slots(*old(self), nid, cid).len() ==> gb_updated(
                *old(self),
                *final(self),
                nid,
                cid,
                gb_slots(*old(self), nid, cid).update(gbi as int, empty_slot()),
            ) && match r {
                Ok(it) => it@ == gb_slots(*old(self), nid, cid)[gbi as int] && it.count > 0,
                Err(e) => e == GridBoxError::SlotEmpty && gb_slots(*old(self), nid, cid)[gbi as int].1 == 0,
            },
    {
        let len = match self.nodes.get(&nid) {
            Some(node) => match node.component(cid) {
                Some(FactoryComponent::GridBox(state)) => state.items.len(),
                _ => 0,
            },
            None => 0,
        };
        if gbi < 0 || gbi as usize >= len {
            return Err(GridBoxError::IndexOutOfRange);
        }
        let idx = gbi as usize;
        let items = self.gridbox_items_mut(nid, cid).unwrap();
        let ghost v = slots_view(items@);
        let mut item = ItemSlot::empty();
        std::mem::swap(&mut item, &mut items[idx]);
        proof {
            assert(slots_view(items@) =~= v.update(idx as int, empty_slot()));
            assert(item@ == v[idx as int]);
        }
        if item.count == 0 {
            return Err(GridBoxError::SlotEmpty);
        }
        Ok(item)
    }
}

impl FactoryManager {
    /// Takes one `item_id` from the depot (see `take_one_from_bag`) and puts
    /// it into slot `grid_box_index` of grid box `component_id`. The item
    /// leaves the depot before the grid box is looked up.
    pub fn move_depot_to_gridbox(
        &mut self,
        region_name: &str,
        component_id: u32,
        item_id: &str,
        grid_box_index: i32,
    ) -> (r: Result<(), GridBoxError>)
        requires
            old(self).regions@.contains_key(region_name@) && (exists|k: u32|
                #[trigger] has_stock(depot_of(old(self).regions@[region_name@]), k, item_id@)) ==> forall|nid: u32|
                #[trigger] holds_kind(old(self).regions@[region_name@].nodes@, nid, component_id, FCComponentType::GridBox)
                    ==> grid_box_index >= 0 && put_fits(
                    gb_slots(old(self).regions@[region_name@], nid, component_id),
                    grid_box_index as int,
                    (item_id@, 1u32, 0u32),
                ),
        ensures
            !old(self).regions@.contains_key(region_name@) ==> r == Err::<(), GridBoxError>(GridBoxError::RegionNotFound)
                && unchanged(*old(self), *final(self)),
            old(self).regions@.contains_key(region_name@) ==> region_changed(*old(self), *final(self), region_name@)
                && depot_to_gridbox_outcome(
                old(self).regions@[region_name@],
                final(self).regions@[region_name@],
                component_id,
                item_id@,
                grid_box_index,
                r,
            ),
    {
        let region = match self.region_mut(region_name) {
            Some(g) => g,
            None => return Err(GridBoxError::RegionNotFound),
        };
        let ghost r0 = *region;
        match region.inv_check(2, 8, GridBoxError::HubNodeMissing) {
            Some(e) => return Err(e),
            None => {},
        }
        if !stock_exists(region.inventory_ref(2, 8).unwrap(), item_id) {
            return Err(GridBoxError::ItemNotFound);
        }
        let depot = region.inventory_mut(2, 8).unwrap();
        let item = take_one_from_bag(depot, item_id).unwrap();
        let ghost mid = *region;
        let nid = match region.find_gridbox(component_id) {
            Some(n) => n,
            None => return Err(GridBoxError::ComponentNotFound),
        };
        proof {
            let k = item@.2;
            let c = choose|c: FactoryComponent| #[trigger] component_set(r0, mid, 2, 8, c) && (c matches FactoryComponent::Inventory(t) && bag_view(t.items@) == took_one(bag_view(depot_of(r0)), k));
            lemma_component_set_frame(r0, mid, 2, 8, c, nid, component_id);
            assert(holds_kind(r0.nodes@, nid, component_id, FCComponentType::GridBox));
            assert(gb_slots(mid, nid, component_id) == gb_slots(r0, nid, component_id));
            assert(inv_updated(r0, mid, 2, 8, took_one(bag_view(depot_of(r0)), k)));
        }
        let idx = grid_box_index as usize;
        let items = region.gridbox_items_mut(nid, component_id).unwrap();
        put_into_slot(items, idx, item);
        Ok(())
    }

    /// Empties slot `grid_box_index` of grid box `component_id` and stacks
    /// its contents into the depot (see `stacked_into`).
    pub fn move_gridbox_to_depot(&mut self, region_name: &str, component_id: u32, grid_box_index: i32) -> (r: Result<(), GridBoxError>)
        requires
            old(self).regions@.contains_key(region_name@) ==> forall|nid: u32|
                #[trigger] holds_kind(old(self).regions@[region_name@].nodes@, nid, component_id, FCComponentType::GridBox)
                    && 0 <= grid_box_index < gb_slots(old(self).regions@[region_name@], nid, component_id).len()
                    ==> stack_fits(
                    bag_view(depot_of(old(self).regions@[region_name@])),
                    gb_slots(old(self).regions@[region_name@], nid, component_id)[grid_box_index as int],
                ),
        ensures
            !old(self).regions@.contains_key(region_name@) ==> r == Err::<(), GridBoxError>(GridBoxError::RegionNotFound)
                && unchanged(*old(self), *final(self)),
            old(self).regions@.contains_key(region_name@) ==> region_changed(*old(self), *final(self), region_name@)
                && gridbox_out_outcome(
                old(self).regions@[region_name@],
                final(self).regions@[region_name@],
                component_id,
                grid_box_index,
                2,
                8,
                GridBoxError::HubNodeMissing,
                |bag: Map<u32, SlotView>, item: SlotView, out: Map<u32, SlotView>| stacked_into(bag, out, item),
                r,
            ),
    {
        let region = match self.region_mut(region_name) {
            Some(g) => g,
            None => return Err(GridBoxError::RegionNotFound),
        };
        let ghost r0 = *region;
        let nid = match region.find_gridbox(component_id) {
            Some(n) => n,
            None => return Err(GridBoxError::ComponentNotFound),
        };
        let item = match region.take_gridbox_slot(nid, component_id, grid_box_index) {
            Ok(it) => it,
            Err(e) => return Err(e),
        };
        let ghost mid = *region;
        match region.inv_check(2, 8, GridBoxError::HubNodeMissing) {
            Some(e) => return Err(e),
            None => {},
        }
        proof {
            let c = choose|c: FactoryComponent| #[trigger] component_set(r0, mid, nid, component_id, c) && (c matches FactoryComponent::GridBox(t) && slots_view(t.items@) == gb_slots(r0, nid, component_id).update(grid_box_index as int, empty_slot()));
            lemma_component_set_frame(r0, mid, nid, component_id, c, 2, 8);
            assert(depot_of(mid) == depot_of(r0));
        }
        let depot = region.inventory_mut(2, 8).unwrap();
        stack_into_bag(depot, item);
        Ok(())
    }
}

/// Outcome of `move_depot_to_gridbox` on a present region.
pub open spec fn depot_to_gridbox_outcome(
    old: FactoryRegion,
    new: FactoryRegion,
    cid: u32,
    id: Seq<char>,
    gbi: i32,
    r: Result<(), GridBoxError>,
) -> bool {
    match r {
        Err(GridBoxError::HubNodeMissing) | Err(GridBoxError::InventoryComponentMissing) => inv_error(
            old,
            2,
            8,
            GridBoxError::HubNodeMissing,
        ) == Some(r->Err_0) && new == old,
        Err(GridBoxError::ItemNotFound) => inv_error(old, 2, 8, GridBoxError::HubNodeMissing) is None && (forall|k: u32|
            !#[trigger] has_stock(depot_of(old), k, id)) && new == old,
        Err(GridBoxError::ComponentNotFound) => inv_error(old, 2, 8, GridBoxError::HubNodeMissing) is None
            && exists|k: u32|
            #[trigger] has_stock(depot_of(old), k, id) && inv_updated(old, new, 2, 8, took_one(bag_view(depot_of(old)), k))
                && gb_missing(new, cid),
        Ok(()) => inv_error(old, 2, 8, GridBoxError::HubNodeMissing) is None && exists|k: u32, mid: FactoryRegion, nid: u32|
            #[trigger] inv_updated(old, mid, 2, 8, took_one(bag_view(depot_of(old)), k)) && has_stock(depot_of(old), k, id)
                && #[trigger] holds_kind(mid.nodes@, nid, cid, FCComponentType::GridBox) && gb_updated(
                mid,
                new,
                nid,
                cid,
                put_result(gb_slots(mid, nid, cid), gbi as int, (id, 1u32, k)),
            ),
        _ => false,
    }
}

/// Slots of cache `cid` on node `nid`.
pub open spec fn cache_slots(r: FactoryRegion, nid: u32, cid: u32) -> Seq<SlotView> {
    match comp_of(r.nodes@, nid, cid) {
        FactoryComponent::Cache(s) => slots_view(s.items@),
        _ => Seq::empty(),
    }
}

/// `new` is `old` with cache `cid` of node `nid` holding slots `v` (its
/// ports unchanged).
pub open spec fn cache_updated(old: FactoryRegion, new: FactoryRegion, nid: u32, cid: u32, v: Seq<SlotView>) -> bool {
    exists|t: CacheState|
        #[trigger] component_set(old, new, nid, cid, FactoryComponent::Cache(t)) && slots_view(t.items@) == v
            && (comp_of(old.nodes@, nid, cid) matches FactoryComponent::Cache(s) && t.ports == s.ports)
}

/// A cache slot list with one item taken from slot `i`.
pub open spec fn took_from_slot(v: Seq<SlotView>, i: int) -> Seq<SlotView> {
    v.update(i, (v[i].0, (v[i].1 - 1) as u32, v[i].2))
}

impl FactoryRegion {
    /// The slots of cache `cid` on node `nid`, for reading.
    fn cache_items_ref(&self, nid: u32, cid: u32) -> (r: Option<&Vec<ItemSlot>>)
        requires
            holds_kind(self.nodes@, nid, cid, FCComponentType::Cache),
        ensures
            r matches Some(items) && slots_view(items@) == cache_slots(*self, nid, cid),
    {
        match self.nodes.get(&nid) {
            Some(node) => match node.component(cid) {
                Some(FactoryComponent::Cache(state)) => Some(&state.items),
                _ => None,
            },
            None => None,
        }
    }

    /// The slots of cache `cid` on node `nid`, for editing.
    fn cache_items_mut(&mut self, nid: u32, cid: u32) -> (r: Option<&mut Vec<ItemSlot>>)
        requires
            holds_kind(old(self).nodes@, nid, cid, FCComponentType::Cache),
        ensures
            r matches Some(items) && slots_view(items@) == cache_slots(*old(self), nid, cid) && cache_updated(
                *old(self),
                *final(self),
                nid,
                cid,
                slots_view(final(items)@),
            ),
    {
        let c = self.component_in_mut(nid, cid).unwrap();
        match c {
            FactoryComponent::Cache(state) => Some(&mut state.items),
            _ => None,
        }
    }

    /// Takes one `item_id` from the first cache `cid` (in the node map's
    /// iteration order) and from its first slot holding some.
    fn take_one_from_cache(&mut self, cid: u32, item_id: &str) -> (r: Option<u32>)
        ensures
            match r {
                Some(nid) => holds_kind(old(self).nodes@, nid, cid, FCComponentType::Cache) && first_stock_from(
                    cache_slots(*old(self), nid, cid),
                    item_id@,
                    0,
                ) is Some && cache_updated(
                    *old(self),
                    *final(self),
                    nid,
                    cid,
                    took_from_slot(
                        cache_slots(*old(self), nid, cid),
                        first_stock_from(cache_slots(*old(self), nid, cid), item_id@, 0)->0,
                    ),
                ),
                None => (!kind_placed(old(self).nodes@, cid, FCComponentType::Cache) || exists|nid: u32|
                    #[trigger] holds_kind(old(self).nodes@, nid, cid, FCComponentType::Cache) && first_stock_from(
                        cache_slots(*old(self), nid, cid),
                        item_id@,
                        0,
                    ) is None) && *final(self) == *old(self),
            },
    {
        let nid = match self.find_kind_node(cid, FCComponentType::Cache) {
            Some(n) => n,
            None => return None,
        };
        let at = find_stock(self.cache_items_ref(nid, cid).unwrap(), item_id);
        match at {
            None => None,
            Some(i) => {
                let items = self.cache_items_mut(nid, cid).unwrap();
                let ghost v = slots_view(items@);
                proof {
                    lemma_first_stock_from(v, item_id@, 0);
                    assert(v[i as int] == items@[i as int]@);
                }
                let slot = &mut items[i];
                slot.count = slot.count - 1;
                proof {
                    assert(slots_view(items@) =~= took_from_slot(v, i as int));
                }
                Some(nid)
            },
        }
    }
}

/// Outcome of `move_cache_to_cache` on a present region.
pub open spec fn cache_to_cache_outcome(
    old: FactoryRegion,
    new: FactoryRegion,
    from: u32,
    to: u32,
    id: Seq<char>,
    r: Result<(), GridBoxError>,
) -> bool {
    match r {
        Err(GridBoxError::ComponentNotFound) => (!kind_placed(old.nodes@, from, FCComponentType::Cache) && new == old)
            || exists|nid: u32|
            #[trigger] holds_kind(old.nodes@, nid, from, FCComponentType::Cache) && cache_updated(
                old,
                new,
                nid,
                from,
                Seq::empty(),
            ) && !kind_placed(new.nodes@, to, FCComponentType::Cache),
        Ok(()) => exists|nid: u32, mid: FactoryRegion, nid2: u32|
            #[trigger] cache_updated(old, mid, nid, from, Seq::empty()) && holds_kind(
                old.nodes@,
                nid,
                from,
                FCComponentType::Cache,
            ) && #[trigger] holds_kind(mid.nodes@, nid2, to, FCComponentType::Cache) && cache_updated(
                mid,
                new,
                nid2,
                to,
                merged_into(cache_slots(mid, nid2, to), cache_slots(old, nid, from), id),
            ),
        _ => false,
    }
}

impl FactoryManager {
    /// Empties the first cache `from_component_id` and moves what it held
    /// into the first cache `to_component_id` (see `merged_into`): its
    /// stacks of `item_id` merge, its other stacks are appended after them.
    /// The source is emptied before the destination is looked up.
    pub fn move_cache_to_cache(&mut self, region_name: &str, from_component_id: u32, to_component_id: u32, item_id: &str) -> (r: Result<(), GridBoxError>)
        requires
            old(self).regions@.contains_key(region_name@) ==> forall|nid: u32, nid2: u32|
                #[trigger] holds_kind(old(self).regions@[region_name@].nodes@, nid, from_component_id, FCComponentType::Cache)
                    && #[trigger] holds_kind(old(self).regions@[region_name@].nodes@, nid2, to_component_id, FCComponentType::Cache)
                    ==> merge_fits(
                    if nid2 == nid && to_component_id == from_component_id {
                        Seq::empty()
                    } else {
                        cache_slots(old(self).regions@[region_name@], nid2, to_component_id)
                    },
                    cache_slots(old(self).regions@[region_name@], nid, from_component_id),
                    item_id@,
                ),
        ensures
            !old(self).regions@.contains_key(region_name@) ==> r == Err::<(), GridBoxError>(GridBoxError::RegionNotFound)
                && unchanged(*old(self), *final(self)),
            old(self).regions@.contains_key(region_name@) ==> region_changed(*old(self), *final(self), region_name@)
                && cache_to_cache_outcome(
                old(self).regions@[region_name@],
                final(self).regions@[region_name@],
                from_component_id,
                to_component_id,
                item_id@,
                r,
            ),
    {
        let region = match self.region_mut(region_name) {
            Some(g) => g,
            None => return Err(GridBoxError::RegionNotFound),
        };
        let ghost r0 = *region;
        let nid = match region.find_kind_node(from_component_id, FCComponentType::Cache) {
            Some(n) => n,
            None => return Err(GridBoxError::ComponentNotFound),
        };
        let src_items = region.cache_items_mut(nid, from_component_id).unwrap();
        let mut taken: Vec<ItemSlot> = Vec::new();
        proof {
            assert(slots_view(taken@) =~= Seq::<SlotView>::empty());
        }
        std::mem::swap(&mut taken, src_items);
        let ghost mid = *region;
        let nid2 = match region.find_kind_node(to_component_id, FCComponentType::Cache) {
            Some(n) => n,
            None => return Err(GridBoxError::ComponentNotFound),
        };
        proof {
            let t = choose|t: CacheState| #[trigger] component_set(r0, mid, nid, from_component_id, FactoryComponent::Cache(t)) && slots_view(t.items@) == Seq::<SlotView>::empty() && (comp_of(r0.nodes@, nid, from_component_id) matches FactoryComponent::Cache(s) && t.ports == s.ports);
            lemma_component_set_frame(r0, mid, nid, from_component_id, FactoryComponent::Cache(t), nid2, to_component_id);
            assert(holds_kind(r0.nodes@, nid2, to_component_id, FCComponentType::Cache));
            if nid2 == nid && to_component_id == from_component_id {
                assert(cache_slots(mid, nid2, to_component_id) =~= Seq::<SlotView>::empty());
            } else {
                assert(cache_slots(mid, nid2, to_component_id) == cache_slots(r0, nid2, to_component_id));
            }
        }
        let dest = region.cache_items_mut(nid2, to_component_id).unwrap();
        move_item_into_cache(dest, item_id, taken);
        Ok(())
    }
}

/// Outcome of handing a stack taken from inventory `cid2` of node `nid2`
/// (slots `taken_from(inventory)`, stack `item`) to the first cache `cid`,
/// whose slots get `item` appended. The stack leaves the inventory first.
pub open spec fn into_cache_outcome(
    old: FactoryRegion,
    new: FactoryRegion,
    cid: u32,
    nid2: u32,
    cid2: u32,
    bag_after: Map<u32, SlotView>,
    item: SlotView,
    r: Result<(), GridBoxError>,
) -> bool {
    match r {
        Err(GridBoxError::ComponentNotFound) => inv_updated(old, new, nid2, cid2, bag_after) && !kind_placed(
            new.nodes@,
            cid,
            FCComponentType::Cache,
        ),
        Ok(()) => exists|mid: FactoryRegion, nid: u32|
            #[trigger] inv_updated(old, mid, nid2, cid2, bag_after) && #[trigger] holds_kind(
                mid.nodes@,
                nid,
                cid,
                FCComponentType::Cache,
            ) && cache_updated(mid, new, nid, cid, cache_slots(mid, nid, cid).push(item)),
        _ => false,
    }
}

/// Outcome of taking one `id` from the first cache `cid` and handing it to
/// inventory `cid2` of node `nid2`, whose slots `out` then satisfy
/// `put(inventory, (id, 1, 0), out)`. The item leaves the cache first.
pub open spec fn out_of_cache_outcome(
    old: FactoryRegion,
    new: FactoryRegion,
    cid: u32,
    id: Seq<char>,
    nid2: u32,
    cid2: u32,
    node_err: GridBoxError,
    put: spec_fn(Map<u32, SlotView>, SlotView, Map<u32, SlotView>) -> bool,
    r: Result<(), GridBoxError>,
) -> bool {
    match r {
        Err(GridBoxError::ItemNotFound) => (!kind_placed(old.nodes@, cid, FCComponentType::Cache) || exists|nid: u32|
            #[trigger] holds_kind(old.nodes@, nid, cid, FCComponentType::Cache) && first_stock_from(
                cache_slots(old, nid, cid),
                id,
                0,
            ) is None) && new == old,
        Err(e) => exists|nid: u32|
            #[trigger] holds_kind(old.nodes@, nid, cid, FCComponentType::Cache) && first_stock_from(
                cache_slots(old, nid, cid),
                id,
                0,
            ) is Some && cache_updated(
                old,
                new,
                nid,
                cid,
                took_from_slot(cache_slots(old, nid, cid), first_stock_from(cache_slots(old, nid, cid), id, 0)->0),
            ) && inv_error(new, nid2, cid2, node_err) == Some(e),
        Ok(()) => exists|nid: u32, mid: FactoryRegion|
            #[trigger] cache_updated(
                old,
                mid,
                nid,
                cid,
                took_from_slot(cache_slots(old, nid, cid), first_stock_from(cache_slots(old, nid, cid), id, 0)->0),
            ) && holds_kind(old.nodes@, nid, cid, FCComponentType::Cache) && first_stock_from(
                cache_slots(old, nid, cid),
                id,
                0,
            ) is Some && inv_error(mid, nid2, cid2, node_err) is None && exists|out: Map<u32, SlotView>|
                #[trigger] inv_updated(mid, new, nid2, cid2, out) && put(
                    bag_view(inv_items(mid, nid2, cid2)),
                    (id, 1u32, 0u32),
                    out,
                ),
    }
}

impl FactoryManager {
    /// Takes the bag slot under key `bag_grid_index` and appends it to the
    /// first cache `component_id`. The slot leaves the bag first.
    pub fn move_bag_to_cache(&mut self, region_name: &str, component_id: u32, bag_grid_index: i32) -> (r: Result<(), GridBoxError>)
        ensures
            !old(self).regions@.contains_key(region_name@) ==> r == Err::<(), GridBoxError>(GridBoxError::RegionNotFound)
                && unchanged(*old(self), *final(self)),
            old(self).regions@.contains_key(region_name@) ==> region_changed(*old(self), *final(self), region_name@)
                && ({
                let old_r = old(self).regions@[region_name@];
                let new_r = final(self).regions@[region_name@];
                let key = bag_grid_index as u32;
                if inv_error(old_r, 1, 1, GridBoxError::InventoryNodeMissing) is Some {
                    r == Err::<(), GridBoxError>(inv_error(old_r, 1, 1, GridBoxError::InventoryNodeMissing)->0) && new_r
                        == old_r
                } else if !bag_of(old_r).contains_key(key) {
                    r == Err::<(), GridBoxError>(GridBoxError::SlotEmpty) && new_r == old_r
                } else {
                    into_cache_outcome(
                        old_r,
                        new_r,
                        component_id,
                        1,
                        1,
                        bag_view(bag_of(old_r)).remove(key),
                        bag_of(old_r)[key]@,
                        r,
                    )
                }
            }),
    {
        let region = match self.region_mut(region_name) {
            Some(g) => g,
            None => return Err(GridBoxError::RegionNotFound),
        };
        let ghost r0 = *region;
        match region.inv_check(1, 1, GridBoxError::InventoryNodeMissing) {
            Some(e) => return Err(e),
            None => {},
        }
        let key = bag_grid_index as u32;
        if !region.inventory_ref(1, 1).unwrap().items.contains_key(&key) {
            return Err(GridBoxError::SlotEmpty);
        }
        let bag = region.inventory_mut(1, 1).unwrap();
        let item = bag.items.remove(&key).unwrap();
        proof {
            assert(bag_view(bag.items@) =~= bag_view(bag_of(r0)).remove(key));
        }
        let ghost mid = *region;
        let nid = match region.find_kind_node(component_id, FCComponentType::Cache) {
            Some(n) => n,
            None => return Err(GridBoxError::ComponentNotFound),
        };
        let items = region.cache_items_mut(nid, component_id).unwrap();
        let ghost v = slots_view(items@);
        let ghost iv = item@;
        items.push(item);
        proof {
            assert(slots_view(items@) =~= v.push(iv));
        }
        Ok(())
    }

    /// Takes one `item_id` from the depot (see `take_one_from_bag`) and
    /// appends it to the first cache `component_id`. The item leaves the
    /// depot first.
    pub fn move_depot_to_cache(&mut self, region_name: &str, component_id: u32, item_id: &str) -> (r: Result<(), GridBoxError>)
        ensures
            !old(self).regions@.contains_key(region_name@) ==> r == Err::<(), GridBoxError>(GridBoxError::RegionNotFound)
                && unchanged(*old(self), *final(self)),
            old(self).regions@.contains_key(region_name@) ==> region_changed(*old(self), *final(self), region_name@)
                && ({
                let old_r = old(self).regions@[region_name@];
                let new_r = final(self).regions@[region_name@];
                if inv_error(old_r, 2, 8, GridBoxError::HubNodeMissing) is Some {
                    r == Err::<(), GridBoxError>(inv_error(old_r, 2, 8, GridBoxError::HubNodeMissing)->0) && new_r
                        == old_r
                } else if forall|k: u32| !#[trigger] has_stock(depot_of(old_r), k, item_id@) {
                    r == Err::<(), GridBoxError>(GridBoxError::ItemNotFound) && new_r == old_r
                } else {
                    exists|k: u32|
                        #[trigger] has_stock(depot_of(old_r), k, item_id@) && into_cache_outcome(
                            old_r,
                            new_r,
                            component_id,
                            2,
                            8,
                            took_one(bag_view(depot_of(old_r)), k),
                            (item_id@, 1u32, k),
                            r,
                        )
                }
            }),
    {
        let region = match self.region_mut(region_name) {
            Some(g) => g,
            None => return Err(GridBoxError::RegionNotFound),
        };
        let ghost r0 = *region;
        match region.inv_check(2, 8, GridBoxError::HubNodeMissing) {
            Some(e) => return Err(e),
            None => {},
        }
        if !stock_exists(region.inventory_ref(2, 8).unwrap(), item_id) {
            return Err(GridBoxError::ItemNotFound);
        }
        let depot = region.inventory_mut(2, 8).unwrap();
        let item = take_one_from_bag(depot, item_id).unwrap();
        let ghost mid = *region;
        let ghost k = item@.2;
        proof {
            assert(has_stock(depot_of(r0), k, item_id@));
        }
        let nid = match region.find_kind_node(component_id, FCComponentType::Cache) {
            Some(n) => n,
            None => return Err(GridBoxError::ComponentNotFound),
        };
        let items = region.cache_items_mut(nid, component_id).unwrap();
        let ghost v = slots_view(items@);
        let ghost iv = item@;
        items.push(item);
        proof {
            assert(slots_view(items@) =~= v.push(iv));
        }
        Ok(())
    }

    /// Takes one `item_id` from the first cache `component_id` (from its
    /// first slot holding some; the slot stays at zero) and gives it to the
    /// bag as a grant of one (see `granted`). The item leaves the cache
    /// before the bag is checked.
    pub fn move_cache_to_bag(&mut self, region_name: &str, component_id: u32, item_id: &str) -> (r: Result<(), GridBoxError>)
        requires
            old(self).regions@.contains_key(region_name@) ==> grant_fits(
                bag_view(bag_of(old(self).regions@[region_name@])),
                item_id@,
                1,
            ),
        ensures
            !old(self).regions@.contains_key(region_name@) ==> r == Err::<(), GridBoxError>(GridBoxError::RegionNotFound)
                && unchanged(*old(self), *final(self)),
            old(self).regions@.contains_key(region_name@) ==> region_changed(*old(self), *final(self), region_name@)
                && out_of_cache_outcome(
                old(self).regions@[region_name@],
                final(self).regions@[region_name@],
                component_id,
                item_id@,
                1,
                1,
                GridBoxError::InventoryNodeMissing,
                |bag: Map<u32, SlotView>, item: SlotView, out: Map<u32, SlotView>| granted(bag, out, item.0, item.1),
                r,
            ),
    {
        let region = match self.region_mut(region_name) {
            Some(g) => g,
            None => return Err(GridBoxError::RegionNotFound),
        };
        let ghost r0 = *region;
        let nid = match region.take_one_from_cache(component_id, item_id) {
            Some(n) => n,
            None => return Err(GridBoxError::ItemNotFound),
        };
        let ghost mid = *region;
        match region.inv_check(1, 1, GridBoxError::InventoryNodeMissing) {
            Some(e) => return Err(e),
            None => {},
        }
        proof {
            let v = cache_slots(r0, nid, component_id);
            let t = choose|t: CacheState| #[trigger] component_set(r0, mid, nid, component_id, FactoryComponent::Cache(t)) && slots_view(t.items@) == took_from_slot(v, first_stock_from(v, item_id@, 0)->0) && (comp_of(r0.nodes@, nid, component_id) matches FactoryComponent::Cache(s) && t.ports == s.ports);
            lemma_component_set_frame(r0, mid, nid, component_id, FactoryComponent::Cache(t), 1, 1);
            assert(bag_of(mid) == bag_of(r0));
        }
        let bag = region.inventory_mut(1, 1).unwrap();
        grant_to_bag(bag, item_id, 1);
        Ok(())
    }

    /// Takes one `item_id` from the first cache `component_id` (as
    /// `move_cache_to_bag` does) and stacks it into the depot (see
    /// `stacked_into`).
    pub fn move_cache_to_depot(&mut self, region_name: &str, component_id: u32, item_id: &str) -> (r: Result<(), GridBoxError>)
        requires
            old(self).regions@.contains_key(region_name@) ==> stack_fits(
                bag_view(depot_of(old(self).regions@[region_name@])),
                (item_id@, 1u32, 0u32),
            ),
        ensures
            !old(self).regions@.contains_key(region_name@) ==> r == Err::<(), GridBoxError>(GridBoxError::RegionNotFound)
                && unchanged(*old(self), *final(self)),
            old(self).regions@.contains_key(region_name@) ==> region_changed(*old(self), *final(self), region_name@)
                && out_of_cache_outcome(
                old(self).regions@[region_name@],
                final(self).regions@[region_name@],
                component_id,
                item_id@,
                2,
                8,
                GridBoxError::HubNodeMissing,
                |bag: Map<u32, SlotView>, item: SlotView, out: Map<u32, SlotView>| stacked_into(bag, out, item),
                r,
            ),
    {
        let region = match self.region_mut(region_name) {
            Some(g) => g,
            None => return Err(GridBoxError::RegionNotFound),
        };
        let ghost r0 = *region;
        let nid = match region.take_one_from_cache(component_id, item_id) {
            Some(n) => n,
            None => return Err(GridBoxError::ItemNotFound),
        };
        let ghost mid = *region;
        match region.inv_check(2, 8, GridBoxError::HubNodeMissing) {
            Some(e) => return Err(e),
            None => {},
        }
        proof {
            let v = cache_slots(r0, nid, component_id);
            let t = choose|t: CacheState| #[trigger] component_set(r0, mid, nid, component_id, FactoryComponent::Cache(t)) && slots_view(t.items@) == took_from_slot(v, first_stock_from(v, item_id@, 0)->0) && (comp_of(r0.nodes@, nid, component_id) matches FactoryComponent::Cache(s) && t.ports == s.ports);
            lemma_component_set_frame(r0, mid, nid, component_id, FactoryComponent::Cache(t), 2, 8);
            assert(depot_of(mid) == depot_of(r0));
        }
        let depot = region.inventory_mut(2, 8).unwrap();
        let item = ItemSlot { item_id: item_id.to_owned(), count: 1, inst_id: 0 };
        stack_into_bag(depot, item);
        Ok(())
    }
}

/// Items on conveyor belt `cid` of node `nid`.
pub open spec fn belt_items(r: FactoryRegion, nid: u32, cid: u32) -> Seq<ConveyorItem> {
    match comp_of(r.nodes@, nid, cid) {
        FactoryComponent::BoxConveyor(s) => s.items@,
        _ => Seq::empty(),
    }
}

/// Items picked up from a belt: all of them, or the one at `index` when it
/// exists.
pub open spec fn belt_taken(items: Seq<ConveyorItem>, index: i32, all: bool) -> Seq<ConveyorItem> {
    if all {
        items
    } else if 0 <= index < items.len() {
        seq![items[index as int]]
    } else {
        Seq::empty()
    }
}

/// Items left on a belt after `belt_taken`.
pub open spec fn belt_left(items: Seq<ConveyorItem>, index: i32, all: bool) -> Seq<ConveyorItem> {
    if all {
        Seq::empty()
    } else if 0 <= index < items.len() {
        items.remove(index as int)
    } else {
        items
    }
}

/// The stacks carried by belt items.
pub open spec fn carried(items: Seq<ConveyorItem>) -> Seq<SlotView> {
    items.map_values(|ci: ConveyorItem| ci.item@)
}

/// `new` is `old` with belt `cid` of node `nid` carrying `s` (its
/// direction unchanged).
pub open spec fn belt_updated(old: FactoryRegion, new: FactoryRegion, nid: u32, cid: u32, s: Seq<ConveyorItem>) -> bool {
    exists|t: BoxConveyorState|
        #[trigger] component_set(old, new, nid, cid, FactoryComponent::BoxConveyor(t)) && t.items@ == s && (comp_of(
            old.nodes@,
            nid,
            cid,
        ) matches FactoryComponent::BoxConveyor(b) && t.direction == b.direction)
}

/// Outcome of `move_conveyor_to_bag` on a present region.
pub open spec fn conveyor_to_bag_outcome(
    old: FactoryRegion,
    new: FactoryRegion,
    cid: u32,
    index: i32,
    all: bool,
    r: Result<(), GridBoxError>,
) -> bool {
    match r {
        Err(GridBoxError::SlotEmpty) => (!kind_placed(old.nodes@, cid, FCComponentType::BoxConveyor) || exists|nid: u32|
            #[trigger] holds_kind(old.nodes@, nid, cid, FCComponentType::BoxConveyor) && belt_taken(
                belt_items(old, nid, cid),
                index,
                all,
            ).len() == 0) && new == old,
        Err(e) => exists|nid: u32|
            #[trigger] holds_kind(old.nodes@, nid, cid, FCComponentType::BoxConveyor) && belt_taken(
                belt_items(old, nid, cid),
                index,
                all,
            ).len() > 0 && belt_updated(old, new, nid, cid, belt_left(belt_items(old, nid, cid), index, all))
                && inv_error(new, 1, 1, GridBoxError::InventoryNodeMissing) == Some(e),
        Ok(()) => exists|nid: u32, mid: FactoryRegion|
            #[trigger] belt_updated(old, mid, nid, cid, belt_left(belt_items(old, nid, cid), index, all)) && holds_kind(
                old.nodes@,
                nid,
                cid,
                FCComponentType::BoxConveyor,
            ) && belt_taken(belt_items(old, nid, cid), index, all).len() > 0 && inv_error(
                mid,
                1,
                1,
                GridBoxError::InventoryNodeMissing,
            ) is None && exists|out: Map<u32, SlotView>|
                #[trigger] inv_updated(mid, new, 1, 1, out) && stacked_all(
                    bag_view(bag_of(mid)),
                    out,
                    carried(belt_taken(belt_items(old, nid, cid), index, all)),
                ),
    }
}

/// Stacks `items` into a bag one after another (see `stacked_all`).
fn stack_all_into_bag(inv: &mut InventoryState, items: &Vec<ConveyorItem>)
    requires
        stack_all_fits(bag_view(old(inv).items@), carried(items@)),
    ensures
        stacked_all(bag_view(old(inv).items@), bag_view(final(inv).items@), carried(items@)),
{
    let ghost m0 = bag_view(inv.items@);
    let ghost cs = carried(items@);
    let ghost mut ms: Seq<Map<u32, SlotView>> = seq![m0];
    let mut i: usize = 0;
    proof {
        assert(stacked_chain(ms, cs.subrange(0, 0)));
    }
    while i < items.len()
        invariant
            0 <= i <= items@.len(),
            cs == carried(items@),
            m0 == bag_view(old(inv).items@),
            stack_all_fits(m0, cs),
            stacked_chain(ms, cs.subrange(0, i as int)),
            ms[0] == m0,
            ms.last() == bag_view(inv.items@),
        decreases items@.len() - i,
    {
        let ghost cur = bag_view(inv.items@);
        proof {
            assert(stacked_all(m0, cur, cs.subrange(0, i as int)));
            assert(cs[i as int] == items@[i as int].item@);
            assert(stack_fits(cur, cs[i as int]));
        }
        let item = items[i].item.clone();
        stack_into_bag(inv, item);
        proof {
            let ms2 = ms.push(bag_view(inv.items@));
            let q = cs.subrange(0, i as int + 1);
            assert forall|j: int| 0 <= j < q.len() implies #[trigger] stacked_into(ms2[j], ms2[j + 1], q[j]) by {
                if j < i {
                    assert(q[j] == cs.subrange(0, i as int)[j]);
                    assert(stacked_into(ms[j], ms[j + 1], cs.subrange(0, i as int)[j]));
                }
            }
            ms = ms2;
        }
        i += 1;
    }
    proof {
        assert(cs.subrange(0, i as int) =~= cs);
    }
}

impl FactoryManager {
    /// Picks up every item (`all`) or the item at `index` from the first
    /// conveyor belt `component_id` and stacks them into the bag one after
    /// another (see `stacked_all`). The items leave the belt before the bag
    /// is checked.
    pub fn move_conveyor_to_bag(&mut self, region_name: &str, component_id: u32, index: i32, all: bool) -> (r: Result<(), GridBoxError>)
        requires
            old(self).regions@.contains_key(region_name@) ==> forall|nid: u32|
                #[trigger] holds_kind(old(self).regions@[region_name@].nodes@, nid, component_id, FCComponentType::BoxConveyor)
                    ==> stack_all_fits(
                    bag_view(bag_of(old(self).regions@[region_name@])),
                    carried(belt_taken(belt_items(old(self).regions@[region_name@], nid, component_id), index, all)),
                ),
        ensures
            !old(self).regions@.contains_key(region_name@) ==> r == Err::<(), GridBoxError>(GridBoxError::RegionNotFound)
                && unchanged(*old(self), *final(self)),
            old(self).regions@.contains_key(region_name@) ==> region_changed(*old(self), *final(self), region_name@)
                && conveyor_to_bag_outcome(
                old(self).regions@[region_name@],
                final(self).regions@[region_name@],
                component_id,
                index,
                all,
                r,
            ),
    {
        let region = match self.region_mut(region_name) {
            Some(g) => g,
            None => return Err(GridBoxError::RegionNotFound),
        };
        let ghost r0 = *region;
        let nid = match region.find_kind_node(component_id, FCComponentType::BoxConveyor) {
            Some(n) => n,
            None => return Err(GridBoxError::SlotEmpty),
        };
        let len = match region.nodes.get(&nid) {
            Some(node) => match node.component(component_id) {
                Some(FactoryComponent::BoxConveyor(state)) => state.items.len(),
                _ => 0,
            },
            None => 0,
        };
        proof {
            assert(len == belt_items(r0, nid, component_id).len());
        }
        if (all && len == 0) || (!all && !(index >= 0 && (index as usize) < len)) {
            return Err(GridBoxError::SlotEmpty);
        }
        let c = region.component_in_mut(nid, component_id).unwrap();
        let mut moved: Vec<ConveyorItem> = Vec::new();
        match c {
            FactoryComponent::BoxConveyor(state) => {
                let ghost b = state.items@;
                if all {
                    std::mem::swap(&mut moved, &mut state.items);
                    proof {
                        assert(moved@ == belt_taken(b, index, all));
                        assert(state.items@ == belt_left(b, index, all));
                    }
                } else {
                    let it = state.items.remove(index as usize);
                    moved.push(it);
                    proof {
                        assert(moved@ =~= belt_taken(b, index, all));
                        assert(state.items@ == belt_left(b, index, all));
                    }
                }
            },
            _ => {},
        }
        let ghost mid = *region;
        match region.inv_check(1, 1, GridBoxError::InventoryNodeMissing) {
            Some(e) => return Err(e),
            None => {},
        }
        proof {
            let t = choose|t: BoxConveyorState| #[trigger] component_set(r0, mid, nid, component_id, FactoryComponent::BoxConveyor(t)) && t.items@ == belt_left(belt_items(r0, nid, component_id), index, all) && (comp_of(r0.nodes@, nid, component_id) matches FactoryComponent::BoxConveyor(b) && t.direction == b.direction);
            lemma_component_set_frame(r0, mid, nid, component_id, FactoryComponent::BoxConveyor(t), 1, 1);
            assert(bag_of(mid) == bag_of(r0));
            assert(belt_updated(r0, mid, nid, component_id, belt_left(belt_items(r0, nid, component_id), index, all)));
            assert(carried(moved@) == carried(belt_taken(belt_items(r0, nid, component_id), index, all)));
        }
        let bag = region.inventory_mut(1, 1).unwrap();
        stack_all_into_bag(bag, &moved);
        proof {
            assert(exists|out: Map<u32, SlotView>|
                #[trigger] inv_updated(mid, *region, 1, 1, out) && stacked_all(
                    bag_view(bag_of(mid)),
                    out,
                    carried(belt_taken(belt_items(r0, nid, component_id), index, all)),
                ));
        }
        Ok(())
    }
}

// ---------------------------------------------------------------------
// Cache transport
// ---------------------------------------------------------------------

/// Key `k` is a node whose own id is `id`.
pub open spec fn node_with_id(nodes: Map<u32, FactoryNode>, k: u32, id: u32) -> bool {
    nodes.contains_key(k) && nodes[k].node_id == id
}

/// Index of the first cache component at or after `i` whose first slot
/// holds something.
pub open spec fn first_source_cache(comps: Seq<(u32, FactoryComponent)>, i: int) -> Option<int>
    decreases comps.len() - i,
{
    if i < 0 || i >= comps.len() {
        None
    } else if comps[i].1 matches FactoryComponent::Cache(s) && s.items@.len() > 0 && s.items@[0].count > 0 {
        Some(i)
    } else {
        first_source_cache(comps, i + 1)
    }
}

/// Index of the first cache component at or after `i`.
pub open spec fn first_cache(comps: Seq<(u32, FactoryComponent)>, i: int) -> Option<int>
    decreases comps.len() - i,
{
    if i < 0 || i >= comps.len() {
        None
    } else if comps[i].1 is Cache {
        Some(i)
    } else {
        first_cache(comps, i + 1)
    }
}

/// Slots of the cache at component index `j` of a node.
pub open spec fn cache_at(n: FactoryNode, j: int) -> Seq<SlotView> {
    match n.components@[j].1 {
        FactoryComponent::Cache(s) => slots_view(s.items@),
        _ => Seq::empty(),
    }
}

/// `new` is `old` with the cache at component index `j` of node `k`
/// holding slots `v` (ports unchanged).
pub open spec fn cache_index_updated(old: FactoryRegion, new: FactoryRegion, k: u32, j: int, v: Seq<SlotView>) -> bool {
    &&& old.nodes@.contains_key(k)
    &&& new.nodes@.contains_key(k)
    &&& region_node_set(old, new, k, new.nodes@[k])
    &&& 0 <= j < old.nodes@[k].components@.len()
    &&& exists|t: CacheState|
        #[trigger] new.nodes@[k].components@ == old.nodes@[k].components@.update(
            j,
            (old.nodes@[k].components@[j].0, FactoryComponent::Cache(t)),
        ) && slots_view(t.items@) == v && (old.nodes@[k].components@[j].1 matches FactoryComponent::Cache(s)
            && t.ports == s.ports)
    &&& new.nodes@[k].node_id == old.nodes@[k].node_id
    &&& new.nodes@[k].node_type == old.nodes@[k].node_type
    &&& new.nodes@[k].template_id == old.nodes@[k].template_id
    &&& new.nodes@[k].transform == old.nodes@[k].transform
    &&& new.nodes@[k].is_deactive == old.nodes@[k].is_deactive
    &&& new.nodes@[k].interactive_object == old.nodes@[k].interactive_object
    &&& new.nodes@[k].dynamic_property == old.nodes@[k].dynamic_property
    &&& new.nodes@[k].component_pos == old.nodes@[k].component_pos
}

/// A cache after one item leaves its first slot (the slot goes when empty).
pub open spec fn took_first(v: Seq<SlotView>) -> Seq<SlotView> {
    if v[0].1 == 1 {
        v.remove(0)
    } else {
        v.update(0, (v[0].0, (v[0].1 - 1) as u32, v[0].2))
    }
}

/// A cache after receiving one `item`: onto its first stack of that item,
/// or appended as a new stack.
pub open spec fn received_one(v: Seq<SlotView>, item: SlotView) -> Seq<SlotView> {
    match first_item_from(v, item.0, 0) {
        Some(i) => v.update(i, (v[i].0, (v[i].1 + 1) as u32, v[i].2)),
        None => v.push((item.0, 1u32, item.2)),
    }
}

/// One `item` left node `src`'s first cache with something in its first
/// slot, turning `old` into `mid`.
pub open spec fn source_taken(old: FactoryRegion, mid: FactoryRegion, src: u32, item: SlotView) -> bool {
    exists|k: u32, j: int|
        #[trigger] cache_index_updated(old, mid, k, j, took_first(cache_at(old.nodes@[k], j))) && node_with_id(
            old.nodes@,
            k,
            src,
        ) && first_source_cache(old.nodes@[k].components@, 0) == Some(j) && item == (
            cache_at(old.nodes@[k], j)[0].0,
            1u32,
            cache_at(old.nodes@[k], j)[0].2,
        )
}

/// The source node (some node with id `src`) has nothing to give.
pub open spec fn source_dry(old: FactoryRegion, src: u32) -> bool {
    (forall|k: u32| !#[trigger] node_with_id(old.nodes@, k, src)) || exists|k: u32|
        #[trigger] node_with_id(old.nodes@, k, src) && first_source_cache(old.nodes@[k].components@, 0) is None
}

/// `item` reached the first cache of the target node (some node with id
/// `tgt`), turning `mid` into `new`.
pub open spec fn target_received(mid: FactoryRegion, new: FactoryRegion, tgt: u32, item: SlotView) -> bool {
    exists|k: u32, j: int|
        #[trigger] cache_index_updated(mid, new, k, j, received_one(cache_at(mid.nodes@[k], j), item)) && node_with_id(
            mid.nodes@,
            k,
            tgt,
        ) && first_cache(mid.nodes@[k].components@, 0) == Some(j)
}

/// The target node (some node with id `tgt`) is missing or has no cache.
pub open spec fn target_absent(mid: FactoryRegion, tgt: u32) -> bool {
    (forall|k: u32| !#[trigger] node_with_id(mid.nodes@, k, tgt)) || exists|k: u32|
        #[trigger] node_with_id(mid.nodes@, k, tgt) && first_cache(mid.nodes@[k].components@, 0) is None
}

/// The transport state of component `cid` on node `nid`.
pub open spec fn transport_of(r: FactoryRegion, nid: u32, cid: u32) -> CacheTransportState {
    match comp_of(r.nodes@, nid, cid) {
        FactoryComponent::CacheTransport(s) => s,
        _ => arbitrary(),
    }
}

/// Receiving one more item never overflows the target's matching stack.
pub open spec fn transport_fits(old: FactoryRegion, cid: u32) -> bool {
    forall|nid: u32, mid: FactoryRegion, item: SlotView, k: u32|
        #[trigger] holds_kind(old.nodes@, nid, cid, FCComponentType::CacheTransport) && #[trigger] source_taken(
            old,
            mid,
            transport_of(old, nid, cid).source_node_id,
            item,
        ) && #[trigger] node_with_id(mid.nodes@, k, transport_of(old, nid, cid).target_node_id) && first_cache(
            mid.nodes@[k].components@,
            0,
        ) is Some ==> match first_item_from(
            cache_at(mid.nodes@[k], first_cache(mid.nodes@[k].components@, 0)->0),
            item.0,
            0,
        ) {
            Some(i) => cache_at(mid.nodes@[k], first_cache(mid.nodes@[k].components@, 0)->0)[i].1 < u32::MAX,
            None => true,
        }
}

/// Outcome of `cache_transport_transfer` on a present region.
pub open spec fn transport_outcome(old: FactoryRegion, new: FactoryRegion, cid: u32, r: Result<bool, TargetError>) -> bool {
    match r {
        Err(TargetError::ComponentNotFound) => !component_placed(old.nodes@, cid) && new == old,
        Err(TargetError::WrongComponentType) => exists|nid: u32|
            #[trigger] holds_component(old.nodes@, nid, cid) && comp_of(old.nodes@, nid, cid).spec_component_type()
                != FCComponentType::CacheTransport && new == old,
        Ok(false) => exists|nid: u32|
            #[trigger] holds_kind(old.nodes@, nid, cid, FCComponentType::CacheTransport) && ({
                let t = transport_of(old, nid, cid);
                ||| !t.enabled && new == old
                ||| t.enabled && source_dry(old, t.source_node_id) && new == old
                ||| t.enabled && exists|item: SlotView|
                    #[trigger] source_taken(old, new, t.source_node_id, item) && target_absent(new, t.target_node_id)
            }),
        Ok(true) => exists|nid: u32, mid: FactoryRegion, item: SlotView|
            #[trigger] holds_kind(old.nodes@, nid, cid, FCComponentType::CacheTransport) && transport_of(
                old,
                nid,
                cid,
            ).enabled && #[trigger] source_taken(old, mid, transport_of(old, nid, cid).source_node_id, item)
                && target_received(mid, new, transport_of(old, nid, cid).target_node_id, item),
        Err(TargetError::RegionNotFound) => false,
    }
}

/// Index of the first cache component whose first slot holds something.
fn find_source_cache(comps: &Vec<(u32, FactoryComponent)>) -> (r: Option<usize>)
    ensures
        match r {
            Some(j) => first_source_cache(comps@, 0) == Some(j as int),
            None => first_source_cache(comps@, 0) is None,
        },
{
    let mut j: usize = 0;
    while j < comps.len()
        invariant
            0 <= j <= comps@.len(),
            first_source_cache(comps@, 0) == first_source_cache(comps@, j as int),
        decreases comps@.len() - j,
    {
        match &comps[j].1 {
            FactoryComponent::Cache(s) => {
                if s.items.len() > 0 && s.items[0].count > 0 {
                    return Some(j);
                }
            },
            _ => {},
        }
        j += 1;
    }
    None
}

/// Index of the first cache component.
fn find_first_cache(comps: &Vec<(u32, FactoryComponent)>) -> (r: Option<usize>)
    ensures
        match r {
            Some(j) => first_cache(comps@, 0) == Some(j as int),
            None => first_cache(comps@, 0) is None,
        },
{
    let mut j: usize = 0;
    while j < comps.len()
        invariant
            0 <= j <= comps@.len(),
            first_cache(comps@, 0) == first_cache(comps@, j as int),
        decreases comps@.len() - j,
    {
        match &comps[j].1 {
            FactoryComponent::Cache(_) => {
                return Some(j);
            },
            _ => {},
        }
        j += 1;
    }
    None
}

proof fn lemma_first_cache_bounds(comps: Seq<(u32, FactoryComponent)>, i: int)
    requires
        0 <= i,
    ensures
        first_cache(comps, i) matches Some(j) ==> i <= j < comps.len() && comps[j].1 is Cache,
        first_source_cache(comps, i) matches Some(j) ==> i <= j < comps.len() && (comps[j].1 matches FactoryComponent::Cache(s)
            && s.items@.len() > 0 && s.items@[0].count > 0),
    decreases comps.len() - i,
{
    if i < comps.len() {
        lemma_first_cache_bounds(comps, i + 1);
    }
}

impl FactoryRegion {
    /// Some node whose own id is `id`, in the node map's iteration order.
    fn find_node_by_id(&self, id: u32) -> (r: Option<u32>)
        ensures
            match r {
                Some(k) => node_with_id(self.nodes@, k, id),
                None => forall|k: u32| !#[trigger] node_with_id(self.nodes@, k, id),
            },
    {
        let keys = crate::util::map_keys(&self.nodes);
        let mut i: usize = 0;
        while i < keys.len()
            invariant
                0 <= i <= keys.len(),
                keys@.to_set() == self.nodes@.dom(),
                forall|j: int| 0 <= j < i ==> !node_with_id(self.nodes@, #[trigger] keys@[j], id),
            decreases keys.len() - i,
        {
            let k = keys[i];
            proof {
                assert(keys@.to_set().contains(k));
            }
            match self.nodes.get(&k) {
                Some(node) => {
                    if node.node_id == id {
                        return Some(k);
                    }
                },
                None => {},
            }
            i += 1;
        }
        proof {
            assert forall|k: u32| !#[trigger] node_with_id(self.nodes@, k, id) by {
                if self.nodes@.contains_key(k) {
                    assert(keys@.to_set().contains(k));
                    let j = choose|j: int| 0 <= j < keys@.len() && keys@[j] == k;
                    assert(!node_with_id(self.nodes@, keys@[j], id));
                }
            }
        }
        None
    }

    /// Takes one item from the first slot of the cache at component index
    /// `j` of node `k`, returning the item's id and instance.
    fn take_first_at(&mut self, k: u32, j: usize) -> (r: ItemSlot)
        requires
            node_with_id(old(self).nodes@, k, old(self).nodes@[k].node_id),
            first_source_cache(old(self).nodes@[k].components@, 0) == Some(j as int),
        ensures
            cache_index_updated(*old(self), *final(self), k, j as int, took_first(cache_at(old(self).nodes@[k], j as int))),
            r@ == (cache_at(old(self).nodes@[k], j as int)[0].0, 1u32, cache_at(old(self).nodes@[k], j as int)[0].2),
    {
        proof {
            lemma_first_cache_bounds(self.nodes@[k].components@, 0);
        }
        let node = self.node_mut(k).unwrap();
        let ghost n0 = *node;
        let mut out = ItemSlot::empty();
        match &mut node.components[j].1 {
            FactoryComponent::Cache(state) => {
                let ghost v = slots_view(state.items@);
                proof {
                    assert(v[0] == state.items@[0]@);
                }
                out = ItemSlot { item_id: state.items[0].item_id.clone(), count: 1, inst_id: state.items[0].inst_id };
                let left = state.items[0].count - 1;
                if left == 0 {
                    state.items.remove(0);
                } else {
                    let first = &mut state.items[0];
                    first.count = left;
                }
                proof {
                    assert(slots_view(state.items@) =~= took_first(v));
                }
            },
            _ => {},
        }
        out
    }

    /// Adds one `item` to the cache at component index `j` of node `k`
    /// (see `received_one`).
    fn give_one_at(&mut self, k: u32, j: usize, item: ItemSlot)
        requires
            old(self).nodes@.contains_key(k),
            first_cache(old(self).nodes@[k].components@, 0) == Some(j as int),
            item.count == 1,
            match first_item_from(cache_at(old(self).nodes@[k], j as int), item@.0, 0) {
                Some(i) => cache_at(old(self).nodes@[k], j as int)[i].1 < u32::MAX,
                None => true,
            },
        ensures
            cache_index_updated(*old(self), *final(self), k, j as int, received_one(cache_at(old(self).nodes@[k], j as int), item@)),
    {
        proof {
            lemma_first_cache_bounds(self.nodes@[k].components@, 0);
        }
        let node = self.node_mut(k).unwrap();
        match &mut node.components[j].1 {
            FactoryComponent::Cache(state) => {
                let ghost v = slots_view(state.items@);
                let mut i: usize = 0;
                let mut found = false;
                while i < state.items.len()
                    invariant_except_break
                        !found,
                    invariant
                        0 <= i <= state.items@.len(),
                        v == slots_view(state.items@),
                        forall|t: int| 0 <= t < i ==> v[t].0 != item@.0,
                    ensures
                        found ==> i < state.items@.len() && v[i as int].0 == item@.0,
                        !found ==> i == state.items@.len(),
                        forall|t: int| 0 <= t < i ==> v[t].0 != item@.0,
                    decreases state.items@.len() - i,
                {
                    proof {
                        assert(v[i as int] == state.items@[i as int]@);
                    }
                    if state.items[i].item_id == item.item_id {
                        found = true;
                        break;
                    }
                    i += 1;
                }
                proof {
                    super::slots::lemma_first_item_from_pub(v, item@.0, 0);
                }
                if found {
                    let slot = &mut state.items[i];
                    slot.count = slot.count + 1;
                } else {
                    state.items.push(item);
                }
                proof {
                    assert(slots_view(state.items@) =~= received_one(v, item@));
                }
            },
            _ => {},
        }
    }
}

impl FactoryManager {
    /// Moves one item from the source node's first cache with something in
    /// its first slot to the target node's first cache, as configured on
    /// cache transport `component_id`. Returns whether an item arrived:
    /// false when the transport is off, the source has nothing, or the
    /// target has no cache (the item is then lost).
    pub fn cache_transport_transfer(&mut self, region_name: &str, component_id: u32) -> (r: Result<bool, TargetError>)
        requires
            old(self).regions@.contains_key(region_name@) ==> transport_fits(old(self).regions@[region_name@], component_id),
        ensures
            !old(self).regions@.contains_key(region_name@) ==> r == Err::<bool, TargetError>(TargetError::RegionNotFound)
                && unchanged(*old(self), *final(self)),
            old(self).regions@.contains_key(region_name@) ==> region_changed(*old(self), *final(self), region_name@)
                && transport_outcome(old(self).regions@[region_name@], final(self).regions@[region_name@], component_id, r),
    {
        let region = match self.region_mut(region_name) {
            Some(g) => g,
            None => return Err(TargetError::RegionNotFound),
        };
        let ghost r0 = *region;
        let nid = match region.find_component_node(component_id) {
            Some(n) => n,
            None => return Err(TargetError::ComponentNotFound),
        };
        let (enabled, source_id, target_id) = match region.nodes.get(&nid) {
            Some(node) => match node.component(component_id) {
                Some(FactoryComponent::CacheTransport(state)) => (state.enabled, state.source_node_id, state.target_node_id),
                _ => return Err(TargetError::WrongComponentType),
            },
            None => return Err(TargetError::ComponentNotFound),
        };
        proof {
            assert(holds_kind(r0.nodes@, nid, component_id, FCComponentType::CacheTransport));
        }
        if !enabled {
            return Ok(false);
        }
        let k = match region.find_node_by_id(source_id) {
            Some(k) => k,
            None => return Ok(false),
        };
        let j = match find_source_cache(&region.nodes.get(&k).unwrap().components) {
            Some(j) => j,
            None => return Ok(false),
        };
        let item = region.take_first_at(k, j);
        let ghost mid = *region;
        proof {
            assert(source_taken(r0, mid, source_id, item@));
        }
        let k2 = match region.find_node_by_id(target_id) {
            Some(k2) => k2,
            None => return Ok(false),
        };
        let j2 = match find_first_cache(&region.nodes.get(&k2).unwrap().components) {
            Some(j2) => j2,
            None => return Ok(false),
        };
        proof {
            assert(node_with_id(mid.nodes@, k2, target_id));
            assert(first_cache(mid.nodes@[k2].components@, 0) is Some);
        }
        region.give_one_at(k2, j2, item);
        Ok(true)
    }
}

/// What slot `s` holds of item `id` under instance `inst`.
pub open spec fn slot_part(s: SlotView, id: Seq<char>, inst: u32) -> int {
    if s.0 == id && s.2 == inst { s.1 as int } else { 0 }
}

/// Total count of item `id` under instance `inst` over the slots `v`.
pub open spec fn stack_count(v: Seq<SlotView>, id: Seq<char>, inst: u32) -> int
    decreases v.len(),
{
    if v.len() == 0 {
        0
    } else {
        stack_count(v.drop_last(), id, inst) + slot_part(v.last(), id, inst)
    }
}

proof fn lemma_stack_count_update(v: Seq<SlotView>, k: int, e: SlotView, id: Seq<char>, inst: u32)
    requires
        0 <= k < v.len(),
    ensures
        stack_count(v.update(k, e), id, inst) == stack_count(v, id, inst) - slot_part(v[k], id, inst) + slot_part(e, id, inst),
    decreases v.len(),
{
    let u = v.update(k, e);
    if k == v.len() - 1 {
        assert(u.drop_last() =~= v.drop_last());
    } else {
        lemma_stack_count_update(v.drop_last(), k, e, id, inst);
        assert(u.drop_last() =~= v.drop_last().update(k, e));
    }
}

proof fn lemma_stack_count_concat(a: Seq<SlotView>, b: Seq<SlotView>, id: Seq<char>, inst: u32)
    ensures
        stack_count(a + b, id, inst) == stack_count(a, id, inst) + stack_count(b, id, inst),
    decreases b.len(),
{
    if b.len() == 0 {
        assert(a + b =~= a);
    } else {
        lemma_stack_count_concat(a, b.drop_last(), id, inst);
        assert((a + b).drop_last() =~= a + b.drop_last());
    }
}

proof fn lemma_stack_count_empties(b: Seq<SlotView>, id: Seq<char>, inst: u32)
    requires
        forall|j: int| 0 <= j < b.len() ==> #[trigger] b[j] == empty_slot(),
    ensures
        stack_count(b, id, inst) == 0,
    decreases b.len(),
{
    if b.len() > 0 {
        lemma_stack_count_empties(b.drop_last(), id, inst);
    }
}

proof fn lemma_stack_count_padded(v: Seq<SlotView>, n: int, id: Seq<char>, inst: u32)
    ensures
        stack_count(padded(v, n), id, inst) == stack_count(v, id, inst),
{
    if n > v.len() {
        let b = Seq::new((n - v.len()) as nat, |i: int| empty_slot());
        lemma_stack_count_concat(v, b, id, inst);
        lemma_stack_count_empties(b, id, inst);
    }
}

/// Moving one slot onto another inside a grid box loses and creates
/// nothing: for every item and instance, the box holds the same total
/// before and after (moving a slot onto itself is left out: a stack merged
/// onto itself is cleared).
pub proof fn lemma_inner_move_conserves(v: Seq<SlotView>, from: int, to: int, id: Seq<char>, inst: u32)
    requires
        0 <= from < v.len(),
        0 <= to,
        from != to,
        inner_move_safe(v, from, to),
    ensures
        stack_count(inner_move_result(v, from, to), id, inst) == stack_count(v, id, inst),
{
    if to >= v.len() {
        let w = padded(v, to + 1);
        lemma_stack_count_padded(v, to + 1, id, inst);
        assert(w[from] == v[from]);
        assert(w[to] == empty_slot());
        lemma_stack_count_update(w, to, v[from], id, inst);
        let w1 = w.update(to, v[from]);
        lemma_stack_count_update(w1, from, empty_slot(), id, inst);
    } else if v[to].0 == v[from].0 && v[to].2 == v[from].2 && v[to].0.len() > 0 {
        let e = (v[to].0, (v[to].1 + v[from].1) as u32, v[to].2);
        lemma_stack_count_update(v, to, e, id, inst);
        let w1 = v.update(to, e);
        assert(w1[from] == v[from]);
        lemma_stack_count_update(w1, from, empty_slot(), id, inst);
    } else {
        lemma_stack_count_update(v, from, v[to], id, inst);
        let w1 = v.update(from, v[to]);
        assert(w1[to] == v[to]);
        lemma_stack_count_update(w1, to, v[from], id, inst);
    }
}

/// Splitting part of a slot onto another inside a grid box loses and
/// creates nothing: for every item and instance the box holds the same
/// total before and after (a destination with no item is taken to hold
/// nothing).
pub proof fn lemma_inner_split_conserves(v: Seq<SlotView>, from: i32, to: i32, c: i32, id: Seq<char>, inst: u32)
    requires
        split_ok(v, from, to, c),
        split_dest_ok(split_pad(v, to as int), from as int, to as int),
        split_safe(v, from as int, to as int, c as int),
        to < v.len() && v[to as int].0.len() == 0 ==> v[to as int].1 == 0,
    ensures
        stack_count(split_result(v, from as int, to as int, c as int), id, inst) == stack_count(v, id, inst),
{
    let f = from as int;
    let t = to as int;
    let w = split_pad(v, t);
    lemma_stack_count_padded(v, t + 1, id, inst);
    assert(w[f] == v[f]);
    if t >= v.len() {
        assert(w[t] == empty_slot());
    } else {
        assert(w[t] == v[t]);
    }
    let w1 = split_src(w, f, c as int);
    lemma_stack_count_update(w, f, (w[f].0, (w[f].1 - c) as u32, w[f].2), id, inst);
    let e = (w1[f].0, (w1[t].1 + c) as u32, w1[f].2);
    lemma_stack_count_update(w1, t, e, id, inst);
    let w2 = w1.update(t, e);
    if w2[f].1 == 0 {
        lemma_stack_count_update(w2, f, empty_slot(), id, inst);
    }
}

} // verus!
