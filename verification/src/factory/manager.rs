//! `FactoryManager`: one per player. Holds every region and the per-region
//! machine tables, which are keyed by region wire name rather than stored
//! inside the regions.
use vstd::prelude::*;

use super::blackboard::PowerBlackboard;
use super::component::{
    BusLoaderState, FactoryComponent, InventoryState, PowerPoleState, PowerSaveState,
    SelectorState, StablePowerState,
};
use super::node::{FactoryNode, InteractiveObject, Mesh, NodeTransform};
use super::region::FactoryRegion;
use super::{GridPos, GridRange,
    CharacterWorkState, ManualWorkQueue, ManufactureMachine, ProcessorMachine, QUICKBAR_SIZE,
    QuickbarState, RecyclerMachine, SoilMachine, SttState, TradeMachine, WorkshopMachine,
};
use crate::enums::{FCComponentPos, FCDirection, FCMeshType, FCNodeType};
use crate::strmap::StrMap;

verus! {

/// All factory state of one player.
#[derive(Debug)]
pub struct FactoryManager {
    /// Wire name of the region the client considers active.
    pub current_region: String,
    pub regions: StrMap<FactoryRegion>,
    pub quickbars: Vec<QuickbarState>,
    pub stt_state: SttState,
    pub manufacture_state: StrMap<ManufactureMachine>,
    pub processor_state: StrMap<ProcessorMachine>,
    pub recycler_state: StrMap<RecyclerMachine>,
    pub trade_state: StrMap<TradeMachine>,
    pub workshop_state: StrMap<WorkshopMachine>,
    pub soil_state: StrMap<SoilMachine>,
    pub manual_work_state: ManualWorkQueue,
    pub character_work_state: CharacterWorkState,
}

/// A quickbar page as its type and the item ids of its slots.
pub open spec fn page_view(q: QuickbarState) -> (i32, Seq<Seq<char>>) {
    (q.quickbar_type, q.items@.map_values(|s: String| s@))
}

/// All quickbar pages, by `page_view`.
pub open spec fn pages_view(qs: Seq<QuickbarState>) -> Seq<(i32, Seq<Seq<char>>)> {
    qs.map_values(|q: QuickbarState| page_view(q))
}

/// A page of `QUICKBAR_SIZE` empty slots.
pub open spec fn empty_page() -> Seq<Seq<char>> {
    Seq::new(QUICKBAR_SIZE as nat, |i: int| Seq::<char>::empty())
}

/// Index of the first page of type `t` at or after `i`.
pub open spec fn first_page_from(pages: Seq<(i32, Seq<Seq<char>>)>, t: i32, i: int) -> Option<int>
    decreases pages.len() - i,
{
    if i >= pages.len() || i < 0 {
        None
    } else if pages[i].0 == t {
        Some(i)
    } else {
        first_page_from(pages, t, i + 1)
    }
}

/// Index of the first page of type `t`.
pub open spec fn first_page(pages: Seq<(i32, Seq<Seq<char>>)>, t: i32) -> Option<int> {
    first_page_from(pages, t, 0)
}

/// Whether `index` addresses a slot of a page.
pub open spec fn is_slot_index(index: i32) -> bool {
    0 <= index < QUICKBAR_SIZE
}

/// The pages after `quickbar_set_one(t, index, item)` with a valid index.
pub open spec fn pages_after_set(pages: Seq<(i32, Seq<Seq<char>>)>, t: i32, index: int, item: Seq<char>) -> Seq<(i32, Seq<Seq<char>>)> {
    match first_page(pages, t) {
        Some(k) => pages.update(k, (t, pages[k].1.update(index, item))),
        None => pages.push((t, empty_page().update(index, item))),
    }
}

/// The pages after `quickbar_move_one(t, from, to)` on a present page.
pub open spec fn pages_after_move(pages: Seq<(i32, Seq<Seq<char>>)>, k: int, from: int, to: int) -> Seq<(i32, Seq<Seq<char>>)> {
    let items = pages[k].1;
    pages.update(k, (pages[k].0, items.update(from, items[to]).update(to, items[from])))
}

/// Every page holds exactly `QUICKBAR_SIZE` slots.
pub open spec fn pages_sized(pages: Seq<(i32, Seq<Seq<char>>)>) -> bool {
    forall|k: int| 0 <= k < pages.len() ==> #[trigger] pages[k].1.len() == QUICKBAR_SIZE
}

/// Setting or swapping quickbar slots keeps every page at exactly
/// `QUICKBAR_SIZE` slots.
pub proof fn lemma_quickbar_pages_keep_size(
    pages: Seq<(i32, Seq<Seq<char>>)>,
    t: i32,
    index: int,
    item: Seq<char>,
    k: int,
    from: int,
    to: int,
)
    requires
        pages_sized(pages),
        0 <= index < QUICKBAR_SIZE,
        0 <= from < QUICKBAR_SIZE,
        0 <= to < QUICKBAR_SIZE,
    ensures
        pages_sized(pages_after_set(pages, t, index, item)),
        0 <= k < pages.len() ==> pages_sized(pages_after_move(pages, k, from, to)),
{
    lemma_first_page_from(pages, t, 0);
    let after = pages_after_set(pages, t, index, item);
    assert forall|j: int| 0 <= j < after.len() implies #[trigger] after[j].1.len() == QUICKBAR_SIZE by {
        if j < pages.len() {
            assert(pages[j].1.len() == QUICKBAR_SIZE);
        }
    }
    if 0 <= k < pages.len() {
        let moved = pages_after_move(pages, k, from, to);
        assert forall|j: int| 0 <= j < moved.len() implies #[trigger] moved[j].1.len() == QUICKBAR_SIZE by {
            assert(pages[j].1.len() == QUICKBAR_SIZE);
        }
    }
}

proof fn lemma_first_page_from(pages: Seq<(i32, Seq<Seq<char>>)>, t: i32, i: int)
    requires
        0 <= i,
    ensures
        match first_page_from(pages, t, i) {
            Some(k) => i <= k < pages.len() && pages[k].0 == t && forall|j: int| i <= j < k ==> pages[j].0 != t,
            None => forall|j: int| i <= j < pages.len() ==> pages[j].0 != t,
        },
    decreases pages.len() - i,
{
    if i < pages.len() && pages[i].0 != t {
        lemma_first_page_from(pages, t, i + 1);
    }
}

/// A page of `QUICKBAR_SIZE` empty slots.
fn new_empty_page() -> (r: Vec<String>)
    ensures
        r@.len() == QUICKBAR_SIZE,
        r@.map_values(|s: String| s@) == empty_page(),
{
    let mut items: Vec<String> = Vec::new();
    while items.len() < QUICKBAR_SIZE
        invariant
            items@.len() <= QUICKBAR_SIZE,
            forall|j: int| 0 <= j < items@.len() ==> #[trigger] items@[j]@ == Seq::<char>::empty(),
        decreases QUICKBAR_SIZE - items@.len(),
    {
        items.push(String::new());
    }
    assert(items@.map_values(|s: String| s@) =~= empty_page());
    items
}

/// Index of the first page of type `t`, by a linear scan.
fn find_page(quickbars: &Vec<QuickbarState>, t: i32) -> (r: Option<usize>)
    ensures
        match r {
            Some(k) => first_page(pages_view(quickbars@), t) == Some(k as int),
            None => first_page(pages_view(quickbars@), t) is None,
        },
{
    let ghost pages = pages_view(quickbars@);
    let mut i: usize = 0;
    while i < quickbars.len()
        invariant
            0 <= i <= quickbars@.len(),
            pages == pages_view(quickbars@),
            first_page(pages, t) == first_page_from(pages, t, i as int),
        decreases quickbars@.len() - i,
    {
        if quickbars[i].quickbar_type == t {
            return Some(i);
        }
        i += 1;
    }
    None
}

/// `a` and `b` agree on everything but their regions.
pub open spec fn same_but_regions(a: FactoryManager, b: FactoryManager) -> bool {
    &&& a.current_region == b.current_region
    &&& a.quickbars == b.quickbars
    &&& a.stt_state == b.stt_state
    &&& a.manufacture_state == b.manufacture_state
    &&& a.processor_state == b.processor_state
    &&& a.recycler_state == b.recycler_state
    &&& a.trade_state == b.trade_state
    &&& a.workshop_state == b.workshop_state
    &&& a.soil_state == b.soil_state
    &&& a.manual_work_state == b.manual_work_state
    &&& a.character_work_state == b.character_work_state
}

/// The corners of `range`, clockwise from the top-left; the width and
/// height are read as `i32` (a value above `i32::MAX` wraps to a negative
/// one).
pub open spec fn rect_corners(range: GridRange) -> Seq<GridPos> {
    seq![
        GridPos { x: range.x, y: range.y },
        GridPos { x: (range.x + (range.w as i32)) as i32, y: range.y },
        GridPos { x: (range.x + (range.w as i32)) as i32, y: (range.y + (range.h as i32)) as i32 },
        GridPos { x: range.x, y: (range.y + (range.h as i32)) as i32 },
    ]
}

/// The corners of `range` fit in `i32` (see `rect_corners`).
pub open spec fn corners_fit(range: GridRange) -> bool {
    &&& i32::MIN <= range.x + (range.w as i32) <= i32::MAX
    &&& i32::MIN <= range.y + (range.h as i32) <= i32::MAX
}

/// The off-grid inventory node (id 1) that every region starts with: one
/// empty `Inventory` component with id 1, deactivated.
pub open spec fn is_bootstrap_inventory_node(n: FactoryNode, scene_name: Seq<char>) -> bool {
    &&& n.node_id == 1
    &&& n.node_type == FCNodeType::Inventory
    &&& n.template_id@ == "__inventory__"@
    &&& n.transform.position is None
    &&& n.transform.direction == FCDirection::Up
    &&& n.transform.mesh is None
    &&& n.transform.scene_name@ == scene_name
    &&& n.transform.world_position is None
    &&& n.transform.world_rotation is None
    &&& n.transform.bc_port_in is None
    &&& n.transform.bc_port_out is None
    &&& n.is_deactive
    &&& n.interactive_object is None
    &&& n.dynamic_property@.len() == 0
    &&& n.component_pos@ == seq![(FCComponentPos::Inventory, 1u32)]
    &&& n.components@.len() == 1
    &&& n.components@[0].0 == 1
    &&& n.components@[0].1 matches FactoryComponent::Inventory(inv) && inv.items@.len() == 0
}

/// The hub node (id 2): placed at `position` with the rect mesh of `range`,
/// active, bound to interactive object 1, with the seven components hub
/// (2), bus loader (3), power pole (4), battery (5), stable power (6),
/// selector (7) and inventory (8), each registered under its slot. The
/// pole, battery and generator start powered, the battery full.
pub open spec fn is_bootstrap_hub_node(
    n: FactoryNode,
    scene_name: Seq<char>,
    template_id: Seq<char>,
    position: GridPos,
    range: GridRange,
    power_gen: i64,
    power_save_max: i64,
) -> bool {
    &&& n.node_id == 2
    &&& n.node_type == FCNodeType::Hub
    &&& n.template_id@ == template_id
    &&& n.transform.position == Some(position)
    &&& n.transform.direction == FCDirection::Up
    &&& n.transform.mesh matches Some(mesh) && mesh.mesh_type == FCMeshType::Rect && mesh.points@
        == rect_corners(range)
    &&& n.transform.scene_name@ == scene_name
    &&& n.transform.world_position is None
    &&& n.transform.world_rotation is None
    &&& n.transform.bc_port_in is None
    &&& n.transform.bc_port_out is None
    &&& !n.is_deactive
    &&& n.interactive_object == Some(InteractiveObject { object_id: 1 })
    &&& n.dynamic_property@.len() == 0
    &&& n.component_pos@ == seq![
        (FCComponentPos::Hub, 2u32),
        (FCComponentPos::BusLoader, 3u32),
        (FCComponentPos::PowerPole, 4u32),
        (FCComponentPos::PowerSave, 5u32),
        (FCComponentPos::StablePower, 6u32),
        (FCComponentPos::Selector, 7u32),
        (FCComponentPos::Inventory, 8u32),
    ]
    &&& n.components@.len() == 7
    &&& n.components@[0] == (2u32, FactoryComponent::Hub)
    &&& n.components@[1].0 == 3
    &&& n.components@[1].1 matches FactoryComponent::BusLoader(b) && b.last_putin_item_id@.len() == 0
        && b.ports@.len() == 0
    &&& n.components@[2] == (4u32, FactoryComponent::PowerPole(PowerPoleState { in_power: true }))
    &&& n.components@[3] == (5u32, FactoryComponent::PowerSave(
        PowerSaveState { power_save: power_save_max, in_power: true },
    ))
    &&& n.components@[4] == (6u32, FactoryComponent::StablePower(
        StablePowerState { in_power: true, power_gen_per_sec: power_gen },
    ))
    &&& n.components@[5].0 == 7
    &&& n.components@[5].1 matches FactoryComponent::Selector(sel) && sel.selected_item_id@.len() == 0
        && sel.ports@.len() == 0
    &&& n.components@[6].0 == 8
    &&& n.components@[6].1 matches FactoryComponent::Inventory(inv) && inv.items@.len() == 0
}

impl FactoryManager {
    /// Fresh state: current region `"test01"`, no regions or machines, and
    /// both quickbar pages (inner 0, outer 1) pre-seeded with empty slots,
    /// since the client only applies edits to pages it already knows.
    pub fn new() -> (r: Self)
        ensures
            r.current_region@ == "test01"@,
            r.regions@ == Map::<Seq<char>, FactoryRegion>::empty(),
            pages_view(r.quickbars@) == seq![(0i32, empty_page()), (1i32, empty_page())],
            r.stt_state.unlocked_nodes@.len() == 0,
            r.stt_state.visible_formulas@.len() == 0,
            r.manufacture_state@ == Map::<Seq<char>, ManufactureMachine>::empty(),
            r.processor_state@ == Map::<Seq<char>, ProcessorMachine>::empty(),
            r.recycler_state@ == Map::<Seq<char>, RecyclerMachine>::empty(),
            r.trade_state@ == Map::<Seq<char>, TradeMachine>::empty(),
            r.workshop_state@ == Map::<Seq<char>, WorkshopMachine>::empty(),
            r.soil_state@ == Map::<Seq<char>, SoilMachine>::empty(),
            r.manual_work_state.queue@.len() == 0,
            !r.manual_work_state.is_paused,
            r.character_work_state.workers@.len() == 0,
    {
        let mut quickbars: Vec<QuickbarState> = Vec::new();
        quickbars.push(QuickbarState { quickbar_type: 0, items: new_empty_page() });
        quickbars.push(QuickbarState { quickbar_type: 1, items: new_empty_page() });
        proof {
            assert(pages_view(quickbars@) =~= seq![(0i32, empty_page()), (1i32, empty_page())]);
        }
        FactoryManager {
            current_region: "test01".to_owned(),
            regions: StrMap::new(),
            quickbars,
            stt_state: SttState { unlocked_nodes: Vec::new(), visible_formulas: Vec::new() },
            manufacture_state: StrMap::new(),
            processor_state: StrMap::new(),
            recycler_state: StrMap::new(),
            trade_state: StrMap::new(),
            workshop_state: StrMap::new(),
            soil_state: StrMap::new(),
            manual_work_state: ManualWorkQueue { queue: Vec::new(), is_paused: false },
            character_work_state: CharacterWorkState { workers: Vec::new() },
        }
    }

    /// The current region, if it exists yet.
    pub fn current(&self) -> (r: Option<&FactoryRegion>)
        ensures
            match r {
                Some(g) => self.regions@.contains_key(self.current_region@) && *g == self.regions@[self.current_region@],
                None => !self.regions@.contains_key(self.current_region@),
            },
    {
        self.regions.get(self.current_region.as_str())
    }

    /// Mutable access to the current region, if it exists yet.
    pub fn current_mut(&mut self) -> (r: Option<&mut FactoryRegion>)
        ensures
            match r {
                Some(g) => {
                    &&& old(self).regions@.contains_key(old(self).current_region@)
                    &&& *g == old(self).regions@[old(self).current_region@]
                    &&& final(self).regions@ == old(self).regions@.insert(old(self).current_region@, *final(g))
                },
                None => !old(self).regions@.contains_key(old(self).current_region@)
                    && final(self).regions@ == old(self).regions@,
            },
            same_but_regions(*old(self), *final(self)),
    {
        self.regions.get_mut(self.current_region.as_str())
    }

    /// The region with wire name `wire_name`, if it exists.
    pub fn region(&self, wire_name: &str) -> (r: Option<&FactoryRegion>)
        ensures
            match r {
                Some(g) => self.regions@.contains_key(wire_name@) && *g == self.regions@[wire_name@],
                None => !self.regions@.contains_key(wire_name@),
            },
    {
        self.regions.get(wire_name)
    }

    /// Mutable access to the region with wire name `wire_name`.
    pub fn region_mut(&mut self, wire_name: &str) -> (r: Option<&mut FactoryRegion>)
        ensures
            match r {
                Some(g) => {
                    &&& old(self).regions@.contains_key(wire_name@)
                    &&& *g == old(self).regions@[wire_name@]
                    &&& final(self).regions@ == old(self).regions@.insert(wire_name@, *final(g))
                },
                None => !old(self).regions@.contains_key(wire_name@) && final(self).regions@
                    == old(self).regions@,
            },
            same_but_regions(*old(self), *final(self)),
    {
        self.regions.get_mut(wire_name)
    }

    /// Assigns `item_id` to slot `index` of the page of type `qb_type`,
    /// creating the page if it is missing. An empty id clears the slot.
    /// Returns false, changing nothing, when `index` is not a slot.
    pub fn quickbar_set_one(&mut self, qb_type: i32, index: i32, item_id: &str) -> (r: bool)
        requires
            match first_page(pages_view(old(self).quickbars@), qb_type) {
                Some(k) => is_slot_index(index) ==> index < old(self).quickbars@[k].items@.len(),
                None => true,
            },
        ensures
            r == is_slot_index(index),
            r ==> pages_view(final(self).quickbars@) == pages_after_set(
                pages_view(old(self).quickbars@),
                qb_type,
                index as int,
                item_id@,
            ),
            !r ==> final(self).quickbars@ == old(self).quickbars@,
            final(self).regions@ == old(self).regions@,
            final(self).current_region == old(self).current_region,
    {
        if index < 0 || index >= QUICKBAR_SIZE as i32 {
            return false;
        }
        let idx = index as usize;
        let ghost pages = pages_view(self.quickbars@);
        match find_page(&self.quickbars, qb_type) {
            Some(k) => {
                proof {
                    lemma_first_page_from(pages, qb_type, 0);
                }
                let qb = &mut self.quickbars[k];
                qb.items.set(idx, item_id.to_owned());
                proof {
                    assert(pages_view(self.quickbars@) =~= pages_after_set(pages, qb_type, index as int, item_id@)) by {
                        assert(page_view(self.quickbars@[k as int]).1 =~= pages[k as int].1.update(index as int, item_id@));
                    }
                }
            },
            None => {
                let mut items = new_empty_page();
                items.set(idx, item_id.to_owned());
                self.quickbars.push(QuickbarState { quickbar_type: qb_type, items });
                proof {
                    assert(items@.map_values(|s: String| s@) =~= empty_page().update(index as int, item_id@));
                    assert(pages_view(self.quickbars@) =~= pages_after_set(pages, qb_type, index as int, item_id@));
                }
            },
        }
        true
    }

    /// Swaps slots `from_index` and `to_index` of the page of type
    /// `qb_type`. Returns false, changing nothing, when either index is not
    /// a slot or the page is missing.
    pub fn quickbar_move_one(&mut self, qb_type: i32, from_index: i32, to_index: i32) -> (r: bool)
        requires
            match first_page(pages_view(old(self).quickbars@), qb_type) {
                Some(k) => is_slot_index(from_index) && is_slot_index(to_index) ==> from_index
                    < old(self).quickbars@[k].items@.len() && to_index
                    < old(self).quickbars@[k].items@.len(),
                None => true,
            },
        ensures
            r == (is_slot_index(from_index) && is_slot_index(to_index) && first_page(
                pages_view(old(self).quickbars@),
                qb_type,
            ) is Some),
            r ==> pages_view(final(self).quickbars@) == pages_after_move(
                pages_view(old(self).quickbars@),
                first_page(pages_view(old(self).quickbars@), qb_type)->0,
                from_index as int,
                to_index as int,
            ),
            !r ==> final(self).quickbars@ == old(self).quickbars@,
            final(self).regions@ == old(self).regions@,
            final(self).current_region == old(self).current_region,
    {
        if from_index < 0 || from_index >= QUICKBAR_SIZE as i32 || to_index < 0 || to_index
            >= QUICKBAR_SIZE as i32 {
            return false;
        }
        let from = from_index as usize;
        let to = to_index as usize;
        let ghost pages = pages_view(self.quickbars@);
        match find_page(&self.quickbars, qb_type) {
            Some(k) => {
                proof {
                    lemma_first_page_from(pages, qb_type, 0);
                }
                let qb = &mut self.quickbars[k];
                let a = qb.items[from].clone();
                let b = qb.items[to].clone();
                qb.items.set(from, b);
                qb.items.set(to, a);
                proof {
                    assert(pages_view(self.quickbars@) =~= pages_after_move(pages, k as int, from as int, to as int)) by {
                        let items = pages[k as int].1;
                        assert(page_view(self.quickbars@[k as int]).1 =~= items.update(from as int, items[to as int]).update(to as int, items[from as int]));
                    }
                }
                true
            },
            None => false,
        }
    }

    /// The region for `wire_name`, creating it with `make` when it is
    /// missing; `make` runs only then.
    pub fn get_or_bootstrap<F: FnOnce() -> FactoryRegion>(&mut self, wire_name: &str, make: F) -> (r: &mut FactoryRegion)
        requires
            !old(self).regions@.contains_key(wire_name@) ==> call_requires(make, ()),
        ensures
            old(self).regions@.contains_key(wire_name@) ==> *r == old(self).regions@[wire_name@],
            !old(self).regions@.contains_key(wire_name@) ==> call_ensures(make, (), *r),
            final(self).regions@ == old(self).regions@.insert(wire_name@, *final(r)),
            same_but_regions(*old(self), *final(self)),
    {
        if !self.regions.contains_key(wire_name) {
            let region = make();
            self.regions.insert(wire_name.to_owned(), region);
        }
        self.regions.get_mut(wire_name).unwrap()
    }

    /// The region id of scene `scene_name`: the first region that the
    /// level-region table lists for the scene, or `None` when the scene is
    /// unknown or lists none.
    pub fn derive_region_id(level_regions: &StrMap<Vec<String>>, scene_name: &str) -> (r: Option<String>)
        ensures
            match r {
                Some(id) => level_regions@.contains_key(scene_name@) && level_regions@[scene_name@]@.len()
                    > 0 && id@ == level_regions@[scene_name@]@[0]@,
                None => !level_regions@.contains_key(scene_name@) || level_regions@[scene_name@]@.len()
                    == 0,
            },
    {
        match level_regions.get(scene_name) {
            Some(list) => {
                if list.len() > 0 {
                    Some(list[0].clone())
                } else {
                    None
                }
            },
            None => None,
        }
    }

    /// A new region holding the inventory node (id 1) and the hub node
    /// (id 2) with its seven components; node allocation continues at 3 and
    /// the blackboard starts with the hub's generation and a full battery.
    pub fn bootstrap_region(
        wire_name: &str,
        region_id: &str,
        scene_name: &str,
        hub_template_id: &str,
        hub_position: GridPos,
        hub_range: GridRange,
        power_gen: i64,
        power_save_max: i64,
    ) -> (r: FactoryRegion)
        requires
            corners_fit(hub_range),
        ensures
            r.name@ == wire_name@,
            r.region_id@ == region_id@,
            r.scene_name@ == scene_name@,
            r.level == 1,
            r.next_node_id == 3,
            r.blackboard == (PowerBlackboard {
                inventory_node_id: 1,
                power_cost: 0,
                power_gen,
                power_save_max,
                power_save_current: power_save_max,
                is_stop_by_power: false,
            }),
            r.nodes@.dom() == set![1u32, 2u32],
            is_bootstrap_inventory_node(r.nodes@[1], scene_name@),
            is_bootstrap_hub_node(
                r.nodes@[2],
                scene_name@,
                hub_template_id@,
                hub_position,
                hub_range,
                power_gen,
                power_save_max,
            ),
            r.connections@.len() == 0,
            r.production_totals@.len() == 0,
    {
        let mut region = FactoryRegion::new(
            wire_name.to_owned(),
            region_id.to_owned(),
            scene_name.to_owned(),
            1,
        );
        let mut inv_pos: Vec<(FCComponentPos, u32)> = Vec::new();
        inv_pos.push((FCComponentPos::Inventory, 1u32));
        let mut inv_comps: Vec<(u32, FactoryComponent)> = Vec::new();
        inv_comps.push((1u32, FactoryComponent::Inventory(InventoryState::new())));
        let inventory_node = FactoryNode {
            node_id: 1,
            node_type: FCNodeType::Inventory,
            template_id: "__inventory__".to_owned(),
            transform: NodeTransform {
                position: None,
                direction: FCDirection::Up,
                mesh: None,
                scene_name: scene_name.to_owned(),
                world_position: None,
                world_rotation: None,
                bc_port_in: None,
                bc_port_out: None,
            },
            is_deactive: true,
            interactive_object: None,
            dynamic_property: Vec::new(),
            component_pos: inv_pos,
            components: inv_comps,
        };

        let right = hub_range.x + hub_range.w as i32;
        let bottom = hub_range.y + hub_range.h as i32;
        let mut points: Vec<GridPos> = Vec::new();
        points.push(GridPos { x: hub_range.x, y: hub_range.y });
        points.push(GridPos { x: right, y: hub_range.y });
        points.push(GridPos { x: right, y: bottom });
        points.push(GridPos { x: hub_range.x, y: bottom });
        let hub_mesh = Mesh { mesh_type: FCMeshType::Rect, points };

        let mut hub_pos: Vec<(FCComponentPos, u32)> = Vec::new();
        hub_pos.push((FCComponentPos::Hub, 2u32));
        hub_pos.push((FCComponentPos::BusLoader, 3u32));
        hub_pos.push((FCComponentPos::PowerPole, 4u32));
        hub_pos.push((FCComponentPos::PowerSave, 5u32));
        hub_pos.push((FCComponentPos::StablePower, 6u32));
        hub_pos.push((FCComponentPos::Selector, 7u32));
        hub_pos.push((FCComponentPos::Inventory, 8u32));
        let mut hub_comps: Vec<(u32, FactoryComponent)> = Vec::new();
        hub_comps.push((2u32, FactoryComponent::Hub));
        hub_comps.push((3u32, FactoryComponent::BusLoader(BusLoaderState::new())));
        hub_comps.push((4u32, FactoryComponent::PowerPole(PowerPoleState { in_power: true })));
        hub_comps.push(
            (
                5u32,
                FactoryComponent::PowerSave(
                    PowerSaveState { power_save: power_save_max, in_power: true },
                ),
            ),
        );
        hub_comps.push(
            (
                6u32,
                FactoryComponent::StablePower(
                    StablePowerState { in_power: true, power_gen_per_sec: power_gen },
                ),
            ),
        );
        hub_comps.push((7u32, FactoryComponent::Selector(SelectorState::new())));
        hub_comps.push((8u32, FactoryComponent::Inventory(InventoryState::new())));
        let hub_node = FactoryNode {
            node_id: 2,
            node_type: FCNodeType::Hub,
            template_id: hub_template_id.to_owned(),
            transform: NodeTransform {
                position: Some(hub_position),
                direction: FCDirection::Up,
                mesh: Some(hub_mesh),
                scene_name: scene_name.to_owned(),
                world_position: None,
                world_rotation: None,
                bc_port_in: None,
                bc_port_out: None,
            },
            is_deactive: false,
            interactive_object: Some(InteractiveObject { object_id: 1 }),
            dynamic_property: Vec::new(),
            component_pos: hub_pos,
            components: hub_comps,
        };

        region.blackboard = PowerBlackboard::with_hub_power(1, power_gen, power_save_max);
        region.nodes.insert(1, inventory_node);
        region.nodes.insert(2, hub_node);
        region.next_node_id = 3;
        proof {
            assert(region.nodes@.dom() =~= set![1u32, 2u32]);
            assert(region.nodes@[2].transform.mesh->0.points@ =~= rect_corners(hub_range));
            assert(region.nodes@[2].component_pos@ =~= seq![
                (FCComponentPos::Hub, 2u32),
                (FCComponentPos::BusLoader, 3u32),
                (FCComponentPos::PowerPole, 4u32),
                (FCComponentPos::PowerSave, 5u32),
                (FCComponentPos::StablePower, 6u32),
                (FCComponentPos::Selector, 7u32),
                (FCComponentPos::Inventory, 8u32),
            ]);
            assert(region.nodes@[1].component_pos@ =~= seq![(FCComponentPos::Inventory, 1u32)]);
        }
        region
    }
}

} // verus!
