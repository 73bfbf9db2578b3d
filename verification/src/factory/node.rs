//! `FactoryNode` with its geometry types.
use vstd::prelude::*;

use super::GridPos;
use super::component::FactoryComponent;
use crate::enums::{FCComponentPos, FCDirection, FCMeshType, FCNodeType};

verus! {

/// A point in scene space, in thousandths of a scene unit.
#[derive(Debug, Clone, Copy, PartialEq, Eq, Structural)]
pub struct Vector3 {
    pub x: i64,
    pub y: i64,
    pub z: i64,
}

/// A rect or line mesh on the grid. `points` is the corner list for a
/// rect (4 points, clockwise from top-left) or the endpoints of a line.
#[derive(Debug)]
pub struct Mesh {
    pub mesh_type: FCMeshType,
    pub points: Vec<GridPos>,
}

/// An input or output slot of a node for a conveyor belt.
#[derive(Debug, Clone, Copy, PartialEq, Eq, Structural)]
pub struct SubPort {
    pub position: GridPos,
    pub direction: i32,
}

/// Binds a scene interactive object to a node.
#[derive(Debug, Clone, Copy, PartialEq, Eq, Structural)]
pub struct InteractiveObject {
    pub object_id: u32,
}

/// Placement and rendering data of a node. `position` and `mesh` are
/// `None` only for the off-grid inventory node.
#[derive(Debug)]
pub struct NodeTransform {
    pub position: Option<GridPos>,
    pub direction: FCDirection,
    pub mesh: Option<Mesh>,
    pub scene_name: String,
    pub world_position: Option<Vector3>,
    pub world_rotation: Option<Vector3>,
    pub bc_port_in: Option<SubPort>,
    pub bc_port_out: Option<SubPort>,
}

/// A placed building: its components, addressed by component id, and the
/// position slots that name some of them.
#[derive(Debug)]
pub struct FactoryNode {
    pub node_id: u32,
    pub node_type: FCNodeType,
    pub template_id: String,
    pub transform: NodeTransform,
    pub is_deactive: bool,
    pub interactive_object: Option<InteractiveObject>,
    /// Dynamic properties as (property key code, value) pairs.
    pub dynamic_property: Vec<(i32, String)>,
    /// Position slot -> component id; the first entry for a slot counts.
    pub component_pos: Vec<(FCComponentPos, u32)>,
    /// (component id, component); the first entry for an id counts.
    pub components: Vec<(u32, FactoryComponent)>,
}

/// Index of the first component with id `id`, if any.
pub open spec fn first_component_index(comps: Seq<(u32, FactoryComponent)>, id: u32) -> Option<int>
    decreases comps.len(),
{
    if comps.len() == 0 {
        None
    } else if comps.last().0 == id && first_component_index(comps.drop_last(), id) is None {
        Some(comps.len() - 1)
    } else {
        first_component_index(comps.drop_last(), id)
    }
}

/// The component id registered for slot `pos`, if any (first entry wins).
pub open spec fn first_pos_entry(entries: Seq<(FCComponentPos, u32)>, pos: FCComponentPos) -> Option<u32>
    decreases entries.len(),
{
    if entries.len() == 0 {
        None
    } else {
        match first_pos_entry(entries.drop_last(), pos) {
            Some(id) => Some(id),
            None => if entries.last().0 == pos { Some(entries.last().1) } else { None },
        }
    }
}

/// `first_component_index` is the least index holding `id`.
pub proof fn lemma_first_component_index(comps: Seq<(u32, FactoryComponent)>, id: u32)
    ensures
        match first_component_index(comps, id) {
            Some(i) => 0 <= i < comps.len() && comps[i].0 == id && forall|j: int|
                0 <= j < i ==> comps[j].0 != id,
            None => forall|j: int| 0 <= j < comps.len() ==> comps[j].0 != id,
        },
    decreases comps.len(),
{
    if comps.len() > 0 {
        let pre = comps.drop_last();
        lemma_first_component_index(pre, id);
        assert(forall|j: int| 0 <= j < pre.len() ==> pre[j] == comps[j]);
    }
}

/// Replacing the component at one index, keeping its id, keeps the first
/// index of every id.
pub proof fn lemma_first_index_update(comps: Seq<(u32, FactoryComponent)>, i: int, c: FactoryComponent, id: u32)
    requires
        0 <= i < comps.len(),
    ensures
        first_component_index(comps.update(i, (comps[i].0, c)), id) == first_component_index(comps, id),
    decreases comps.len(),
{
    let t = comps.update(i, (comps[i].0, c));
    if i < comps.len() - 1 {
        assert(t.drop_last() == comps.drop_last().update(i, (comps.drop_last()[i].0, c)));
        lemma_first_index_update(comps.drop_last(), i, c, id);
    } else {
        assert(t.drop_last() == comps.drop_last());
    }
}

/// Finds the first index holding `id` by a linear scan.
pub fn find_component_index(comps: &Vec<(u32, FactoryComponent)>, id: u32) -> (r: Option<usize>)
    ensures
        match r {
            Some(i) => first_component_index(comps@, id) == Some(i as int),
            None => first_component_index(comps@, id) is None,
        },
{
    proof {
        lemma_first_component_index(comps@, id);
    }
    let mut i: usize = 0;
    while i < comps.len()
        invariant
            0 <= i <= comps.len(),
            forall|j: int| 0 <= j < i ==> comps@[j].0 != id,
        decreases comps.len() - i,
    {
        if comps[i].0 == id {
            proof {
                lemma_first_index_unique(comps@, id, i as int);
            }
            return Some(i);
        }
        i += 1;
    }
    None
}

proof fn lemma_first_index_unique(comps: Seq<(u32, FactoryComponent)>, id: u32, i: int)
    requires
        0 <= i < comps.len(),
        comps[i].0 == id,
        forall|j: int| 0 <= j < i ==> comps[j].0 != id,
    ensures
        first_component_index(comps, id) == Some(i),
{
    lemma_first_component_index(comps, id);
    match first_component_index(comps, id) {
        Some(k) => {
            if k < i {
            } else if k > i {
            }
        },
        None => {},
    }
}

impl FactoryNode {
    /// The component registered under `id`, if any.
    pub open spec fn spec_component(&self, id: u32) -> Option<FactoryComponent> {
        match first_component_index(self.components@, id) {
            Some(i) => Some(self.components@[i].1),
            None => None,
        }
    }

    /// The component with id `id`, if present.
    pub fn component(&self, id: u32) -> (r: Option<&FactoryComponent>)
        ensures
            match r {
                Some(c) => self.spec_component(id) == Some(*c),
                None => self.spec_component(id) is None,
            },
    {
        proof {
            lemma_first_component_index(self.components@, id);
        }
        match find_component_index(&self.components, id) {
            Some(i) => Some(&self.components[i].1),
            None => None,
        }
    }

    /// Mutable access to the component with id `id`, if present.
    pub fn component_mut(&mut self, id: u32) -> (r: Option<&mut FactoryComponent>)
        ensures
            match r {
                Some(c) => {
                    &&& old(self).spec_component(id) == Some(*c)
                    &&& final(self).components@ == old(self).components@.update(
                        first_component_index(old(self).components@, id)->0,
                        (id, *final(c)),
                    )
                    &&& final(self).spec_component(id) == Some(*final(c))
                },
                None => {
                    &&& old(self).spec_component(id) is None
                    &&& *final(self) == *old(self)
                },
            },
            final(self).node_id == old(self).node_id,
            final(self).node_type == old(self).node_type,
            final(self).template_id == old(self).template_id,
            final(self).transform == old(self).transform,
            final(self).is_deactive == old(self).is_deactive,
            final(self).interactive_object == old(self).interactive_object,
            final(self).dynamic_property == old(self).dynamic_property,
            final(self).component_pos == old(self).component_pos,
    {
        match find_component_index(&self.components, id) {
            Some(i) => {
                proof {
                    lemma_first_component_index(self.components@, id);
                    let comps = self.components@;
                    assert forall|x: FactoryComponent| #[trigger] first_component_index(comps.update(i as int, (id, x)), id) == Some(i as int) by {
                        lemma_first_index_update(comps, i as int, x, id);
                    }
                }
                Some(&mut self.components[i].1)
            },
            None => None,
        }
    }

    /// The component id registered for position slot `pos`.
    pub fn component_id_at(&self, pos: FCComponentPos) -> (r: Option<u32>)
        ensures
            r == first_pos_entry(self.component_pos@, pos),
    {
        let mut i: usize = 0;
        while i < self.component_pos.len()
            invariant
                0 <= i <= self.component_pos.len(),
                first_pos_entry(self.component_pos@.subrange(0, i as int), pos) is None,
            decreases self.component_pos.len() - i,
        {
            proof {
                assert(self.component_pos@.subrange(0, i as int + 1).drop_last()
                    == self.component_pos@.subrange(0, i as int));
            }
            if self.component_pos[i].0 == pos {
                let id = self.component_pos[i].1;
                proof {
                    lemma_first_pos_prefix(self.component_pos@, pos, i as int + 1);
                }
                return Some(id);
            }
            i += 1;
        }
        proof {
            assert(self.component_pos@.subrange(0, i as int) == self.component_pos@);
        }
        None
    }

    /// The component registered under position slot `pos`, if both the
    /// slot and the component exist.
    pub fn component_at(&self, pos: FCComponentPos) -> (r: Option<&FactoryComponent>)
        ensures
            match r {
                Some(c) => exists|id: u32|
                    first_pos_entry(self.component_pos@, pos) == Some(id) && #[trigger] self.spec_component(id)
                        == Some(*c),
                None => match first_pos_entry(self.component_pos@, pos) {
                    Some(id) => self.spec_component(id) is None,
                    None => true,
                },
            },
    {
        let id = self.component_id_at(pos)?;
        self.component(id)
    }

    /// Mutable access to the component under position slot `pos`.
    pub fn component_at_mut(&mut self, pos: FCComponentPos) -> (r: Option<&mut FactoryComponent>)
        ensures
            match first_pos_entry(old(self).component_pos@, pos) {
                Some(id) => match r {
                    Some(c) => {
                        &&& old(self).spec_component(id) == Some(*c)
                        &&& final(self).components@ == old(self).components@.update(
                            first_component_index(old(self).components@, id)->0,
                            (id, *final(c)),
                        )
                    },
                    None => old(self).spec_component(id) is None && *final(self) == *old(self),
                },
                None => r is None && *final(self) == *old(self),
            },
            final(self).component_pos == old(self).component_pos,
            final(self).node_id == old(self).node_id,
    {
        let id = match self.component_id_at(pos) {
            Some(id) => id,
            None => return None,
        };
        self.component_mut(id)
    }
}

proof fn lemma_first_pos_prefix(entries: Seq<(FCComponentPos, u32)>, pos: FCComponentPos, n: int)
    requires
        0 < n <= entries.len(),
        entries[n - 1].0 == pos,
        first_pos_entry(entries.subrange(0, n - 1), pos) is None,
    ensures
        first_pos_entry(entries, pos) == Some(entries[n - 1].1),
    decreases entries.len() - n,
{
    assert(entries.subrange(0, n).drop_last() == entries.subrange(0, n - 1));
    if n == entries.len() {
        assert(entries.subrange(0, n) == entries);
    } else {
        lemma_first_pos_prefix_extend(entries, pos, n);
    }
}

proof fn lemma_first_pos_prefix_extend(entries: Seq<(FCComponentPos, u32)>, pos: FCComponentPos, n: int)
    requires
        0 < n <= entries.len(),
        first_pos_entry(entries.subrange(0, n), pos) is Some,
    ensures
        first_pos_entry(entries, pos) == first_pos_entry(entries.subrange(0, n), pos),
    decreases entries.len() - n,
{
    if n < entries.len() {
        assert(entries.subrange(0, n + 1).drop_last() == entries.subrange(0, n));
        lemma_first_pos_prefix_extend(entries, pos, n + 1);
    } else {
        assert(entries.subrange(0, n) == entries);
    }
}

} // verus!
