//! Entities alive in the current scene, keyed by id.
//!
//! Positions are kept as the bit patterns of their `f32` coordinates: the
//! bookkeeping here never reads them.
use std::collections::HashMap;

use vstd::prelude::*;

use crate::util::map_get_mut;

verus! {

broadcast use vstd::std_specs::hash::group_hash_axioms;

/// What kind of entity lives in a scene.
#[derive(Debug, Clone, Copy, PartialEq, Eq, Hash, Structural)]
pub enum EntityKind {
    Character,
    Enemy,
    Interactive,
    Npc,
    Projectile,
    Creature,
}

/// A single entity currently alive in the scene; cleared on every scene
/// transition.
#[derive(Debug)]
pub struct SceneEntity {
    pub id: u64,
    pub template_id: String,
    pub kind: EntityKind,
    /// Bit patterns of the x, y, z coordinates.
    pub pos_bits: (u32, u32, u32),
}

impl SceneEntity {
    /// The position, as the bit patterns of its coordinates.
    pub fn position(&self) -> (r: (u32, u32, u32))
        ensures
            r == self.pos_bits,
    {
        self.pos_bits
    }
}

/// First id handed to monsters, so that they do not collide with character
/// object ids (which start at 1).
pub const MONSTER_ID_BASE: u64 = 1000;

/// Every entity alive in the scene, keyed by id.
#[derive(Debug)]
pub struct EntityManager {
    entities: HashMap<u64, SceneEntity>,
    next_monster_id: u64,
}

impl EntityManager {
    /// The entities, by id.
    pub closed spec fn entities(&self) -> Map<u64, SceneEntity> {
        self.entities@
    }

    /// How many monster ids were handed out since the last clear.
    pub closed spec fn monsters_issued(&self) -> u64 {
        self.next_monster_id
    }

    pub fn new() -> (r: Self)
        ensures
            r.entities() == Map::<u64, SceneEntity>::empty(),
            r.monsters_issued() == 0,
    {
        EntityManager { entities: HashMap::new(), next_monster_id: 0 }
    }

    /// The next unique monster id: `MONSTER_ID_BASE` plus the number of ids
    /// handed out before.
    pub fn next_monster_id(&mut self) -> (r: u64)
        requires
            MONSTER_ID_BASE + old(self).monsters_issued() < u64::MAX,
        ensures
            r == MONSTER_ID_BASE + old(self).monsters_issued(),
            final(self).monsters_issued() == old(self).monsters_issued() + 1,
            final(self).entities() == old(self).entities(),
    {
        let id = MONSTER_ID_BASE + self.next_monster_id;
        self.next_monster_id = self.next_monster_id + 1;
        id
    }

    /// Inserts an entity, replacing any entity with the same id.
    pub fn insert(&mut self, entity: SceneEntity)
        ensures
            final(self).entities() == old(self).entities().insert(entity.id, entity),
            final(self).monsters_issued() == old(self).monsters_issued(),
    {
        self.entities.insert(entity.id, entity);
    }

    /// Removes and returns the entity with id `id`, if tracked.
    pub fn remove(&mut self, id: u64) -> (r: Option<SceneEntity>)
        ensures
            match r {
                Some(e) => old(self).entities().contains_key(id) && e == old(self).entities()[id],
                None => !old(self).entities().contains_key(id),
            },
            final(self).entities() == old(self).entities().remove(id),
            final(self).monsters_issued() == old(self).monsters_issued(),
    {
        self.entities.remove(&id)
    }

    pub fn get(&self, id: u64) -> (r: Option<&SceneEntity>)
        ensures
            match r {
                Some(e) => self.entities().contains_key(id) && *e == self.entities()[id],
                None => !self.entities().contains_key(id),
            },
    {
        self.entities.get(&id)
    }

    pub fn get_mut(&mut self, id: u64) -> (r: Option<&mut SceneEntity>)
        ensures
            match r {
                Some(e) => {
                    &&& old(self).entities().contains_key(id)
                    &&& *e == old(self).entities()[id]
                    &&& final(self).entities() == old(self).entities().insert(id, *final(e))
                },
                None => !old(self).entities().contains_key(id) && final(self).entities() == old(self).entities(),
            },
            final(self).monsters_issued() == old(self).monsters_issued(),
    {
        map_get_mut(&mut self.entities, id)
    }

    pub fn contains(&self, id: u64) -> (r: bool)
        ensures
            r == self.entities().contains_key(id),
    {
        self.entities.contains_key(&id)
    }

    /// The ids of the entities of kind `kind`, each once.
    pub fn ids_by_kind(&self, kind: EntityKind) -> (r: Vec<u64>)
        ensures
            r@.no_duplicates(),
            forall|id: u64| #[trigger] r@.contains(id) <==> self.entities().contains_key(id) && self.entities()[id].kind == kind,
    {
        let keys = crate::util::map_keys(&self.entities);
        let ghost m = self.entities@;
        let mut out: Vec<u64> = Vec::new();
        let mut i: usize = 0;
        while i < keys.len()
            invariant
                0 <= i <= keys@.len(),
                m == self.entities@,
                keys@.no_duplicates(),
                keys@.to_set() == m.dom(),
                out@.no_duplicates(),
                forall|id: u64| #[trigger] out@.contains(id) <==> exists|j: int|
                    0 <= j < i && keys@[j] == id && m.contains_key(id) && m[id].kind == kind,
            decreases keys@.len() - i,
        {
            let k = keys[i];
            proof {
                assert(keys@.to_set().contains(k));
            }
            let ghost before = out@;
            match self.entities.get(&k) {
                Some(e) => {
                    if e.kind == kind {
                        proof {
                            if out@.contains(k) {
                                let j = choose|j: int| 0 <= j < i && keys@[j] == k && m.contains_key(k) && m[k].kind == kind;
                                assert(keys@[j] == keys@[i as int]);
                            }
                        }
                        out.push(k);
                    }
                },
                None => {},
            }
            proof {
                assert forall|id: u64| #[trigger] out@.contains(id) <==> exists|j: int|
                    0 <= j < i + 1 && keys@[j] == id && m.contains_key(id) && m[id].kind == kind by {
                    if out@.contains(id) {
                        if before.contains(id) {
                            let j = choose|j: int| 0 <= j < i && keys@[j] == id && m.contains_key(id) && m[id].kind == kind;
                            assert(0 <= j < i + 1 && keys@[j] == id);
                        } else {
                            let x = choose|x: int| 0 <= x < out@.len() && out@[x] == id;
                            assert(out@.len() == before.len() + 1);
                            if x < before.len() {
                                assert(before[x] == id);
                            }
                            assert(id == k);
                            assert(keys@[i as int] == id);
                        }
                    }
                    if exists|j: int| 0 <= j < i + 1 && keys@[j] == id && m.contains_key(id) && m[id].kind == kind {
                        let j = choose|j: int| 0 <= j < i + 1 && keys@[j] == id && m.contains_key(id) && m[id].kind == kind;
                        if j < i {
                            assert(before.contains(id));
                            let x = choose|x: int| 0 <= x < before.len() && before[x] == id;
                            assert(out@[x] == id);
                        } else {
                            assert(out@[out@.len() - 1] == id);
                        }
                    }
                }
            }
            i += 1;
        }
        proof {
            assert forall|id: u64| #[trigger] out@.contains(id) <==> m.contains_key(id) && m[id].kind == kind by {
                if m.contains_key(id) && m[id].kind == kind {
                    assert(keys@.to_set().contains(id));
                    let j = choose|j: int| 0 <= j < keys@.len() && keys@[j] == id;
                    assert(out@.contains(id));
                }
            }
        }
        out
    }

    /// The ids of the living enemies, each once.
    pub fn monsters(&self) -> (r: Vec<u64>)
        ensures
            r@.no_duplicates(),
            forall|id: u64| #[trigger] r@.contains(id) <==> self.entities().contains_key(id) && self.entities()[id].kind
                == EntityKind::Enemy,
    {
        self.ids_by_kind(EntityKind::Enemy)
    }

    /// The ids of the characters, each once.
    pub fn characters(&self) -> (r: Vec<u64>)
        ensures
            r@.no_duplicates(),
            forall|id: u64| #[trigger] r@.contains(id) <==> self.entities().contains_key(id) && self.entities()[id].kind
                == EntityKind::Character,
    {
        self.ids_by_kind(EntityKind::Character)
    }

    /// Drops every entity and restarts monster ids; done on scene
    /// transition.
    pub fn clear(&mut self)
        ensures
            final(self).entities() == Map::<u64, SceneEntity>::empty(),
            final(self).monsters_issued() == 0,
    {
        self.entities.clear();
        self.next_monster_id = 0;
    }

    pub fn len(&self) -> (r: usize)
        ensures
            r == self.entities().len(),
    {
        self.entities.len()
    }

    pub fn is_empty(&self) -> (r: bool)
        ensures
            r == (self.entities().len() == 0),
    {
        self.entities.len() == 0
    }

    /// The ids of every entity, each once.
    pub fn ids(&self) -> (r: Vec<u64>)
        ensures
            r@.no_duplicates(),
            r@.to_set() == self.entities().dom(),
    {
        crate::util::map_keys(&self.entities)
    }
}

} // verus!
