//! Gems, equipment pieces and the item manager that holds every depot.
//!
//! A gem may sit in one weapon's socket; an equipment piece may be worn
//! by one character in its slot, and each character wears at most one
//! piece per slot. Slots and gem kinds are their wire codes.
use std::collections::HashMap;

use vstd::prelude::*;

use crate::error::LogicError;
use crate::item::{StackableDepot, WeaponDepot, WeaponInstId, WeaponInstance};
use crate::util::{map_get_mut, map_keys};

verus! {

broadcast use vstd::std_specs::hash::group_hash_axioms;

/// Instance id of a gem.
#[derive(Debug, Clone, Copy, PartialEq, Eq, Hash, Default, Structural)]
pub struct GemInstId(pub u64);

impl GemInstId {
    pub fn new(id: u64) -> (r: Self)
        ensures
            r.0 == id,
    {
        GemInstId(id)
    }

    pub fn as_u64(self) -> (r: u64)
        ensures
            r == self.0,
    {
        self.0
    }
}

/// Instance id of an equipment piece.
#[derive(Debug, Clone, Copy, PartialEq, Eq, Hash, Default, Structural)]
pub struct EquipInstId(pub u64);

impl EquipInstId {
    pub fn new(id: u64) -> (r: Self)
        ensures
            r.0 == id,
    {
        EquipInstId(id)
    }

    pub fn as_u64(self) -> (r: u64)
        ensures
            r == self.0,
    {
        self.0
    }
}

/// One gem.
#[derive(Debug)]
pub struct GemInstance {
    pub inst_id: GemInstId,
    pub template_id: String,
    /// Wire code of the gem's craft slot.
    pub craft_slot: i32,
    /// Weapon the gem sits in; 0 = none.
    pub attach_weapon_id: u64,
    pub is_lock: bool,
    pub is_new: bool,
    pub own_time: i64,
}

impl GemInstance {
    /// A new gem: in no weapon, unlocked, new.
    pub fn new(inst_id: GemInstId, template_id: String, craft_slot: i32, own_time: i64) -> (r: Self)
        ensures
            r == (GemInstance {
                inst_id,
                template_id,
                craft_slot,
                attach_weapon_id: 0,
                is_lock: false,
                is_new: true,
                own_time,
            }),
    {
        GemInstance { inst_id, template_id, craft_slot, attach_weapon_id: 0, is_lock: false, is_new: true, own_time }
    }

    /// Whether the gem sits in a weapon.
    pub fn is_socketed(&self) -> (r: bool)
        ensures
            r == (self.attach_weapon_id != 0),
    {
        self.attach_weapon_id != 0
    }
}

/// Every gem of the player, keyed by instance id.
#[derive(Debug)]
pub struct GemDepot {
    gems: HashMap<u64, GemInstance>,
    next_inst_id: u64,
}

impl GemDepot {
    pub const DEPOT_TYPE: i32 = 2;

    /// Gems by instance id.
    pub closed spec fn gems(&self) -> Map<u64, GemInstance> {
        self.gems@
    }

    /// The next instance id to hand out.
    pub closed spec fn spec_next_inst_id(&self) -> u64 {
        self.next_inst_id
    }

    pub fn new() -> (r: Self)
        ensures
            r.gems() == Map::<u64, GemInstance>::empty(),
            r.spec_next_inst_id() == 1,
    {
        GemDepot { gems: HashMap::new(), next_inst_id: 1 }
    }

    /// Adds a new gem under the next instance id and returns that id.
    pub fn add_gem(&mut self, template_id: String, craft_slot: i32, own_time: i64) -> (r: GemInstId)
        requires
            old(self).spec_next_inst_id() < u64::MAX,
        ensures
            r.0 == old(self).spec_next_inst_id(),
            final(self).spec_next_inst_id() == old(self).spec_next_inst_id() + 1,
            final(self).gems() == old(self).gems().insert(
                r.0,
                GemInstance { inst_id: r, template_id, craft_slot, attach_weapon_id: 0, is_lock: false, is_new: true, own_time },
            ),
    {
        let inst_id = GemInstId::new(self.next_inst_id);
        self.next_inst_id = self.next_inst_id + 1;
        let gem = GemInstance::new(inst_id, template_id, craft_slot, own_time);
        self.gems.insert(inst_id.0, gem);
        inst_id
    }

    /// Stores a gem as it is, moving the id counter past its id.
    pub fn insert(&mut self, gem: GemInstance)
        requires
            gem.inst_id.0 < u64::MAX || gem.inst_id.0 < old(self).spec_next_inst_id(),
        ensures
            final(self).gems() == old(self).gems().insert(gem.inst_id.0, gem),
            final(self).spec_next_inst_id() == if gem.inst_id.0 >= old(self).spec_next_inst_id() {
                (gem.inst_id.0 + 1) as u64
            } else {
                old(self).spec_next_inst_id()
            },
    {
        let v = gem.inst_id.as_u64();
        if v >= self.next_inst_id {
            self.next_inst_id = v + 1;
        }
        self.gems.insert(gem.inst_id.0, gem);
    }

    pub fn get(&self, id: GemInstId) -> (r: Option<&GemInstance>)
        ensures
            match r {
                Some(g) => self.gems().contains_key(id.0) && *g == self.gems()[id.0],
                None => !self.gems().contains_key(id.0),
            },
    {
        self.gems.get(&id.0)
    }

    pub fn get_mut(&mut self, id: GemInstId) -> (r: Option<&mut GemInstance>)
        ensures
            match r {
                Some(g) => {
                    &&& old(self).gems().contains_key(id.0)
                    &&& *g == old(self).gems()[id.0]
                    &&& final(self).gems() == old(self).gems().insert(id.0, *final(g))
                },
                None => !old(self).gems().contains_key(id.0) && final(self).gems() == old(self).gems(),
            },
            final(self).spec_next_inst_id() == old(self).spec_next_inst_id(),
    {
        map_get_mut(&mut self.gems, id.0)
    }

    /// Removes and returns a gem; refused for missing, socketed or locked
    /// gems.
    pub fn remove(&mut self, id: GemInstId) -> (r: Result<GemInstance, LogicError>)
        ensures
            !old(self).gems().contains_key(id.0) ==> r matches Err(LogicError::NotFound(_)),
            old(self).gems().contains_key(id.0) && (old(self).gems()[id.0].attach_weapon_id != 0
                || old(self).gems()[id.0].is_lock) ==> r matches Err(LogicError::InvalidOperation(_)),
            match r {
                Ok(g) => g == old(self).gems()[id.0] && final(self).gems() == old(self).gems().remove(id.0),
                Err(_) => final(self).gems() == old(self).gems(),
            },
            final(self).spec_next_inst_id() == old(self).spec_next_inst_id(),
    {
        let g = match self.gems.get(&id.0) {
            Some(g) => g,
            None => {
                return Err(LogicError::NotFound("Gem not found".to_string()));
            },
        };
        if g.is_socketed() {
            return Err(LogicError::InvalidOperation("Cannot remove socketed gem".to_string()));
        }
        if g.is_lock {
            return Err(LogicError::InvalidOperation("Cannot remove locked gem".to_string()));
        }
        match self.gems.remove(&id.0) {
            Some(g) => Ok(g),
            None => Err(LogicError::NotFound("Gem not found".to_string())),
        }
    }

    /// Edits the gem under `id` (see `gem_edited`).
    fn edit(&mut self, id: GemInstId, what: u8, flag: bool, weapon_id: u64) -> (r: Result<(), LogicError>)
        ensures
            !old(self).gems().contains_key(id.0) ==> (r matches Err(LogicError::NotFound(_)) && final(self).gems() == old(self).gems()),
            old(self).gems().contains_key(id.0) ==> r is Ok && final(self).gems() == old(self).gems().insert(
                id.0,
                gem_edited(old(self).gems()[id.0], what, flag, weapon_id),
            ),
            final(self).spec_next_inst_id() == old(self).spec_next_inst_id(),
    {
        match map_get_mut(&mut self.gems, id.0) {
            Some(g) => {
                if what == 0 {
                    g.is_lock = flag;
                } else if what == 1 {
                    g.is_new = false;
                } else {
                    g.attach_weapon_id = weapon_id;
                }
                Ok(())
            },
            None => Err(LogicError::NotFound("Gem not found".to_string())),
        }
    }

    /// Locks or unlocks a gem.
    pub fn set_lock(&mut self, id: GemInstId, lock: bool) -> (r: Result<(), LogicError>)
        ensures
            !old(self).gems().contains_key(id.0) ==> (r matches Err(LogicError::NotFound(_)) && final(self).gems() == old(self).gems()),
            old(self).gems().contains_key(id.0) ==> r is Ok && final(self).gems() == old(self).gems().insert(
                id.0,
                GemInstance { is_lock: lock, ..old(self).gems()[id.0] },
            ),
            final(self).spec_next_inst_id() == old(self).spec_next_inst_id(),
    {
        self.edit(id, 0, lock, 0)
    }

    /// Marks a gem as seen.
    pub fn clear_new_flag(&mut self, id: GemInstId) -> (r: Result<(), LogicError>)
        ensures
            !old(self).gems().contains_key(id.0) ==> (r matches Err(LogicError::NotFound(_)) && final(self).gems() == old(self).gems()),
            old(self).gems().contains_key(id.0) ==> r is Ok && final(self).gems() == old(self).gems().insert(
                id.0,
                GemInstance { is_new: false, ..old(self).gems()[id.0] },
            ),
            final(self).spec_next_inst_id() == old(self).spec_next_inst_id(),
    {
        self.edit(id, 1, false, 0)
    }

    /// Records that a gem sits in weapon `weapon_id` (0 for none).
    pub fn set_socket(&mut self, id: GemInstId, weapon_id: u64) -> (r: Result<(), LogicError>)
        ensures
            !old(self).gems().contains_key(id.0) ==> (r matches Err(LogicError::NotFound(_)) && final(self).gems() == old(self).gems()),
            old(self).gems().contains_key(id.0) ==> r is Ok && final(self).gems() == old(self).gems().insert(
                id.0,
                GemInstance { attach_weapon_id: weapon_id, ..old(self).gems()[id.0] },
            ),
            final(self).spec_next_inst_id() == old(self).spec_next_inst_id(),
    {
        self.edit(id, 2, false, weapon_id)
    }

    /// Records that a gem sits in no weapon.
    pub fn clear_socket(&mut self, id: GemInstId) -> (r: Result<(), LogicError>)
        ensures
            !old(self).gems().contains_key(id.0) ==> (r matches Err(LogicError::NotFound(_)) && final(self).gems() == old(self).gems()),
            old(self).gems().contains_key(id.0) ==> r is Ok && final(self).gems() == old(self).gems().insert(
                id.0,
                GemInstance { attach_weapon_id: 0, ..old(self).gems()[id.0] },
            ),
            final(self).spec_next_inst_id() == old(self).spec_next_inst_id(),
    {
        self.edit(id, 2, false, 0)
    }

    /// Every gem, once each, in the map's order.
    pub fn iter(&self) -> (r: Vec<&GemInstance>)
        ensures
            r@.len() == self.gems().len(),
            forall|j: int| 0 <= j < r@.len() ==> self.gems().contains_value(*#[trigger] r@[j]),
            forall|k: u64| #[trigger] self.gems().contains_key(k) ==> exists|j: int| 0 <= j < r@.len() && *r@[j] == self.gems()[k],
    {
        let keys = map_keys(&self.gems);
        let ghost m = self.gems@;
        let mut out: Vec<&GemInstance> = Vec::new();
        let mut i: usize = 0;
        while i < keys.len()
            invariant
                0 <= i <= keys@.len(),
                m == self.gems@,
                keys@.no_duplicates(),
                keys@.to_set() == m.dom(),
                out@.len() == i,
                forall|j: int| 0 <= j < i ==> m.contains_key(#[trigger] keys@[j]) && *out@[j] == m[keys@[j]],
            decreases keys@.len() - i,
        {
            proof {
                assert(keys@.to_set().contains(keys@[i as int]));
            }
            match self.gems.get(&keys[i]) {
                Some(v) => {
                    out.push(v);
                },
                None => {
                    return out;
                },
            }
            i += 1;
        }
        proof {
            lemma_values_listed(m, keys@, out@);
        }
        out
    }

    /// The next instance id to hand out.
    pub fn next_inst_id(&self) -> (r: u64)
        ensures
            r == self.spec_next_inst_id(),
    {
        self.next_inst_id
    }

    /// Sets the next instance id to hand out (when restoring a saved bag).
    pub fn set_next_inst_id(&mut self, id: u64)
        ensures
            final(self).spec_next_inst_id() == id,
            final(self).gems() == old(self).gems(),
    {
        self.next_inst_id = id;
    }

    pub fn contains(&self, id: GemInstId) -> (r: bool)
        ensures
            r == self.gems().contains_key(id.0),
    {
        self.gems.contains_key(&id.0)
    }

    pub fn len(&self) -> (r: usize)
        ensures
            r == self.gems().len(),
    {
        self.gems.len()
    }

    pub fn is_empty(&self) -> (r: bool)
        ensures
            r == (self.gems().len() == 0),
    {
        self.gems.len() == 0
    }
}

proof fn lemma_values_listed<V>(m: Map<u64, V>, keys: Seq<u64>, vals: Seq<&V>)
    requires
        keys.no_duplicates(),
        keys.to_set() == m.dom(),
        vals.len() == keys.len(),
        forall|j: int| 0 <= j < keys.len() ==> m.contains_key(#[trigger] keys[j]) && *vals[j] == m[keys[j]],
    ensures
        vals.len() == m.dom().len(),
        forall|j: int| 0 <= j < vals.len() ==> m.contains_value(*#[trigger] vals[j]),
        forall|k: u64| #[trigger] m.contains_key(k) ==> exists|j: int| 0 <= j < vals.len() && *vals[j] == m[k],
{
    keys.unique_seq_to_set();
    lemma_values_in_map(m, keys, vals);
    lemma_map_values_listed(m, keys, vals);
}

proof fn lemma_values_in_map<V>(m: Map<u64, V>, keys: Seq<u64>, vals: Seq<&V>)
    requires
        vals.len() == keys.len(),
        forall|j: int| 0 <= j < keys.len() ==> m.contains_key(#[trigger] keys[j]) && *vals[j] == m[keys[j]],
    ensures
        forall|j: int| 0 <= j < vals.len() ==> m.contains_value(*#[trigger] vals[j]),
{
    assert forall|j: int| 0 <= j < vals.len() implies m.contains_value(*#[trigger] vals[j]) by {
        let k = keys[j];
        assert(m.contains_key(k) && m[k] == *vals[j]);
    }
}

proof fn lemma_map_values_listed<V>(m: Map<u64, V>, keys: Seq<u64>, vals: Seq<&V>)
    requires
        keys.to_set() == m.dom(),
        vals.len() == keys.len(),
        forall|j: int| 0 <= j < keys.len() ==> m.contains_key(#[trigger] keys[j]) && *vals[j] == m[keys[j]],
    ensures
        forall|k: u64| #[trigger] m.contains_key(k) ==> exists|j: int| 0 <= j < vals.len() && *vals[j] == m[k],
{
    assert forall|k: u64| #[trigger] m.contains_key(k) implies exists|j: int| 0 <= j < vals.len() && *vals[j] == m[k] by {
        assert(keys.to_set().contains(k));
        let j = choose|j: int| 0 <= j < keys.len() && keys[j] == k;
        assert(*vals[j] == m[keys[j]]);
    }
}

/// A gem after one edit: 0 sets the lock to `flag`, 1 clears the new
/// flag, otherwise the socket is set to `weapon_id`.
pub open spec fn gem_edited(g: GemInstance, what: u8, flag: bool, weapon_id: u64) -> GemInstance {
    if what == 0 {
        GemInstance { is_lock: flag, ..g }
    } else if what == 1 {
        GemInstance { is_new: false, ..g }
    } else {
        GemInstance { attach_weapon_id: weapon_id, ..g }
    }
}

/// One equipment piece.
#[derive(Debug)]
pub struct EquipInstance {
    pub inst_id: EquipInstId,
    pub template_id: String,
    /// Wire code of the slot the piece is worn in (head, body, ring).
    pub slot: i32,
    /// Character wearing the piece; 0 = none.
    pub equip_char_id: u64,
    pub is_lock: bool,
    pub is_new: bool,
    pub own_time: i64,
}

impl EquipInstance {
    /// A new piece: worn by nobody, unlocked, new.
    pub fn new(inst_id: EquipInstId, template_id: String, slot: i32, own_time: i64) -> (r: Self)
        ensures
            r == (EquipInstance { inst_id, template_id, slot, equip_char_id: 0, is_lock: false, is_new: true, own_time }),
    {
        EquipInstance { inst_id, template_id, slot, equip_char_id: 0, is_lock: false, is_new: true, own_time }
    }

    /// Whether someone wears the piece.
    pub fn is_equipped(&self) -> (r: bool)
        ensures
            r == (self.equip_char_id != 0),
    {
        self.equip_char_id != 0
    }
}

/// The slots of character `c`, empty when it has no record.
pub open spec fn slots_of(w: Map<u64, Map<i32, u64>>, c: u64) -> Map<i32, u64> {
    if w.contains_key(c) { w[c] } else { Map::empty() }
}

/// The piece character `c` wears in `slot`, by the records.
pub open spec fn worn_in(w: Map<u64, Map<i32, u64>>, c: u64, slot: i32) -> Option<u64> {
    if slots_of(w, c).contains_key(slot) { Some(slots_of(w, c)[slot]) } else { None }
}

/// Piece `q` taken off in the piece map, when it is there.
pub open spec fn taken_off(p: Map<u64, EquipInstance>, q: u64) -> Map<u64, EquipInstance> {
    if p.contains_key(q) { p.insert(q, EquipInstance { equip_char_id: 0, ..p[q] }) } else { p }
}

/// Every equipment piece, keyed by instance id, with each character's
/// worn pieces by slot.
#[derive(Debug)]
pub struct EquipDepot {
    pieces: HashMap<u64, EquipInstance>,
    next_inst_id: u64,
    equipped_by_char: HashMap<u64, HashMap<i32, u64>>,
}

impl EquipDepot {
    pub const DEPOT_TYPE: i32 = 3;

    /// Pieces by instance id.
    pub closed spec fn pieces(&self) -> Map<u64, EquipInstance> {
        self.pieces@
    }

    /// Character id -> slot -> instance id of the piece worn there.
    pub closed spec fn worn(&self) -> Map<u64, Map<i32, u64>> {
        self.equipped_by_char@.map_values(|m: HashMap<i32, u64>| m@)
    }

    /// The next instance id to hand out.
    pub closed spec fn spec_next_inst_id(&self) -> u64 {
        self.next_inst_id
    }

    pub fn new() -> (r: Self)
        ensures
            r.pieces() == Map::<u64, EquipInstance>::empty(),
            r.worn() == Map::<u64, Map<i32, u64>>::empty(),
            r.spec_next_inst_id() == 1,
    {
        let r = EquipDepot { pieces: HashMap::new(), next_inst_id: 1, equipped_by_char: HashMap::new() };
        proof {
            assert(r.worn() =~= Map::<u64, Map<i32, u64>>::empty());
        }
        r
    }

    /// Adds a new piece under the next instance id and returns that id.
    pub fn add_equip(&mut self, template_id: String, slot: i32, own_time: i64) -> (r: EquipInstId)
        requires
            old(self).spec_next_inst_id() < u64::MAX,
        ensures
            r.0 == old(self).spec_next_inst_id(),
            final(self).spec_next_inst_id() == old(self).spec_next_inst_id() + 1,
            final(self).pieces() == old(self).pieces().insert(
                r.0,
                EquipInstance { inst_id: r, template_id, slot, equip_char_id: 0, is_lock: false, is_new: true, own_time },
            ),
            final(self).worn() == old(self).worn(),
    {
        let inst_id = EquipInstId::new(self.next_inst_id);
        self.next_inst_id = self.next_inst_id + 1;
        let piece = EquipInstance::new(inst_id, template_id, slot, own_time);
        self.pieces.insert(inst_id.0, piece);
        inst_id
    }

    /// Records that character `c` wears piece `id` in `slot`.
    fn wear(&mut self, c: u64, slot: i32, id: u64)
        ensures
            final(self).worn() == old(self).worn().insert(c, slots_of(old(self).worn(), c).insert(slot, id)),
            final(self).pieces == old(self).pieces,
            final(self).next_inst_id == old(self).next_inst_id,
    {
        if !self.equipped_by_char.contains_key(&c) {
            self.equipped_by_char.insert(c, HashMap::new());
        }
        let ghost mid = self.equipped_by_char@;
        match map_get_mut(&mut self.equipped_by_char, c) {
            Some(slots) => {
                slots.insert(slot, id);
            },
            None => {},
        }
        proof {
            assert(self.worn() =~= old(self).worn().insert(c, slots_of(old(self).worn(), c).insert(slot, id)));
        }
    }

    /// Clears `slot` of character `c`, creating an empty record for `c`
    /// when it has none.
    fn clear_slot(&mut self, c: u64, slot: i32)
        ensures
            final(self).worn() == old(self).worn().insert(c, slots_of(old(self).worn(), c).remove(slot)),
            final(self).pieces == old(self).pieces,
            final(self).next_inst_id == old(self).next_inst_id,
    {
        if !self.equipped_by_char.contains_key(&c) {
            self.equipped_by_char.insert(c, HashMap::new());
        }
        match map_get_mut(&mut self.equipped_by_char, c) {
            Some(slots) => {
                slots.remove(&slot);
            },
            None => {},
        }
        proof {
            assert(self.worn() =~= old(self).worn().insert(c, slots_of(old(self).worn(), c).remove(slot)));
        }
    }

    /// Stores a piece as it is, recording its wearer and moving the id
    /// counter past its id.
    pub fn insert(&mut self, piece: EquipInstance)
        requires
            piece.inst_id.0 < u64::MAX || piece.inst_id.0 < old(self).spec_next_inst_id(),
        ensures
            final(self).pieces() == old(self).pieces().insert(piece.inst_id.0, piece),
            final(self).worn() == if piece.equip_char_id != 0 {
                old(self).worn().insert(piece.equip_char_id, slots_of(old(self).worn(), piece.equip_char_id).insert(piece.slot, piece.inst_id.0))
            } else {
                old(self).worn()
            },
            final(self).spec_next_inst_id() == if piece.inst_id.0 >= old(self).spec_next_inst_id() {
                (piece.inst_id.0 + 1) as u64
            } else {
                old(self).spec_next_inst_id()
            },
    {
        if piece.is_equipped() {
            self.wear(piece.equip_char_id, piece.slot, piece.inst_id.0);
        }
        let v = piece.inst_id.as_u64();
        if v >= self.next_inst_id {
            self.next_inst_id = v + 1;
        }
        self.pieces.insert(piece.inst_id.0, piece);
    }

    pub fn get(&self, id: EquipInstId) -> (r: Option<&EquipInstance>)
        ensures
            match r {
                Some(p) => self.pieces().contains_key(id.0) && *p == self.pieces()[id.0],
                None => !self.pieces().contains_key(id.0),
            },
    {
        self.pieces.get(&id.0)
    }

    pub fn get_mut(&mut self, id: EquipInstId) -> (r: Option<&mut EquipInstance>)
        ensures
            match r {
                Some(p) => {
                    &&& old(self).pieces().contains_key(id.0)
                    &&& *p == old(self).pieces()[id.0]
                    &&& final(self).pieces() == old(self).pieces().insert(id.0, *final(p))
                },
                None => !old(self).pieces().contains_key(id.0) && final(self).pieces() == old(self).pieces(),
            },
            final(self).worn() == old(self).worn(),
            final(self).spec_next_inst_id() == old(self).spec_next_inst_id(),
    {
        map_get_mut(&mut self.pieces, id.0)
    }

    /// Puts piece `id` on character `c`: whatever `c` wore in that slot
    /// comes off, the piece leaves its former wearer's slot, and the piece
    /// goes on. Returns the displaced piece. Refused for a missing piece or
    /// one `c` already wears.
    pub fn equip(&mut self, id: EquipInstId, c: u64) -> (r: Result<Option<EquipInstId>, LogicError>)
        ensures
            !old(self).pieces().contains_key(id.0) ==> (r matches Err(LogicError::NotFound(_)) && final(self).pieces() == old(self).pieces()
                && final(self).worn() == old(self).worn()),
            old(self).pieces().contains_key(id.0) && old(self).pieces()[id.0].equip_char_id == c ==> (r matches Err(
                LogicError::InvalidOperation(_),
            ) && final(self).pieces() == old(self).pieces() && final(self).worn() == old(self).worn()),
            old(self).pieces().contains_key(id.0) && old(self).pieces()[id.0].equip_char_id != c ==> ({
                let p0 = old(self).pieces();
                let w0 = old(self).worn();
                let slot = p0[id.0].slot;
                let prev = worn_in(w0, c, slot);
                let p1 = match prev { Some(q) => taken_off(p0, q), None => p0 };
                let w1 = match prev { Some(_) => w0.insert(c, slots_of(w0, c).remove(slot)), None => w0 };
                let owner = p1[id.0].equip_char_id;
                let w2 = if owner != 0 { w1.insert(owner, slots_of(w1, owner).remove(slot)) } else { w1 };
                &&& r matches Ok(v) && v == (match prev { Some(q) => Some(EquipInstId(q)), None => None })
                &&& final(self).pieces() == p1.insert(id.0, EquipInstance { equip_char_id: c, ..p1[id.0] })
                &&& final(self).worn() == w2.insert(c, slots_of(w2, c).insert(slot, id.0))
            }),
            final(self).spec_next_inst_id() == old(self).spec_next_inst_id(),
    {
        let (slot, worn_by) = match self.pieces.get(&id.0) {
            Some(p) => (p.slot, p.equip_char_id),
            None => {
                return Err(LogicError::NotFound("Equip piece not found".to_string()));
            },
        };
        if worn_by == c {
            return Err(LogicError::InvalidOperation("Already equipped to this character".to_string()));
        }
        let prev: Option<u64> = match self.equipped_by_char.get(&c) {
            Some(slots) => match slots.get(&slot) {
                Some(q) => Some(*q),
                None => None,
            },
            None => None,
        };
        proof {
            assert(self.equipped_by_char@.contains_key(c) ==> self.worn()[c] == self.equipped_by_char@[c]@);
        }
        match prev {
            Some(q) => {
                match map_get_mut(&mut self.pieces, q) {
                    Some(pq) => {
                        pq.equip_char_id = 0;
                    },
                    None => {},
                }
                self.clear_slot(c, slot);
            },
            None => {},
        }
        let owner = match self.pieces.get(&id.0) {
            Some(p) => p.equip_char_id,
            None => 0,
        };
        if owner != 0 {
            self.clear_slot(owner, slot);
        }
        match map_get_mut(&mut self.pieces, id.0) {
            Some(p) => {
                p.equip_char_id = c;
            },
            None => {},
        }
        self.wear(c, slot, id.0);
        Ok(
            match prev {
                Some(q) => Some(EquipInstId(q)),
                None => None,
            },
        )
    }

    /// Takes piece `id` off its wearer: false when nobody wears it;
    /// refused for a missing piece.
    pub fn unequip(&mut self, id: EquipInstId) -> (r: Result<bool, LogicError>)
        ensures
            !old(self).pieces().contains_key(id.0) ==> (r matches Err(LogicError::NotFound(_)) && final(self).pieces() == old(self).pieces()
                && final(self).worn() == old(self).worn()),
            old(self).pieces().contains_key(id.0) && old(self).pieces()[id.0].equip_char_id == 0 ==> (r matches Ok(false)
                && final(self).pieces() == old(self).pieces() && final(self).worn() == old(self).worn()),
            old(self).pieces().contains_key(id.0) && old(self).pieces()[id.0].equip_char_id != 0 ==> ({
                let p0 = old(self).pieces()[id.0];
                let w0 = old(self).worn();
                &&& r matches Ok(true)
                &&& final(self).pieces() == old(self).pieces().insert(id.0, EquipInstance { equip_char_id: 0, ..p0 })
                &&& final(self).worn() == if w0.contains_key(p0.equip_char_id) {
                    w0.insert(p0.equip_char_id, w0[p0.equip_char_id].remove(p0.slot))
                } else {
                    w0
                }
            }),
            final(self).spec_next_inst_id() == old(self).spec_next_inst_id(),
    {
        let (c, slot) = match self.pieces.get(&id.0) {
            Some(p) => (p.equip_char_id, p.slot),
            None => {
                return Err(LogicError::NotFound("Equip piece not found".to_string()));
            },
        };
        if c == 0 {
            return Ok(false);
        }
        match map_get_mut(&mut self.pieces, id.0) {
            Some(p) => {
                p.equip_char_id = 0;
            },
            None => {},
        }
        if self.equipped_by_char.contains_key(&c) {
            self.clear_slot(c, slot);
        }
        Ok(true)
    }

    /// Removes and returns a piece; refused for missing, worn or locked
    /// pieces.
    pub fn remove(&mut self, id: EquipInstId) -> (r: Result<EquipInstance, LogicError>)
        ensures
            !old(self).pieces().contains_key(id.0) ==> r matches Err(LogicError::NotFound(_)),
            old(self).pieces().contains_key(id.0) && (old(self).pieces()[id.0].equip_char_id != 0
                || old(self).pieces()[id.0].is_lock) ==> r matches Err(LogicError::InvalidOperation(_)),
            match r {
                Ok(p) => p == old(self).pieces()[id.0] && final(self).pieces() == old(self).pieces().remove(id.0),
                Err(_) => final(self).pieces() == old(self).pieces(),
            },
            final(self).worn() == old(self).worn(),
            final(self).spec_next_inst_id() == old(self).spec_next_inst_id(),
    {
        let p = match self.pieces.get(&id.0) {
            Some(p) => p,
            None => {
                return Err(LogicError::NotFound("Equip piece not found".to_string()));
            },
        };
        if p.is_equipped() {
            return Err(LogicError::InvalidOperation("Cannot remove equipped piece".to_string()));
        }
        if p.is_lock {
            return Err(LogicError::InvalidOperation("Cannot remove locked piece".to_string()));
        }
        match self.pieces.remove(&id.0) {
            Some(p) => Ok(p),
            None => Err(LogicError::NotFound("Equip piece not found".to_string())),
        }
    }

    /// Locks or unlocks a piece.
    pub fn set_lock(&mut self, id: EquipInstId, lock: bool) -> (r: Result<(), LogicError>)
        ensures
            !old(self).pieces().contains_key(id.0) ==> (r matches Err(LogicError::NotFound(_)) && final(self).pieces() == old(self).pieces()),
            old(self).pieces().contains_key(id.0) ==> r is Ok && final(self).pieces() == old(self).pieces().insert(
                id.0,
                EquipInstance { is_lock: lock, ..old(self).pieces()[id.0] },
            ),
            final(self).worn() == old(self).worn(),
            final(self).spec_next_inst_id() == old(self).spec_next_inst_id(),
    {
        match map_get_mut(&mut self.pieces, id.0) {
            Some(p) => {
                p.is_lock = lock;
                Ok(())
            },
            None => Err(LogicError::NotFound("Equip piece not found".to_string())),
        }
    }

    /// Marks a piece as seen.
    pub fn clear_new_flag(&mut self, id: EquipInstId) -> (r: Result<(), LogicError>)
        ensures
            !old(self).pieces().contains_key(id.0) ==> (r matches Err(LogicError::NotFound(_)) && final(self).pieces() == old(self).pieces()),
            old(self).pieces().contains_key(id.0) ==> r is Ok && final(self).pieces() == old(self).pieces().insert(
                id.0,
                EquipInstance { is_new: false, ..old(self).pieces()[id.0] },
            ),
            final(self).worn() == old(self).worn(),
            final(self).spec_next_inst_id() == old(self).spec_next_inst_id(),
    {
        match map_get_mut(&mut self.pieces, id.0) {
            Some(p) => {
                p.is_new = false;
                Ok(())
            },
            None => Err(LogicError::NotFound("Equip piece not found".to_string())),
        }
    }

    /// The piece character `c` wears in `slot`, when the records name one
    /// that exists.
    pub fn get_in_slot(&self, c: u64, slot: i32) -> (r: Option<&EquipInstance>)
        ensures
            match worn_in(self.worn(), c, slot) {
                Some(q) => match r {
                    Some(p) => self.pieces().contains_key(q) && *p == self.pieces()[q],
                    None => !self.pieces().contains_key(q),
                },
                None => r is None,
            },
    {
        match self.equipped_by_char.get(&c) {
            Some(slots) => {
                proof {
                    assert(self.worn()[c] == slots@);
                }
                match slots.get(&slot) {
                    Some(q) => self.pieces.get(q),
                    None => None,
                }
            },
            None => None,
        }
    }

    /// The pieces character `c` wears, each with its slot, for the slots
    /// whose recorded piece exists; each slot once, in the records' order.
    pub fn equipped_slots(&self, c: u64) -> (r: Vec<(i32, &EquipInstance)>)
        ensures
            ({
                let slots = slots_of(self.worn(), c);
                &&& forall|j: int| #![trigger r@[j]] 0 <= j < r@.len() ==> {
                    &&& slots.contains_key(r@[j].0)
                    &&& self.pieces().contains_key(slots[r@[j].0])
                    &&& *r@[j].1 == self.pieces()[slots[r@[j].0]]
                }
                &&& forall|s: i32| #[trigger] slots.contains_key(s) && self.pieces().contains_key(slots[s]) ==> exists|j: int|
                    0 <= j < r@.len() && #[trigger] r@[j].0 == s
                &&& forall|a: int, b: int| 0 <= a < b < r@.len() ==> r@[a].0 != r@[b].0
            }),
    {
        let mut out: Vec<(i32, &EquipInstance)> = Vec::new();
        match self.equipped_by_char.get(&c) {
            Some(slots) => {
                proof {
                    assert(self.worn()[c] == slots@);
                }
                let keys = map_keys(slots);
                let ghost sm = slots@;
                let mut i: usize = 0;
                while i < keys.len()
                    invariant
                        0 <= i <= keys@.len(),
                        sm == slots@,
                        sm == slots_of(self.worn(), c),
                        keys@.no_duplicates(),
                        keys@.to_set() == sm.dom(),
                        forall|j: int| #![trigger out@[j]] 0 <= j < out@.len() ==> {
                            &&& sm.contains_key(out@[j].0)
                            &&& self.pieces().contains_key(sm[out@[j].0])
                            &&& *out@[j].1 == self.pieces()[sm[out@[j].0]]
                            &&& exists|x: int| 0 <= x < i && keys@[x] == out@[j].0
                        },
                        forall|x: int| 0 <= x < i && self.pieces().contains_key(sm[keys@[x]]) ==> exists|j: int|
                            0 <= j < out@.len() && #[trigger] out@[j].0 == keys@[x],
                        forall|a: int, b: int| 0 <= a < b < out@.len() ==> out@[a].0 != out@[b].0,
                    decreases keys@.len() - i,
                {
                    let s = keys[i];
                    proof {
                        assert(keys@.to_set().contains(s));
                    }
                    let ghost before = out@;
                    match slots.get(&s) {
                        Some(q) => match self.pieces.get(q) {
                            Some(p) => {
                                proof {
                                    assert forall|j: int| 0 <= j < out@.len() implies out@[j].0 != s by {
                                        let x = choose|x: int| 0 <= x < i && keys@[x] == out@[j].0;
                                        assert(keys@[x] != keys@[i as int]);
                                    }
                                }
                                out.push((s, p));
                                proof {
                                    assert(out@[out@.len() - 1].0 == keys@[i as int]);
                                }
                            },
                            None => {},
                        },
                        None => {},
                    }
                    proof {
                        assert forall|x: int| 0 <= x < i + 1 && self.pieces().contains_key(sm[keys@[x]]) implies exists|j: int|
                            0 <= j < out@.len() && #[trigger] out@[j].0 == keys@[x] by {
                            if x < i {
                                let j = choose|j: int| 0 <= j < before.len() && #[trigger] before[j].0 == keys@[x];
                                assert(out@[j] == before[j]);
                            } else {
                                assert(out@[out@.len() - 1].0 == keys@[x]);
                            }
                        }
                    }
                    i += 1;
                }
                proof {
                    assert forall|t: i32| #[trigger] sm.contains_key(t) && self.pieces().contains_key(sm[t]) implies exists|j: int|
                        0 <= j < out@.len() && #[trigger] out@[j].0 == t by {
                        assert(keys@.to_set().contains(t));
                        let x = choose|x: int| 0 <= x < keys@.len() && keys@[x] == t;
                        assert(self.pieces().contains_key(sm[keys@[x]]));
                    }
                }
            },
            None => {},
        }
        out
    }

    /// Every piece, once each, in the map's order.
    pub fn iter(&self) -> (r: Vec<&EquipInstance>)
        ensures
            r@.len() == self.pieces().len(),
            forall|j: int| 0 <= j < r@.len() ==> self.pieces().contains_value(*#[trigger] r@[j]),
            forall|k: u64| #[trigger] self.pieces().contains_key(k) ==> exists|j: int| 0 <= j < r@.len() && *r@[j] == self.pieces()[k],
    {
        let keys = map_keys(&self.pieces);
        let ghost m = self.pieces@;
        let mut out: Vec<&EquipInstance> = Vec::new();
        let mut i: usize = 0;
        while i < keys.len()
            invariant
                0 <= i <= keys@.len(),
                m == self.pieces@,
                keys@.no_duplicates(),
                keys@.to_set() == m.dom(),
                out@.len() == i,
                forall|j: int| 0 <= j < i ==> m.contains_key(#[trigger] keys@[j]) && *out@[j] == m[keys@[j]],
            decreases keys@.len() - i,
        {
            proof {
                assert(keys@.to_set().contains(keys@[i as int]));
            }
            match self.pieces.get(&keys[i]) {
                Some(v) => {
                    out.push(v);
                },
                None => {
                    return out;
                },
            }
            i += 1;
        }
        proof {
            lemma_values_listed(m, keys@, out@);
        }
        out
    }

    /// The next instance id to hand out.
    pub fn next_inst_id(&self) -> (r: u64)
        ensures
            r == self.spec_next_inst_id(),
    {
        self.next_inst_id
    }

    /// Sets the next instance id to hand out (when restoring a saved bag).
    pub fn set_next_inst_id(&mut self, id: u64)
        ensures
            final(self).spec_next_inst_id() == id,
            final(self).pieces() == old(self).pieces(),
            final(self).worn() == old(self).worn(),
    {
        self.next_inst_id = id;
    }

    pub fn contains(&self, id: EquipInstId) -> (r: bool)
        ensures
            r == self.pieces().contains_key(id.0),
    {
        self.pieces.contains_key(&id.0)
    }

    pub fn len(&self) -> (r: usize)
        ensures
            r == self.pieces().len(),
    {
        self.pieces.len()
    }

    pub fn is_empty(&self) -> (r: bool)
        ensures
            r == (self.pieces().len() == 0),
    {
        self.pieces.len() == 0
    }
}


/// The depot tabs of the item bag.
#[derive(Debug, Clone, Copy, PartialEq, Eq, Structural)]
pub enum ItemDepotType {
    Invalid,
    Weapon,
    WeaponGem,
    Equip,
    SpecialItem,
    MissionItem,
    Factory,
}

/// The message refusing a stackable operation on tab `t`, naming the tab.
pub open spec fn instanced_message(t: ItemDepotType) -> Seq<char> {
    match t {
        ItemDepotType::Invalid => "Depot Invalid is instanced"@,
        ItemDepotType::Weapon => "Depot Weapon is instanced"@,
        ItemDepotType::WeaponGem => "Depot WeaponGem is instanced"@,
        ItemDepotType::Equip => "Depot Equip is instanced"@,
        ItemDepotType::SpecialItem => "Depot SpecialItem is instanced"@,
        ItemDepotType::MissionItem => "Depot MissionItem is instanced"@,
        ItemDepotType::Factory => "Depot Factory is instanced"@,
    }
}

/// Whether a tab holds counted (stackable) items rather than instances.
pub open spec fn is_stackable(t: ItemDepotType) -> bool {
    t is SpecialItem || t is MissionItem || t is Factory
}

/// A count after adding `count` to `have`, stopping at `u32::MAX`.
pub open spec fn saturated(have: u32, count: u32) -> u32 {
    if have + count > u32::MAX { u32::MAX } else { (have + count) as u32 }
}

/// Gem `g` with its socket set to `w`.
pub open spec fn gem_in(g: GemInstance, w: u64) -> GemInstance {
    GemInstance { attach_weapon_id: w, ..g }
}

/// Whether socketing gem `g` into weapon `w` succeeds: both exist, the gem
/// sits in no weapon, the gem the weapon holds (if any) exists, and the
/// weapon is not locked.
pub open spec fn socket_ok(ws: Map<u64, WeaponInstance>, gs: Map<u64, GemInstance>, w: u64, g: u64) -> bool {
    &&& ws.contains_key(w)
    &&& gs.contains_key(g)
    &&& gs[g].attach_weapon_id == 0
    &&& (ws[w].attach_gem_id == 0 || gs.contains_key(ws[w].attach_gem_id))
    &&& !ws[w].is_lock
}

/// Gems once the gem weapon `w` held (if any) left its socket.
pub open spec fn gems_freed(ws: Map<u64, WeaponInstance>, gs: Map<u64, GemInstance>, w: u64) -> Map<u64, GemInstance> {
    let prev = ws[w].attach_gem_id;
    if prev != 0 && gs.contains_key(prev) { gs.insert(prev, gem_in(gs[prev], 0)) } else { gs }
}

/// Gems after gem `g` went into weapon `w`.
pub open spec fn gems_socketed(ws: Map<u64, WeaponInstance>, gs: Map<u64, GemInstance>, w: u64, g: u64) -> Map<u64, GemInstance> {
    let freed = gems_freed(ws, gs, w);
    freed.insert(g, gem_in(freed[g], w))
}

/// Weapons after gem `g` went into weapon `w`.
pub open spec fn weapons_socketed(ws: Map<u64, WeaponInstance>, w: u64, g: u64) -> Map<u64, WeaponInstance> {
    ws.insert(w, WeaponInstance { attach_gem_id: g, ..ws[w] })
}

/// Whether taking the gem out of weapon `w` succeeds: the weapon exists,
/// is not locked, holds a gem, and that gem exists.
pub open spec fn unsocket_ok(ws: Map<u64, WeaponInstance>, gs: Map<u64, GemInstance>, w: u64) -> bool {
    &&& ws.contains_key(w)
    &&& !ws[w].is_lock
    &&& ws[w].attach_gem_id != 0
    &&& gs.contains_key(ws[w].attach_gem_id)
}

/// Gems after the gem weapon `w` holds left its socket.
pub open spec fn gems_unsocketed(ws: Map<u64, WeaponInstance>, gs: Map<u64, GemInstance>, w: u64) -> Map<u64, GemInstance> {
    let g = ws[w].attach_gem_id;
    gs.insert(g, gem_in(gs[g], 0))
}

/// One item of the item table, as the bag's starter fill reads it: its id,
/// its tab, and the slot its kind names (gems and equipment).
#[derive(Debug)]
pub struct ItemConfig {
    pub id: String,
    pub depot: ItemDepotType,
    pub craft_slot: i32,
}

/// How many of the first `n` table entries belong to tab `t`.
pub open spec fn count_in(cfgs: Seq<ItemConfig>, t: ItemDepotType, n: int) -> nat
    decreases n,
{
    if n <= 0 {
        0
    } else {
        count_in(cfgs, t, n - 1) + if cfgs[n - 1].depot == t { 1nat } else { 0nat }
    }
}

/// The gems the starter fill makes from the first `n` entries: each gem
/// entry, in table order, becomes a fresh gem under the next id from 1.
pub open spec fn starter_gems(cfgs: Seq<ItemConfig>, own_time: i64, n: int) -> Map<u64, GemInstance>
    decreases n,
{
    if n <= 0 {
        Map::empty()
    } else {
        let prev = starter_gems(cfgs, own_time, n - 1);
        let c = cfgs[n - 1];
        if c.depot == ItemDepotType::WeaponGem {
            let id = (count_in(cfgs, ItemDepotType::WeaponGem, n - 1) + 1) as u64;
            prev.insert(
                id,
                GemInstance {
                    inst_id: GemInstId(id),
                    template_id: c.id,
                    craft_slot: c.craft_slot,
                    attach_weapon_id: 0,
                    is_lock: false,
                    is_new: true,
                    own_time,
                },
            )
        } else {
            prev
        }
    }
}

/// The equipment the starter fill makes from the first `n` entries, as
/// `starter_gems` does for gems.
pub open spec fn starter_equips(cfgs: Seq<ItemConfig>, own_time: i64, n: int) -> Map<u64, EquipInstance>
    decreases n,
{
    if n <= 0 {
        Map::empty()
    } else {
        let prev = starter_equips(cfgs, own_time, n - 1);
        let c = cfgs[n - 1];
        if c.depot == ItemDepotType::Equip {
            let id = (count_in(cfgs, ItemDepotType::Equip, n - 1) + 1) as u64;
            prev.insert(
                id,
                EquipInstance {
                    inst_id: EquipInstId(id),
                    template_id: c.id,
                    slot: c.craft_slot,
                    equip_char_id: 0,
                    is_lock: false,
                    is_new: true,
                    own_time,
                },
            )
        } else {
            prev
        }
    }
}

/// The counts of tab `t` after the first `n` entries: each entry of the
/// tab adds `amount` of its item (saturating).
pub open spec fn starter_counts(cfgs: Seq<ItemConfig>, t: ItemDepotType, amount: u32, n: int) -> Map<Seq<char>, u32>
    decreases n,
{
    if n <= 0 {
        Map::empty()
    } else {
        let prev = starter_counts(cfgs, t, amount, n - 1);
        let k = cfgs[n - 1].id@;
        if cfgs[n - 1].depot == t {
            prev.insert(k, saturated(if prev.contains_key(k) { prev[k] } else { 0 }, amount))
        } else {
            prev
        }
    }
}

/// Starter count of each special item.
pub const STARTER_SPECIAL_COUNT: u32 = 999;

/// Starter count of each mission item.
pub const STARTER_MISSION_COUNT: u32 = 999;

/// Starter count of each factory item.
pub const STARTER_FACTORY_COUNT: u32 = 9999;

proof fn lemma_count_in_bound(cfgs: Seq<ItemConfig>, t: ItemDepotType, n: int)
    requires
        0 <= n,
    ensures
        count_in(cfgs, t, n) <= n,
    decreases n,
{
    if n > 0 {
        lemma_count_in_bound(cfgs, t, n - 1);
    }
}

/// Every depot of the player's bag.
#[derive(Debug)]
pub struct ItemManager {
    pub weapons: WeaponDepot,
    pub gems: GemDepot,
    pub equips: EquipDepot,
    pub special_items: StackableDepot,
    pub mission_items: StackableDepot,
    pub factory_items: StackableDepot,
}

impl ItemManager {
    /// The stackable depot of tab `t` (the factory tab for the others).
    pub open spec fn stack(&self, t: ItemDepotType) -> StackableDepot {
        match t {
            ItemDepotType::SpecialItem => self.special_items,
            ItemDepotType::MissionItem => self.mission_items,
            _ => self.factory_items,
        }
    }

    /// Count of an item in tab `t`; 0 for the instanced tabs.
    pub open spec fn spec_count(&self, t: ItemDepotType, id: Seq<char>) -> u32 {
        if is_stackable(t) { self.stack(t).spec_count_of(id) } else { 0 }
    }

    /// Every depot empty; the stackable tabs carry their wire codes.
    pub fn new() -> (r: Self)
        ensures
            r.weapons.weapons() == Map::<u64, WeaponInstance>::empty(),
            r.weapons.equipped() == Map::<u64, u64>::empty(),
            r.weapons.spec_next_inst_id() == 1,
            r.gems.gems() == Map::<u64, GemInstance>::empty(),
            r.gems.spec_next_inst_id() == 1,
            r.equips.pieces() == Map::<u64, EquipInstance>::empty(),
            r.equips.worn() == Map::<u64, Map<i32, u64>>::empty(),
            r.equips.spec_next_inst_id() == 1,
            r.special_items.counts() == Map::<Seq<char>, u32>::empty(),
            r.special_items.spec_depot_type() == 4,
            r.mission_items.counts() == Map::<Seq<char>, u32>::empty(),
            r.mission_items.spec_depot_type() == 5,
            r.factory_items.counts() == Map::<Seq<char>, u32>::empty(),
            r.factory_items.spec_depot_type() == 6,
    {
        ItemManager {
            weapons: WeaponDepot::new(),
            gems: GemDepot::new(),
            equips: EquipDepot::new(),
            special_items: StackableDepot::new(4),
            mission_items: StackableDepot::new(5),
            factory_items: StackableDepot::new(6),
        }
    }

    /// A new player's bag: every gem and equipment entry of the table as a
    /// fresh instance (ids from 1, in table order), and the starter count
    /// of every special, mission and factory item.
    pub fn init_for_new_player(cfgs: &[ItemConfig], own_time: i64) -> (r: Self)
        requires
            cfgs@.len() < u64::MAX,
        ensures
            r.weapons.weapons() == Map::<u64, WeaponInstance>::empty(),
            r.weapons.equipped() == Map::<u64, u64>::empty(),
            r.gems.gems() == starter_gems(cfgs@, own_time, cfgs@.len() as int),
            r.gems.spec_next_inst_id() == count_in(cfgs@, ItemDepotType::WeaponGem, cfgs@.len() as int) + 1,
            r.equips.pieces() == starter_equips(cfgs@, own_time, cfgs@.len() as int),
            r.equips.worn() == Map::<u64, Map<i32, u64>>::empty(),
            r.equips.spec_next_inst_id() == count_in(cfgs@, ItemDepotType::Equip, cfgs@.len() as int) + 1,
            r.special_items.counts() == starter_counts(cfgs@, ItemDepotType::SpecialItem, STARTER_SPECIAL_COUNT, cfgs@.len() as int),
            r.mission_items.counts() == starter_counts(cfgs@, ItemDepotType::MissionItem, STARTER_MISSION_COUNT, cfgs@.len() as int),
            r.factory_items.counts() == starter_counts(cfgs@, ItemDepotType::Factory, STARTER_FACTORY_COUNT, cfgs@.len() as int),
            r.special_items.spec_depot_type() == 4,
            r.mission_items.spec_depot_type() == 5,
            r.factory_items.spec_depot_type() == 6,
    {
        let mut mgr = Self::new();
        let mut i: usize = 0;
        while i < cfgs.len()
            invariant
                0 <= i <= cfgs@.len() < u64::MAX,
                mgr.weapons.weapons() == Map::<u64, WeaponInstance>::empty(),
                mgr.weapons.equipped() == Map::<u64, u64>::empty(),
                mgr.gems.gems() == starter_gems(cfgs@, own_time, i as int),
                mgr.gems.spec_next_inst_id() == count_in(cfgs@, ItemDepotType::WeaponGem, i as int) + 1,
                mgr.equips.pieces() == starter_equips(cfgs@, own_time, i as int),
                mgr.equips.worn() == Map::<u64, Map<i32, u64>>::empty(),
                mgr.equips.spec_next_inst_id() == count_in(cfgs@, ItemDepotType::Equip, i as int) + 1,
                mgr.special_items.counts() == starter_counts(cfgs@, ItemDepotType::SpecialItem, STARTER_SPECIAL_COUNT, i as int),
                mgr.mission_items.counts() == starter_counts(cfgs@, ItemDepotType::MissionItem, STARTER_MISSION_COUNT, i as int),
                mgr.factory_items.counts() == starter_counts(cfgs@, ItemDepotType::Factory, STARTER_FACTORY_COUNT, i as int),
                mgr.special_items.spec_depot_type() == 4,
                mgr.mission_items.spec_depot_type() == 5,
                mgr.factory_items.spec_depot_type() == 6,
            decreases cfgs@.len() - i,
        {
            let c = &cfgs[i];
            proof {
                lemma_count_in_bound(cfgs@, ItemDepotType::WeaponGem, i as int);
                lemma_count_in_bound(cfgs@, ItemDepotType::Equip, i as int);
            }
            match c.depot {
                ItemDepotType::WeaponGem => {
                    mgr.gems.add_gem(c.id.clone(), c.craft_slot, own_time);
                },
                ItemDepotType::Equip => {
                    mgr.equips.add_equip(c.id.clone(), c.craft_slot, own_time);
                },
                ItemDepotType::SpecialItem => {
                    mgr.special_items.add(c.id.as_str(), STARTER_SPECIAL_COUNT);
                },
                ItemDepotType::MissionItem => {
                    mgr.mission_items.add(c.id.as_str(), STARTER_MISSION_COUNT);
                },
                ItemDepotType::Factory => {
                    mgr.factory_items.add(c.id.as_str(), STARTER_FACTORY_COUNT);
                },
                _ => {},
            }
            i += 1;
        }
        mgr
    }

    /// The error for a stackable operation on an instanced tab.
    fn instanced(t: ItemDepotType) -> (r: LogicError)
        ensures
            r matches LogicError::InvalidOperation(m) && m@ == instanced_message(t),
    {
        let msg = match t {
            ItemDepotType::Invalid => "Depot Invalid is instanced",
            ItemDepotType::Weapon => "Depot Weapon is instanced",
            ItemDepotType::WeaponGem => "Depot WeaponGem is instanced",
            ItemDepotType::Equip => "Depot Equip is instanced",
            ItemDepotType::SpecialItem => "Depot SpecialItem is instanced",
            ItemDepotType::MissionItem => "Depot MissionItem is instanced",
            ItemDepotType::Factory => "Depot Factory is instanced",
        };
        LogicError::InvalidOperation(msg.to_owned())
    }

    /// Adds `count` of an item to a stackable tab (saturating) and returns
    /// the new count; refused for the instanced tabs.
    pub fn add_stackable(&mut self, depot_type: ItemDepotType, template_id: &str, count: u32) -> (r: Result<u32, LogicError>)
        ensures
            !is_stackable(depot_type) ==> (r matches Err(LogicError::InvalidOperation(_)) && *final(self) == *old(self)),
            is_stackable(depot_type) ==> {
                let n = saturated(old(self).stack(depot_type).spec_count_of(template_id@), count);
                &&& r == Ok::<u32, LogicError>(n)
                &&& final(self).stack(depot_type).counts() == old(self).stack(depot_type).counts().insert(template_id@, n)
                &&& final(self).stack(depot_type).spec_depot_type() == old(self).stack(depot_type).spec_depot_type()
                &&& forall|t: ItemDepotType| is_stackable(t) && t != depot_type ==> #[trigger] final(self).stack(t) == old(self).stack(t)
            },
            final(self).weapons == old(self).weapons,
            final(self).gems == old(self).gems,
            final(self).equips == old(self).equips,
    {
        match depot_type {
            ItemDepotType::SpecialItem => Ok(self.special_items.add(template_id, count)),
            ItemDepotType::MissionItem => Ok(self.mission_items.add(template_id, count)),
            ItemDepotType::Factory => Ok(self.factory_items.add(template_id, count)),
            _ => Err(Self::instanced(depot_type)),
        }
    }

    /// Takes `count` of an item from a stackable tab and returns the count
    /// left (see `StackableDepot::consume`); refused for the instanced tabs.
    pub fn consume_stackable(&mut self, depot_type: ItemDepotType, template_id: &str, count: u32) -> (r: Result<u32, LogicError>)
        ensures
            !is_stackable(depot_type) ==> (r matches Err(LogicError::InvalidOperation(_)) && *final(self) == *old(self)),
            is_stackable(depot_type) ==> {
                let have = old(self).stack(depot_type).spec_count_of(template_id@);
                let c0 = old(self).stack(depot_type).counts();
                &&& forall|t: ItemDepotType| is_stackable(t) && t != depot_type ==> #[trigger] final(self).stack(t) == old(self).stack(t)
                &&& final(self).stack(depot_type).spec_depot_type() == old(self).stack(depot_type).spec_depot_type()
                &&& match r {
                    Ok(rem) => {
                        &&& have >= count
                        &&& rem == have - count
                        &&& final(self).stack(depot_type).counts() == if rem == 0 {
                            c0.remove(template_id@)
                        } else {
                            c0.insert(template_id@, rem)
                        }
                    },
                    Err(e) => {
                        &&& have < count
                        &&& e matches LogicError::Insufficient { item_id, have: h, need } && item_id@ == template_id@ && h == have
                            && need == count
                        &&& final(self).stack(depot_type).counts() == c0
                    },
                }
            },
            final(self).weapons == old(self).weapons,
            final(self).gems == old(self).gems,
            final(self).equips == old(self).equips,
    {
        match depot_type {
            ItemDepotType::SpecialItem => self.special_items.consume(template_id, count),
            ItemDepotType::MissionItem => self.mission_items.consume(template_id, count),
            ItemDepotType::Factory => self.factory_items.consume(template_id, count),
            _ => Err(Self::instanced(depot_type)),
        }
    }

    /// Count of an item in a tab; 0 for the instanced tabs.
    pub fn count_of(&self, depot_type: ItemDepotType, template_id: &str) -> (r: u32)
        ensures
            r == self.spec_count(depot_type, template_id@),
    {
        match depot_type {
            ItemDepotType::SpecialItem => self.special_items.count_of(template_id),
            ItemDepotType::MissionItem => self.mission_items.count_of(template_id),
            ItemDepotType::Factory => self.factory_items.count_of(template_id),
            _ => 0,
        }
    }

    /// Whether a stackable tab holds at least `count` of an item; false for
    /// the instanced tabs.
    pub fn has_stackable(&self, depot_type: ItemDepotType, template_id: &str, count: u32) -> (r: bool)
        ensures
            r == (is_stackable(depot_type) && self.stack(depot_type).spec_count_of(template_id@) >= count),
    {
        match depot_type {
            ItemDepotType::SpecialItem => self.special_items.has(template_id, count),
            ItemDepotType::MissionItem => self.mission_items.has(template_id, count),
            ItemDepotType::Factory => self.factory_items.has(template_id, count),
            _ => false,
        }
    }

    /// Puts gem `gem_inst_id` into weapon `weapon_inst_id` and returns the
    /// gem it replaced, which leaves its socket. Refused for a missing
    /// weapon or gem, a gem already in a weapon, a replaced gem that is
    /// missing, and a locked weapon (the replaced gem has then already
    /// left its socket).
    pub fn socket_gem(&mut self, weapon_inst_id: WeaponInstId, gem_inst_id: GemInstId) -> (r: Result<Option<GemInstId>, LogicError>)
        ensures
            ({
                let ws = old(self).weapons.weapons();
                let gs = old(self).gems.gems();
                let w = weapon_inst_id.0;
                let g = gem_inst_id.0;
                let prev = ws[w].attach_gem_id;
                &&& (!ws.contains_key(w) || !gs.contains_key(g)) ==> (r matches Err(LogicError::NotFound(_))
                    && final(self).weapons.weapons() == ws && final(self).gems.gems() == gs)
                &&& ws.contains_key(w) && gs.contains_key(g) && gs[g].attach_weapon_id != 0 ==> (r matches Err(
                    LogicError::InvalidOperation(_),
                ) && final(self).weapons.weapons() == ws && final(self).gems.gems() == gs)
                &&& ws.contains_key(w) && gs.contains_key(g) && gs[g].attach_weapon_id == 0 && prev != 0 && !gs.contains_key(prev)
                    ==> (r matches Err(LogicError::NotFound(_)) && final(self).weapons.weapons() == ws && final(self).gems.gems() == gs)
                &&& ws.contains_key(w) && gs.contains_key(g) && gs[g].attach_weapon_id == 0 && (prev == 0 || gs.contains_key(prev))
                    && ws[w].is_lock ==> (r matches Err(LogicError::InvalidOperation(_)) && final(self).weapons.weapons() == ws
                    && final(self).gems.gems() == gems_freed(ws, gs, w))
                &&& socket_ok(ws, gs, w, g) ==> {
                    &&& r == Ok::<Option<GemInstId>, LogicError>(if prev != 0 { Some(GemInstId(prev)) } else { None })
                    &&& final(self).weapons.weapons() == weapons_socketed(ws, w, g)
                    &&& final(self).gems.gems() == gems_socketed(ws, gs, w, g)
                }
            }),
            final(self).weapons.equipped() == old(self).weapons.equipped(),
            final(self).weapons.spec_next_inst_id() == old(self).weapons.spec_next_inst_id(),
            final(self).gems.spec_next_inst_id() == old(self).gems.spec_next_inst_id(),
            final(self).equips == old(self).equips,
            final(self).special_items == old(self).special_items,
            final(self).mission_items == old(self).mission_items,
            final(self).factory_items == old(self).factory_items,
    {
        let prev_raw: u64 = match self.weapons.get(weapon_inst_id) {
            Some(w) => w.attach_gem_id,
            None => {
                return Err(LogicError::NotFound("Weapon not found".to_string()));
            },
        };
        let socketed = match self.gems.get(gem_inst_id) {
            Some(g) => g.is_socketed(),
            None => {
                return Err(LogicError::NotFound("Gem not found".to_string()));
            },
        };
        if socketed {
            return Err(LogicError::InvalidOperation("Gem already socketed".to_string()));
        }
        let prev_gem = if prev_raw != 0 {
            let id = GemInstId::new(prev_raw);
            match self.gems.clear_socket(id) {
                Ok(()) => {},
                Err(e) => {
                    return Err(e);
                },
            }
            Some(id)
        } else {
            None
        };
        match self.weapons.attach_gem(weapon_inst_id, gem_inst_id.as_u64()) {
            Ok(_) => {},
            Err(e) => {
                return Err(e);
            },
        }
        match self.gems.set_socket(gem_inst_id, weapon_inst_id.as_u64()) {
            Ok(()) => {},
            Err(e) => {
                return Err(e);
            },
        }
        Ok(prev_gem)
    }

    /// Takes the gem out of weapon `weapon_inst_id`, frees it, and returns
    /// its id. Refused for a missing or locked weapon, a weapon without a
    /// gem, and a gem that is missing (the weapon is then already empty).
    pub fn unsocket_gem(&mut self, weapon_inst_id: WeaponInstId) -> (r: Result<GemInstId, LogicError>)
        ensures
            ({
                let ws = old(self).weapons.weapons();
                let gs = old(self).gems.gems();
                let w = weapon_inst_id.0;
                let g = ws[w].attach_gem_id;
                &&& !ws.contains_key(w) ==> (r matches Err(LogicError::NotFound(_)) && final(self).weapons.weapons() == ws
                    && final(self).gems.gems() == gs)
                &&& ws.contains_key(w) && (ws[w].is_lock || g == 0) ==> (r matches Err(LogicError::InvalidOperation(_))
                    && final(self).weapons.weapons() == ws && final(self).gems.gems() == gs)
                &&& ws.contains_key(w) && !ws[w].is_lock && g != 0 && !gs.contains_key(g) ==> (r matches Err(
                    LogicError::NotFound(_),
                ) && final(self).weapons.weapons() == weapons_socketed(ws, w, 0) && final(self).gems.gems() == gs)
                &&& unsocket_ok(ws, gs, w) ==> {
                    &&& r == Ok::<GemInstId, LogicError>(GemInstId(g))
                    &&& final(self).weapons.weapons() == weapons_socketed(ws, w, 0)
                    &&& final(self).gems.gems() == gems_unsocketed(ws, gs, w)
                }
            }),
            final(self).weapons.equipped() == old(self).weapons.equipped(),
            final(self).weapons.spec_next_inst_id() == old(self).weapons.spec_next_inst_id(),
            final(self).gems.spec_next_inst_id() == old(self).gems.spec_next_inst_id(),
            final(self).equips == old(self).equips,
            final(self).special_items == old(self).special_items,
            final(self).mission_items == old(self).mission_items,
            final(self).factory_items == old(self).factory_items,
    {
        let raw = match self.weapons.detach_gem(weapon_inst_id) {
            Ok(raw) => raw,
            Err(e) => {
                return Err(e);
            },
        };
        let gem_id = GemInstId::new(raw);
        match self.gems.clear_socket(gem_id) {
            Ok(()) => {},
            Err(e) => {
                return Err(e);
            },
        }
        Ok(gem_id)
    }
}

/// Socketing gem `g` into weapon `w` and taking the gem straight back out
/// hands back `g`; the weapon ends empty, and the only lasting change to
/// the gems is that the gem the weapon held before is free.
pub proof fn lemma_socket_then_unsocket(ws: Map<u64, WeaponInstance>, gs: Map<u64, GemInstance>, w: u64, g: u64)
    requires
        socket_ok(ws, gs, w, g),
        g != 0,
    ensures
        unsocket_ok(weapons_socketed(ws, w, g), gems_socketed(ws, gs, w, g), w),
        weapons_socketed(ws, w, g)[w].attach_gem_id == g,
        weapons_socketed(weapons_socketed(ws, w, g), w, 0) == ws.insert(w, WeaponInstance { attach_gem_id: 0, ..ws[w] }),
        gems_unsocketed(weapons_socketed(ws, w, g), gems_socketed(ws, gs, w, g), w) == gems_freed(ws, gs, w),
{
    let ws1 = weapons_socketed(ws, w, g);
    let gs1 = gems_socketed(ws, gs, w, g);
    let freed = gems_freed(ws, gs, w);
    assert(freed.contains_key(g));
    assert(gem_in(freed[g], 0) == freed[g]);
    assert(gems_unsocketed(ws1, gs1, w) =~= freed);
    assert(weapons_socketed(ws1, w, 0) =~= ws.insert(w, WeaponInstance { attach_gem_id: 0, ..ws[w] }));
}

} // verus!
