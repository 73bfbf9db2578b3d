//! Depots of weapons, gems, equipment and stackable items.
use std::collections::HashMap;

use vstd::prelude::*;

use crate::error::LogicError;
use crate::util::map_get_mut;

verus! {

broadcast use vstd::std_specs::hash::group_hash_axioms;

/// Instance id of a weapon.
#[derive(Debug, Clone, Copy, PartialEq, Eq, Hash, Default, Structural)]
pub struct WeaponInstId(pub u64);

impl WeaponInstId {
    pub fn new(id: u64) -> (r: Self)
        ensures
            r.0 == id,
    {
        WeaponInstId(id)
    }

    pub fn as_u64(self) -> (r: u64)
        ensures
            r == self.0,
    {
        self.0
    }
}

/// One weapon the player owns.
#[derive(Debug)]
pub struct WeaponInstance {
    pub inst_id: WeaponInstId,
    pub template_id: String,
    pub exp: u64,
    pub weapon_lv: u64,
    pub refine_lv: u64,
    pub breakthrough_lv: u64,
    /// Character wearing the weapon; 0 = none.
    pub equip_char_id: u64,
    /// Gem socketed in the weapon; 0 = none.
    pub attach_gem_id: u64,
    pub is_lock: bool,
    pub is_new: bool,
    pub own_time: i64,
}

/// A fresh weapon: level 1, breakthrough 1, unequipped, no gem, unlocked, new.
pub open spec fn fresh_weapon(inst_id: WeaponInstId, template_id: String, own_time: i64) -> WeaponInstance {
    WeaponInstance {
        inst_id,
        template_id,
        exp: 0,
        weapon_lv: 1,
        refine_lv: 0,
        breakthrough_lv: 1,
        equip_char_id: 0,
        attach_gem_id: 0,
        is_lock: false,
        is_new: true,
        own_time,
    }
}

impl WeaponInstance {
    pub fn new(inst_id: WeaponInstId, template_id: String, own_time: i64) -> (r: Self)
        ensures
            r == fresh_weapon(inst_id, template_id, own_time),
    {
        WeaponInstance {
            inst_id,
            template_id,
            exp: 0,
            weapon_lv: 1,
            refine_lv: 0,
            breakthrough_lv: 1,
            equip_char_id: 0,
            attach_gem_id: 0,
            is_lock: false,
            is_new: true,
            own_time,
        }
    }

    pub fn is_equipped(&self) -> (r: bool)
        ensures
            r == (self.equip_char_id != 0),
    {
        self.equip_char_id != 0
    }
}

/// The weapon `w` worn by `c` (0 = nobody).
pub open spec fn with_equip(w: WeaponInstance, c: u64) -> WeaponInstance {
    WeaponInstance { equip_char_id: c, ..w }
}

/// `ws` with the weapon under `k`, if any, worn by `c`.
pub open spec fn set_equip(ws: Map<u64, WeaponInstance>, k: u64, c: u64) -> Map<u64, WeaponInstance> {
    if ws.contains_key(k) {
        ws.insert(k, with_equip(ws[k], c))
    } else {
        ws
    }
}

/// No record for character 0 (nobody); each character's recorded weapon
/// exists and names it as its wearer, and
/// each worn weapon is the one its wearer is recorded with.
pub open spec fn maps_consistent(ws: Map<u64, WeaponInstance>, es: Map<u64, u64>) -> bool {
    &&& !es.contains_key(0)
    &&& forall|c: u64| #[trigger] es.contains_key(c) ==> ws.contains_key(es[c]) && ws[es[c]].equip_char_id == c
    &&& forall|k: u64|
        #[trigger] ws.contains_key(k) && ws[k].equip_char_id != 0 ==> es.contains_key(ws[k].equip_char_id)
            && es[ws[k].equip_char_id] == k
}

/// Weapons after putting `wid` on `c`: the weapon `c` wore comes off and
/// `wid` is worn by `c`.
pub open spec fn equip_weapons(ws: Map<u64, WeaponInstance>, es: Map<u64, u64>, wid: u64, c: u64) -> Map<u64, WeaponInstance> {
    let cleared = match es.get(c) {
        Some(x) => set_equip(ws, x, 0),
        None => ws,
    };
    cleared.insert(wid, with_equip(ws[wid], c))
}

/// Equip records after putting `wid` on `c`: the records of `c` and of the
/// weapon's previous wearer go, and `c` is recorded with `wid`.
pub open spec fn equip_records(ws: Map<u64, WeaponInstance>, es: Map<u64, u64>, wid: u64, c: u64) -> Map<u64, u64> {
    let prev_char = ws[wid].equip_char_id;
    let es1 = es.remove(c);
    let es2 = if prev_char != 0 { es1.remove(prev_char) } else { es1 };
    es2.insert(c, wid)
}

/// Every weapon of the player, keyed by instance id, with the map from
/// character to the weapon it wears.
#[derive(Debug)]
pub struct WeaponDepot {
    weapons: HashMap<u64, WeaponInstance>,
    next_inst_id: u64,
    equipped_weapons: HashMap<u64, u64>,
}

impl WeaponDepot {
    pub const DEPOT_TYPE: i32 = 1;

    /// Weapons by instance id.
    pub closed spec fn weapons(&self) -> Map<u64, WeaponInstance> {
        self.weapons@
    }

    /// Character id -> instance id of the weapon it wears.
    pub closed spec fn equipped(&self) -> Map<u64, u64> {
        self.equipped_weapons@
    }

    /// The next instance id to hand out.
    pub closed spec fn spec_next_inst_id(&self) -> u64 {
        self.next_inst_id
    }

    pub fn new() -> (r: Self)
        ensures
            r.weapons() == Map::<u64, WeaponInstance>::empty(),
            r.equipped() == Map::<u64, u64>::empty(),
            r.spec_next_inst_id() == 1,
    {
        WeaponDepot { weapons: HashMap::new(), next_inst_id: 1, equipped_weapons: HashMap::new() }
    }

    fn alloc_inst_id(&mut self) -> (r: WeaponInstId)
        requires
            old(self).next_inst_id < u64::MAX,
        ensures
            r.0 == old(self).next_inst_id,
            final(self).next_inst_id == old(self).next_inst_id + 1,
            final(self).weapons == old(self).weapons,
            final(self).equipped_weapons == old(self).equipped_weapons,
    {
        let id = WeaponInstId::new(self.next_inst_id);
        self.next_inst_id = self.next_inst_id + 1;
        id
    }

    pub fn next_inst_id(&self) -> (r: u64)
        ensures
            r == self.spec_next_inst_id(),
    {
        self.next_inst_id
    }

    pub fn set_next_inst_id(&mut self, id: u64)
        ensures
            final(self).spec_next_inst_id() == id,
            final(self).weapons() == old(self).weapons(),
            final(self).equipped() == old(self).equipped(),
    {
        self.next_inst_id = id;
    }

    /// Adds a fresh weapon under the next instance id and returns that id.
    pub fn add_weapon(&mut self, template_id: String, own_time: i64) -> (r: WeaponInstId)
        requires
            old(self).spec_next_inst_id() < u64::MAX,
        ensures
            r.0 == old(self).spec_next_inst_id(),
            final(self).spec_next_inst_id() == old(self).spec_next_inst_id() + 1,
            final(self).weapons() == old(self).weapons().insert(r.0, fresh_weapon(r, template_id, own_time)),
            final(self).equipped() == old(self).equipped(),
    {
        let inst_id = self.alloc_inst_id();
        let weapon = WeaponInstance::new(inst_id, template_id, own_time);
        self.weapons.insert(inst_id.0, weapon);
        inst_id
    }

    /// Stores a weapon as it is (e.g. loaded from a save), recording its
    /// wearer and moving the id counter past its id.
    pub fn insert_weapon(&mut self, weapon: WeaponInstance)
        requires
            weapon.inst_id.0 < u64::MAX || weapon.inst_id.0 < old(self).spec_next_inst_id(),
        ensures
            final(self).weapons() == old(self).weapons().insert(weapon.inst_id.0, weapon),
            final(self).equipped() == if weapon.equip_char_id != 0 {
                old(self).equipped().insert(weapon.equip_char_id, weapon.inst_id.0)
            } else {
                old(self).equipped()
            },
            final(self).spec_next_inst_id() == if weapon.inst_id.0 >= old(self).spec_next_inst_id() {
                (weapon.inst_id.0 + 1) as u64
            } else {
                old(self).spec_next_inst_id()
            },
    {
        if weapon.is_equipped() {
            self.equipped_weapons.insert(weapon.equip_char_id, weapon.inst_id.0);
        }
        let v = weapon.inst_id.as_u64();
        if v >= self.next_inst_id {
            self.next_inst_id = v + 1;
        }
        self.weapons.insert(weapon.inst_id.0, weapon);
    }

    pub fn get(&self, id: WeaponInstId) -> (r: Option<&WeaponInstance>)
        ensures
            match r {
                Some(w) => self.weapons().contains_key(id.0) && *w == self.weapons()[id.0],
                None => !self.weapons().contains_key(id.0),
            },
    {
        self.weapons.get(&id.0)
    }

    pub fn get_mut(&mut self, id: WeaponInstId) -> (r: Option<&mut WeaponInstance>)
        ensures
            match r {
                Some(w) => {
                    &&& old(self).weapons().contains_key(id.0)
                    &&& *w == old(self).weapons()[id.0]
                    &&& final(self).weapons() == old(self).weapons().insert(id.0, *final(w))
                },
                None => !old(self).weapons().contains_key(id.0) && final(self).weapons() == old(self).weapons(),
            },
            final(self).equipped() == old(self).equipped(),
            final(self).spec_next_inst_id() == old(self).spec_next_inst_id(),
    {
        map_get_mut(&mut self.weapons, id.0)
    }

    /// Removes and returns a weapon; refused for missing, worn or locked
    /// weapons.
    pub fn remove_weapon(&mut self, inst_id: WeaponInstId) -> (r: Result<WeaponInstance, LogicError>)
        ensures
            !old(self).weapons().contains_key(inst_id.0) ==> r matches Err(LogicError::NotFound(_)),
            old(self).weapons().contains_key(inst_id.0) && (old(self).weapons()[inst_id.0].equip_char_id != 0
                || old(self).weapons()[inst_id.0].is_lock) ==> r matches Err(LogicError::InvalidOperation(_)),
            r is Ok <==> old(self).weapons().contains_key(inst_id.0) && old(self).weapons()[inst_id.0].equip_char_id
                == 0 && !old(self).weapons()[inst_id.0].is_lock,
            match r {
                Ok(w) => w == old(self).weapons()[inst_id.0] && final(self).weapons() == old(self).weapons().remove(
                    inst_id.0,
                ),
                Err(_) => final(self).weapons() == old(self).weapons(),
            },
            final(self).equipped() == old(self).equipped(),
            final(self).spec_next_inst_id() == old(self).spec_next_inst_id(),
    {
        let w = match self.weapons.get(&inst_id.0) {
            Some(w) => w,
            None => {
                return Err(LogicError::NotFound("Weapon not found".to_string()));
            },
        };
        if w.is_equipped() {
            return Err(LogicError::InvalidOperation("Cannot remove equipped weapon".to_string()));
        }
        if w.is_lock {
            return Err(LogicError::InvalidOperation("Cannot remove locked weapon".to_string()));
        }
        match self.weapons.remove(&inst_id.0) {
            Some(w) => Ok(w),
            None => Err(LogicError::NotFound("Weapon not found".to_string())),
        }
    }

    pub fn contains(&self, id: WeaponInstId) -> (r: bool)
        ensures
            r == self.weapons().contains_key(id.0),
    {
        self.weapons.contains_key(&id.0)
    }

    /// All weapons, keyed by instance id.
    pub fn all_weapons(&self) -> (r: &HashMap<u64, WeaponInstance>)
        ensures
            r@ == self.weapons(),
    {
        &self.weapons
    }

    pub fn len(&self) -> (r: usize)
        ensures
            r == self.weapons().len(),
    {
        self.weapons.len()
    }

    pub fn is_empty(&self) -> (r: bool)
        ensures
            r == (self.weapons().len() == 0),
    {
        self.weapons.len() == 0
    }

    /// Takes the weapon off character `char_id`, if it wears one, and
    /// returns that weapon's id.
    fn unequip_from_char(&mut self, char_id: u64) -> (r: Option<WeaponInstId>)
        ensures
            match old(self).equipped().get(char_id) {
                Some(w) => {
                    &&& r == Some(WeaponInstId(w))
                    &&& final(self).weapons() == set_equip(old(self).weapons(), w, 0)
                    &&& final(self).equipped() == old(self).equipped().remove(char_id)
                },
                None => r is None && final(self).weapons() == old(self).weapons() && final(self).equipped()
                    == old(self).equipped(),
            },
            final(self).spec_next_inst_id() == old(self).spec_next_inst_id(),
    {
        match self.equipped_weapons.get(&char_id) {
            Some(inst_id) => {
                let inst_id = *inst_id;
                match map_get_mut(&mut self.weapons, inst_id) {
                    Some(w) => {
                        w.equip_char_id = 0;
                    },
                    None => {},
                }
                self.equipped_weapons.remove(&char_id);
                Some(WeaponInstId(inst_id))
            },
            None => None,
        }
    }

    /// Puts weapon `weapon_inst_id` on character `char_id`: the character's
    /// previous weapon comes off, the weapon leaves its previous wearer, and
    /// the id of the replaced weapon is returned. Refused for a missing
    /// weapon or one the character already wears.
    pub fn equip_weapon(&mut self, weapon_inst_id: WeaponInstId, char_id: u64) -> (r: Result<
        Option<WeaponInstId>,
        LogicError,
    >)
        ensures
            !old(self).weapons().contains_key(weapon_inst_id.0) ==> r matches Err(LogicError::NotFound(_)),
            old(self).weapons().contains_key(weapon_inst_id.0) && old(self).weapons()[weapon_inst_id.0].equip_char_id
                == char_id ==> r matches Err(LogicError::InvalidOperation(_)),
            r is Ok <==> old(self).weapons().contains_key(weapon_inst_id.0) && old(self).weapons()[weapon_inst_id.0].equip_char_id
                != char_id,
            match r {
                Ok(prev) => {
                    let ws = old(self).weapons();
                    let es = old(self).equipped();
                    &&& prev == match es.get(char_id) {
                        Some(x) => Some(WeaponInstId(x)),
                        None => None,
                    }
                    &&& final(self).weapons() == equip_weapons(ws, es, weapon_inst_id.0, char_id)
                    &&& final(self).equipped() == equip_records(ws, es, weapon_inst_id.0, char_id)
                },
                Err(_) => final(self).weapons() == old(self).weapons() && final(self).equipped() == old(
                    self,
                ).equipped(),
            },
            final(self).spec_next_inst_id() == old(self).spec_next_inst_id(),
    {
        let w = match self.weapons.get(&weapon_inst_id.0) {
            Some(w) => w,
            None => {
                return Err(LogicError::NotFound("Weapon not found".to_string()));
            },
        };
        if w.equip_char_id == char_id {
            return Err(
                LogicError::InvalidOperation("Weapon already equipped to this character".to_string()),
            );
        }
        let prev_char = w.equip_char_id;
        let prev_weapon = self.unequip_from_char(char_id);
        if prev_char != 0 {
            self.equipped_weapons.remove(&prev_char);
            match map_get_mut(&mut self.weapons, weapon_inst_id.0) {
                Some(w) => {
                    w.equip_char_id = 0;
                },
                None => {},
            }
        }
        match map_get_mut(&mut self.weapons, weapon_inst_id.0) {
            Some(w) => {
                w.equip_char_id = char_id;
            },
            None => {},
        }
        self.equipped_weapons.insert(char_id, weapon_inst_id.0);
        proof {
            let ws = old(self).weapons();
            let es = old(self).equipped();
            let cleared = match es.get(char_id) {
                Some(x) => set_equip(ws, x, 0),
                None => ws,
            };
            assert(self.weapons@ =~= cleared.insert(weapon_inst_id.0, with_equip(ws[weapon_inst_id.0], char_id)));
        }
        Ok(prev_weapon)
    }

    /// Takes a weapon off its wearer; `Ok(false)` when nobody wears it.
    pub fn unequip_weapon(&mut self, id: WeaponInstId) -> (r: Result<bool, LogicError>)
        ensures
            r is Err <==> !old(self).weapons().contains_key(id.0),
            r is Err ==> r matches Err(LogicError::NotFound(_)),
            match r {
                Ok(true) => {
                    let c = old(self).weapons()[id.0].equip_char_id;
                    &&& c != 0
                    &&& final(self).weapons() == old(self).weapons().insert(id.0, with_equip(old(self).weapons()[id.0], 0))
                    &&& final(self).equipped() == old(self).equipped().remove(c)
                },
                Ok(false) => old(self).weapons()[id.0].equip_char_id == 0 && final(self).weapons() == old(
                    self,
                ).weapons() && final(self).equipped() == old(self).equipped(),
                Err(_) => final(self).weapons() == old(self).weapons() && final(self).equipped() == old(
                    self,
                ).equipped(),
            },
            final(self).spec_next_inst_id() == old(self).spec_next_inst_id(),
    {
        let w = match map_get_mut(&mut self.weapons, id.0) {
            Some(w) => w,
            None => {
                return Err(LogicError::NotFound("Weapon not found".to_string()));
            },
        };
        if !w.is_equipped() {
            return Ok(false);
        }
        let char_id = w.equip_char_id;
        w.equip_char_id = 0;
        self.equipped_weapons.remove(&char_id);
        Ok(true)
    }

    /// The weapon character `char_id` wears, if recorded and present.
    pub fn get_equipped_weapon(&self, char_id: u64) -> (r: Option<&WeaponInstance>)
        ensures
            match r {
                Some(w) => self.equipped().contains_key(char_id) && self.weapons().contains_key(
                    self.equipped()[char_id],
                ) && *w == self.weapons()[self.equipped()[char_id]],
                None => !self.equipped().contains_key(char_id) || !self.weapons().contains_key(
                    self.equipped()[char_id],
                ),
            },
    {
        match self.equipped_weapons.get(&char_id) {
            Some(id) => self.weapons.get(id),
            None => None,
        }
    }

    pub fn get_equipped_weapon_id(&self, char_id: u64) -> (r: Option<WeaponInstId>)
        ensures
            r == match self.equipped().get(char_id) {
                Some(w) => Some(WeaponInstId(w)),
                None => None,
            },
    {
        match self.equipped_weapons.get(&char_id) {
            Some(id) => Some(WeaponInstId(*id)),
            None => None,
        }
    }

    pub fn has_equipped_weapon(&self, char_id: u64) -> (r: bool)
        ensures
            r == self.equipped().contains_key(char_id),
    {
        self.equipped_weapons.contains_key(&char_id)
    }

    pub fn set_lock(&mut self, id: WeaponInstId, is_lock: bool) -> (r: Result<(), LogicError>)
        ensures
            r is Ok <==> old(self).weapons().contains_key(id.0),
            r is Err ==> r matches Err(LogicError::NotFound(_)),
            final(self).weapons() == if r is Ok {
                old(self).weapons().insert(id.0, WeaponInstance { is_lock, ..old(self).weapons()[id.0] })
            } else {
                old(self).weapons()
            },
            final(self).equipped() == old(self).equipped(),
            final(self).spec_next_inst_id() == old(self).spec_next_inst_id(),
    {
        match map_get_mut(&mut self.weapons, id.0) {
            Some(w) => {
                w.is_lock = is_lock;
                Ok(())
            },
            None => Err(LogicError::NotFound("Weapon not found".to_string())),
        }
    }

    pub fn clear_new_flag(&mut self, id: WeaponInstId) -> (r: Result<(), LogicError>)
        ensures
            r is Ok <==> old(self).weapons().contains_key(id.0),
            r is Err ==> r matches Err(LogicError::NotFound(_)),
            final(self).weapons() == if r is Ok {
                old(self).weapons().insert(id.0, WeaponInstance { is_new: false, ..old(self).weapons()[id.0] })
            } else {
                old(self).weapons()
            },
            final(self).equipped() == old(self).equipped(),
            final(self).spec_next_inst_id() == old(self).spec_next_inst_id(),
    {
        match map_get_mut(&mut self.weapons, id.0) {
            Some(w) => {
                w.is_new = false;
                Ok(())
            },
            None => Err(LogicError::NotFound("Weapon not found".to_string())),
        }
    }

    /// Sockets gem `gem_inst_id` into a weapon and returns the gem it
    /// replaced, if any. Refused for missing or locked weapons.
    pub fn attach_gem(&mut self, weapon_inst_id: WeaponInstId, gem_inst_id: u64) -> (r: Result<Option<u64>, LogicError>)
        ensures
            !old(self).weapons().contains_key(weapon_inst_id.0) ==> r matches Err(LogicError::NotFound(_)),
            old(self).weapons().contains_key(weapon_inst_id.0) && old(self).weapons()[weapon_inst_id.0].is_lock
                ==> r matches Err(LogicError::InvalidOperation(_)),
            r is Ok <==> old(self).weapons().contains_key(weapon_inst_id.0) && !old(self).weapons()[weapon_inst_id.0].is_lock,
            match r {
                Ok(prev) => {
                    let w = old(self).weapons()[weapon_inst_id.0];
                    &&& prev == if w.attach_gem_id != 0 { Some(w.attach_gem_id) } else { None }
                    &&& final(self).weapons() == old(self).weapons().insert(
                        weapon_inst_id.0,
                        WeaponInstance { attach_gem_id: gem_inst_id, ..w },
                    )
                },
                Err(_) => final(self).weapons() == old(self).weapons(),
            },
            final(self).equipped() == old(self).equipped(),
            final(self).spec_next_inst_id() == old(self).spec_next_inst_id(),
    {
        let w = match map_get_mut(&mut self.weapons, weapon_inst_id.0) {
            Some(w) => w,
            None => {
                return Err(LogicError::NotFound("Weapon not found".to_string()));
            },
        };
        if w.is_lock {
            return Err(LogicError::InvalidOperation("Cannot modify locked weapon".to_string()));
        }
        let prev = if w.attach_gem_id != 0 { Some(w.attach_gem_id) } else { None };
        w.attach_gem_id = gem_inst_id;
        Ok(prev)
    }

    /// Takes the gem out of a weapon and returns its id. Refused for
    /// missing or locked weapons and weapons without a gem.
    pub fn detach_gem(&mut self, weapon_inst_id: WeaponInstId) -> (r: Result<u64, LogicError>)
        ensures
            !old(self).weapons().contains_key(weapon_inst_id.0) ==> r matches Err(LogicError::NotFound(_)),
            old(self).weapons().contains_key(weapon_inst_id.0) && (old(self).weapons()[weapon_inst_id.0].is_lock
                || old(self).weapons()[weapon_inst_id.0].attach_gem_id == 0) ==> r matches Err(
                LogicError::InvalidOperation(_),
            ),
            r is Ok <==> old(self).weapons().contains_key(weapon_inst_id.0) && !old(self).weapons()[weapon_inst_id.0].is_lock
                && old(self).weapons()[weapon_inst_id.0].attach_gem_id != 0,
            match r {
                Ok(gem) => {
                    let w = old(self).weapons()[weapon_inst_id.0];
                    &&& gem == w.attach_gem_id
                    &&& final(self).weapons() == old(self).weapons().insert(
                        weapon_inst_id.0,
                        WeaponInstance { attach_gem_id: 0, ..w },
                    )
                },
                Err(_) => final(self).weapons() == old(self).weapons(),
            },
            final(self).equipped() == old(self).equipped(),
            final(self).spec_next_inst_id() == old(self).spec_next_inst_id(),
    {
        let w = match map_get_mut(&mut self.weapons, weapon_inst_id.0) {
            Some(w) => w,
            None => {
                return Err(LogicError::NotFound("Weapon not found".to_string()));
            },
        };
        if w.is_lock {
            return Err(LogicError::InvalidOperation("Cannot modify locked weapon".to_string()));
        }
        if w.attach_gem_id == 0 {
            return Err(LogicError::InvalidOperation("Weapon has no attached gem".to_string()));
        }
        let gem_id = w.attach_gem_id;
        w.attach_gem_id = 0;
        Ok(gem_id)
    }

    /// The id reported to the client when a weapon is deleted.
    pub fn to_weapon_delete(id: WeaponInstId) -> (r: u64)
        ensures
            r == id.0,
    {
        id.as_u64()
    }

    /// Template of the weapon worn by each listed character that wears one.
    pub fn get_equipped_templates_for_chars(&self, char_ids: &[u64]) -> (r: HashMap<u64, String>)
        ensures
            forall|c: u64|
                #[trigger] r@.contains_key(c) <==> char_ids@.contains(c) && self.equipped().contains_key(c)
                    && self.weapons().contains_key(self.equipped()[c]),
            forall|c: u64| #[trigger] r@.contains_key(c) ==> r@[c] == self.weapons()[self.equipped()[c]].template_id,
    {
        let mut out: HashMap<u64, String> = HashMap::new();
        let mut i: usize = 0;
        while i < char_ids.len()
            invariant
                0 <= i <= char_ids.len(),
                forall|c: u64|
                    #[trigger] out@.contains_key(c) <==> char_ids@.subrange(0, i as int).to_set().contains(c)
                        && self.equipped().contains_key(c) && self.weapons().contains_key(self.equipped()[c]),
                forall|c: u64| #[trigger] out@.contains_key(c) ==> out@[c] == self.weapons()[self.equipped()[c]].template_id,
            decreases char_ids.len() - i,
        {
            let c = char_ids[i];
            proof {
                assert(char_ids@.subrange(0, i as int + 1) == char_ids@.subrange(0, i as int).push(c));
                char_ids@.subrange(0, i as int).lemma_push_to_set_commute(c);
                assert(char_ids@.subrange(0, i as int + 1).to_set() == char_ids@.subrange(0, i as int).to_set().insert(c));
            }
            match self.get_equipped_weapon(c) {
                Some(w) => {
                    out.insert(c, w.template_id.clone());
                },
                None => {},
            }
            i += 1;
        }
        proof {
            assert(char_ids@.subrange(0, i as int) == char_ids@);
            assert forall|c: u64| char_ids@.contains(c) <==> char_ids@.to_set().contains(c) by {}
        }
        out
    }
}

/// Highest refine level of a weapon of the given rarity; 5 when the
/// weapon is not in the table.
pub open spec fn max_refine_of(rarity: Option<u32>) -> u64 {
    match rarity {
        Some(r) => if r == 6 || r == 5 {
            5
        } else if r == 4 {
            4
        } else if r == 3 {
            3
        } else {
            2
        },
        None => 5,
    }
}

/// Whether refining `t` with material `f` succeeds: both exist, the target
/// is unlocked, the material is unlocked, unworn and of the same template,
/// and the target is below its highest refine level.
pub open spec fn refine_ok(ws: Map<u64, WeaponInstance>, t: u64, f: u64, rarity: Option<u32>) -> bool {
    &&& ws.contains_key(t)
    &&& !ws[t].is_lock
    &&& ws.contains_key(f)
    &&& !ws[f].is_lock
    &&& ws[f].equip_char_id == 0
    &&& ws[f].template_id@ == ws[t].template_id@
    &&& ws[t].refine_lv < max_refine_of(rarity)
}

/// Level a weapon must have before breaking through to `target`: the
/// display level of the first step of the list for `target`.
pub open spec fn required_level(steps: Seq<(u64, u64)>, target: u64) -> Option<u64>
    decreases steps.len(),
{
    if steps.len() == 0 {
        None
    } else if steps[0].0 == target {
        Some(steps[0].1)
    } else {
        required_level(steps.drop_first(), target)
    }
}

proof fn lemma_sum_prefix(s: Seq<u64>, i: int)
    requires
        0 <= i <= s.len(),
    ensures
        sum_of(s.take(i)) <= sum_of(s),
        i < s.len() ==> sum_of(s.take(i + 1)) == sum_of(s.take(i)) + s[i],
    decreases s.len(),
{
    if i < s.len() {
        assert(s.take(i + 1).drop_last() =~= s.take(i));
        lemma_sum_prefix(s.drop_last(), i);
        assert(s.drop_last().take(i) =~= s.take(i));
        assert(s.drop_last() =~= s.take(s.len() - 1));
    } else {
        assert(s.take(i) =~= s);
    }
}

proof fn lemma_without_step(ws: Map<u64, WeaponInstance>, fs: Seq<WeaponInstId>, i: int)
    requires
        0 <= i < fs.len(),
    ensures
        without_weapons(ws, fs.take(i + 1)) == without_weapons(ws, fs.take(i)).remove(fs[i].0),
{
    assert(fs.take(i + 1).drop_last() =~= fs.take(i));
}

/// Whether a fodder weapon may be fed to `t`: it is another weapon, it
/// exists, and it is neither locked nor worn.
pub open spec fn fodder_ok(ws: Map<u64, WeaponInstance>, t: u64, f: u64) -> bool {
    f != t && ws.contains_key(f) && !ws[f].is_lock && ws[f].equip_char_id == 0
}

/// Index of the first fodder in `fs` that may not be fed to `t`.
pub open spec fn first_bad_fodder(ws: Map<u64, WeaponInstance>, t: u64, fs: Seq<WeaponInstId>) -> Option<int>
    decreases fs.len(),
{
    if fs.len() == 0 {
        None
    } else if !fodder_ok(ws, t, fs[0].0) {
        Some(0)
    } else {
        match first_bad_fodder(ws, t, fs.drop_first()) {
            Some(i) => Some(i + 1),
            None => None,
        }
    }
}

/// Sum of a list of amounts.
pub open spec fn sum_of(s: Seq<u64>) -> int
    decreases s.len(),
{
    if s.len() == 0 {
        0
    } else {
        sum_of(s.drop_last()) + s.last()
    }
}

/// `ws` without every weapon listed in `fs`.
pub open spec fn without_weapons(ws: Map<u64, WeaponInstance>, fs: Seq<WeaponInstId>) -> Map<u64, WeaponInstance>
    decreases fs.len(),
{
    if fs.len() == 0 {
        ws
    } else {
        without_weapons(ws, fs.drop_last()).remove(fs.last().0)
    }
}

proof fn lemma_first_bad_none(ws: Map<u64, WeaponInstance>, t: u64, fs: Seq<WeaponInstId>)
    ensures
        first_bad_fodder(ws, t, fs) is None <==> forall|j: int| 0 <= j < fs.len() ==> fodder_ok(ws, t, #[trigger] fs[j].0),
        first_bad_fodder(ws, t, fs) matches Some(i) ==> 0 <= i < fs.len() && !fodder_ok(ws, t, fs[i].0) && forall|j: int|
            0 <= j < i ==> fodder_ok(ws, t, #[trigger] fs[j].0),
    decreases fs.len(),
{
    if fs.len() > 0 {
        lemma_first_bad_none(ws, t, fs.drop_first());
        assert forall|j: int| 0 < j < fs.len() implies fs[j] == fs.drop_first()[j - 1] by {}
        if fodder_ok(ws, t, fs[0].0) && first_bad_fodder(ws, t, fs.drop_first()) is None {
            assert forall|j: int| 0 <= j < fs.len() implies fodder_ok(ws, t, #[trigger] fs[j].0) by {
                if j > 0 {
                    assert(fs[j] == fs.drop_first()[j - 1]);
                }
            }
        }
        if !fodder_ok(ws, t, fs[0].0) || first_bad_fodder(ws, t, fs.drop_first()) is Some {
            if fodder_ok(ws, t, fs[0].0) {
                let i = first_bad_fodder(ws, t, fs.drop_first())->0;
                assert(fs[i + 1] == fs.drop_first()[i]);
                assert forall|j: int| 0 <= j < i + 1 implies fodder_ok(ws, t, #[trigger] fs[j].0) by {
                    if j > 0 {
                        assert(fs[j] == fs.drop_first()[j - 1]);
                    }
                }
            }
        }
    }
}

proof fn lemma_required_level_prefix(steps: Seq<(u64, u64)>, target: u64, i: int)
    requires
        0 <= i <= steps.len(),
        forall|j: int| 0 <= j < i ==> steps[j].0 != target,
    ensures
        required_level(steps, target) == required_level(steps.subrange(i, steps.len() as int), target),
    decreases i,
{
    if i == 0 {
        assert(steps.subrange(0, steps.len() as int) =~= steps);
    } else {
        let rest = steps.drop_first();
        assert forall|j: int| 0 <= j < i - 1 implies rest[j].0 != target by {
            assert(rest[j] == steps[j + 1]);
        }
        lemma_required_level_prefix(rest, target, i - 1);
        assert(rest.subrange(i - 1, rest.len() as int) =~= steps.subrange(i, steps.len() as int));
    }
}

/// The character of decimal digit `d` (0 to 9).
pub open spec fn digit_char(d: nat) -> char {
    if d == 0 {
        '0'
    } else if d == 1 {
        '1'
    } else if d == 2 {
        '2'
    } else if d == 3 {
        '3'
    } else if d == 4 {
        '4'
    } else if d == 5 {
        '5'
    } else if d == 6 {
        '6'
    } else if d == 7 {
        '7'
    } else if d == 8 {
        '8'
    } else {
        '9'
    }
}

/// `n` written in decimal, without leading zeros.
pub open spec fn decimal(n: nat) -> Seq<char>
    decreases n,
{
    if n < 10 {
        seq![digit_char(n)]
    } else {
        decimal(n / 10).push(digit_char(n % 10))
    }
}

/// Digit `d` as a one-character string.
fn digit_str(d: u64) -> (r: &'static str)
    requires
        d < 10,
    ensures
        r@ == seq![digit_char(d as nat)],
{
    if d == 0 {
        proof { reveal_strlit("0"); }
        "0"
    } else if d == 1 {
        proof { reveal_strlit("1"); }
        "1"
    } else if d == 2 {
        proof { reveal_strlit("2"); }
        "2"
    } else if d == 3 {
        proof { reveal_strlit("3"); }
        "3"
    } else if d == 4 {
        proof { reveal_strlit("4"); }
        "4"
    } else if d == 5 {
        proof { reveal_strlit("5"); }
        "5"
    } else if d == 6 {
        proof { reveal_strlit("6"); }
        "6"
    } else if d == 7 {
        proof { reveal_strlit("7"); }
        "7"
    } else if d == 8 {
        proof { reveal_strlit("8"); }
        "8"
    } else {
        proof { reveal_strlit("9"); }
        "9"
    }
}

/// Appends `n` in decimal to `s`.
fn push_decimal(s: &mut String, n: u64)
    ensures
        final(s)@ == old(s)@ + decimal(n as nat),
    decreases n,
{
    if n >= 10 {
        push_decimal(s, n / 10);
    }
    let ghost mid = s@;
    s.append(digit_str(n % 10));
    proof {
        if n >= 10 {
            assert(s@ =~= old(s)@ + decimal((n / 10) as nat).push(digit_char((n % 10) as nat)));
        } else {
            assert(s@ =~= old(s)@ + decimal(n as nat));
        }
    }
}

/// `"Level "`, `lv`, `" below required "`, `req`, the numbers in decimal.
fn below_required_message(lv: u64, req: u64) -> (r: String)
    ensures
        r@ == "Level "@ + decimal(lv as nat) + " below required "@ + decimal(req as nat),
{
    let mut s = String::from_str("Level ");
    push_decimal(&mut s, lv);
    s.append(" below required ");
    push_decimal(&mut s, req);
    s
}

impl WeaponDepot {
    /// Highest refine level of a weapon of the given rarity (see
    /// `max_refine_of`).
    fn get_max_refine(rarity: Option<u32>) -> (r: u64)
        ensures
            r == max_refine_of(rarity),
    {
        match rarity {
            Some(r) => if r == 6 || r == 5 {
                5
            } else if r == 4 {
                4
            } else if r == 3 {
                3
            } else {
                2
            },
            None => 5,
        }
    }

    /// Feeds the listed fodder weapons to weapon `target_inst_id`: each
    /// fodder adds its amount from `fodder_exp` (same order) to the
    /// target's exp and is used up, and the target's level becomes
    /// `level_of` its new exp. Refused for a missing or locked target and
    /// for a fodder that is the target, missing, locked or worn (the first
    /// such fodder in the list decides the error). Returns the new exp and
    /// level.
    pub fn add_exp<F: Fn(u64) -> u64>(
        &mut self,
        target_inst_id: WeaponInstId,
        fodder_inst_ids: &[WeaponInstId],
        fodder_exp: &[u64],
        level_of: F,
    ) -> (r: Result<(u64, u64), LogicError>)
        requires
            fodder_exp@.len() == fodder_inst_ids@.len(),
            forall|e: u64| call_requires(level_of, (e,)),
            old(self).weapons().contains_key(target_inst_id.0) ==> old(self).weapons()[target_inst_id.0].exp + sum_of(fodder_exp@)
                <= u64::MAX,
        ensures
            ({
                let ws = old(self).weapons();
                let t = target_inst_id.0;
                let fs = fodder_inst_ids@;
                &&& !ws.contains_key(t) ==> (r matches Err(LogicError::NotFound(_)))
                &&& ws.contains_key(t) && ws[t].is_lock ==> (r matches Err(LogicError::InvalidOperation(_)))
                &&& ws.contains_key(t) && !ws[t].is_lock && first_bad_fodder(ws, t, fs) is Some ==> {
                    let f = fs[first_bad_fodder(ws, t, fs)->0].0;
                    if f != t && !ws.contains_key(f) {
                        r matches Err(LogicError::NotFound(_))
                    } else {
                        r matches Err(LogicError::InvalidOperation(_))
                    }
                }
                &&& r is Err ==> final(self).weapons() == ws
                &&& ws.contains_key(t) && !ws[t].is_lock && first_bad_fodder(ws, t, fs) is None ==> {
                    &&& r matches Ok((e, l)) && e == ws[t].exp + sum_of(fodder_exp@) && call_ensures(level_of, (e,), l)
                        && final(self).weapons() == without_weapons(ws, fs).insert(
                        t,
                        WeaponInstance { exp: e, weapon_lv: l, ..ws[t] },
                    )
                }
            }),
            final(self).equipped() == old(self).equipped(),
            final(self).spec_next_inst_id() == old(self).spec_next_inst_id(),
    {
        let ghost ws = self.weapons@;
        let ghost t = target_inst_id.0;
        match self.weapons.get(&target_inst_id.0) {
            Some(w) => {
                if w.is_lock {
                    return Err(LogicError::InvalidOperation("Cannot upgrade locked weapon".to_string()));
                }
            },
            None => {
                return Err(LogicError::NotFound("Target weapon not found".to_string()));
            },
        }
        let mut total: u64 = 0;
        let mut i: usize = 0;
        while i < fodder_inst_ids.len()
            invariant
                0 <= i <= fodder_inst_ids@.len(),
                fodder_exp@.len() == fodder_inst_ids@.len(),
                ws == self.weapons@,
                ws.contains_key(t),
                !ws[t].is_lock,
                t == target_inst_id.0,
                ws[t].exp + sum_of(fodder_exp@) <= u64::MAX,
                forall|j: int| 0 <= j < i ==> fodder_ok(ws, t, #[trigger] fodder_inst_ids@[j].0),
                total == sum_of(fodder_exp@.take(i as int)),
            decreases fodder_inst_ids@.len() - i,
        {
            let fid = fodder_inst_ids[i];
            proof {
                lemma_first_bad_none(ws, t, fodder_inst_ids@);
                if !fodder_ok(ws, t, fid.0) {
                    let k = first_bad_fodder(ws, t, fodder_inst_ids@)->0;
                    assert(first_bad_fodder(ws, t, fodder_inst_ids@) is Some) by {
                        assert(!fodder_ok(ws, t, fodder_inst_ids@[i as int].0));
                    }
                    if k < i {
                        assert(fodder_ok(ws, t, fodder_inst_ids@[k].0));
                    }
                    if k > i {
                        assert(fodder_ok(ws, t, fodder_inst_ids@[i as int].0));
                    }
                    assert(k == i);
                }
            }
            if fid.0 == target_inst_id.0 {
                return Err(LogicError::InvalidOperation("Cannot use weapon as its own fodder".to_string()));
            }
            match self.weapons.get(&fid.0) {
                Some(f) => {
                    if f.is_lock {
                        return Err(LogicError::InvalidOperation("Cannot use locked weapon as fodder".to_string()));
                    }
                    if f.is_equipped() {
                        return Err(LogicError::InvalidOperation("Cannot use equipped weapon as fodder".to_string()));
                    }
                },
                None => {
                    return Err(LogicError::NotFound("Fodder weapon not found".to_string()));
                },
            }
            proof {
                lemma_sum_prefix(fodder_exp@, i as int);
                lemma_sum_prefix(fodder_exp@, i as int + 1);
            }
            total = total + fodder_exp[i];
            i += 1;
        }
        proof {
            lemma_first_bad_none(ws, t, fodder_inst_ids@);
            assert(fodder_exp@.take(i as int) =~= fodder_exp@);
        }
        let mut k: usize = 0;
        while k < fodder_inst_ids.len()
            invariant
                0 <= k <= fodder_inst_ids@.len(),
                t == target_inst_id.0,
                ws.contains_key(t),
                forall|j: int| 0 <= j < fodder_inst_ids@.len() ==> fodder_ok(ws, t, #[trigger] fodder_inst_ids@[j].0),
                self.weapons@ == without_weapons(ws, fodder_inst_ids@.take(k as int)),
                self.weapons@.contains_key(t),
                self.weapons@[t] == ws[t],
                self.equipped_weapons@ == old(self).equipped_weapons@,
                self.next_inst_id == old(self).next_inst_id,
            decreases fodder_inst_ids@.len() - k,
        {
            let fid = fodder_inst_ids[k];
            proof {
                lemma_without_step(ws, fodder_inst_ids@, k as int);
                assert(fodder_ok(ws, t, fodder_inst_ids@[k as int].0));
            }
            self.weapons.remove(&fid.0);
            k += 1;
        }
        proof {
            assert(fodder_inst_ids@.take(k as int) =~= fodder_inst_ids@);
        }
        match map_get_mut(&mut self.weapons, target_inst_id.0) {
            Some(w) => {
                w.exp = w.exp + total;
                w.weapon_lv = level_of(w.exp);
                Ok((w.exp, w.weapon_lv))
            },
            None => Err(LogicError::NotFound("Target weapon not found".to_string())),
        }
    }

    /// Gives every listed character without a weapon its default weapon:
    /// `chars` pairs a character id with the template of its default weapon
    /// (`None` when the character is not in the character table). Each
    /// such character gets a fresh weapon owned since `own_time`, put on it
    /// (character 0 keeps it unworn). Returns the (character, weapon) pairs
    /// equipped, in list order.
    pub fn init_default_weapons_for_chars_at(&mut self, chars: &[(u64, Option<String>)], own_time: i64) -> (r: Vec<(u64, WeaponInstId)>)
        requires
            old(self).spec_next_inst_id() + chars@.len() < u64::MAX,
        ensures
            ({
                let st = defaults_after(
                    (old(self).weapons(), old(self).equipped(), old(self).spec_next_inst_id(), Seq::empty()),
                    chars@,
                    own_time,
                    chars@.len() as int,
                );
                &&& final(self).weapons() == st.0
                &&& final(self).equipped() == st.1
                &&& final(self).spec_next_inst_id() == st.2
                &&& r@ == st.3
            }),
    {
        let ghost st0 = (self.weapons(), self.equipped(), self.spec_next_inst_id(), Seq::<(u64, WeaponInstId)>::empty());
        let mut out: Vec<(u64, WeaponInstId)> = Vec::new();
        let mut i: usize = 0;
        while i < chars.len()
            invariant
                0 <= i <= chars@.len(),
                st0.2 + chars@.len() < u64::MAX,
                (self.weapons(), self.equipped(), self.spec_next_inst_id(), out@) == defaults_after(st0, chars@, own_time, i as int),
            decreases chars@.len() - i,
        {
            proof {
                lemma_defaults_next(st0, chars@, own_time, i as int);
            }
            let c = chars[i].0;
            if !self.has_equipped_weapon(c) {
                match &chars[i].1 {
                    Some(tmpl) => {
                        let id = self.add_weapon(tmpl.clone(), own_time);
                        match self.equip_weapon(id, c) {
                            Ok(_) => {
                                out.push((c, id));
                            },
                            Err(_) => {},
                        }
                    },
                    None => {},
                }
            }
            i += 1;
        }
        out
    }

    /// `init_default_weapons_for_chars_at` with the weapons owned since now
    /// (milliseconds on the system clock).
    pub fn init_default_weapons_for_chars(&mut self, chars: &[(u64, Option<String>)]) -> (r: Vec<(u64, WeaponInstId)>)
        requires
            old(self).spec_next_inst_id() + chars@.len() < u64::MAX,
        ensures
            exists|own_time: i64| {
                let st = #[trigger] defaults_after(
                    (old(self).weapons(), old(self).equipped(), old(self).spec_next_inst_id(), Seq::empty()),
                    chars@,
                    own_time,
                    chars@.len() as int,
                );
                &&& final(self).weapons() == st.0
                &&& final(self).equipped() == st.1
                &&& final(self).spec_next_inst_id() == st.2
                &&& r@ == st.3
            },
    {
        let own_time = crate::util::now_ms();
        let r = self.init_default_weapons_for_chars_at(chars, own_time);
        r
    }

    /// Refines weapon `target` by one level, using up weapon `fodder` of the
    /// same template. `target_rarity` is the target's rarity in the weapon
    /// table (`None` when it is not listed). Returns the new refine level.
    pub fn refine(&mut self, target: WeaponInstId, fodder: WeaponInstId, target_rarity: Option<u32>) -> (r: Result<u64, LogicError>)
        requires
            target.0 == fodder.0 ==> !refine_ok(old(self).weapons(), target.0, fodder.0, target_rarity),
        ensures
            ({
                let ws = old(self).weapons();
                let t = target.0;
                let f = fodder.0;
                &&& !ws.contains_key(t) ==> (r matches Err(LogicError::NotFound(_)))
                &&& ws.contains_key(t) && ws[t].is_lock ==> (r matches Err(LogicError::InvalidOperation(_)))
                &&& ws.contains_key(t) && !ws[t].is_lock && !ws.contains_key(f) ==> (r matches Err(LogicError::NotFound(_)))
                &&& ws.contains_key(t) && !ws[t].is_lock && ws.contains_key(f) && !refine_ok(ws, t, f, target_rarity) ==> (r matches Err(LogicError::InvalidOperation(_)))
                &&& r is Err ==> final(self).weapons() == ws
                &&& refine_ok(ws, t, f, target_rarity) ==> {
                    &&& r == Ok::<u64, LogicError>((ws[t].refine_lv + 1) as u64)
                    &&& final(self).weapons() == ws.remove(f).insert(
                        t,
                        WeaponInstance { refine_lv: (ws[t].refine_lv + 1) as u64, ..ws[t] },
                    )
                }
            }),
            final(self).equipped() == old(self).equipped(),
            final(self).spec_next_inst_id() == old(self).spec_next_inst_id(),
    {
        let t = match self.weapons.get(&target.0) {
            Some(t) => t,
            None => {
                return Err(LogicError::NotFound("Target weapon not found".to_string()));
            },
        };
        if t.is_lock {
            return Err(LogicError::InvalidOperation("Cannot refine locked weapon".to_string()));
        }
        let f = match self.weapons.get(&fodder.0) {
            Some(f) => f,
            None => {
                return Err(LogicError::NotFound("Fodder weapon not found".to_string()));
            },
        };
        if f.is_lock {
            return Err(LogicError::InvalidOperation("Cannot use locked weapon as material".to_string()));
        }
        if f.is_equipped() {
            return Err(LogicError::InvalidOperation("Cannot use equipped weapon as material".to_string()));
        }
        if t.template_id != f.template_id {
            return Err(LogicError::InvalidOperation("Refinement requires same weapon type".to_string()));
        }
        if t.refine_lv >= Self::get_max_refine(target_rarity) {
            return Err(LogicError::InvalidOperation("Already at max refinement".to_string()));
        }
        self.weapons.remove(&fodder.0);
        match map_get_mut(&mut self.weapons, target.0) {
            Some(t) => {
                t.refine_lv = t.refine_lv + 1;
                Ok(t.refine_lv)
            },
            None => Err(LogicError::NotFound("Target weapon not found".to_string())),
        }
    }

    /// The level a weapon must have before breaking through to `target`,
    /// from its template's breakthrough steps (breakthrough level, display
    /// level); an unknown template has no steps.
    fn get_breakthrough_required_level(steps: &[(u64, u64)], target: u64) -> (r: Option<u64>)
        ensures
            r == required_level(steps@, target),
    {
        let mut i: usize = 0;
        while i < steps.len()
            invariant
                0 <= i <= steps@.len(),
                forall|j: int| 0 <= j < i ==> steps@[j].0 != target,
            decreases steps@.len() - i,
        {
            if steps[i].0 == target {
                proof {
                    lemma_required_level_prefix(steps@, target, i as int);
                }
                return Some(steps[i].1);
            }
            i += 1;
        }
        proof {
            lemma_required_level_prefix(steps@, target, steps@.len() as int);
        }
        None
    }

    /// Raises a weapon's breakthrough level by one. `max_breakthrough_lv` is
    /// the template's highest breakthrough level and `steps` its
    /// breakthrough steps; the weapon must have the level the step names
    /// (1 when no step is listed). Returns the new breakthrough level.
    pub fn breakthrough(&mut self, inst_id: WeaponInstId, max_breakthrough_lv: u64, steps: &[(u64, u64)]) -> (r: Result<u64, LogicError>)
        ensures
            ({
                let ws = old(self).weapons();
                let i = inst_id.0;
                let cur = ws[i].breakthrough_lv;
                let req = match required_level(steps@, (cur + 1) as u64) {
                    Some(l) => l,
                    None => 1,
                };
                &&& !ws.contains_key(i) ==> (r matches Err(LogicError::NotFound(_)))
                &&& ws.contains_key(i) && (ws[i].is_lock || cur >= max_breakthrough_lv || ws[i].weapon_lv < req) ==> (r matches Err(LogicError::InvalidOperation(_)))
                &&& ws.contains_key(i) && !ws[i].is_lock && cur < max_breakthrough_lv && ws[i].weapon_lv < req ==> (r matches Err(
                    LogicError::InvalidOperation(msg),
                ) && msg@ == "Level "@ + decimal(ws[i].weapon_lv as nat) + " below required "@ + decimal(req as nat))
                &&& r is Err ==> final(self).weapons() == ws
                &&& ws.contains_key(i) && !ws[i].is_lock && cur < max_breakthrough_lv && ws[i].weapon_lv >= req ==> {
                    &&& r == Ok::<u64, LogicError>((cur + 1) as u64)
                    &&& final(self).weapons() == ws.insert(i, WeaponInstance { breakthrough_lv: (cur + 1) as u64, ..ws[i] })
                }
            }),
            final(self).equipped() == old(self).equipped(),
            final(self).spec_next_inst_id() == old(self).spec_next_inst_id(),
    {
        let (cur, lv) = match self.weapons.get(&inst_id.0) {
            Some(w) => {
                if w.is_lock {
                    return Err(LogicError::InvalidOperation("Cannot breakthrough locked weapon".to_string()));
                }
                (w.breakthrough_lv, w.weapon_lv)
            },
            None => {
                return Err(LogicError::NotFound("Weapon not found".to_string()));
            },
        };
        if cur >= max_breakthrough_lv {
            return Err(LogicError::InvalidOperation("Already at max breakthrough".to_string()));
        }
        let req = match Self::get_breakthrough_required_level(steps, cur + 1) {
            Some(l) => l,
            None => 1,
        };
        if lv < req {
            return Err(LogicError::InvalidOperation(below_required_message(lv, req)));
        }
        match map_get_mut(&mut self.weapons, inst_id.0) {
            Some(w) => {
                w.breakthrough_lv = w.breakthrough_lv + 1;
                Ok(w.breakthrough_lv)
            },
            None => Err(LogicError::NotFound("Weapon not found".to_string())),
        }
    }
}

/// Bag state the default-weapon fill works on: weapons, equip records,
/// next instance id, and the (character, weapon) pairs equipped so far.
pub type DefaultsState = (Map<u64, WeaponInstance>, Map<u64, u64>, u64, Seq<(u64, WeaponInstId)>);

/// One step of the default-weapon fill for character `c` with default
/// weapon template `choice` (`None` when the character is not in the
/// table): a character that already wears a weapon, or has no default, is
/// skipped; otherwise a fresh weapon is added and, unless `c` is 0, put on
/// `c`.
pub open spec fn defaults_step(st: DefaultsState, c: u64, choice: Option<String>, own_time: i64) -> DefaultsState {
    let (ws, es, next, given) = st;
    if es.contains_key(c) {
        st
    } else {
        match choice {
            None => st,
            Some(tmpl) => {
                let ws1 = ws.insert(next, fresh_weapon(WeaponInstId(next), tmpl, own_time));
                if c != 0 {
                    (
                        equip_weapons(ws1, es, next, c),
                        equip_records(ws1, es, next, c),
                        (next + 1) as u64,
                        given.push((c, WeaponInstId(next))),
                    )
                } else {
                    (ws1, es, (next + 1) as u64, given)
                }
            },
        }
    }
}

/// The default-weapon fill over the first `n` characters.
pub open spec fn defaults_after(st: DefaultsState, chars: Seq<(u64, Option<String>)>, own_time: i64, n: int) -> DefaultsState
    decreases n,
{
    if n <= 0 {
        st
    } else {
        let prev = defaults_after(st, chars, own_time, n - 1);
        defaults_step(prev, chars[n - 1].0, chars[n - 1].1, own_time)
    }
}

proof fn lemma_defaults_next(st: DefaultsState, chars: Seq<(u64, Option<String>)>, own_time: i64, n: int)
    requires
        0 <= n,
        st.2 + n <= u64::MAX,
    ensures
        st.2 <= defaults_after(st, chars, own_time, n).2 <= st.2 + n,
    decreases n,
{
    if n > 0 {
        lemma_defaults_next(st, chars, own_time, n - 1);
    }
}

/// A weapon after the equip repair: worn weapons whose character has no
/// record are taken off.
pub open spec fn repaired_weapon(w: WeaponInstance, es: Map<u64, u64>) -> WeaponInstance {
    if w.equip_char_id != 0 && !es.contains_key(w.equip_char_id) {
        with_equip(w, 0)
    } else {
        w
    }
}

/// Whether the record for character `c` points at a present weapon that
/// names `c` as its wearer.
pub open spec fn record_agrees(ws: Map<u64, WeaponInstance>, es: Map<u64, u64>, c: u64) -> bool {
    ws.contains_key(es[c]) && ws[es[c]].equip_char_id == c
}

impl WeaponDepot {
    /// Repairs the equip records: records pointing at a missing weapon or
    /// at a weapon worn by someone else are dropped, and weapons whose
    /// wearer has no record (before the drop) are taken off.
    pub fn validate_equipped_weapons(&mut self)
        ensures
            final(self).equipped() == old(self).equipped().restrict(
                old(self).equipped().dom().filter(|c: u64| record_agrees(old(self).weapons(), old(self).equipped(), c)),
            ),
            final(self).weapons().dom() == old(self).weapons().dom(),
            forall|k: u64| #[trigger] old(self).weapons().contains_key(k) ==> final(self).weapons()[k]
                == repaired_weapon(old(self).weapons()[k], old(self).equipped()),
            final(self).spec_next_inst_id() == old(self).spec_next_inst_id(),
    {
        let ghost ws = self.weapons@;
        let ghost es = self.equipped_weapons@;
        let chars = crate::util::map_keys(&self.equipped_weapons);
        let mut to_fix: Vec<u64> = Vec::new();
        let mut i: usize = 0;
        while i < chars.len()
            invariant
                0 <= i <= chars.len(),
                ws == self.weapons@,
                es == self.equipped_weapons@,
                chars@.to_set() == es.dom(),
                forall|x: u64| #[trigger] to_fix@.to_set().contains(x) ==> es.contains_key(x) && !record_agrees(ws, es, x),
                forall|j: int| 0 <= j < i ==> (!record_agrees(ws, es, #[trigger] chars@[j]) ==> to_fix@.to_set().contains(chars@[j])),
            decreases chars.len() - i,
        {
            let c = chars[i];
            proof {
                assert(chars@.to_set().contains(c));
            }
            let w = *self.equipped_weapons.get(&c).unwrap();
            let ok = match self.weapons.get(&w) {
                Some(wi) => wi.equip_char_id == c,
                None => false,
            };
            proof {
                to_fix@.lemma_push_to_set_commute(c);
            }
            if !ok {
                to_fix.push(c);
            }
            i += 1;
        }
        let keys = crate::util::map_keys(&self.weapons);
        let mut orphaned: Vec<u64> = Vec::new();
        let mut i: usize = 0;
        while i < keys.len()
            invariant
                0 <= i <= keys.len(),
                ws == self.weapons@,
                es == self.equipped_weapons@,
                keys@.to_set() == ws.dom(),
                forall|x: u64| #[trigger] orphaned@.to_set().contains(x) ==> ws.contains_key(x) && ws[x].equip_char_id != 0
                    && !es.contains_key(ws[x].equip_char_id),
                forall|j: int| 0 <= j < i ==> (ws[#[trigger] keys@[j]].equip_char_id != 0 && !es.contains_key(ws[keys@[j]].equip_char_id)
                    ==> orphaned@.to_set().contains(keys@[j])),
            decreases keys.len() - i,
        {
            let k = keys[i];
            proof {
                assert(keys@.to_set().contains(k));
            }
            let w = self.weapons.get(&k).unwrap();
            proof {
                orphaned@.lemma_push_to_set_commute(k);
            }
            if w.equip_char_id != 0 && !self.equipped_weapons.contains_key(&w.equip_char_id) {
                orphaned.push(k);
            }
            i += 1;
        }
        let mut i: usize = 0;
        while i < orphaned.len()
            invariant
                0 <= i <= orphaned.len(),
                es == self.equipped_weapons@,
                self.weapons@.dom() == ws.dom(),
                forall|x: u64| #[trigger] orphaned@.to_set().contains(x) ==> ws.contains_key(x) && ws[x].equip_char_id != 0
                    && !es.contains_key(ws[x].equip_char_id),
                forall|k: u64| #[trigger] ws.contains_key(k) ==> self.weapons@[k] == if orphaned@.subrange(0, i as int).to_set().contains(k) {
                    with_equip(ws[k], 0)
                } else {
                    ws[k]
                },
                self.next_inst_id == old(self).next_inst_id,
            decreases orphaned.len() - i,
        {
            let id = orphaned[i];
            proof {
                assert(orphaned@.to_set().contains(id));
                assert(orphaned@.subrange(0, i as int + 1) == orphaned@.subrange(0, i as int).push(id));
                orphaned@.subrange(0, i as int).lemma_push_to_set_commute(id);
            }
            match map_get_mut(&mut self.weapons, id) {
                Some(w) => {
                    w.equip_char_id = 0;
                },
                None => {},
            }
            i += 1;
        }
        let ghost ws2 = self.weapons@;
        proof {
            assert(orphaned@.subrange(0, i as int) == orphaned@);
        }
        let mut j: usize = 0;
        while j < to_fix.len()
            invariant
                0 <= j <= to_fix.len(),
                self.weapons@ == ws2,
                forall|x: u64| #[trigger] to_fix@.to_set().contains(x) ==> es.contains_key(x) && !record_agrees(ws, es, x),
                self.equipped_weapons@ == es.remove_keys(to_fix@.subrange(0, j as int).to_set()),
                self.next_inst_id == old(self).next_inst_id,
            decreases to_fix.len() - j,
        {
            let c = to_fix[j];
            proof {
                assert(to_fix@.subrange(0, j as int + 1) == to_fix@.subrange(0, j as int).push(c));
                to_fix@.subrange(0, j as int).lemma_push_to_set_commute(c);
                assert(es.remove_keys(to_fix@.subrange(0, j as int + 1).to_set()) =~= es.remove_keys(
                    to_fix@.subrange(0, j as int).to_set(),
                ).remove(c));
            }
            self.equipped_weapons.remove(&c);
            j += 1;
        }
        proof {
            assert(to_fix@.subrange(0, j as int) == to_fix@);
            assert(orphaned@.subrange(0, i as int) == orphaned@);
            let agree = es.dom().filter(|c: u64| record_agrees(ws, es, c));
            assert forall|c: u64| es.contains_key(c) && !record_agrees(ws, es, c) implies to_fix@.to_set().contains(c) by {
                assert(chars@.to_set().contains(c));
                let j = choose|j: int| 0 <= j < chars@.len() && chars@[j] == c;
                assert(!record_agrees(ws, es, chars@[j]));
            }
            assert(self.equipped_weapons@ =~= es.restrict(agree));
            assert forall|k: u64| #[trigger] ws.contains_key(k) implies self.weapons@[k] == repaired_weapon(ws[k], es) by {
                if ws[k].equip_char_id != 0 && !es.contains_key(ws[k].equip_char_id) {
                    assert(keys@.to_set().contains(k));
                    let j = choose|j: int| 0 <= j < keys@.len() && keys@[j] == k;
                    assert(ws[keys@[j]].equip_char_id != 0);
                    assert(orphaned@.to_set().contains(k));
                }
            }
        }
    }
}

/// Equipping keeps the weapons and the equip records in agreement.
pub proof fn lemma_equip_keeps_consistent(ws: Map<u64, WeaponInstance>, es: Map<u64, u64>, wid: u64, c: u64)
    requires
        maps_consistent(ws, es),
        ws.contains_key(wid),
        ws[wid].equip_char_id != c,
        c != 0,
    ensures
        maps_consistent(equip_weapons(ws, es, wid, c), equip_records(ws, es, wid, c)),
{
    let ws2 = equip_weapons(ws, es, wid, c);
    let es2 = equip_records(ws, es, wid, c);
    let prev_char = ws[wid].equip_char_id;
    assert forall|d: u64| #[trigger] es2.contains_key(d) implies ws2.contains_key(es2[d]) && ws2[es2[d]].equip_char_id == d by {
        if d != c {
            let x = es[d];
            assert(es.contains_key(d));
            if es.contains_key(c) {
                assert(ws[es[c]].equip_char_id == c);
            }
            if x == wid {
                assert(ws[wid].equip_char_id == d);
            }
        }
    }
    assert forall|k: u64| #[trigger] ws2.contains_key(k) && ws2[k].equip_char_id != 0 implies es2.contains_key(ws2[k].equip_char_id)
        && es2[ws2[k].equip_char_id] == k by {
        if k != wid {
            let is_cleared = es.contains_key(c) && es[c] == k;
            if !is_cleared {
                assert(ws2[k] == ws[k]);
                let e = ws[k].equip_char_id;
                assert(es.contains_key(e) && es[e] == k);
                if e == prev_char {
                    assert(es[prev_char] == wid);
                }
            }
        }
    }
}

/// Putting a weapon on a character records it as that character's weapon.
pub proof fn lemma_equip_then_lookup(ws: Map<u64, WeaponInstance>, es: Map<u64, u64>, wid: u64, c: u64)
    ensures
        equip_records(ws, es, wid, c).get(c) == Some(wid),
        equip_weapons(ws, es, wid, c)[wid].equip_char_id == c,
{
}

/// After the equip repair every record agrees with the weapon it names.
pub proof fn lemma_repair_records_agree(ws: Map<u64, WeaponInstance>, es: Map<u64, u64>)
    ensures
        ({
            let es2 = es.restrict(es.dom().filter(|c: u64| record_agrees(ws, es, c)));
            let ws2 = ws.map_values(|w: WeaponInstance| repaired_weapon(w, es));
            forall|c: u64| #[trigger] es2.contains_key(c) ==> ws2.contains_key(es2[c]) && ws2[es2[c]].equip_char_id == c
        }),
{
}

/// How far a weapon can be refined: with an eligible material (present,
/// unlocked, unworn, of the same template) an unlocked weapon refines
/// while its level is below 5 for rarity 5 or 6 or an unknown rarity, below
/// 4 for rarity 4, below 3 for rarity 3, and below 2 for any other rarity.
pub proof fn lemma_refine_caps(ws: Map<u64, WeaponInstance>, t: u64, f: u64, rarity: Option<u32>)
    requires
        ws.contains_key(t),
        ws.contains_key(f),
        !ws[t].is_lock,
        !ws[f].is_lock,
        ws[f].equip_char_id == 0,
        ws[f].template_id@ == ws[t].template_id@,
    ensures
        rarity == Some(5u32) || rarity == Some(6u32) || rarity is None ==> (refine_ok(ws, t, f, rarity) <==> ws[t].refine_lv < 5),
        rarity == Some(4u32) ==> (refine_ok(ws, t, f, rarity) <==> ws[t].refine_lv < 4),
        rarity == Some(3u32) ==> (refine_ok(ws, t, f, rarity) <==> ws[t].refine_lv < 3),
        (rarity matches Some(r) && r != 3 && r != 4 && r != 5 && r != 6) ==> (refine_ok(ws, t, f, rarity) <==> ws[t].refine_lv
            < 2),
{
}

/// Keys of an entry list are distinct.
pub open spec fn keys_distinct(s: Seq<(String, u32)>) -> bool {
    forall|i: int, j: int| 0 <= i < s.len() && 0 <= j < s.len() && i != j ==> s[i].0@ != s[j].0@
}

/// Whether some entry has key `k`.
pub open spec fn has_key(s: Seq<(String, u32)>, k: Seq<char>) -> bool {
    exists|i: int| 0 <= i < s.len() && #[trigger] s[i].0@ == k
}

/// The entries as a map from item id to count.
pub open spec fn entries_map(s: Seq<(String, u32)>) -> Map<Seq<char>, u32> {
    Map::new(
        |k: Seq<char>| has_key(s, k),
        |k: Seq<char>| s[choose|i: int| 0 <= i < s.len() && #[trigger] s[i].0@ == k].1,
    )
}

proof fn lemma_entries_lookup(s: Seq<(String, u32)>, i: int)
    requires
        keys_distinct(s),
        0 <= i < s.len(),
    ensures
        entries_map(s).contains_key(s[i].0@),
        entries_map(s)[s[i].0@] == s[i].1,
{
    let k = s[i].0@;
    assert(has_key(s, k));
    let j = choose|j: int| 0 <= j < s.len() && #[trigger] s[j].0@ == k;
    assert(j == i);
}

proof fn lemma_entries_update(s: Seq<(String, u32)>, i: int, name: String, v: u32)
    requires
        keys_distinct(s),
        0 <= i < s.len(),
        name@ == s[i].0@,
    ensures
        keys_distinct(s.update(i, (name, v))),
        entries_map(s.update(i, (name, v))) == entries_map(s).insert(s[i].0@, v),
{
    let t = s.update(i, (name, v));
    assert forall|k: Seq<char>| has_key(t, k) <==> has_key(s, k) || k == s[i].0@ by {
        if has_key(t, k) {
            let j = choose|j: int| 0 <= j < t.len() && #[trigger] t[j].0@ == k;
            assert(s[j].0@ == k);
        }
        if has_key(s, k) {
            let j = choose|j: int| 0 <= j < s.len() && #[trigger] s[j].0@ == k;
            assert(t[j].0@ == k);
        }
        if k == s[i].0@ {
            assert(t[i].0@ == k);
        }
    }
    assert forall|k: Seq<char>| #[trigger] entries_map(t).contains_key(k) implies entries_map(t)[k] == entries_map(s).insert(s[i].0@, v)[k] by {
        let j = choose|j: int| 0 <= j < t.len() && #[trigger] t[j].0@ == k;
        lemma_entries_lookup(t, j);
        if k != s[i].0@ {
            lemma_entries_lookup(s, j);
        }
    }
    assert(entries_map(t) =~= entries_map(s).insert(s[i].0@, v));
}

proof fn lemma_entries_push(s: Seq<(String, u32)>, key: String, v: u32)
    requires
        keys_distinct(s),
        !has_key(s, key@),
    ensures
        keys_distinct(s.push((key, v))),
        entries_map(s.push((key, v))) == entries_map(s).insert(key@, v),
{
    let t = s.push((key, v));
    assert forall|k: Seq<char>| has_key(t, k) <==> has_key(s, k) || k == key@ by {
        if has_key(t, k) {
            let j = choose|j: int| 0 <= j < t.len() && #[trigger] t[j].0@ == k;
            if j < s.len() {
                assert(s[j].0@ == k);
            }
        }
        if has_key(s, k) {
            let j = choose|j: int| 0 <= j < s.len() && #[trigger] s[j].0@ == k;
            assert(t[j].0@ == k);
        }
        if k == key@ {
            assert(t[s.len() as int].0@ == k);
        }
    }
    assert forall|a: int, b: int| 0 <= a < t.len() && 0 <= b < t.len() && a != b implies t[a].0@ != t[b].0@ by {
        if a == s.len() {
            assert(!(s[b].0@ == key@));
        } else if b == s.len() {
            assert(!(s[a].0@ == key@));
        }
    }
    assert forall|k: Seq<char>| #[trigger] entries_map(t).contains_key(k) implies entries_map(t)[k] == entries_map(s).insert(key@, v)[k] by {
        let j = choose|j: int| 0 <= j < t.len() && #[trigger] t[j].0@ == k;
        lemma_entries_lookup(t, j);
        if k != key@ {
            lemma_entries_lookup(s, j);
        }
    }
    assert(entries_map(t) =~= entries_map(s).insert(key@, v));
}

proof fn lemma_entries_remove(s: Seq<(String, u32)>, i: int)
    requires
        keys_distinct(s),
        0 <= i < s.len(),
    ensures
        keys_distinct(s.remove(i)),
        entries_map(s.remove(i)) == entries_map(s).remove(s[i].0@),
{
    let t = s.remove(i);
    assert forall|a: int, b: int| 0 <= a < t.len() && 0 <= b < t.len() && a != b implies t[a].0@ != t[b].0@ by {
        let sa = if a < i { a } else { a + 1 };
        let sb = if b < i { b } else { b + 1 };
        assert(t[a] == s[sa]);
        assert(t[b] == s[sb]);
    }
    assert forall|k: Seq<char>| has_key(t, k) <==> has_key(s, k) && k != s[i].0@ by {
        if has_key(t, k) {
            let j = choose|j: int| 0 <= j < t.len() && #[trigger] t[j].0@ == k;
            let sj = if j < i { j } else { j + 1 };
            assert(s[sj].0@ == k);
        }
        if has_key(s, k) && k != s[i].0@ {
            let j = choose|j: int| 0 <= j < s.len() && #[trigger] s[j].0@ == k;
            if j < i {
                assert(t[j].0@ == k);
            } else {
                assert(t[j - 1].0@ == k);
            }
        }
    }
    assert forall|k: Seq<char>| #[trigger] entries_map(t).contains_key(k) implies entries_map(t)[k] == entries_map(s).remove(s[i].0@)[k] by {
        let j = choose|j: int| 0 <= j < t.len() && #[trigger] t[j].0@ == k;
        lemma_entries_lookup(t, j);
        let sj = if j < i { j } else { j + 1 };
        assert(t[j] == s[sj]);
        lemma_entries_lookup(s, sj);
    }
    assert(entries_map(t) =~= entries_map(s).remove(s[i].0@));
}

/// Counts of stackable items (one depot tab), by item id.
#[derive(Debug)]
pub struct StackableDepot {
    counts: Vec<(String, u32)>,
    depot_type: i32,
}

impl StackableDepot {
    #[verifier::type_invariant]
    closed spec fn distinct(&self) -> bool {
        keys_distinct(self.counts@)
    }

    /// Count per item id.
    pub closed spec fn counts(&self) -> Map<Seq<char>, u32> {
        entries_map(self.counts@)
    }

    pub closed spec fn spec_depot_type(&self) -> i32 {
        self.depot_type
    }

    pub open spec fn spec_count_of(&self, id: Seq<char>) -> u32 {
        if self.counts().contains_key(id) { self.counts()[id] } else { 0 }
    }

    /// An empty depot of the given type.
    pub fn new(depot_type: i32) -> (r: Self)
        ensures
            r.counts() == Map::<Seq<char>, u32>::empty(),
            r.spec_depot_type() == depot_type,
    {
        let r = StackableDepot { counts: Vec::new(), depot_type };
        assert(entries_map(r.counts@) =~= Map::<Seq<char>, u32>::empty());
        r
    }

    fn find(&self, key: &String) -> (r: Option<usize>)
        ensures
            match r {
                Some(i) => i < self.counts@.len() && self.counts@[i as int].0@ == key@,
                None => !has_key(self.counts@, key@),
            },
    {
        let mut i: usize = 0;
        while i < self.counts.len()
            invariant
                0 <= i <= self.counts.len(),
                forall|j: int| 0 <= j < i ==> self.counts@[j].0@ != key@,
            decreases self.counts.len() - i,
        {
            if self.counts[i].0 == *key {
                return Some(i);
            }
            i += 1;
        }
        None
    }

    /// Adds `count` of an item (saturating) and returns the new count.
    pub fn add(&mut self, template_id: &str, count: u32) -> (r: u32)
        ensures
            r == if old(self).spec_count_of(template_id@) + count > u32::MAX {
                u32::MAX as int
            } else {
                old(self).spec_count_of(template_id@) + count
            },
            final(self).counts() == old(self).counts().insert(template_id@, r),
            final(self).spec_depot_type() == old(self).spec_depot_type(),
    {
        proof {
            use_type_invariant(&*self);
        }
        let key = template_id.to_owned();
        match self.find(&key) {
            Some(i) => {
                let v = self.counts[i].1.saturating_add(count);
                proof {
                    lemma_entries_lookup(self.counts@, i as int);
                    lemma_entries_update(self.counts@, i as int, self.counts@[i as int].0, v);
                }
                let entry = (self.counts[i].0.clone(), v);
                let mut counts: Vec<(String, u32)> = Vec::new();
                std::mem::swap(&mut counts, &mut self.counts);
                counts.set(i, entry);
                self.counts = counts;
                v
            },
            None => {
                proof {
                    lemma_entries_push(self.counts@, key, count);
                }
                let mut counts: Vec<(String, u32)> = Vec::new();
                std::mem::swap(&mut counts, &mut self.counts);
                counts.push((key, count));
                self.counts = counts;
                count
            },
        }
    }

    fn replace_counts(&mut self, counts: Vec<(String, u32)>)
        requires
            keys_distinct(counts@),
        ensures
            final(self).counts@ == counts@,
            final(self).depot_type == old(self).depot_type,
    {
        self.counts = counts;
    }

    /// Takes `count` of an item; refused when fewer are held. Returns the
    /// count left; an item that reaches zero is dropped.
    pub fn consume(&mut self, template_id: &str, count: u32) -> (r: Result<u32, LogicError>)
        ensures
            match r {
                Ok(rem) => {
                    &&& old(self).spec_count_of(template_id@) >= count
                    &&& rem == old(self).spec_count_of(template_id@) - count
                    &&& final(self).counts() == if rem == 0 {
                        old(self).counts().remove(template_id@)
                    } else {
                        old(self).counts().insert(template_id@, rem)
                    }
                },
                Err(e) => {
                    &&& old(self).spec_count_of(template_id@) < count
                    &&& e matches LogicError::Insufficient { item_id, have, need } && item_id@ == template_id@
                        && have == old(self).spec_count_of(template_id@) && need == count
                    &&& final(self).counts() == old(self).counts()
                },
            },
            final(self).spec_depot_type() == old(self).spec_depot_type(),
    {
        proof {
            use_type_invariant(&*self);
        }
        let key = template_id.to_owned();
        let idx = self.find(&key);
        let cur: u32 = match idx {
            Some(i) => {
                proof {
                    lemma_entries_lookup(self.counts@, i as int);
                }
                self.counts[i].1
            },
            None => 0,
        };
        if cur < count {
            return Err(LogicError::Insufficient { item_id: key, have: cur, need: count });
        }
        let rem = cur - count;
        match idx {
            Some(i) => {
                let mut counts: Vec<(String, u32)> = Vec::new();
                std::mem::swap(&mut counts, &mut self.counts);
                if rem == 0 {
                    proof {
                        lemma_entries_remove(counts@, i as int);
                    }
                    counts.remove(i);
                } else {
                    let name = counts[i].0.clone();
                    proof {
                        lemma_entries_update(counts@, i as int, name, rem);
                    }
                    counts.set(i, (name, rem));
                }
                self.replace_counts(counts);
            },
            None => {
                proof {
                    assert(self.counts().remove(template_id@) =~= self.counts());
                }
            },
        }
        Ok(rem)
    }

    /// Count held of an item (0 when absent).
    pub fn count_of(&self, id: &str) -> (r: u32)
        ensures
            r == self.spec_count_of(id@),
    {
        proof {
            use_type_invariant(self);
        }
        let key = id.to_owned();
        match self.find(&key) {
            Some(i) => {
                proof {
                    lemma_entries_lookup(self.counts@, i as int);
                }
                self.counts[i].1
            },
            None => 0,
        }
    }

    /// Whether at least `count` of an item is held.
    pub fn has(&self, id: &str, count: u32) -> (r: bool)
        ensures
            r == (self.spec_count_of(id@) >= count),
    {
        self.count_of(id) >= count
    }

    /// Sets the count of an item; a count of zero drops the item.
    pub fn set(&mut self, id: &str, count: u32)
        ensures
            final(self).counts() == if count == 0 {
                old(self).counts().remove(id@)
            } else {
                old(self).counts().insert(id@, count)
            },
            final(self).spec_depot_type() == old(self).spec_depot_type(),
    {
        proof {
            use_type_invariant(&*self);
        }
        let key = id.to_owned();
        let idx = self.find(&key);
        let mut counts: Vec<(String, u32)> = Vec::new();
        std::mem::swap(&mut counts, &mut self.counts);
        match idx {
            Some(i) => {
                if count == 0 {
                    proof {
                        lemma_entries_remove(counts@, i as int);
                    }
                    counts.remove(i);
                } else {
                    proof {
                        lemma_entries_update(counts@, i as int, key, count);
                    }
                    counts.set(i, (key, count));
                }
            },
            None => {
                if count != 0 {
                    proof {
                        lemma_entries_push(counts@, key, count);
                    }
                    counts.push((key, count));
                } else {
                    proof {
                        assert(entries_map(counts@).remove(id@) =~= entries_map(counts@));
                    }
                }
            },
        }
        self.replace_counts(counts);
    }

    /// Wire code of the depot tab.
    pub fn depot_type(&self) -> (r: i32)
        ensures
            r == self.spec_depot_type(),
    {
        self.depot_type
    }

    pub fn is_empty(&self) -> (r: bool)
        ensures
            r == (self.counts().len() == 0),
    {
        proof {
            use_type_invariant(self);
            lemma_entries_len(self.counts@);
        }
        self.counts.len() == 0
    }

    /// Number of distinct items held.
    pub fn len(&self) -> (r: usize)
        ensures
            r == self.counts().len(),
    {
        proof {
            use_type_invariant(self);
            lemma_entries_len(self.counts@);
        }
        self.counts.len()
    }

    /// The (item id, count) entries, one per item.
    pub fn iter(&self) -> (r: &[(String, u32)])
        ensures
            keys_distinct(r@),
            entries_map(r@) == self.counts(),
    {
        proof {
            use_type_invariant(self);
        }
        self.counts.as_slice()
    }
}

proof fn lemma_entries_len(s: Seq<(String, u32)>)
    requires
        keys_distinct(s),
    ensures
        entries_map(s).dom().finite(),
        entries_map(s).len() == s.len(),
    decreases s.len(),
{
    if s.len() == 0 {
        assert(entries_map(s).dom() =~= Set::empty());
    } else {
        let t = s.drop_last();
        assert(keys_distinct(t));
        lemma_entries_len(t);
        assert(!has_key(t, s.last().0@)) by {
            if has_key(t, s.last().0@) {
                let j = choose|j: int| 0 <= j < t.len() && #[trigger] t[j].0@ == s.last().0@;
                assert(s[j].0@ == s[s.len() - 1].0@);
            }
        }
        lemma_entries_push(t, s.last().0, s.last().1);
        assert(t.push(s.last()) == s);
    }
}

} // verus!
