//! Character bag indices and team layout.
use std::collections::HashMap;

use vstd::prelude::*;

use crate::strmap::StrMap;

verus! {

/// Position of a character in the bag. Its object id on the wire is the
/// position plus one.
#[derive(Debug, Clone, Copy, PartialEq, Eq, Hash, Default, Structural)]
pub struct CharIndex(pub u64);

impl CharIndex {
    /// The wire object id: the index plus one.
    pub fn object_id(self) -> (r: u64)
        requires
            self.0 < u64::MAX,
        ensures
            r == self.0 + 1,
    {
        self.0 + 1
    }

    /// The index of wire object id `id` (object ids start at 1).
    pub fn from_object_id(id: u64) -> (r: Self)
        requires
            id >= 1,
        ensures
            r.0 == id - 1,
    {
        CharIndex(id - 1)
    }

    pub fn from_usize(idx: usize) -> (r: Self)
        ensures
            r.0 == idx,
    {
        CharIndex(idx as u64)
    }

    pub fn as_usize(self) -> (r: usize)
        requires
            self.0 <= usize::MAX,
        ensures
            r == self.0,
    {
        self.0 as usize
    }
}

/// Converting an index to its object id and back gives the index again.
pub proof fn lemma_object_id_round_trip(idx: CharIndex)
    requires
        idx.0 < u64::MAX,
    ensures
        (idx.0 + 1) - 1 == idx.0,
        (idx.0 + 1) >= 1,
{
}

/// Numeric id of a character's weapon.
#[derive(Debug, Clone, Copy, PartialEq, Eq, Hash, Default, Structural)]
pub struct WeaponIndex(pub u64);

impl WeaponIndex {
    pub fn inst_id(self) -> (r: u64)
        ensures
            r == self.0,
    {
        self.0
    }

    pub fn from_raw(id: u64) -> (r: Self)
        ensures
            r.0 == id,
    {
        WeaponIndex(id)
    }
}

/// One slot of a team: empty or holding a character.
#[derive(Debug, Clone, Copy, PartialEq, Eq, Structural)]
pub enum TeamSlot {
    Empty,
    Occupied(CharIndex),
}

impl Default for TeamSlot {
    /// An empty slot.
    fn default() -> (r: Self)
        ensures
            r == TeamSlot::Empty,
    {
        TeamSlot::Empty
    }
}

impl TeamSlot {
    /// The character in the slot, if any.
    pub fn char_index(&self) -> (r: Option<CharIndex>)
        ensures
            r == match *self {
                TeamSlot::Occupied(idx) => Some(idx),
                TeamSlot::Empty => None,
            },
    {
        match self {
            TeamSlot::Occupied(idx) => Some(*idx),
            TeamSlot::Empty => None,
        }
    }
}

/// A team of up to four characters and its leader.
#[derive(Debug)]
pub struct Team {
    pub name: String,
    pub char_team: [TeamSlot; 4],
    pub leader_index: CharIndex,
}

impl Default for Team {
    /// An unnamed team with four empty slots, led by the first character.
    fn default() -> (r: Self)
        ensures
            r.name@ == Seq::<char>::empty(),
            forall|i: int| 0 <= i < 4 ==> #[trigger] r.char_team@[i] == TeamSlot::Empty,
            r.leader_index == CharIndex(0),
    {
        Team {
            name: String::new(),
            char_team: [TeamSlot::Empty, TeamSlot::Empty, TeamSlot::Empty, TeamSlot::Empty],
            leader_index: CharIndex(0),
        }
    }
}

impl Team {
    pub const SLOTS_COUNT: usize = 4;
}

/// Bag-wide settings.
#[derive(Debug, Clone, Copy, PartialEq, Eq, Default, Structural)]
pub struct Meta {
    pub curr_team_index: u32,
}

/// Level of one skill of a character.
#[derive(Debug)]
pub struct SkillLevelState {
    pub skill_id: String,
    pub skill_level: i32,
    pub skill_max_level: i32,
}

/// A team as the client is told about it.
#[derive(Debug)]
pub struct TeamSyncState {
    pub name: String,
    pub char_ids: Vec<u64>,
    pub leader_id: u64,
    pub member_skills: HashMap<u64, String>,
}


/// One character of the bag. Its hit points (`f64`) and ultimate energy
/// (`f32`) are kept as the bit patterns of those values.
#[derive(Debug)]
pub struct Char {
    pub template_id: String,
    pub level: i32,
    pub exp: i32,
    pub break_stage: u32,
    pub is_dead: bool,
    pub hp_bits: u64,
    pub ultimate_sp_bits: u32,
    pub weapon_id: WeaponIndex,
    pub own_time: i64,
    pub skill_levels: StrMap<u32>,
}

/// Whether object id `id` names a living character of `chars`.
pub open spec fn alive_in(chars: Seq<Char>, id: u64) -> bool {
    1 <= id && id - 1 < chars.len() && !chars[id - 1].is_dead
}

/// The ids of `ids`, in order, that are not in `exclude` and name a living
/// character of `chars`.
pub open spec fn alive_not_in(chars: Seq<Char>, ids: Seq<u64>, exclude: Seq<u64>) -> Seq<u64> {
    ids.filter(|id: u64| !exclude.contains(id) && alive_in(chars, id))
}

/// Object ids of the occupied slots of a team, in slot order.
pub open spec fn member_ids(slots: Seq<TeamSlot>) -> Seq<u64>
    decreases slots.len(),
{
    if slots.len() == 0 {
        Seq::empty()
    } else {
        let prev = member_ids(slots.drop_last());
        match slots.last() {
            TeamSlot::Occupied(idx) => prev.push((idx.0 + 1) as u64),
            TeamSlot::Empty => prev,
        }
    }
}

/// `ids` with the first occurrence of `leader` moved to the front, the
/// ones before it shifting back by one; unchanged when `leader` is absent
/// or already first.
pub open spec fn leader_first(ids: Seq<u64>, leader: u64) -> Seq<u64> {
    if exists|p: int| 0 < p < ids.len() && ids[p] == leader && forall|q: int| 0 <= q < p ==> ids[q] != leader {
        let p = choose|p: int| 0 < p < ids.len() && ids[p] == leader && forall|q: int| 0 <= q < p ==> ids[q] != leader;
        seq![leader] + ids.take(p) + ids.skip(p + 1)
    } else {
        ids
    }
}

/// Whether slice `s` holds `x`.
fn slice_has(s: &[u64], x: u64) -> (r: bool)
    ensures
        r == s@.contains(x),
{
    let mut i: usize = 0;
    while i < s.len()
        invariant
            0 <= i <= s@.len(),
            forall|j: int| 0 <= j < i ==> s@[j] != x,
        decreases s@.len() - i,
    {
        if s[i] == x {
            return true;
        }
        i += 1;
    }
    false
}

/// Moves the first occurrence of `leader_id` to the front of `ids`; the
/// ids before it shift back by one.
pub fn move_leader_to_front(ids: &mut Vec<u64>, leader_id: u64)
    ensures
        final(ids)@ == leader_first(old(ids)@, leader_id),
{
    let ghost s = ids@;
    let mut p: usize = 0;
    while p < ids.len()
        invariant
            0 <= p <= ids@.len(),
            ids@ == s,
            forall|q: int| 0 <= q < p ==> ids@[q] != leader_id,
        ensures
            0 <= p <= ids@.len(),
            ids@ == s,
            forall|q: int| 0 <= q < p ==> ids@[q] != leader_id,
            p < ids@.len() ==> ids@[p as int] == leader_id,
        decreases ids@.len() - p,
    {
        if ids[p] == leader_id {
            break;
        }
        p += 1;
    }
    if p == 0 || p >= ids.len() {
        proof {
            if exists|p2: int| 0 < p2 < s.len() && s[p2] == leader_id && forall|q: int| 0 <= q < p2 ==> s[q] != leader_id {
                let p2 = choose|p2: int| 0 < p2 < s.len() && s[p2] == leader_id && forall|q: int| 0 <= q < p2 ==> s[q] != leader_id;
                if p == 0 {
                    assert(s[0] == leader_id);
                }
            }
        }
        return;
    }
    let mut out: Vec<u64> = Vec::new();
    out.push(leader_id);
    let mut i: usize = 0;
    while i < ids.len()
        invariant
            0 < p < ids@.len(),
            ids@ == s,
            0 <= i <= ids@.len(),
            out@ == seq![leader_id] + s.take(if i <= p { i as int } else { p as int }) + (if i <= p + 1 { Seq::<u64>::empty() } else { s.subrange(p + 1, i as int) }),
        decreases ids@.len() - i,
    {
        if i != p {
            out.push(ids[i]);
        }
        proof {
            if i < p {
                assert(s.take(i as int + 1) == s.take(i as int).push(s[i as int]));
            } else if i > p {
                if i == p + 1 {
                    assert(s.subrange(p + 1, i as int + 1) == seq![s[i as int]]);
                } else {
                    assert(s.subrange(p + 1, i as int + 1) == s.subrange(p + 1, i as int).push(s[i as int]));
                }
            }
        }
        i += 1;
    }
    proof {
        let ghost pp = p as int;
        assert(forall|q: int| 0 <= q < pp ==> s[q] != leader_id);
        assert(s[pp] == leader_id);
        let c = choose|p2: int| 0 < p2 < s.len() && s[p2] == leader_id && forall|q: int| 0 <= q < p2 ==> s[q] != leader_id;
        assert(c == pp) by {
            if c < pp {
                assert(s[c] != leader_id);
            }
            if c > pp {
                assert(s[pp] != leader_id);
            }
        }
        if pp + 1 == s.len() {
            assert(s.skip(pp + 1) =~= Seq::<u64>::empty());
        } else {
            assert(s.skip(pp + 1) =~= s.subrange(pp + 1, s.len() as int));
        }
    }
    *ids = out;
}

/// Every character of the player, the teams, and which team is active.
#[derive(Debug)]
pub struct CharBag {
    pub teams: Vec<Team>,
    pub chars: Vec<Char>,
    pub meta: Meta,
}

impl CharBag {
    /// Appends a character and returns its index.
    pub fn add_char(&mut self, ch: Char) -> (r: CharIndex)
        ensures
            r.0 == old(self).chars@.len(),
            final(self).chars@ == old(self).chars@.push(ch),
            final(self).teams@ == old(self).teams@,
            final(self).meta == old(self).meta,
    {
        let idx = CharIndex::from_usize(self.chars.len());
        self.chars.push(ch);
        idx
    }

    /// The character at `idx`, if there is one.
    pub fn get_char(&self, idx: CharIndex) -> (r: Option<&Char>)
        ensures
            match r {
                Some(c) => idx.0 < self.chars@.len() && *c == self.chars@[idx.0 as int],
                None => idx.0 >= self.chars@.len(),
            },
    {
        if idx.0 < self.chars.len() as u64 {
            Some(&self.chars[idx.0 as usize])
        } else {
            None
        }
    }

    /// Index of the first character built from `template_id`.
    pub fn char_index_by_id(&self, template_id: &str) -> (r: Option<CharIndex>)
        ensures
            match r {
                Some(idx) => idx.0 < self.chars@.len() && self.chars@[idx.0 as int].template_id@ == template_id@
                    && forall|j: int| 0 <= j < idx.0 ==> self.chars@[j].template_id@ != template_id@,
                None => forall|j: int| 0 <= j < self.chars@.len() ==> self.chars@[j].template_id@ != template_id@,
            },
    {
        let target = template_id.to_owned();
        let mut i: usize = 0;
        while i < self.chars.len()
            invariant
                0 <= i <= self.chars@.len(),
                target@ == template_id@,
                forall|j: int| 0 <= j < i ==> self.chars@[j].template_id@ != template_id@,
            decreases self.chars@.len() - i,
        {
            if self.chars[i].template_id == target {
                return Some(CharIndex::from_usize(i));
            }
            i += 1;
        }
        None
    }

    /// The character with object id `objid`, for editing.
    pub fn get_char_by_objid_mut(&mut self, objid: u64) -> (r: Option<&mut Char>)
        requires
            objid >= 1,
        ensures
            match r {
                Some(c) => {
                    &&& objid - 1 < old(self).chars@.len()
                    &&& *c == old(self).chars@[objid - 1]
                    &&& final(self).chars@ == old(self).chars@.update(objid - 1, *final(c))
                },
                None => objid - 1 >= old(self).chars@.len() && final(self).chars@ == old(self).chars@,
            },
            final(self).teams@ == old(self).teams@,
            final(self).meta == old(self).meta,
    {
        let idx = CharIndex::from_object_id(objid);
        if idx.0 < self.chars.len() as u64 {
            Some(&mut self.chars[idx.0 as usize])
        } else {
            None
        }
    }

    /// Records the hit points and ultimate energy (as bit patterns) the
    /// client reports for character `objid`; unknown ids are ignored.
    pub fn update_battle_info(&mut self, objid: u64, hp_bits: u64, sp_bits: u32)
        requires
            objid >= 1,
        ensures
            objid - 1 < old(self).chars@.len() ==> final(self).chars@ == old(self).chars@.update(
                objid - 1,
                Char { hp_bits, ultimate_sp_bits: sp_bits, ..old(self).chars@[objid - 1] },
            ),
            objid - 1 >= old(self).chars@.len() ==> final(self).chars@ == old(self).chars@,
            final(self).teams@ == old(self).teams@,
            final(self).meta == old(self).meta,
    {
        match self.get_char_by_objid_mut(objid) {
            Some(c) => {
                c.hp_bits = hp_bits;
                c.ultimate_sp_bits = sp_bits;
            },
            None => {},
        }
    }

    /// Whether object id `id` names a living character.
    pub fn is_alive(&self, id: u64) -> (r: bool)
        requires
            id >= 1,
        ensures
            r == alive_in(self.chars@, id),
    {
        let idx = CharIndex::from_object_id(id);
        if idx.0 < self.chars.len() as u64 {
            !self.chars[idx.0 as usize].is_dead
        } else {
            false
        }
    }

    /// The ids of `ids`, in order, that are not in `exclude` and name a
    /// living character.
    pub fn alive_except(&self, ids: &[u64], exclude: &[u64]) -> (r: Vec<u64>)
        requires
            forall|j: int| 0 <= j < ids@.len() ==> ids@[j] >= 1,
        ensures
            r@ == alive_not_in(self.chars@, ids@, exclude@),
    {
        let ghost pred = |id: u64| !exclude@.contains(id) && alive_in(self.chars@, id);
        let mut out: Vec<u64> = Vec::new();
        let mut i: usize = 0;
        while i < ids.len()
            invariant
                0 <= i <= ids@.len(),
                forall|j: int| 0 <= j < ids@.len() ==> ids@[j] >= 1,
                pred == (|id: u64| !exclude@.contains(id) && alive_in(self.chars@, id)),
                out@ == ids@.take(i as int).filter(pred),
            decreases ids@.len() - i,
        {
            let id = ids[i];
            proof {
                reveal(Seq::filter);
                assert(ids@.take(i as int + 1).drop_last() == ids@.take(i as int));
                assert(ids@.take(i as int + 1).last() == id);
            }
            if !slice_has(exclude, id) && self.is_alive(id) {
                out.push(id);
            }
            i += 1;
        }
        proof {
            assert(ids@.take(i as int) == ids@);
        }
        out
    }

    /// The team being played.
    pub open spec fn current_team(&self) -> Team {
        self.teams@[self.meta.curr_team_index as int]
    }

    /// Object ids of the active team's members, in slot order, with the
    /// leader moved to the front.
    pub fn current_team_ids(&self) -> (r: Vec<u64>)
        requires
            self.meta.curr_team_index < self.teams@.len(),
            forall|k: int| 0 <= k < 4 ==> (#[trigger] self.current_team().char_team@[k] matches TeamSlot::Occupied(idx) ==> idx.0 < u64::MAX),
            self.current_team().leader_index.0 < u64::MAX,
        ensures
            r@ == leader_first(member_ids(self.current_team().char_team@), (self.current_team().leader_index.0 + 1) as u64),
    {
        let team = &self.teams[self.meta.curr_team_index as usize];
        let mut ids: Vec<u64> = Vec::new();
        let mut k: usize = 0;
        while k < 4
            invariant
                0 <= k <= 4,
                team.char_team@.len() == 4,
                forall|j: int| 0 <= j < 4 ==> (#[trigger] team.char_team@[j] matches TeamSlot::Occupied(idx) ==> idx.0 < u64::MAX),
                ids@ == member_ids(team.char_team@.take(k as int)),
            decreases 4 - k,
        {
            proof {
                assert(team.char_team@.take(k as int + 1).drop_last() == team.char_team@.take(k as int));
            }
            match team.char_team[k].char_index() {
                Some(idx) => {
                    ids.push(idx.object_id());
                },
                None => {},
            }
            k += 1;
        }
        proof {
            assert(team.char_team@.take(4) == team.char_team@);
        }
        move_leader_to_front(&mut ids, team.leader_index.object_id());
        ids
    }

    /// Brings every dead member of the active team back to life and
    /// returns their object ids, in slot order. Hit points are not touched.
    pub fn revive_team_members(&mut self) -> (r: Vec<u64>)
        requires
            old(self).meta.curr_team_index < old(self).teams@.len(),
            forall|k: int| 0 <= k < 4 ==> (#[trigger] old(self).current_team().char_team@[k] matches TeamSlot::Occupied(idx) ==> idx.0
                < old(self).chars@.len()),
        ensures
            r@ == member_ids(old(self).current_team().char_team@).filter(|id: u64| !alive_in(old(self).chars@, id)),
            final(self).chars@.len() == old(self).chars@.len(),
            forall|j: int| 0 <= j < old(self).chars@.len() ==> #[trigger] final(self).chars@[j] == if r@.contains((j + 1) as u64) {
                Char { is_dead: false, ..old(self).chars@[j] }
            } else {
                old(self).chars@[j]
            },
            forall|id: u64| #[trigger] member_ids(old(self).current_team().char_team@).contains(id) ==> alive_in(final(self).chars@, id),
            final(self).teams@ == old(self).teams@,
            final(self).meta == old(self).meta,
    {
        let ghost slots = self.current_team().char_team@;
        let ghost pred = |id: u64| !alive_in(old(self).chars@, id);
        let t = self.meta.curr_team_index as usize;
        let n = self.chars.len();
        let mut dead: Vec<u64> = Vec::new();
        let mut k: usize = 0;
        while k < 4
            invariant
                0 <= k <= 4,
                t == self.meta.curr_team_index,
                t < self.teams@.len(),
                slots == self.teams@[t as int].char_team@,
                slots.len() == 4,
                n == self.chars@.len(),
                self.chars@ == old(self).chars@,
                self.teams@ == old(self).teams@,
                self.meta == old(self).meta,
                pred == (|id: u64| !alive_in(old(self).chars@, id)),
                forall|j: int| 0 <= j < 4 ==> (#[trigger] slots[j] matches TeamSlot::Occupied(idx) ==> idx.0 < n),
                dead@ == member_ids(slots.take(k as int)).filter(pred),
                forall|x: int| 0 <= x < dead@.len() ==> 1 <= #[trigger] dead@[x] <= n && old(self).chars@[dead@[x] - 1].is_dead,
            decreases 4 - k,
        {
            proof {
                reveal(Seq::filter);
                assert(slots.take(k as int + 1).drop_last() == slots.take(k as int));
                assert(slots.take(k as int + 1).last() == slots[k as int]);
            }
            match self.teams[t].char_team[k].char_index() {
                Some(idx) => {
                    let id = idx.object_id();
                    proof {
                        let prev = member_ids(slots.take(k as int));
                        assert(member_ids(slots.take(k as int + 1)) == prev.push(id));
                        assert(prev.push(id).drop_last() == prev);
                        assert(prev.push(id).last() == id);
                        assert(pred(id) == old(self).chars@[idx.0 as int].is_dead);
                    }
                    if self.chars[idx.0 as usize].is_dead {
                        dead.push(id);
                    }
                },
                None => {
                    proof {
                        assert(member_ids(slots.take(k as int + 1)) == member_ids(slots.take(k as int)));
                    }
                },
            }
            k += 1;
        }
        proof {
            assert(slots.take(4) == slots);
            lemma_member_ids_bound(slots, n as nat);
        }
        let mut i: usize = 0;
        while i < dead.len()
            invariant
                0 <= i <= dead@.len(),
                n == old(self).chars@.len(),
                dead@ == member_ids(slots).filter(pred),
                forall|x: int| 0 <= x < dead@.len() ==> 1 <= #[trigger] dead@[x] <= n && old(self).chars@[dead@[x] - 1].is_dead,
                self.chars@.len() == old(self).chars@.len(),
                forall|j: int| 0 <= j < n ==> #[trigger] self.chars@[j] == if dead@.take(i as int).contains((j + 1) as u64) {
                    Char { is_dead: false, ..old(self).chars@[j] }
                } else {
                    old(self).chars@[j]
                },
                self.teams@ == old(self).teams@,
                self.meta == old(self).meta,
            decreases dead@.len() - i,
        {
            let id = dead[i];
            let ghost before = self.chars@;
            proof {
                assert(dead@.take(i as int + 1) == dead@.take(i as int).push(id));
            }
            match self.get_char_by_objid_mut(id) {
                Some(c) => {
                    c.is_dead = false;
                },
                None => {},
            }
            proof {
                assert forall|j: int| 0 <= j < n implies #[trigger] self.chars@[j] == if dead@.take(i as int + 1).contains((j + 1) as u64) {
                    Char { is_dead: false, ..old(self).chars@[j] }
                } else {
                    old(self).chars@[j]
                } by {
                    let v = (j + 1) as u64;
                    let pre = dead@.take(i as int);
                    assert(dead@.take(i as int + 1) == pre.push(id));
                    if pre.push(id).contains(v) {
                        let x = choose|x: int| 0 <= x < pre.push(id).len() && pre.push(id)[x] == v;
                        if x < pre.len() {
                            assert(pre[x] == v);
                        }
                    }
                    if pre.contains(v) {
                        let x = choose|x: int| 0 <= x < pre.len() && pre[x] == v;
                        assert(pre.push(id)[x] == v);
                    }
                    if id == v {
                        assert(pre.push(id)[pre.len() as int] == v);
                    }
                    assert(dead@.take(i as int + 1).contains(v) <==> pre.contains(v) || id == v);
                    if j == id - 1 {
                        assert(dead@.take(i as int + 1)[i as int] == id);
                        assert(dead@.take(i as int + 1).contains(id));
                        assert(old(self).chars@[j].is_dead);
                        if dead@.take(i as int).contains(id) {
                            assert(before[j] == Char { is_dead: false, ..old(self).chars@[j] });
                        } else {
                            assert(before[j] == old(self).chars@[j]);
                        }
                    } else {
                        assert(self.chars@[j] == before[j]);
                    }
                }
            }
            i += 1;
        }
        proof {
            assert(dead@.take(i as int) == dead@);
            assert forall|id: u64| #[trigger] member_ids(slots).contains(id) implies alive_in(self.chars@, id) by {
                let x = choose|x: int| 0 <= x < member_ids(slots).len() && member_ids(slots)[x] == id;
                assert(1 <= member_ids(slots)[x] <= n);
                if !alive_in(old(self).chars@, id) {
                    member_ids(slots).lemma_filter_contains(pred, x);
                    assert(dead@.contains(id));
                }
                let j = id - 1;
                assert(self.chars@[j] == if dead@.contains((j + 1) as u64) {
                    Char { is_dead: false, ..old(self).chars@[j] }
                } else {
                    old(self).chars@[j]
                });
            }
        }
        dead
    }
}

proof fn lemma_member_ids_bound(slots: Seq<TeamSlot>, n: nat)
    requires
        n <= u64::MAX,
        forall|j: int| 0 <= j < slots.len() ==> (#[trigger] slots[j] matches TeamSlot::Occupied(idx) ==> idx.0 < n),
    ensures
        forall|x: int| 0 <= x < member_ids(slots).len() ==> 1 <= #[trigger] member_ids(slots)[x] <= n,
    decreases slots.len(),
{
    if slots.len() > 0 {
        let rest = slots.drop_last();
        assert forall|j: int| 0 <= j < rest.len() implies (#[trigger] rest[j] matches TeamSlot::Occupied(idx) ==> idx.0 < n) by {
            assert(rest[j] == slots[j]);
        }
        lemma_member_ids_bound(rest, n);
        assert(slots.last() == slots[slots.len() - 1]);
        let p = member_ids(rest);
        let m = member_ids(slots);
        match slots.last() {
            TeamSlot::Occupied(idx) => {
                assert(m == p.push((idx.0 + 1) as u64));
                assert forall|x: int| 0 <= x < m.len() implies 1 <= #[trigger] m[x] <= n by {
                    if x < p.len() {
                        assert(m[x] == p[x]);
                    }
                }
            },
            TeamSlot::Empty => {
                assert(m == p);
            },
        }
    }
}


proof fn lemma_first_occurrence(ids: Seq<u64>, x: u64) -> (p: int)
    requires
        ids.contains(x),
    ensures
        0 <= p < ids.len(),
        ids[p] == x,
        forall|q: int| 0 <= q < p ==> ids[q] != x,
    decreases ids.len(),
{
    if ids[0] == x {
        0
    } else {
        let w = choose|w: int| 0 <= w < ids.len() && ids[w] == x;
        assert(ids.drop_first()[w - 1] == x);
        let p = lemma_first_occurrence(ids.drop_first(), x);
        assert forall|q: int| 0 <= q < p + 1 implies ids[q] != x by {
            if q > 0 {
                assert(ids[q] == ids.drop_first()[q - 1]);
            }
        }
        p + 1
    }
}

/// Moving the leader to the front only reorders the ids: the result holds
/// the same ids as often as before, and starts with the leader whenever
/// the leader is listed.
pub proof fn lemma_leader_first_reorders(ids: Seq<u64>, leader: u64)
    ensures
        leader_first(ids, leader).to_multiset() == ids.to_multiset(),
        ids.contains(leader) ==> leader_first(ids, leader)[0] == leader,
{
    broadcast use vstd::multiset::group_multiset_axioms;

    if exists|p: int| 0 < p < ids.len() && ids[p] == leader && forall|q: int| 0 <= q < p ==> ids[q] != leader {
        let p = choose|p: int| 0 < p < ids.len() && ids[p] == leader && forall|q: int| 0 <= q < p ==> ids[q] != leader;
        let r = ids.remove(p).insert(0, leader);
        assert(seq![leader] + ids.take(p) + ids.skip(p + 1) =~= r);
        vstd::seq_lib::to_multiset_remove(ids, p);
        vstd::seq_lib::to_multiset_insert(ids.remove(p), 0, leader);
        vstd::seq_lib::to_multiset_contains(ids, leader);
        assert(ids.contains(leader)) by {
            assert(ids[p] == leader);
        }
        assert(ids.to_multiset().remove(leader).insert(leader) =~= ids.to_multiset());
    } else if ids.contains(leader) {
        let p = lemma_first_occurrence(ids, leader);
        assert(p == 0);
    }
}


/// Template id of the `k`-th character of the starting team.
pub open spec fn default_team_template(k: int) -> Seq<char> {
    if k == 0 {
        "chr_0003_endmin"@
    } else if k == 1 {
        "chr_0004_pelica"@
    } else if k == 2 {
        "chr_0005_chen"@
    } else {
        "chr_0006_wolfgd"@
    }
}

fn default_team_template_str(k: usize) -> (r: &'static str)
    requires
        k < 4,
    ensures
        r@ == default_team_template(k as int),
{
    if k == 0 {
        "chr_0003_endmin"
    } else if k == 1 {
        "chr_0004_pelica"
    } else if k == 2 {
        "chr_0005_chen"
    } else {
        "chr_0006_wolfgd"
    }
}

/// Index of the last of the first `n` characters built from template `t`.
pub open spec fn last_with_template(chars: Seq<Char>, t: Seq<char>, n: int) -> Option<int>
    decreases n,
{
    if n <= 0 {
        None
    } else if chars[n - 1].template_id@ == t {
        Some(n - 1)
    } else {
        last_with_template(chars, t, n - 1)
    }
}

/// Bag indices of the starting team's first `k` templates that the bag
/// holds (the last character of each template), in template order.
pub open spec fn default_members(chars: Seq<Char>, k: int) -> Seq<u64>
    decreases k,
{
    if k <= 0 {
        Seq::empty()
    } else {
        let prev = default_members(chars, k - 1);
        match last_with_template(chars, default_team_template(k - 1), chars.len() as int) {
            Some(j) => prev.push(j as u64),
            None => prev,
        }
    }
}

/// Slot `i` of a team whose members are `ms`, in order.
pub open spec fn slot_of(ms: Seq<u64>, i: int) -> TeamSlot {
    if i < ms.len() { TeamSlot::Occupied(CharIndex(ms[i])) } else { TeamSlot::Empty }
}

proof fn lemma_last_with_template_bound(chars: Seq<Char>, t: Seq<char>, n: int)
    ensures
        last_with_template(chars, t, n) matches Some(j) ==> 0 <= j < n,
    decreases n,
{
    if n > 0 {
        lemma_last_with_template_bound(chars, t, n - 1);
    }
}

proof fn lemma_default_members_len(chars: Seq<Char>, k: int)
    ensures
        default_members(chars, k).len() <= if k < 0 { 0 } else { k },
    decreases k,
{
    if k > 0 {
        lemma_default_members_len(chars, k - 1);
    }
}

/// Index of the last character built from `t`.
fn last_index_with_template(chars: &Vec<Char>, t: &str) -> (r: Option<usize>)
    ensures
        match last_with_template(chars@, t@, chars@.len() as int) {
            Some(j) => r == Some(j as usize),
            None => r is None,
        },
{
    let target = t.to_owned();
    let mut found: Option<usize> = None;
    let mut i: usize = 0;
    while i < chars.len()
        invariant
            0 <= i <= chars@.len(),
            target@ == t@,
            match last_with_template(chars@, t@, i as int) {
                Some(j) => found == Some(j as usize),
                None => found is None,
            },
        decreases chars@.len() - i,
    {
        if chars[i].template_id == target {
            found = Some(i);
        }
        i += 1;
    }
    found
}

impl CharBag {
    /// A bag holding `chars` and one team, "Team 1": the characters of the
    /// starting team's templates that the bag holds (the last one of each
    /// template), in template order, led by the first of them.
    pub fn with_default_team(chars: Vec<Char>) -> (r: Self)
        requires
            chars@.len() <= u64::MAX,
        ensures
            ({
                let ms = default_members(chars@, 4);
                &&& r.chars@ == chars@
                &&& r.teams@.len() == 1
                &&& r.teams@[0].name@ == "Team 1"@
                &&& forall|i: int| 0 <= i < 4 ==> #[trigger] r.teams@[0].char_team@[i] == slot_of(ms, i)
                &&& r.teams@[0].leader_index == if ms.len() > 0 { CharIndex(ms[0]) } else { CharIndex(0) }
                &&& r.meta.curr_team_index == 0
            }),
    {
        let n = chars.len();
        let mut members: Vec<u64> = Vec::new();
        let mut k: usize = 0;
        while k < 4
            invariant
                0 <= k <= 4,
                n == chars@.len(),
                chars@.len() <= u64::MAX,
                members@ == default_members(chars@, k as int),
            decreases 4 - k,
        {
            let t = default_team_template_str(k);
            let found = last_index_with_template(&chars, t);
            proof {
                lemma_last_with_template_bound(chars@, t@, chars@.len() as int);
                assert(default_members(chars@, k as int + 1) == match last_with_template(chars@, t@, chars@.len() as int) {
                    Some(j) => default_members(chars@, k as int).push(j as u64),
                    None => default_members(chars@, k as int),
                });
            }
            match found {
                Some(j) => {
                    proof {
                        let jj = last_with_template(chars@, t@, chars@.len() as int)->0;
                        assert(0 <= jj < n);
                        assert(j as int == jj);
                    }
                    members.push(j as u64);
                },
                None => {},
            }
            k += 1;
        }
        proof {
            lemma_default_members_len(chars@, 4);
        }
        let s0 = if 0 < members.len() { TeamSlot::Occupied(CharIndex(members[0])) } else { TeamSlot::Empty };
        let s1 = if 1 < members.len() { TeamSlot::Occupied(CharIndex(members[1])) } else { TeamSlot::Empty };
        let s2 = if 2 < members.len() { TeamSlot::Occupied(CharIndex(members[2])) } else { TeamSlot::Empty };
        let s3 = if 3 < members.len() { TeamSlot::Occupied(CharIndex(members[3])) } else { TeamSlot::Empty };
        let leader = if members.len() > 0 { CharIndex(members[0]) } else { CharIndex(0) };
        let team = Team { name: "Team 1".to_string(), char_team: [s0, s1, s2, s3], leader_index: leader };
        let mut teams: Vec<Team> = Vec::new();
        teams.push(team);
        let r = CharBag { teams, chars, meta: Meta { curr_team_index: 0 } };
        proof {
            assert forall|i: int| 0 <= i < 4 implies #[trigger] r.teams@[0].char_team@[i] == slot_of(default_members(r.chars@, 4), i) by {
                if i == 0 {
                } else if i == 1 {
                } else if i == 2 {
                } else {
                }
            }
        }
        r
    }
}

/// Level-1 stats of a character template; hit points kept as the bit
/// pattern of their `f64` value.
#[derive(Debug, Clone, Copy)]
pub struct CharStats {
    pub level: i32,
    pub break_stage: u32,
    pub hp_bits: u64,
}

/// What the game tables say of one character template.
#[derive(Debug)]
pub struct CharTemplate {
    pub template_id: String,
    /// For each of the template's skill bundles, the skill of its first
    /// entry (`None` for a bundle without entries). A template without
    /// bundles is a placeholder.
    pub skill_bundles: Vec<Option<String>>,
    /// Level-1 stats, when the tables have them.
    pub level_one: Option<CharStats>,
    pub weapon_type: u32,
    /// The preferred weapon for the template's weapon type, if any.
    pub best_weapon: Option<String>,
    /// The first weapon listed for that type, if any.
    pub first_weapon_of_type: Option<String>,
}

/// A template that becomes a character: it has skill bundles and level-1
/// stats.
pub open spec fn is_playable(t: CharTemplate) -> bool {
    t.skill_bundles@.len() > 0 && t.level_one is Some
}

/// The playable templates of `ts`, in order.
pub open spec fn playable(ts: Seq<CharTemplate>) -> Seq<CharTemplate>
    decreases ts.len(),
{
    if ts.len() == 0 {
        Seq::empty()
    } else {
        let p = playable(ts.drop_last());
        if is_playable(ts.last()) {
            p.push(ts.last())
        } else {
            p
        }
    }
}

/// The template has neither a preferred weapon nor any weapon of its type.
pub open spec fn needs_fallback(t: CharTemplate) -> bool {
    t.best_weapon is None && t.first_weapon_of_type is None
}

/// The weapon a new character of `t` carries: the preferred one, else the
/// first of its type, else `fallback`.
pub open spec fn chosen_weapon(t: CharTemplate, fallback: Seq<char>) -> Seq<char> {
    match t.best_weapon {
        Some(w) => w@,
        None => match t.first_weapon_of_type {
            Some(w) => w@,
            None => fallback,
        },
    }
}

/// Numeric id of the chosen weapon, or the weapon type when `ids` does not
/// know the weapon.
pub open spec fn weapon_number(t: CharTemplate, ids: Map<Seq<char>, u32>, fallback: Seq<char>) -> u32 {
    let w = chosen_weapon(t, fallback);
    if ids.contains_key(w) {
        ids[w]
    } else {
        t.weapon_type
    }
}

/// Skill levels of a new character: level 1 for the first skill of every
/// bundle that has one.
pub open spec fn starting_skills(b: Seq<Option<String>>) -> Map<Seq<char>, u32>
    decreases b.len(),
{
    if b.len() == 0 {
        Map::empty()
    } else {
        let m = starting_skills(b.drop_last());
        match b.last() {
            Some(s) => m.insert(s@, 1),
            None => m,
        }
    }
}

/// `c` is the new character made from template `t` at time `now` (ms).
pub open spec fn seeded(c: Char, t: CharTemplate, ids: Map<Seq<char>, u32>, fallback: Seq<char>, now: i64) -> bool {
    let st = t.level_one->0;
    &&& c.template_id@ == t.template_id@
    &&& c.level == st.level
    &&& c.exp == 0
    &&& c.break_stage == st.break_stage
    &&& !c.is_dead
    &&& c.hp_bits == st.hp_bits
    &&& c.ultimate_sp_bits == 0
    &&& c.weapon_id == WeaponIndex(weapon_number(t, ids, fallback) as u64)
    &&& c.own_time == now
    &&& c.skill_levels@ == starting_skills(t.skill_bundles@)
}

/// Skill levels of a new character of a template (see `starting_skills`).
fn starting_skill_levels(bundles: &Vec<Option<String>>) -> (r: StrMap<u32>)
    ensures
        r@ == starting_skills(bundles@),
{
    let mut levels: StrMap<u32> = StrMap::new();
    let mut i: usize = 0;
    while i < bundles.len()
        invariant
            0 <= i <= bundles@.len(),
            levels@ == starting_skills(bundles@.subrange(0, i as int)),
        decreases bundles@.len() - i,
    {
        proof {
            assert(bundles@.subrange(0, i as int + 1).drop_last() =~= bundles@.subrange(0, i as int));
        }
        match &bundles[i] {
            Some(skill) => {
                levels.insert(skill.clone(), 1);
            },
            None => {},
        }
        i += 1;
    }
    proof {
        assert(bundles@.subrange(0, i as int) =~= bundles@);
    }
    levels
}

/// The new character of playable template `t` at time `now_ms`.
fn seed_char(t: &CharTemplate, weapon_ids: &StrMap<u32>, fallback_weapon: &Option<String>, now_ms: i64) -> (r: Char)
    requires
        is_playable(*t),
        needs_fallback(*t) ==> fallback_weapon is Some,
    ensures
        seeded(r, *t, weapon_ids@, match fallback_weapon { Some(w) => w@, None => Seq::empty() }, now_ms),
{
    let st = t.level_one.unwrap();
    let weapon: &str = match &t.best_weapon {
        Some(w) => w.as_str(),
        None => match &t.first_weapon_of_type {
            Some(w) => w.as_str(),
            None => match fallback_weapon {
                Some(w) => w.as_str(),
                None => "",
            },
        },
    };
    let number = match weapon_ids.get(weapon) {
        Some(n) => *n,
        None => t.weapon_type,
    };
    Char {
        template_id: t.template_id.clone(),
        level: st.level,
        exp: 0,
        break_stage: st.break_stage,
        is_dead: false,
        hp_bits: st.hp_bits,
        ultimate_sp_bits: 0,
        weapon_id: WeaponIndex::from_raw(number as u64),
        own_time: now_ms,
        skill_levels: starting_skill_levels(&t.skill_bundles),
    }
}

impl CharBag {
    /// A new player's bag: one character, in table order, for every
    /// playable template (see `seeded`; `fallback_weapon` is the weapon
    /// table's entry for templates without a weapon of their own, and
    /// `weapon_ids` the numeric weapon ids), then the starting team over
    /// them (see `with_default_team`).
    pub fn new(
        templates: &Vec<CharTemplate>,
        weapon_ids: &StrMap<u32>,
        fallback_weapon: &Option<String>,
        now_ms: i64,
    ) -> (r: Self)
        requires
            templates@.len() <= u64::MAX,
            forall|i: int|
                0 <= i < templates@.len() && is_playable(#[trigger] templates@[i]) && needs_fallback(templates@[i])
                    ==> fallback_weapon is Some,
        ensures
            ({
                let vt = playable(templates@);
                let fb = match fallback_weapon { Some(w) => w@, None => Seq::empty() };
                &&& r.chars@.len() == vt.len()
                &&& forall|j: int| 0 <= j < vt.len() ==> #[trigger] seeded(r.chars@[j], vt[j], weapon_ids@, fb, now_ms)
            }),
            ({
                let ms = default_members(r.chars@, 4);
                &&& r.teams@.len() == 1
                &&& r.teams@[0].name@ == "Team 1"@
                &&& forall|i: int| 0 <= i < 4 ==> #[trigger] r.teams@[0].char_team@[i] == slot_of(ms, i)
                &&& r.teams@[0].leader_index == if ms.len() > 0 { CharIndex(ms[0]) } else { CharIndex(0) }
                &&& r.meta.curr_team_index == 0
            }),
    {
        let ghost fb = match fallback_weapon { Some(w) => w@, None => Seq::<char>::empty() };
        let mut chars: Vec<Char> = Vec::new();
        let mut i: usize = 0;
        while i < templates.len()
            invariant
                0 <= i <= templates@.len(),
                templates@.len() <= u64::MAX,
                fb == match fallback_weapon { Some(w) => w@, None => Seq::<char>::empty() },
                forall|k: int|
                    0 <= k < templates@.len() && is_playable(#[trigger] templates@[k]) && needs_fallback(templates@[k])
                        ==> fallback_weapon is Some,
                chars@.len() == playable(templates@.subrange(0, i as int)).len(),
                chars@.len() <= i,
                forall|j: int|
                    0 <= j < chars@.len() ==> #[trigger] seeded(chars@[j], playable(templates@.subrange(0, i as int))[j], weapon_ids@, fb, now_ms),
            decreases templates@.len() - i,
        {
            let ghost before = chars@;
            let ghost p0 = playable(templates@.subrange(0, i as int));
            proof {
                assert(templates@.subrange(0, i as int + 1).drop_last() =~= templates@.subrange(0, i as int));
                assert(templates@.subrange(0, i as int + 1).last() == templates@[i as int]);
            }
            let t = &templates[i];
            let ok = t.skill_bundles.len() > 0 && match &t.level_one {
                Some(_) => true,
                None => false,
            };
            if ok {
                let c = seed_char(t, weapon_ids, fallback_weapon, now_ms);
                chars.push(c);
                proof {
                    let p1 = playable(templates@.subrange(0, i as int + 1));
                    assert(p1 == p0.push(templates@[i as int]));
                    assert forall|j: int| 0 <= j < chars@.len() implies #[trigger] seeded(chars@[j], p1[j], weapon_ids@, fb, now_ms) by {
                        if j < before.len() {
                            assert(chars@[j] == before[j]);
                            assert(p1[j] == p0[j]);
                        }
                    }
                }
            }
            i += 1;
        }
        proof {
            assert(templates@.subrange(0, i as int) =~= templates@);
        }
        CharBag::with_default_team(chars)
    }
}

} // verus!
