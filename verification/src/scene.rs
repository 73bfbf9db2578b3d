//! The scene the player is in: its loading state, revival settings and
//! the respawn cooldowns of killed enemies, plus what a change of the
//! active team shows the client.
use std::collections::HashMap;

use vstd::prelude::*;

use crate::character::{alive_not_in, leader_first, move_leader_to_front, CharBag};
use crate::entity::{EntityKind, EntityManager, SceneEntity};

verus! {

/// Why the client is sent its own scene info.
#[derive(Debug, Clone, Copy, PartialEq, Eq, Structural)]
pub enum SelfInfoReason {
    EnterScene,
    ReviveDead,
    ReviveRest,
    ChangeTeam,
    ReviveByItem,
    ResetDungeon,
}

impl SelfInfoReason {
    pub fn code(self) -> (r: i32)
        ensures
            r == match self {
                SelfInfoReason::EnterScene => 0,
                SelfInfoReason::ReviveDead => 1,
                SelfInfoReason::ReviveRest => 2,
                SelfInfoReason::ChangeTeam => 3,
                SelfInfoReason::ReviveByItem => 4,
                SelfInfoReason::ResetDungeon => 5int,
            },
    {
        match self {
            SelfInfoReason::EnterScene => 0,
            SelfInfoReason::ReviveDead => 1,
            SelfInfoReason::ReviveRest => 2,
            SelfInfoReason::ChangeTeam => 3,
            SelfInfoReason::ReviveByItem => 4,
            SelfInfoReason::ResetDungeon => 5,
        }
    }
}

/// Why an entity leaves the scene.
#[derive(Debug, Clone, Copy, PartialEq, Eq, Structural)]
pub enum EntityDestroyReason {
    Immediately,
    Dead,
}

impl EntityDestroyReason {
    pub fn code(self) -> (r: i32)
        ensures
            r == match self {
                EntityDestroyReason::Immediately => 0,
                EntityDestroyReason::Dead => 1int,
            },
    {
        match self {
            EntityDestroyReason::Immediately => 0,
            EntityDestroyReason::Dead => 1,
        }
    }
}

/// Where a character revives.
#[derive(Debug, Clone, Copy, PartialEq, Eq, Default, Structural)]
pub enum RevivalMode {
    #[default]
    Default,
    RepatriatePoint,
    CheckPoint,
}

impl RevivalMode {
    pub fn code(self) -> (r: i32)
        ensures
            r == match self {
                RevivalMode::Default => 0,
                RevivalMode::RepatriatePoint => 1,
                RevivalMode::CheckPoint => 2int,
            },
    {
        match self {
            RevivalMode::Default => 0,
            RevivalMode::RepatriatePoint => 1,
            RevivalMode::CheckPoint => 2,
        }
    }
}

/// Progress of a scene load.
#[derive(Debug, Clone, Copy, PartialEq, Eq, Default, Structural)]
pub enum SceneLoadingState {
    #[default]
    Idle,
    Loading,
    Active,
}


/// A checkpoint: its scene and the bit patterns of its `f32` coordinates.
#[derive(Debug)]
pub struct CheckpointInfo {
    pub scene_name: String,
    pub pos_bits: (u32, u32, u32),
}

/// How long a killed enemy stays down before it may respawn, in ms.
pub const RESPAWN_COOLDOWN_MS: u64 = 60000;

/// A scene the player enters or leaves, as the client is told about it.
#[derive(Debug)]
pub struct SceneNotice {
    pub role_id: u64,
    pub scene_name: String,
    pub scene_id: u64,
}

/// The scene the player is in.
#[derive(Debug)]
pub struct SceneManager {
    pub current_scene: String,
    pub scene_id: u64,
    pub loading_state: SceneLoadingState,
    pub in_battle: bool,
    pub checkpoint: Option<CheckpointInfo>,
    pub current_revival_mode: RevivalMode,
    /// Time (ms) each killed enemy, by level logic id, went down.
    pub dead_entities: HashMap<u64, u64>,
}

/// Whether a kill at `time` is still cooling down at `now`.
pub open spec fn cooling(now: u64, time: u64) -> bool {
    now - time < RESPAWN_COOLDOWN_MS
}

/// The kill records of `d` still cooling down at `now`.
pub open spec fn after_cooldown(d: Map<u64, u64>, now: u64) -> Map<u64, u64> {
    d.restrict(d.dom().filter(|k: u64| cooling(now, d[k])))
}

impl SceneManager {
    /// The starting scene, idle, with nothing recorded.
    pub fn new() -> (r: Self)
        ensures
            r.current_scene@ == "map01_lv001"@,
            r.scene_id == 0,
            r.loading_state == SceneLoadingState::Idle,
            !r.in_battle,
            r.checkpoint is None,
            r.current_revival_mode == RevivalMode::Default,
            r.dead_entities@ == Map::<u64, u64>::empty(),
    {
        SceneManager {
            current_scene: "map01_lv001".to_string(),
            scene_id: 0,
            loading_state: SceneLoadingState::Idle,
            in_battle: false,
            checkpoint: None,
            current_revival_mode: RevivalMode::Default,
            dead_entities: HashMap::new(),
        }
    }

    pub fn set_revival_mode(&mut self, mode: RevivalMode)
        ensures
            *final(self) == (SceneManager { current_revival_mode: mode, ..*old(self) }),
    {
        self.current_revival_mode = mode;
    }

    pub fn set_battle_mode(&mut self, in_battle: bool)
        ensures
            *final(self) == (SceneManager { in_battle, ..*old(self) }),
    {
        self.in_battle = in_battle;
    }

    pub fn scene_name(&self) -> (r: &str)
        ensures
            r@ == self.current_scene@,
    {
        self.current_scene.as_str()
    }

    /// Whether the current scene has finished loading.
    pub fn is_in_scene(&self) -> (r: bool)
        ensures
            r == (self.loading_state == SceneLoadingState::Active),
    {
        self.loading_state == SceneLoadingState::Active
    }

    pub fn set_checkpoint(&mut self, checkpoint: CheckpointInfo)
        ensures
            *final(self) == (SceneManager { checkpoint: Some(checkpoint), ..*old(self) }),
    {
        self.checkpoint = Some(checkpoint);
    }

    pub fn get_checkpoint(&self) -> (r: Option<&CheckpointInfo>)
        ensures
            match r {
                Some(c) => self.checkpoint == Some(*c),
                None => self.checkpoint is None,
            },
    {
        match &self.checkpoint {
            Some(c) => Some(c),
            None => None,
        }
    }

    /// Starts moving to `new_scene`, whose numeric id the scene table gives
    /// as `new_scene_id` (0 when it has none): every entity and kill record
    /// is dropped and the scene starts loading. Returns the notices of the
    /// scene entered and of the scene left.
    pub fn begin_scene_transition(&mut self, new_scene: &str, new_scene_id: Option<u64>, entities: &mut EntityManager) -> (r: (
        SceneNotice,
        SceneNotice,
    ))
        ensures
            ({
                let id = match new_scene_id { Some(v) => v, None => 0 };
                &&& r.0 == SceneNotice { role_id: 1, scene_name: r.0.scene_name, scene_id: id }
                &&& r.0.scene_name@ == new_scene@
                &&& r.1 == SceneNotice { role_id: 1, scene_name: r.1.scene_name, scene_id: old(self).scene_id }
                &&& r.1.scene_name@ == old(self).current_scene@
                &&& final(self).current_scene@ == new_scene@
                &&& final(self).scene_id == id
            }),
            final(self).loading_state == SceneLoadingState::Loading,
            final(self).dead_entities@ == Map::<u64, u64>::empty(),
            final(self).in_battle == old(self).in_battle,
            final(self).checkpoint == old(self).checkpoint,
            final(self).current_revival_mode == old(self).current_revival_mode,
            final(entities).entities() == Map::<u64, SceneEntity>::empty(),
            final(entities).monsters_issued() == 0,
    {
        entities.clear();
        self.dead_entities.clear();
        let leave = SceneNotice { role_id: 1, scene_name: self.current_scene.clone(), scene_id: self.scene_id };
        self.current_scene = new_scene.to_string();
        self.scene_id = match new_scene_id {
            Some(v) => v,
            None => 0,
        };
        self.loading_state = SceneLoadingState::Loading;
        let enter = SceneNotice { role_id: 1, scene_name: self.current_scene.clone(), scene_id: self.scene_id };
        (enter, leave)
    }

    /// Marks the current scene as loaded; `scene_id` is its numeric id in
    /// the scene table (0 when it has none).
    pub fn finish_scene_load(&mut self, scene_id: Option<u64>)
        ensures
            *final(self) == (SceneManager {
                loading_state: SceneLoadingState::Active,
                scene_id: match scene_id { Some(v) => v, None => 0 },
                ..*old(self)
            }),
    {
        self.loading_state = SceneLoadingState::Active;
        self.scene_id = match scene_id {
            Some(v) => v,
            None => 0,
        };
    }

    /// Takes the scene from a saved world: its last scene, with numeric id
    /// `scene_id` from the scene table (0 when it has none).
    pub fn update_from_world(&mut self, last_scene: &str, scene_id: Option<u64>)
        ensures
            final(self).current_scene@ == last_scene@,
            final(self).scene_id == match scene_id { Some(v) => v, None => 0 },
            final(self).loading_state == old(self).loading_state,
            final(self).in_battle == old(self).in_battle,
            final(self).checkpoint == old(self).checkpoint,
            final(self).current_revival_mode == old(self).current_revival_mode,
            final(self).dead_entities == old(self).dead_entities,
    {
        self.current_scene = last_scene.to_string();
        self.scene_id = match scene_id {
            Some(v) => v,
            None => 0,
        };
    }

    /// Forgets the kills whose cooldown is over at `now` (ms).
    pub fn prune_dead_entities(&mut self, now: u64)
        requires
            forall|k: u64| #[trigger] old(self).dead_entities@.contains_key(k) ==> old(self).dead_entities@[k] <= now,
        ensures
            final(self).dead_entities@ == old(self).dead_entities@.restrict(
                old(self).dead_entities@.dom().filter(|k: u64| cooling(now, old(self).dead_entities@[k])),
            ),
            final(self).current_scene == old(self).current_scene,
            final(self).scene_id == old(self).scene_id,
            final(self).loading_state == old(self).loading_state,
            final(self).in_battle == old(self).in_battle,
            final(self).checkpoint == old(self).checkpoint,
            final(self).current_revival_mode == old(self).current_revival_mode,
    {
        broadcast use vstd::std_specs::hash::group_hash_axioms;

        let ghost m = self.dead_entities@;
        let keys = crate::util::map_keys(&self.dead_entities);
        let mut i: usize = 0;
        while i < keys.len()
            invariant
                0 <= i <= keys@.len(),
                keys@.no_duplicates(),
                keys@.to_set() == m.dom(),
                m == old(self).dead_entities@,
                forall|k: u64| #[trigger] m.contains_key(k) ==> m[k] <= now,
                forall|k: u64| #[trigger] self.dead_entities@.contains_key(k) <==> m.contains_key(k) && (cooling(now, m[k])
                    || !keys@.take(i as int).contains(k)),
                forall|k: u64| #[trigger] self.dead_entities@.contains_key(k) ==> self.dead_entities@[k] == m[k],
                self.current_scene == old(self).current_scene,
                self.scene_id == old(self).scene_id,
                self.loading_state == old(self).loading_state,
                self.in_battle == old(self).in_battle,
                self.checkpoint == old(self).checkpoint,
                self.current_revival_mode == old(self).current_revival_mode,
            decreases keys@.len() - i,
        {
            let k = keys[i];
            proof {
                assert(keys@.to_set().contains(k));
                assert(keys@.take(i as int + 1) == keys@.take(i as int).push(k));
                assert forall|x: u64| keys@.take(i as int + 1).contains(x) <==> keys@.take(i as int).contains(x) || x == k by {
                    let pre = keys@.take(i as int);
                    if pre.push(k).contains(x) {
                        let y = choose|y: int| 0 <= y < pre.push(k).len() && pre.push(k)[y] == x;
                        if y < pre.len() {
                            assert(pre[y] == x);
                        }
                    }
                    if pre.contains(x) {
                        let y = choose|y: int| 0 <= y < pre.len() && pre[y] == x;
                        assert(pre.push(k)[y] == x);
                    }
                    if x == k {
                        assert(pre.push(k)[pre.len() as int] == x);
                    }
                }
                assert(!keys@.take(i as int).contains(k)) by {
                    if keys@.take(i as int).contains(k) {
                        let y = choose|y: int| 0 <= y < i && keys@.take(i as int)[y] == k;
                        assert(keys@[y] == keys@[i as int]);
                    }
                }
            }
            let t: u64 = match self.dead_entities.get(&k) {
                Some(t) => *t,
                None => now,
            };
            if now - t >= RESPAWN_COOLDOWN_MS {
                self.dead_entities.remove(&k);
            }
            i += 1;
        }
        proof {
            assert(keys@.take(i as int) == keys@);
            assert forall|k: u64| #[trigger] m.contains_key(k) implies keys@.contains(k) by {
                assert(keys@.to_set().contains(k));
            }
            assert(self.dead_entities@ =~= m.restrict(m.dom().filter(|k: u64| cooling(now, m[k]))));
        }
    }
}

/// What a change of the active team's line-up shows the client: living
/// members of the old line-up that are not in the new one leave, living
/// members of the new line-up that were not in the old one enter, and the
/// living members of the new line-up are listed with the leader first.
#[derive(Debug)]
pub struct TeamViewChange {
    pub leaving: Vec<u64>,
    pub entering: Vec<u64>,
    pub alive: Vec<u64>,
}

/// The living members of `ids`, in order, with the active team's leader
/// moved to the front.
pub fn alive_leader_first(bag: &CharBag, ids: &[u64]) -> (r: Vec<u64>)
    requires
        forall|j: int| 0 <= j < ids@.len() ==> ids@[j] >= 1,
        bag.meta.curr_team_index < bag.teams@.len(),
        bag.current_team().leader_index.0 < u64::MAX,
    ensures
        r@ == leader_first(alive_not_in(bag.chars@, ids@, Seq::empty()), (bag.current_team().leader_index.0 + 1) as u64),
{
    let none: Vec<u64> = Vec::new();
    let mut alive = bag.alive_except(ids, none.as_slice());
    let leader = bag.teams[bag.meta.curr_team_index as usize].leader_index.object_id();
    move_leader_to_front(&mut alive, leader);
    alive
}

/// The client view of the active team changing from `old_team_ids` to
/// `new_team_ids` (see `TeamViewChange`).
pub fn team_view_change(bag: &CharBag, old_team_ids: &[u64], new_team_ids: &[u64]) -> (r: TeamViewChange)
    requires
        forall|j: int| 0 <= j < old_team_ids@.len() ==> old_team_ids@[j] >= 1,
        forall|j: int| 0 <= j < new_team_ids@.len() ==> new_team_ids@[j] >= 1,
        bag.meta.curr_team_index < bag.teams@.len(),
        bag.current_team().leader_index.0 < u64::MAX,
    ensures
        r.leaving@ == alive_not_in(bag.chars@, old_team_ids@, new_team_ids@),
        r.entering@ == alive_not_in(bag.chars@, new_team_ids@, old_team_ids@),
        r.alive@ == leader_first(alive_not_in(bag.chars@, new_team_ids@, Seq::empty()), (bag.current_team().leader_index.0 + 1) as u64),
{
    let leaving = bag.alive_except(old_team_ids, new_team_ids);
    let entering = bag.alive_except(new_team_ids, old_team_ids);
    let alive = alive_leader_first(bag, new_team_ids);
    TeamViewChange { leaving, entering, alive }
}

/// Nobody both leaves and stays: a leaving id is not in the new line-up,
/// an entering id was not in the old one, and every listed id names a
/// living character.
pub proof fn lemma_team_change_disjoint(chars: Seq<crate::character::Char>, old_ids: Seq<u64>, new_ids: Seq<u64>)
    ensures
        forall|x: int| 0 <= x < alive_not_in(chars, old_ids, new_ids).len() ==> !new_ids.contains(
            #[trigger] alive_not_in(chars, old_ids, new_ids)[x],
        ) && crate::character::alive_in(chars, alive_not_in(chars, old_ids, new_ids)[x]),
        forall|x: int| 0 <= x < alive_not_in(chars, new_ids, old_ids).len() ==> !old_ids.contains(
            #[trigger] alive_not_in(chars, new_ids, old_ids)[x],
        ) && crate::character::alive_in(chars, alive_not_in(chars, new_ids, old_ids)[x]),
{
    let p1 = |id: u64| !new_ids.contains(id) && crate::character::alive_in(chars, id);
    let p2 = |id: u64| !old_ids.contains(id) && crate::character::alive_in(chars, id);
    assert forall|x: int| 0 <= x < old_ids.filter(p1).len() implies p1(#[trigger] old_ids.filter(p1)[x]) by {
        old_ids.lemma_filter_pred(p1, x);
    }
    assert forall|x: int| 0 <= x < new_ids.filter(p2).len() implies p2(#[trigger] new_ids.filter(p2)[x]) by {
        new_ids.lemma_filter_pred(p2, x);
    }
}


/// An enemy spawn point within reach of the player: its level logic id
/// (the id the enemy lives under), template, and the bit patterns of its
/// position.
#[derive(Debug)]
pub struct EnemySpawn {
    pub level_logic_id: u64,
    pub template_id: String,
    pub pos_bits: (u32, u32, u32),
}

/// Whether id `id` is a living enemy of `es`.
pub open spec fn enemy_alive(es: Map<u64, SceneEntity>, id: u64) -> bool {
    es.contains_key(id) && es[id].kind == EntityKind::Enemy
}

/// The entity a spawn point brings to life.
pub open spec fn spawned(sp: EnemySpawn) -> SceneEntity {
    SceneEntity { id: sp.level_logic_id, template_id: sp.template_id, kind: EntityKind::Enemy, pos_bits: sp.pos_bits }
}

/// Entities and spawned ids after the first `n` spawn points: each point
/// whose enemy is neither alive nor cooling down (in `dead`) spawns.
pub open spec fn spawns_after(es: Map<u64, SceneEntity>, dead: Map<u64, u64>, near: Seq<EnemySpawn>, n: int) -> (
    Map<u64, SceneEntity>,
    Seq<u64>,
)
    decreases n,
{
    if n <= 0 {
        (es, Seq::empty())
    } else {
        let (m, ids) = spawns_after(es, dead, near, n - 1);
        let sp = near[n - 1];
        if !enemy_alive(m, sp.level_logic_id) && !dead.contains_key(sp.level_logic_id) {
            (m.insert(sp.level_logic_id, spawned(sp)), ids.push(sp.level_logic_id))
        } else {
            (m, ids)
        }
    }
}

/// Entities and removed ids after the first `n` far ids: each far id that
/// is a living enemy is removed.
pub open spec fn removals_after(es: Map<u64, SceneEntity>, far: Seq<u64>, n: int) -> (Map<u64, SceneEntity>, Seq<u64>)
    decreases n,
{
    if n <= 0 {
        (es, Seq::empty())
    } else {
        let (m, ids) = removals_after(es, far, n - 1);
        if enemy_alive(m, far[n - 1]) {
            (m.remove(far[n - 1]), ids.push(far[n - 1]))
        } else {
            (m, ids)
        }
    }
}

impl SceneManager {
    /// One visibility update at `now` (ms): kills whose cooldown is over
    /// are forgotten; each spawn point of `near` (within entering range)
    /// whose enemy is neither alive nor cooling down spawns it; then each
    /// living enemy listed in `far` (beyond leaving range) is removed.
    /// Returns the spawned ids and the removed ids, in order.
    pub fn update_visible_entities_at(&mut self, now: u64, near: &[EnemySpawn], far: &[u64], entities: &mut EntityManager) -> (r: (
        Vec<u64>,
        Vec<u64>,
    ))
        requires
            forall|k: u64| #[trigger] old(self).dead_entities@.contains_key(k) ==> old(self).dead_entities@[k] <= now,
        ensures
            ({
                let d0 = old(self).dead_entities@;
                let dead = d0.restrict(d0.dom().filter(|k: u64| cooling(now, d0[k])));
                let (m1, entered) = spawns_after(old(entities).entities(), dead, near@, near@.len() as int);
                let (m2, left) = removals_after(m1, far@, far@.len() as int);
                &&& final(self).dead_entities@ == dead
                &&& r.0@ == entered
                &&& r.1@ == left
                &&& final(entities).entities() == m2
            }),
            final(entities).monsters_issued() == old(entities).monsters_issued(),
            final(self).current_scene == old(self).current_scene,
            final(self).scene_id == old(self).scene_id,
            final(self).loading_state == old(self).loading_state,
            final(self).in_battle == old(self).in_battle,
            final(self).checkpoint == old(self).checkpoint,
            final(self).current_revival_mode == old(self).current_revival_mode,
    {
        self.prune_dead_entities(now);
        let ghost es0 = entities.entities();
        let ghost dead = self.dead_entities@;
        let mut entered: Vec<u64> = Vec::new();
        let mut i: usize = 0;
        while i < near.len()
            invariant
                0 <= i <= near@.len(),
                dead == self.dead_entities@,
                (entities.entities(), entered@) == spawns_after(es0, dead, near@, i as int),
                entities.monsters_issued() == old(entities).monsters_issued(),
            decreases near@.len() - i,
        {
            let sp = &near[i];
            let id = sp.level_logic_id;
            let alive = match entities.get(id) {
                Some(e) => e.kind == EntityKind::Enemy,
                None => false,
            };
            if !alive && !self.dead_entities.contains_key(&id) {
                entities.insert(
                    SceneEntity { id, template_id: sp.template_id.clone(), kind: EntityKind::Enemy, pos_bits: sp.pos_bits },
                );
                entered.push(id);
            }
            i += 1;
        }
        let ghost es1 = entities.entities();
        let mut left: Vec<u64> = Vec::new();
        let mut j: usize = 0;
        while j < far.len()
            invariant
                0 <= j <= far@.len(),
                (entities.entities(), left@) == removals_after(es1, far@, j as int),
                entities.monsters_issued() == old(entities).monsters_issued(),
            decreases far@.len() - j,
        {
            let id = far[j];
            let alive = match entities.get(id) {
                Some(e) => e.kind == EntityKind::Enemy,
                None => false,
            };
            if alive {
                entities.remove(id);
                left.push(id);
            }
            j += 1;
        }
        (entered, left)
    }

    /// Whether every kill was recorded at or before `now`.
    fn kills_not_after(&self, now: u64) -> (r: bool)
        ensures
            r == forall|k: u64| #[trigger] self.dead_entities@.contains_key(k) ==> self.dead_entities@[k] <= now,
    {
        let keys = crate::util::map_keys(&self.dead_entities);
        let mut i: usize = 0;
        while i < keys.len()
            invariant
                0 <= i <= keys@.len(),
                keys@.to_set() == self.dead_entities@.dom(),
                forall|j: int| 0 <= j < i ==> self.dead_entities@[#[trigger] keys@[j]] <= now,
            decreases keys@.len() - i,
        {
            proof {
                assert(keys@.to_set().contains(keys@[i as int]));
            }
            match self.dead_entities.get(&keys[i]) {
                Some(t) => {
                    if *t > now {
                        return false;
                    }
                },
                None => {},
            }
            i += 1;
        }
        proof {
            assert forall|k: u64| #[trigger] self.dead_entities@.contains_key(k) implies self.dead_entities@[k] <= now by {
                assert(keys@.to_set().contains(k));
                let j = choose|j: int| 0 <= j < keys@.len() && keys@[j] == k;
                assert(self.dead_entities@[keys@[j]] <= now);
            }
        }
        true
    }

    /// `update_visible_entities_at` on the system clock (ms). Does nothing
    /// and returns `None` exactly when a kill is recorded after the clock's
    /// reading.
    pub fn update_visible_entities(&mut self, near: &[EnemySpawn], far: &[u64], entities: &mut EntityManager) -> (r: Option<(Vec<u64>, Vec<u64>)>)
        ensures
            r is None ==> *final(self) == *old(self) && *final(entities) == *old(entities),
            exists|now: u64| #![trigger after_cooldown(old(self).dead_entities@, now)] {
                &&& (r is None <==> exists|k: u64| #[trigger] old(self).dead_entities@.contains_key(k) && old(self).dead_entities@[k] > now)
                &&& (r matches Some(v) ==> {
                    let dead = after_cooldown(old(self).dead_entities@, now);
                    let (m1, entered) = spawns_after(old(entities).entities(), dead, near@, near@.len() as int);
                    let (m2, left) = removals_after(m1, far@, far@.len() as int);
                    &&& final(self).dead_entities@ == dead
                    &&& v.0@ == entered
                    &&& v.1@ == left
                    &&& final(entities).entities() == m2
                })
            },
    {
        let clock = crate::util::now_ms();
        let now: u64 = if clock < 0 { 0 } else { clock as u64 };
        let ghost d0 = self.dead_entities@;
        if !self.kills_not_after(now) {
            proof {
                assert(after_cooldown(d0, now) == after_cooldown(d0, now));
            }
            return None;
        }
        let res = self.update_visible_entities_at(now, near, far, entities);
        proof {
            assert(after_cooldown(d0, now) == d0.restrict(d0.dom().filter(|k: u64| cooling(now, d0[k]))));
        }
        Some(res)
    }
}

} // verus!
