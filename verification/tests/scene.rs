use perlica_logic::character::{
    move_leader_to_front, Char, CharBag, CharIndex, CharStats, CharTemplate, Meta, Team, TeamSlot, WeaponIndex,
};
use perlica_logic::entity::{EntityKind, EntityManager, SceneEntity};
use perlica_logic::scene::{team_view_change, EnemySpawn, SceneLoadingState, SceneManager};
use perlica_logic::strmap::StrMap;

fn ch(template: &str, dead: bool) -> Char {
    Char {
        template_id: template.to_string(),
        level: 1,
        exp: 0,
        break_stage: 0,
        is_dead: dead,
        hp_bits: 100f64.to_bits(),
        ultimate_sp_bits: 0f32.to_bits(),
        weapon_id: WeaponIndex::from_raw(0),
        own_time: 0,
        skill_levels: StrMap::new(),
    }
}

/// Chars 1..=5 (object ids), char 2 and 4 dead; team of 1, 2, 3 led by 3.
fn bag() -> CharBag {
    let mut team = Team::default();
    team.char_team = [
        TeamSlot::Occupied(CharIndex(0)),
        TeamSlot::Occupied(CharIndex(1)),
        TeamSlot::Empty,
        TeamSlot::Occupied(CharIndex(2)),
    ];
    team.leader_index = CharIndex(2);
    CharBag {
        teams: vec![team],
        chars: vec![
            ch("chr_a", false),
            ch("chr_b", true),
            ch("chr_c", false),
            ch("chr_d", true),
            ch("chr_e", false),
        ],
        meta: Meta { curr_team_index: 0 },
    }
}

#[test]
fn leader_moves_to_front_keeping_order() {
    let mut ids = vec![4, 5, 6, 7];
    move_leader_to_front(&mut ids, 6);
    assert_eq!(ids, vec![6, 4, 5, 7]);
    move_leader_to_front(&mut ids, 6);
    assert_eq!(ids, vec![6, 4, 5, 7]);
    move_leader_to_front(&mut ids, 9);
    assert_eq!(ids, vec![6, 4, 5, 7]);
    move_leader_to_front(&mut ids, 7);
    assert_eq!(ids, vec![7, 6, 4, 5]);
}

#[test]
fn char_lookup_by_template_and_index() {
    let mut b = bag();
    assert_eq!(b.char_index_by_id("chr_c"), Some(CharIndex(2)));
    assert_eq!(b.char_index_by_id("chr_z"), None);
    assert_eq!(b.get_char(CharIndex(4)).unwrap().template_id, "chr_e");
    assert!(b.get_char(CharIndex(5)).is_none());
    let idx = b.add_char(ch("chr_f", false));
    assert_eq!(idx, CharIndex(5));
    assert_eq!(idx.object_id(), 6);
    assert!(b.get_char_by_objid_mut(6).is_some());
    assert!(b.get_char_by_objid_mut(7).is_none());
}

#[test]
fn battle_info_is_recorded_for_known_chars() {
    let mut b = bag();
    b.update_battle_info(1, 42.5f64.to_bits(), 3.0f32.to_bits());
    assert_eq!(f64::from_bits(b.chars[0].hp_bits), 42.5);
    assert_eq!(f32::from_bits(b.chars[0].ultimate_sp_bits), 3.0);
    b.update_battle_info(99, 1.0f64.to_bits(), 1.0f32.to_bits());
    assert_eq!(b.chars.len(), 5);
}

#[test]
fn current_team_lists_leader_first() {
    let b = bag();
    assert_eq!(b.current_team_ids(), vec![3, 1, 2]);
}

#[test]
fn revive_brings_back_dead_team_members_only() {
    let mut b = bag();
    assert_eq!(b.revive_team_members(), vec![2]);
    assert!(!b.chars[1].is_dead);
    assert!(b.chars[3].is_dead);
    assert!(b.revive_team_members().is_empty());
}

#[test]
fn team_change_lists_leaving_entering_and_alive() {
    let b = bag();
    let change = team_view_change(&b, &[1, 2, 3], &[3, 4, 5, 1]);
    assert_eq!(change.leaving, Vec::<u64>::new());
    assert_eq!(change.entering, vec![5]);
    assert_eq!(change.alive, vec![3, 5, 1]);
    let change = team_view_change(&b, &[1, 5, 9], &[2, 3]);
    assert_eq!(change.leaving, vec![1, 5]);
    assert_eq!(change.entering, vec![3]);
    assert_eq!(change.alive, vec![3]);
}

#[test]
fn entity_manager_tracks_monsters() {
    let mut em = EntityManager::new();
    let id = em.next_monster_id();
    assert_eq!(id, 1000);
    assert_eq!(em.next_monster_id(), 1001);
    em.insert(SceneEntity { id, template_id: "eny_a".into(), kind: EntityKind::Enemy, pos_bits: (0, 0, 0) });
    em.insert(SceneEntity { id: 1, template_id: "chr_a".into(), kind: EntityKind::Character, pos_bits: (0, 0, 0) });
    assert_eq!(em.len(), 2);
    assert_eq!(em.monsters(), vec![1000]);
    assert_eq!(em.characters(), vec![1]);
    assert_eq!(em.ids_by_kind(EntityKind::Npc), Vec::<u64>::new());
    let mut ids = em.ids();
    ids.sort();
    assert_eq!(ids, vec![1, 1000]);
    assert_eq!(em.remove(1000).unwrap().template_id, "eny_a");
    assert!(em.remove(1000).is_none());
    assert!(!em.contains(1000));
    em.clear();
    assert!(em.is_empty());
    assert_eq!(em.next_monster_id(), 1000);
}

#[test]
fn scene_transition_resets_scene_state() {
    let mut sm = SceneManager::new();
    assert_eq!(sm.scene_name(), "map01_lv001");
    assert!(!sm.is_in_scene());
    let mut em = EntityManager::new();
    em.insert(SceneEntity { id: 5, template_id: "x".into(), kind: EntityKind::Enemy, pos_bits: (0, 0, 0) });
    sm.dead_entities.insert(77, 10);
    let (enter, leave) = sm.begin_scene_transition("map02", Some(12), &mut em);
    assert_eq!(enter.scene_name, "map02");
    assert_eq!(enter.scene_id, 12);
    assert_eq!(enter.role_id, 1);
    assert_eq!(leave.scene_name, "map01_lv001");
    assert_eq!(leave.scene_id, 0);
    assert!(em.is_empty());
    assert!(sm.dead_entities.is_empty());
    assert_eq!(sm.loading_state, SceneLoadingState::Loading);
    sm.finish_scene_load(None);
    assert!(sm.is_in_scene());
    assert_eq!(sm.scene_id, 0);
}

#[test]
fn dead_entities_respawn_after_cooldown() {
    let mut sm = SceneManager::new();
    sm.dead_entities.insert(1, 0);
    sm.dead_entities.insert(2, 50_000);
    sm.dead_entities.insert(3, 100_000);
    sm.prune_dead_entities(100_000);
    assert!(!sm.dead_entities.contains_key(&1));
    assert!(sm.dead_entities.contains_key(&2));
    assert!(sm.dead_entities.contains_key(&3));
    sm.prune_dead_entities(110_000);
    assert!(!sm.dead_entities.contains_key(&2));
    assert!(sm.dead_entities.contains_key(&3));
}

#[test]
fn default_team_takes_known_templates_in_order() {
    let chars = vec![
        ch("chr_0004_pelica", false),
        ch("chr_x", false),
        ch("chr_0003_endmin", false),
        ch("chr_0004_pelica", false),
    ];
    let b = CharBag::with_default_team(chars);
    assert_eq!(b.teams.len(), 1);
    assert_eq!(b.teams[0].name, "Team 1");
    assert_eq!(
        b.teams[0].char_team,
        [
            TeamSlot::Occupied(CharIndex(2)),
            TeamSlot::Occupied(CharIndex(3)),
            TeamSlot::Empty,
            TeamSlot::Empty
        ]
    );
    assert_eq!(b.teams[0].leader_index, CharIndex(2));
    assert_eq!(b.meta.curr_team_index, 0);
    let empty = CharBag::with_default_team(vec![ch("chr_x", false)]);
    assert_eq!(empty.teams[0].char_team, [TeamSlot::Empty; 4]);
    assert_eq!(empty.teams[0].leader_index, CharIndex(0));
}

#[test]
fn visibility_spawns_near_and_removes_far_enemies() {
    let mut sm = SceneManager::new();
    let mut em = EntityManager::new();
    em.insert(SceneEntity { id: 30, template_id: "eny_old".into(), kind: EntityKind::Enemy, pos_bits: (0, 0, 0) });
    em.insert(SceneEntity { id: 1, template_id: "chr".into(), kind: EntityKind::Character, pos_bits: (0, 0, 0) });
    sm.dead_entities.insert(20, 90_000);
    sm.dead_entities.insert(21, 0);
    let spawn = |id: u64| EnemySpawn { level_logic_id: id, template_id: format!("eny_{id}"), pos_bits: (1, 2, 3) };
    let near = vec![spawn(10), spawn(20), spawn(21), spawn(30), spawn(10)];
    let (entered, left) = sm.update_visible_entities_at(100_000, &near, &[30, 1, 99], &mut em);
    assert_eq!(entered, vec![10, 21]);
    assert_eq!(left, vec![30]);
    assert!(em.contains(10));
    assert!(em.contains(21));
    assert!(!em.contains(20));
    assert!(!em.contains(30));
    assert!(em.contains(1));
    assert_eq!(em.get(10).unwrap().pos_bits, (1, 2, 3));
    assert!(sm.dead_entities.contains_key(&20));
    assert!(!sm.dead_entities.contains_key(&21));
}

fn template(id: &str, bundles: Vec<Option<&str>>, stats: bool, best: Option<&str>, first: Option<&str>) -> CharTemplate {
    CharTemplate {
        template_id: id.to_string(),
        skill_bundles: bundles.into_iter().map(|b| b.map(|s| s.to_string())).collect(),
        level_one: if stats { Some(CharStats { level: 1, break_stage: 0, hp_bits: 500f64.to_bits() }) } else { None },
        weapon_type: 3,
        best_weapon: best.map(|s| s.to_string()),
        first_weapon_of_type: first.map(|s| s.to_string()),
    }
}

#[test]
fn new_bag_seeds_playable_templates_and_the_starting_team() {
    let templates = vec![
        template("chr_0004_pelica", vec![Some("sk_a"), None, Some("sk_b")], true, Some("wpn_best"), Some("wpn_first")),
        template("chr_placeholder", vec![], true, None, None),
        template("chr_nostats", vec![Some("sk_c")], false, None, None),
        template("chr_0003_endmin", vec![Some("sk_d"), Some("sk_d")], true, None, Some("wpn_first")),
        template("chr_x", vec![Some("sk_e")], true, None, None),
    ];
    let mut ids: StrMap<u32> = StrMap::new();
    ids.insert("wpn_best".to_string(), 101);
    ids.insert("wpn_0002".to_string(), 2);
    let b = CharBag::new(&templates, &ids, &Some("wpn_0002".to_string()), 1234);
    assert_eq!(b.chars.len(), 3);
    let names: Vec<&str> = b.chars.iter().map(|c| c.template_id.as_str()).collect();
    assert_eq!(names, vec!["chr_0004_pelica", "chr_0003_endmin", "chr_x"]);
    let p = &b.chars[0];
    assert_eq!(p.level, 1);
    assert_eq!(p.exp, 0);
    assert!(!p.is_dead);
    assert_eq!(p.hp_bits, 500f64.to_bits());
    assert_eq!(p.ultimate_sp_bits, 0f32.to_bits());
    assert_eq!(p.own_time, 1234);
    assert_eq!(p.weapon_id, WeaponIndex(101));
    assert_eq!(p.skill_levels.get("sk_a"), Some(&1));
    assert_eq!(p.skill_levels.get("sk_b"), Some(&1));
    assert_eq!(p.skill_levels.len(), 2);
    // not in the id table: the weapon type stands in
    assert_eq!(b.chars[1].weapon_id, WeaponIndex(3));
    assert_eq!(b.chars[1].skill_levels.len(), 1);
    // no weapon of its own: the fallback weapon
    assert_eq!(b.chars[2].weapon_id, WeaponIndex(2));
    assert_eq!(
        b.teams[0].char_team,
        [TeamSlot::Occupied(CharIndex(1)), TeamSlot::Occupied(CharIndex(0)), TeamSlot::Empty, TeamSlot::Empty]
    );
    assert_eq!(b.teams[0].leader_index, CharIndex(1));
    assert_eq!(b.teams[0].name, "Team 1");
}

#[test]
fn default_team_slot_and_team_are_empty() {
    assert_eq!(TeamSlot::default(), TeamSlot::Empty);
    assert_eq!(TeamSlot::default().char_index(), None);
    assert_eq!(TeamSlot::Occupied(CharIndex(3)).char_index(), Some(CharIndex(3)));
    let t = Team::default();
    assert_eq!(t.name, "");
    assert_eq!(t.char_team, [TeamSlot::Empty; 4]);
    assert_eq!(t.leader_index, CharIndex(0));
}
