use perlica_logic::char_sync::{get_normal_skill, SkillBundle};
use perlica_logic::character::{Char, CharBag, CharIndex, Meta, Team, TeamSlot, WeaponIndex};
use perlica_logic::error::LogicError;
use perlica_logic::strmap::StrMap;

fn bundle(entries: &[(&str, u32)]) -> SkillBundle {
    SkillBundle { entries: entries.iter().map(|(s, l)| (s.to_string(), *l)).collect() }
}

fn table() -> StrMap<Vec<SkillBundle>> {
    let mut t = StrMap::new();
    t.insert(
        "chr_a".to_string(),
        vec![
            bundle(&[("chr_a_combo_skill", 1), ("chr_a_combo_skill_2", 2)]),
            bundle(&[("chr_a_normal_skill_1", 1), ("chr_a_normal_skill_2", 2), ("chr_a_normal_skill_3", 3)]),
            bundle(&[]),
            bundle(&[("chr_a_ult", 1)]),
        ],
    );
    t.insert("chr_b".to_string(), vec![bundle(&[("chr_b_attack", 1)])]);
    t
}

fn ch(template: &str, levels: &[(&str, u32)]) -> Char {
    let mut skill_levels = StrMap::new();
    for (k, v) in levels {
        skill_levels.insert(k.to_string(), *v);
    }
    Char {
        template_id: template.to_string(),
        level: 20,
        exp: 5,
        break_stage: 1,
        is_dead: false,
        hp_bits: 500f64.to_bits(),
        ultimate_sp_bits: 0f32.to_bits(),
        weapon_id: WeaponIndex::from_raw(7),
        own_time: 99,
        skill_levels,
    }
}

#[test]
fn normal_skill_is_first_bundle_naming_it() {
    let t = table();
    assert_eq!(get_normal_skill("chr_a", &t), "chr_a_normal_skill_1");
    assert_eq!(get_normal_skill("chr_b", &t), "");
    assert_eq!(get_normal_skill("chr_unknown", &t), "");
}

#[test]
fn char_states_carry_skill_levels() {
    let bag = CharBag {
        teams: vec![],
        chars: vec![ch("chr_a", &[("chr_a_normal_skill_1", 2), ("chr_a_ult", 9)]), ch("chr_b", &[])],
        meta: Meta { curr_team_index: 0 },
    };
    let states = bag.char_sync_states(&table()).unwrap();
    assert_eq!(states.len(), 2);
    let a = &states[0];
    assert_eq!(a.objid, 1);
    assert_eq!(a.template_id, "chr_a");
    assert_eq!(a.weapon_id, 7);
    assert_eq!(a.normal_skill, "chr_a_normal_skill_1");
    let levels: Vec<(String, i32, i32)> = a
        .skill_levels
        .iter()
        .map(|s| (s.skill_id.clone(), s.skill_level, s.skill_max_level))
        .collect();
    assert_eq!(
        levels,
        vec![
            ("chr_a_combo_skill".to_string(), 1, 2),
            ("chr_a_normal_skill_2".to_string(), 2, 3),
        ]
    );
    assert_eq!(states[1].objid, 2);
    assert_eq!(states[1].skill_levels.len(), 1);
    assert_eq!(f64::from_bits(states[1].hp_bits), 500.0);
}

#[test]
fn unknown_template_is_refused_by_name() {
    let bag = CharBag {
        teams: vec![],
        chars: vec![ch("chr_b", &[]), ch("chr_zz", &[]), ch("chr_yy", &[])],
        meta: Meta { curr_team_index: 0 },
    };
    match bag.char_sync_states(&table()) {
        Err(LogicError::NotFound(m)) => assert_eq!(m, "Unknown character template: chr_zz"),
        other => panic!("expected NotFound, got {:?}", other.map(|v| v.len())),
    }
}

#[test]
fn team_states_list_members_and_their_normal_skills() {
    let mut team = Team::default();
    team.name = "Team 1".to_string();
    team.char_team = [
        TeamSlot::Occupied(CharIndex(1)),
        TeamSlot::Empty,
        TeamSlot::Occupied(CharIndex(0)),
        TeamSlot::Empty,
    ];
    team.leader_index = CharIndex(0);
    let bag = CharBag {
        teams: vec![team],
        chars: vec![ch("chr_a", &[]), ch("chr_b", &[])],
        meta: Meta { curr_team_index: 0 },
    };
    let states = bag.team_sync_states(&table());
    assert_eq!(states.len(), 1);
    assert_eq!(states[0].name, "Team 1");
    assert_eq!(states[0].char_ids, vec![2, 1]);
    assert_eq!(states[0].leader_id, 1);
    assert_eq!(states[0].member_skills.len(), 2);
    assert_eq!(states[0].member_skills[&1], "chr_a_normal_skill_1");
    assert_eq!(states[0].member_skills[&2], "");
}
