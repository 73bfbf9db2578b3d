use perlica_logic::item::WeaponDepot;

#[test]
fn weapon_lifecycle() {
    let mut d = WeaponDepot::new();
    let id = d.add_weapon("wpn_test".into(), 0);
    d.equip_weapon(id, 1001).unwrap();
    assert!(d.get(id).unwrap().is_equipped());
    d.unequip_weapon(id).unwrap();
    d.remove_weapon(id).unwrap();
    assert!(!d.contains(id));
}

use perlica_logic::error::LogicError;
use perlica_logic::item::WeaponInstId;

#[test]
fn refine_uses_up_same_template_material() {
    let mut d = WeaponDepot::new();
    let t = d.add_weapon("wpn_a".into(), 0);
    let f = d.add_weapon("wpn_a".into(), 0);
    let other = d.add_weapon("wpn_b".into(), 0);
    assert!(matches!(d.refine(t, other, Some(4)), Err(LogicError::InvalidOperation(_))));
    assert_eq!(d.refine(t, f, Some(4)).unwrap(), 1);
    assert!(!d.contains(f));
    assert_eq!(d.get(t).unwrap().refine_lv, 1);
    assert!(matches!(d.refine(t, f, Some(4)), Err(LogicError::NotFound(_))));
    let missing = WeaponInstId::new(999);
    assert!(matches!(d.refine(missing, other, None), Err(LogicError::NotFound(_))));
}

#[test]
fn refine_stops_at_rarity_cap() {
    let mut d = WeaponDepot::new();
    let t = d.add_weapon("wpn_a".into(), 0);
    for expected in 1..=2u64 {
        let f = d.add_weapon("wpn_a".into(), 0);
        assert_eq!(d.refine(t, f, Some(2)).unwrap(), expected);
    }
    let f = d.add_weapon("wpn_a".into(), 0);
    assert!(matches!(d.refine(t, f, Some(2)), Err(LogicError::InvalidOperation(_))));
    assert!(d.contains(f));
    assert_eq!(d.refine(t, f, None).unwrap(), 3);
}

#[test]
fn refine_refuses_worn_or_locked_material() {
    let mut d = WeaponDepot::new();
    let t = d.add_weapon("wpn_a".into(), 0);
    let f = d.add_weapon("wpn_a".into(), 0);
    d.equip_weapon(f, 5).unwrap();
    assert!(matches!(d.refine(t, f, Some(5)), Err(LogicError::InvalidOperation(_))));
    d.unequip_weapon(f).unwrap();
    d.set_lock(f, true).unwrap();
    assert!(matches!(d.refine(t, f, Some(5)), Err(LogicError::InvalidOperation(_))));
    d.set_lock(t, true).unwrap();
    assert!(matches!(d.refine(t, f, Some(5)), Err(LogicError::InvalidOperation(_))));
}

#[test]
fn breakthrough_needs_level_of_next_step() {
    let mut d = WeaponDepot::new();
    let w = d.add_weapon("wpn_a".into(), 0);
    let steps = [(1u64, 1u64), (2, 20), (3, 40)];
    assert!(matches!(d.breakthrough(w, 3, &steps), Err(LogicError::InvalidOperation(_))));
    d.get_mut(w).unwrap().weapon_lv = 20;
    assert_eq!(d.breakthrough(w, 3, &steps).unwrap(), 2);
    assert!(matches!(d.breakthrough(w, 3, &steps), Err(LogicError::InvalidOperation(_))));
    d.get_mut(w).unwrap().weapon_lv = 40;
    assert_eq!(d.breakthrough(w, 3, &steps).unwrap(), 3);
    assert!(matches!(d.breakthrough(w, 3, &steps), Err(LogicError::InvalidOperation(_))));
    assert_eq!(d.get(w).unwrap().breakthrough_lv, 3);
}

#[test]
fn breakthrough_without_steps_needs_level_one() {
    let mut d = WeaponDepot::new();
    let w = d.add_weapon("wpn_a".into(), 0);
    assert_eq!(d.breakthrough(w, 4, &[]).unwrap(), 2);
    assert!(matches!(d.breakthrough(WeaponInstId::new(77), 4, &[]), Err(LogicError::NotFound(_))));
}

#[test]
fn add_exp_consumes_fodder_and_relevels() {
    let mut d = WeaponDepot::new();
    let t = d.add_weapon("wpn_a".into(), 0);
    let f1 = d.add_weapon("wpn_b".into(), 0);
    let f2 = d.add_weapon("wpn_c".into(), 0);
    let (exp, lv) = d.add_exp(t, &[f1, f2], &[400, 1500], |e| e / 100 + 1).unwrap();
    assert_eq!(exp, 1900);
    assert_eq!(lv, 20);
    assert!(!d.contains(f1));
    assert!(!d.contains(f2));
    assert_eq!(d.get(t).unwrap().exp, 1900);
    assert_eq!(d.get(t).unwrap().weapon_lv, 20);
}

#[test]
fn add_exp_refuses_bad_fodder_without_change() {
    let mut d = WeaponDepot::new();
    let t = d.add_weapon("wpn_a".into(), 0);
    let f1 = d.add_weapon("wpn_b".into(), 0);
    let f2 = d.add_weapon("wpn_c".into(), 0);
    d.equip_weapon(f2, 9).unwrap();
    assert!(matches!(
        d.add_exp(t, &[f1, f2], &[10, 10], |e| e),
        Err(LogicError::InvalidOperation(_))
    ));
    assert!(d.contains(f1));
    assert_eq!(d.get(t).unwrap().exp, 0);
    assert!(matches!(
        d.add_exp(t, &[f1, WeaponInstId::new(50)], &[10, 10], |e| e),
        Err(LogicError::NotFound(_))
    ));
    assert!(matches!(d.add_exp(t, &[t], &[10], |e| e), Err(LogicError::InvalidOperation(_))));
    d.set_lock(t, true).unwrap();
    assert!(matches!(d.add_exp(t, &[f1], &[10], |e| e), Err(LogicError::InvalidOperation(_))));
}

#[test]
fn default_weapons_go_to_unarmed_characters() {
    let mut d = WeaponDepot::new();
    let own = d.add_weapon("wpn_own".into(), 0);
    d.equip_weapon(own, 2).unwrap();
    let chars = vec![
        (1u64, Some("wpn_0002".to_string())),
        (2u64, Some("wpn_0003".to_string())),
        (3u64, None),
        (4u64, Some("wpn_0004".to_string())),
    ];
    let given = d.init_default_weapons_for_chars_at(&chars, 123);
    assert_eq!(given.len(), 2);
    assert_eq!(given[0].0, 1);
    assert_eq!(given[1].0, 4);
    assert_eq!(d.get(given[0].1).unwrap().template_id, "wpn_0002");
    assert_eq!(d.get(given[1].1).unwrap().own_time, 123);
    assert_eq!(d.get_equipped_weapon_id(2), Some(own));
    assert!(!d.has_equipped_weapon(3));
    assert_eq!(d.get_equipped_weapon(4).unwrap().template_id, "wpn_0004");
    assert_eq!(d.len(), 3);
}

#[test]
fn breakthrough_below_level_names_both_levels() {
    let mut d = WeaponDepot::new();
    let w = d.add_weapon("wpn_a".into(), 0);
    let steps = [(1u64, 1u64), (2, 120), (3, 400)];
    d.get_mut(w).unwrap().weapon_lv = 7;
    match d.breakthrough(w, 3, &steps) {
        Err(LogicError::InvalidOperation(msg)) => assert_eq!(msg, "Level 7 below required 120"),
        other => panic!("unexpected {:?}", other),
    }
    d.get_mut(w).unwrap().weapon_lv = 0;
    match d.breakthrough(w, 3, &steps) {
        Err(LogicError::InvalidOperation(msg)) => assert_eq!(msg, "Level 0 below required 120"),
        other => panic!("unexpected {:?}", other),
    }
}
