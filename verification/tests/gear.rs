use perlica_logic::error::LogicError;
use perlica_logic::gear::{EquipDepot, GemDepot, ItemConfig, ItemDepotType, ItemManager};

/// Slot code used for gems in these tests.
const GEM_SLOT: i32 = 1;
/// Slot code used for body armour in these tests.
const BODY_SLOT: i32 = 2;
/// Slot code used for helmets in these tests.
const HEAD_SLOT: i32 = 3;

#[test]
fn gem_inst_impl_populated() {
    let mut d = GemDepot::new();
    let id = d.add_gem("item_gem_0007_rarity4".into(), GEM_SLOT, 0);
    let g = d.get(id).unwrap();
    assert_eq!(g.inst_id.as_u64(), id.as_u64());
    assert_eq!(g.template_id, "item_gem_0007_rarity4");
    assert_eq!(g.attach_weapon_id, 0);
}

#[test]
fn gem_weapon_id_reflects_socket() {
    let mut d = GemDepot::new();
    let id = d.add_gem("item_gem_0007_rarity4".into(), GEM_SLOT, 0);
    d.set_socket(id, 42).unwrap();
    assert_eq!(d.get(id).unwrap().attach_weapon_id, 42);
}

#[test]
fn equip_inst_impl_populated() {
    let mut d = EquipDepot::new();
    let id = d.add_equip("item_unit_t1_parts_body_01".into(), BODY_SLOT, 0);
    let p = d.get(id).unwrap();
    assert_eq!(p.inst_id.as_u64(), id.as_u64());
    assert_eq!(p.template_id, "item_unit_t1_parts_body_01");
    assert_eq!(p.equip_char_id, 0);
}

#[test]
fn equip_char_id_reflects_equipped_state() {
    let mut d = EquipDepot::new();
    let id = d.add_equip("item_body".into(), BODY_SLOT, 0);
    d.equip(id, 1001).unwrap();
    assert_eq!(d.get(id).unwrap().equip_char_id, 1001);
}

#[test]
fn equip_slot_displacement() {
    let mut d = EquipDepot::new();
    let a = d.add_equip("body_a".into(), BODY_SLOT, 0);
    let b = d.add_equip("body_b".into(), BODY_SLOT, 0);
    d.equip(a, 1001).unwrap();
    let displaced = d.equip(b, 1001).unwrap();
    assert_eq!(displaced, Some(a));
    assert_eq!(d.get_in_slot(1001, BODY_SLOT).unwrap().inst_id, b);
}

#[test]
fn item_manager_socket_roundtrip() {
    let mut mgr = ItemManager::new();
    let wpn = mgr.weapons.add_weapon("wpn_0002".into(), 0);
    let gem = mgr.gems.add_gem("item_gem_0007_rarity4".into(), GEM_SLOT, 0);
    assert_eq!(mgr.socket_gem(wpn, gem).unwrap(), None);
    let gem2 = mgr.gems.add_gem("item_gem_0015_rarity4".into(), GEM_SLOT, 0);
    assert_eq!(mgr.socket_gem(wpn, gem2).unwrap(), Some(gem));
    assert!(!mgr.gems.get(gem).unwrap().is_socketed());
    assert_eq!(mgr.unsocket_gem(wpn).unwrap(), gem2);
}

#[test]
fn equip_moves_piece_between_characters() {
    let mut d = EquipDepot::new();
    let a = d.add_equip("body_a".into(), BODY_SLOT, 0);
    d.equip(a, 1001).unwrap();
    assert_eq!(d.equip(a, 2002).unwrap(), None);
    assert!(d.get_in_slot(1001, BODY_SLOT).is_none());
    assert_eq!(d.get_in_slot(2002, BODY_SLOT).unwrap().inst_id, a);
    assert!(matches!(d.equip(a, 2002), Err(LogicError::InvalidOperation(_))));
}

#[test]
fn equipped_slots_lists_each_worn_piece() {
    let mut d = EquipDepot::new();
    let body = d.add_equip("body_a".into(), BODY_SLOT, 0);
    let head = d.add_equip("head_a".into(), HEAD_SLOT, 0);
    d.add_equip("spare".into(), HEAD_SLOT, 0);
    d.equip(body, 7).unwrap();
    d.equip(head, 7).unwrap();
    let mut slots: Vec<(i32, u64)> = d
        .equipped_slots(7)
        .into_iter()
        .map(|(s, p)| (s, p.inst_id.as_u64()))
        .collect();
    slots.sort();
    assert_eq!(slots, vec![(BODY_SLOT, body.as_u64()), (HEAD_SLOT, head.as_u64())]);
    assert!(d.equipped_slots(8).is_empty());
}

#[test]
fn unequip_and_remove_rules() {
    let mut d = EquipDepot::new();
    let a = d.add_equip("body_a".into(), BODY_SLOT, 0);
    assert_eq!(d.unequip(a).unwrap(), false);
    d.equip(a, 5).unwrap();
    assert!(matches!(d.remove(a), Err(LogicError::InvalidOperation(_))));
    assert_eq!(d.unequip(a).unwrap(), true);
    assert!(d.get_in_slot(5, BODY_SLOT).is_none());
    d.set_lock(a, true).unwrap();
    assert!(matches!(d.remove(a), Err(LogicError::InvalidOperation(_))));
    d.set_lock(a, false).unwrap();
    assert_eq!(d.remove(a).unwrap().template_id, "body_a");
    assert!(matches!(d.remove(a), Err(LogicError::NotFound(_))));
}

#[test]
fn socketed_gem_cannot_be_removed_or_socketed_twice() {
    let mut mgr = ItemManager::new();
    let w1 = mgr.weapons.add_weapon("wpn_a".into(), 0);
    let w2 = mgr.weapons.add_weapon("wpn_b".into(), 0);
    let gem = mgr.gems.add_gem("gem".into(), GEM_SLOT, 0);
    mgr.socket_gem(w1, gem).unwrap();
    assert_eq!(mgr.gems.get(gem).unwrap().attach_weapon_id, w1.as_u64());
    assert!(matches!(mgr.socket_gem(w2, gem), Err(LogicError::InvalidOperation(_))));
    assert!(matches!(mgr.gems.remove(gem), Err(LogicError::InvalidOperation(_))));
    assert!(matches!(mgr.unsocket_gem(w2), Err(LogicError::InvalidOperation(_))));
    assert_eq!(mgr.unsocket_gem(w1).unwrap(), gem);
    assert!(mgr.gems.remove(gem).is_ok());
}

#[test]
fn socket_into_locked_weapon_is_refused() {
    let mut mgr = ItemManager::new();
    let w = mgr.weapons.add_weapon("wpn_a".into(), 0);
    let gem = mgr.gems.add_gem("gem".into(), GEM_SLOT, 0);
    mgr.weapons.set_lock(w, true).unwrap();
    assert!(matches!(mgr.socket_gem(w, gem), Err(LogicError::InvalidOperation(_))));
    assert!(!mgr.gems.get(gem).unwrap().is_socketed());
    let missing = perlica_logic::gear::GemInstId::new(99);
    assert!(matches!(mgr.socket_gem(w, missing), Err(LogicError::NotFound(_))));
}

#[test]
fn stackable_tabs_only() {
    let mut mgr = ItemManager::new();
    assert_eq!(mgr.add_stackable(ItemDepotType::Factory, "item_iron_cmpt", 10).unwrap(), 10);
    assert_eq!(mgr.add_stackable(ItemDepotType::Factory, "item_iron_cmpt", 5).unwrap(), 15);
    assert!(matches!(
        mgr.add_stackable(ItemDepotType::Weapon, "item_iron_cmpt", 5),
        Err(LogicError::InvalidOperation(_))
    ));
    assert_eq!(mgr.count_of(ItemDepotType::Factory, "item_iron_cmpt"), 15);
    assert_eq!(mgr.count_of(ItemDepotType::SpecialItem, "item_iron_cmpt"), 0);
    assert_eq!(mgr.count_of(ItemDepotType::Equip, "item_iron_cmpt"), 0);
    assert!(mgr.has_stackable(ItemDepotType::Factory, "item_iron_cmpt", 15));
    assert!(!mgr.has_stackable(ItemDepotType::Factory, "item_iron_cmpt", 16));
    assert!(!mgr.has_stackable(ItemDepotType::WeaponGem, "item_iron_cmpt", 0));
    assert_eq!(mgr.consume_stackable(ItemDepotType::Factory, "item_iron_cmpt", 15).unwrap(), 0);
    assert_eq!(mgr.count_of(ItemDepotType::Factory, "item_iron_cmpt"), 0);
    match mgr.consume_stackable(ItemDepotType::MissionItem, "key", 1) {
        Err(LogicError::Insufficient { item_id, have, need }) => {
            assert_eq!(item_id, "key");
            assert_eq!(have, 0);
            assert_eq!(need, 1);
        }
        other => panic!("expected Insufficient, got {:?}", other),
    }
    assert!(matches!(
        mgr.consume_stackable(ItemDepotType::Invalid, "key", 1),
        Err(LogicError::InvalidOperation(_))
    ));
}

#[test]
fn add_stackable_saturates() {
    let mut mgr = ItemManager::new();
    mgr.add_stackable(ItemDepotType::SpecialItem, "x", u32::MAX - 1).unwrap();
    assert_eq!(mgr.add_stackable(ItemDepotType::SpecialItem, "x", 10).unwrap(), u32::MAX);
}

fn cfg(id: &str, depot: ItemDepotType, craft_slot: i32) -> ItemConfig {
    ItemConfig { id: id.to_string(), depot, craft_slot }
}

#[test]
fn new_player_bag_holds_starter_items() {
    let cfgs = vec![
        cfg("gem_a", ItemDepotType::WeaponGem, GEM_SLOT),
        cfg("body_a", ItemDepotType::Equip, BODY_SLOT),
        cfg("special_a", ItemDepotType::SpecialItem, 0),
        cfg("gem_b", ItemDepotType::WeaponGem, GEM_SLOT),
        cfg("mission_a", ItemDepotType::MissionItem, 0),
        cfg("iron", ItemDepotType::Factory, 0),
        cfg("wpn", ItemDepotType::Weapon, 0),
    ];
    let mgr = ItemManager::init_for_new_player(&cfgs, 77);
    assert_eq!(mgr.gems.len(), 2);
    let g1 = mgr.gems.get(perlica_logic::gear::GemInstId::new(1)).unwrap();
    assert_eq!(g1.template_id, "gem_a");
    assert_eq!(g1.own_time, 77);
    assert!(g1.is_new);
    assert_eq!(mgr.gems.get(perlica_logic::gear::GemInstId::new(2)).unwrap().template_id, "gem_b");
    assert_eq!(mgr.equips.len(), 1);
    let e1 = mgr.equips.get(perlica_logic::gear::EquipInstId::new(1)).unwrap();
    assert_eq!(e1.template_id, "body_a");
    assert_eq!(e1.slot, BODY_SLOT);
    assert_eq!(mgr.count_of(ItemDepotType::SpecialItem, "special_a"), 999);
    assert_eq!(mgr.count_of(ItemDepotType::MissionItem, "mission_a"), 999);
    assert_eq!(mgr.count_of(ItemDepotType::Factory, "iron"), 9_999);
    assert!(mgr.weapons.is_empty());
}

#[test]
fn instanced_tab_error_names_the_tab() {
    let mut mgr = ItemManager::new();
    match mgr.add_stackable(ItemDepotType::Equip, "x", 1) {
        Err(LogicError::InvalidOperation(m)) => assert_eq!(m, "Depot Equip is instanced"),
        other => panic!("expected InvalidOperation, got {:?}", other),
    }
}
