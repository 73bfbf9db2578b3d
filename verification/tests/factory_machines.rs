use perlica_logic::enums::{FCDirection, FCNodeType};
use perlica_logic::factory::character_work::{parse_char_id, SkillEffect};
use perlica_logic::factory::component::{CacheState, FactoryComponent, ItemSlot, ProducerState};
use perlica_logic::factory::machine::tick_region;
use perlica_logic::factory::manager::FactoryManager;
use perlica_logic::factory::manufacture::ManufactureError;
use perlica_logic::factory::node::{FactoryNode, NodeTransform};
use perlica_logic::factory::observer::ObserverResult;
use perlica_logic::factory::ops::DismantleError;
use perlica_logic::factory::processor::{make_item, recover_refine_points};
use perlica_logic::factory::recycler::CommitMaterial;
use perlica_logic::factory::region::FactoryRegion;
use perlica_logic::factory::stt::{evaluate_condition, execute_action};
use perlica_logic::factory::table::{
    BuildingEntry, Contract, FactoryTable, ItemCount, MachineCraft, ManualCraft, ManufactConst, ManufactCraft, ProcessorCraft,
    RecyclerConst, RepairEntry, SttAction, SttCondition, SttNode, SttParam, SttReward, WorkshopCraft,
};
use perlica_logic::factory::trade::weighted_random_at;
use perlica_logic::factory::workshop::WorkshopError;
use perlica_logic::factory::{CharacterWorker, GridPos, GridRange, ProcessorMachine};
use perlica_logic::strmap::StrMap;

fn table() -> FactoryTable {
    FactoryTable {
        buildings: StrMap::new(),
        hubs: StrMap::new(),
        power_stations: StrMap::new(),
        building_items: StrMap::new(),
        machine_crafter_speeds: StrMap::new(),
        machine_crafts: StrMap::new(),
        manufact_crafts: StrMap::new(),
        processor_crafts: StrMap::new(),
        workshop_crafts: StrMap::new(),
        manual_crafts: StrMap::new(),
        seed_items: StrMap::new(),
        recycler_materials: StrMap::new(),
        recycler_product_ids: Vec::new(),
        orders: StrMap::new(),
    }
}

fn ic(id: &str, count: u32) -> ItemCount {
    ItemCount { id: id.to_string(), count }
}

fn region() -> FactoryRegion {
    FactoryManager::bootstrap_region(
        "test01",
        "region_102",
        "map01_lv001",
        "sp_hub_1",
        GridPos { x: 31, y: -22 },
        GridRange { x: 31, y: -22, w: 9, h: 9 },
        100,
        100_000,
    )
}

/// A manager whose region "test01" holds `items` in its bag.
fn manager_with_bag(items: &[(&str, u32)]) -> FactoryManager {
    let mut m = FactoryManager::new();
    let mut r = region();
    if let Some(node) = r.node_mut(1) {
        if let Some(FactoryComponent::Inventory(inv)) = node.component_mut(1) {
            for (i, (id, count)) in items.iter().enumerate() {
                let key = (i as u32) + 10;
                inv.items.insert(key, ItemSlot { item_id: id.to_string(), count: *count, inst_id: key });
            }
        }
    }
    m.regions.insert("test01".to_string(), r);
    m
}

fn bag_total(m: &FactoryManager, id: &str) -> u32 {
    let r = m.regions.get("test01").unwrap();
    match r.node(1).unwrap().component(1) {
        Some(FactoryComponent::Inventory(inv)) => inv.items.values().filter(|s| s.item_id == id).map(|s| s.count).sum(),
        _ => panic!("bag missing"),
    }
}

#[test]
fn manual_work_append_tick_and_cancel() {
    let mut t = table();
    t.manual_crafts.insert(
        "mc_plate".to_string(),
        ManualCraft { total_progress: 10, ingredients: vec![ic("iron", 2)], outcomes: vec![ic("plate", 1)] },
    );
    let mut m = manager_with_bag(&[("iron", 10)]);
    assert!(m.manual_work_append(&t, "test01", "mc_plate", 2));
    assert_eq!(bag_total(&m, "iron"), 6);
    assert_eq!(m.manual_work_state.queue.len(), 2);
    assert!(!m.manual_work_append(&t, "test01", "unknown", 1));

    let start = m.manual_work_state.queue[0].start_tick;
    assert_eq!(m.tick_manual_work_at(&t, "test01", start + 9), 0);
    assert_eq!(m.tick_manual_work_at(&t, "test01", start + 10), 1);
    assert_eq!(bag_total(&m, "plate"), 1);
    assert_eq!(m.manual_work_state.queue.len(), 1);
    assert_eq!(m.manual_work_state.queue[0].start_tick, start + 10);

    m.manual_work_pause();
    assert_eq!(m.tick_manual_work_at(&t, "test01", start + 100), 0);
    let (back, lost) = m.manual_work_cancel(&t, "test01");
    assert_eq!(back.get("iron"), Some(&2));
    assert!(lost.is_empty());
    assert_eq!(bag_total(&m, "iron"), 8);
    assert!(m.manual_work_state.queue.is_empty());
    assert!(!m.manual_work_state.is_paused);
}

#[test]
fn manual_work_append_refuses_full_queue() {
    let mut t = table();
    t.manual_crafts.insert(
        "mc_plate".to_string(),
        ManualCraft { total_progress: 10, ingredients: vec![ic("iron", 1)], outcomes: vec![ic("plate", 1)] },
    );
    let mut m = manager_with_bag(&[("iron", 100)]);
    assert!(m.manual_work_append(&t, "test01", "mc_plate", 5));
    assert!(!m.manual_work_append(&t, "test01", "mc_plate", 1));
    assert_eq!(bag_total(&m, "iron"), 95);
}

#[test]
fn manual_work_append_never_overfills_queue() {
    let mut t = table();
    t.manual_crafts.insert(
        "mc_plate".to_string(),
        ManualCraft { total_progress: 10, ingredients: vec![ic("iron", 1)], outcomes: vec![ic("plate", 1)] },
    );
    let mut m = manager_with_bag(&[("iron", 100)]);
    assert!(m.manual_work_append(&t, "test01", "mc_plate", 4));
    assert!(!m.manual_work_append(&t, "test01", "mc_plate", 3));
    assert_eq!(m.manual_work_state.queue.len(), 4);
    assert_eq!(bag_total(&m, "iron"), 96);
    assert!(m.manual_work_append(&t, "test01", "mc_plate", 1));
    assert_eq!(m.manual_work_state.queue.len(), 5);
}

#[test]
fn weighted_random_picks_by_running_weight() {
    let ids = vec!["a".to_string(), "b".to_string(), "c".to_string()];
    let w = vec![1u32, 2, 3];
    assert_eq!(weighted_random_at(&ids, &w, 0), "a");
    assert_eq!(weighted_random_at(&ids, &w, 1), "b");
    assert_eq!(weighted_random_at(&ids, &w, 2), "b");
    assert_eq!(weighted_random_at(&ids, &w, 3), "c");
    assert_eq!(weighted_random_at(&ids, &w, 6), "a");
    // every weight zero: nothing is picked
    assert_eq!(weighted_random_at(&ids, &vec![0, 0, 0], 5), "");
    assert_eq!(weighted_random_at(&Vec::new(), &w, 5), "");
    assert_eq!(weighted_random_at(&ids[..1].to_vec(), &w, 4), "");
}

#[test]
fn trade_generate_cash_and_delete() {
    let mut t = table();
    t.orders.insert("ord_1".to_string(), ());
    let mut contracts: StrMap<Contract> = StrMap::new();
    contracts.insert(
        "ct_1".to_string(),
        Contract {
            min_value: 10,
            item_value_group: vec![("iron".to_string(), 3)],
            reward_items: vec!["gold".to_string()],
            order_id_group: vec!["ord_1".to_string()],
            order_weight: vec![1],
        },
    );
    let mut m = manager_with_bag(&[("iron", 10)]);
    assert!(!m.trade_set_contract_at(&contracts, "test01", 7, "ct_missing", 1_000));
    assert!(m.trade_set_contract_at(&contracts, "test01", 7, "ct_1", 1_000));
    m.trade_generate_orders_at(&t, &contracts, "test01", 1_000 + 360 * 2);
    {
        let tr = m.trade_state.get("test01").unwrap();
        assert_eq!(tr.orders.len(), 2);
        assert_eq!(tr.orders[0].inst_id, 1);
        assert_eq!(tr.orders[1].inst_id, 2);
        assert_eq!(tr.orders[0].order_id, "ord_1");
        assert_eq!(tr.last_gen_tick, 1_720);
    }
    let mut items: StrMap<i64> = StrMap::new();
    items.insert("iron".to_string(), 2);
    items.insert("wood".to_string(), 5);
    assert!(m.trade_cash_order_at(&t, &contracts, "test01", 7, 1, &items, 1_720));
    assert_eq!(bag_total(&m, "iron"), 8);
    assert_eq!(m.trade_state.get("test01").unwrap().orders[0].accumulated_value, 6);
    assert_eq!(bag_total(&m, "gold"), 0);
    assert!(m.trade_cash_order_at(&t, &contracts, "test01", 7, 1, &items, 1_720));
    assert_eq!(bag_total(&m, "gold"), 1);
    assert_eq!(m.trade_state.get("test01").unwrap().orders.len(), 1);
    assert!(!m.trade_cash_order_at(&t, &contracts, "test01", 7, 99, &items, 1_720));
    assert!(m.trade_delete_order("test01", 7, 2));
    assert!(!m.trade_delete_order("test01", 7, 2));
    assert!(m.trade_state.get("test01").unwrap().orders.is_empty());
}

fn machine_node(cache_items: Vec<ItemSlot>, start: Option<u64>) -> FactoryNode {
    FactoryNode {
        node_id: 7,
        node_type: FCNodeType::Producer,
        template_id: "machine_1".to_string(),
        transform: NodeTransform {
            position: None,
            direction: FCDirection::Up,
            mesh: None,
            scene_name: "map01_lv001".to_string(),
            world_position: None,
            world_rotation: None,
            bc_port_in: None,
            bc_port_out: None,
        },
        is_deactive: false,
        interactive_object: None,
        dynamic_property: Vec::new(),
        component_pos: Vec::new(),
        components: vec![
            (
                1,
                FactoryComponent::Producer(ProducerState {
                    formula_id: "mf_plate".to_string(),
                    start_tick: start,
                    current_progress: 0,
                    in_power: true,
                    in_block: false,
                    power_cost: 0,
                    last_formula_id: String::new(),
                }),
            ),
            (2, FactoryComponent::Cache(CacheState { items: cache_items, ports: Vec::new() })),
        ],
    }
}

#[test]
fn machine_completes_consumes_and_restarts() {
    let mut t = table();
    t.machine_crafts.insert(
        "mf_plate".to_string(),
        MachineCraft { total_progress: 100, ingredients: vec![vec![ic("iron", 2)]], outcomes: vec![vec![ic("plate", 1)]] },
    );
    let mut r = region();
    r.nodes.insert(7, machine_node(vec![ItemSlot { item_id: "iron".to_string(), count: 5, inst_id: 0 }], Some(1_000)));
    assert_eq!(tick_region(&mut r, &t, 1_000), 0);
    assert_eq!(tick_region(&mut r, &t, 1_001), 1);
    let node = r.node(7).unwrap();
    match &node.components[1].1 {
        FactoryComponent::Cache(c) => {
            assert_eq!(c.items.len(), 2);
            assert_eq!(c.items[0].count, 3);
            assert_eq!(c.items[1].item_id, "plate");
            assert_eq!(c.items[1].count, 1);
        },
        _ => panic!("cache expected"),
    }
    match &node.components[0].1 {
        FactoryComponent::Producer(p) => {
            assert_eq!(p.start_tick, Some(1_001));
            assert_eq!(p.last_formula_id, "mf_plate");
        },
        _ => panic!("producer expected"),
    }
    assert_eq!(r.production_totals, vec![("plate".to_string(), 1)]);
}

#[test]
fn machine_pauses_without_ingredients() {
    let mut t = table();
    t.machine_crafts.insert(
        "mf_plate".to_string(),
        MachineCraft { total_progress: 100, ingredients: vec![vec![ic("iron", 2)]], outcomes: vec![vec![ic("plate", 1)]] },
    );
    let mut r = region();
    r.nodes.insert(7, machine_node(vec![ItemSlot { item_id: "iron".to_string(), count: 1, inst_id: 0 }], Some(1_000)));
    assert_eq!(tick_region(&mut r, &t, 2_000), 0);
    match &r.node(7).unwrap().components[0].1 {
        FactoryComponent::Producer(p) => assert_eq!(p.start_tick, None),
        _ => panic!("producer expected"),
    }
    assert!(r.production_totals.is_empty());
}

#[test]
fn recycler_commit_and_fetch() {
    let mut t = table();
    t.recycler_materials.insert("scrap".to_string(), 5);
    t.recycler_product_ids.push("prod".to_string());
    let rc = RecyclerConst { rec_round_need_value: 10, rec_basic_generate_time: 0, rec_temp_storage_length: 3 };
    let mut m = manager_with_bag(&[("scrap", 4)]);
    let mats = vec![CommitMaterial { item_id: "scrap".to_string(), count: 4 }];
    assert!(m.recycler_commit_material_at(&t, &rc, "test01", 3, &mats, 500));
    assert_eq!(bag_total(&m, "scrap"), 0);
    {
        let rec = m.recycler_state.get("test01").unwrap();
        assert_eq!(rec.accumulated_value, 0);
        assert_eq!(rec.temp_storage.len(), 2);
    }
    assert!(!m.recycler_commit_material_at(&t, &rc, "test01", 3, &mats, 500));
    let got = m.recycler_fetch_product_at(&rc, "test01", 3, 500);
    assert_eq!(got.len(), 2);
    assert_eq!(bag_total(&m, "prod"), 2);
    assert!(m.recycler_state.get("test01").unwrap().temp_storage.is_empty());
}

fn param_str(s: &str) -> SttParam {
    SttParam { value_string_list: Some(vec![s.to_string()]), value_int_list: None }
}

fn param_int(v: i64) -> SttParam {
    SttParam { value_string_list: None, value_int_list: Some(vec![v]) }
}

#[test]
fn stt_unlock_pays_grants_and_records_once() {
    let t = table();
    let mut tree: StrMap<SttNode> = StrMap::new();
    tree.insert(
        "n1".to_string(),
        SttNode {
            conditions: vec![SttCondition { condition_type: 504, parameters: vec![param_str("sp_hub_1"), param_int(1)] }],
            pre_node: vec![String::new()],
            cost_items: vec![ic("iron", 1)],
            unlock_reward: vec![SttReward { item_id: "gold".to_string(), count: 2 }],
            action: Some(SttAction { action_type: 501, parameters: vec![param_str("gem"), param_int(3)] }),
        },
    );
    tree.insert(
        "n2".to_string(),
        SttNode {
            conditions: Vec::new(),
            pre_node: vec!["n3".to_string()],
            cost_items: Vec::new(),
            unlock_reward: Vec::new(),
            action: None,
        },
    );
    let mut m = manager_with_bag(&[("iron", 2), ("gold", 1)]);
    assert!(m.stt_unlock_node(&tree, &t, "test01", "n1"));
    assert_eq!(bag_total(&m, "iron"), 1);
    assert_eq!(bag_total(&m, "gold"), 3);
    assert_eq!(bag_total(&m, "gem"), 3);
    assert_eq!(m.stt_state.unlocked_nodes, vec!["n1".to_string()]);
    assert!(!m.stt_unlock_node(&tree, &t, "test01", "n1"));
    assert!(!m.stt_unlock_node(&tree, &t, "test01", "n2"));
    assert!(!m.stt_unlock_node(&tree, &t, "test01", "n9"));
}

#[test]
fn stt_conditions_and_actions() {
    let mut r = region();
    assert!(evaluate_condition(&SttCondition { condition_type: 504, parameters: vec![param_str("sp_hub_1"), param_int(1)] }, &r));
    assert!(!evaluate_condition(&SttCondition { condition_type: 504, parameters: vec![param_str("sp_hub_1"), param_int(2)] }, &r));
    assert!(!evaluate_condition(&SttCondition { condition_type: 504, parameters: vec![] }, &r));
    r.production_totals.push(("plate".to_string(), 7));
    assert!(evaluate_condition(&SttCondition { condition_type: 511, parameters: vec![param_int(7)] }, &r));
    assert!(!evaluate_condition(&SttCondition { condition_type: 511, parameters: vec![param_int(8)] }, &r));
    assert!(!evaluate_condition(&SttCondition { condition_type: 999, parameters: vec![] }, &r));

    let mut inv = perlica_logic::factory::component::InventoryState::new();
    execute_action(&SttAction { action_type: 501, parameters: vec![param_str("gem")] }, &mut inv);
    assert_eq!(inv.items.get(&0).map(|s| s.count), Some(1));
    execute_action(&SttAction { action_type: 502, parameters: vec![param_str("gem")] }, &mut inv);
    assert_eq!(inv.items.len(), 1);
}

#[test]
fn processor_make_item_and_refine_points() {
    let mut t = table();
    t.processor_crafts.insert("pc_plate".to_string(), ProcessorCraft { ingredients: vec![ic("iron", 1)], outcome: ic("plate", 2) });
    let mut m = manager_with_bag(&[("iron", 4)]);
    let r = make_item(&mut m, &t, "test01", "pc_plate", 3);
    assert_eq!(r.new_items.len(), 1);
    assert_eq!(r.new_items[0].item_id, "plate");
    assert_eq!(r.new_items[0].count, 6);
    assert_eq!(bag_total(&m, "iron"), 1);
    assert!(make_item(&mut m, &t, "test01", "pc_plate", 3).new_items.is_empty());
    assert_eq!(bag_total(&m, "iron"), 0);
    assert!(make_item(&mut m, &t, "test01", "pc_missing", 1).new_items.is_empty());

    let mut p = ProcessorMachine {
        region_name: "test01".to_string(),
        building_level: 1,
        refine_points: 1,
        last_recovery_tick: 0,
        unlocked_formulas: Vec::new(),
        unread_formulas: Vec::new(),
    };
    recover_refine_points(&mut p, 10, 5, 35);
    assert_eq!(p.refine_points, 4);
    assert_eq!(p.last_recovery_tick, 35);
    recover_refine_points(&mut p, 10, 5, 100);
    assert_eq!(p.refine_points, 5);
    recover_refine_points(&mut p, 0, 5, 1_000);
    assert_eq!(p.last_recovery_tick, 100);
}

#[test]
fn character_ids_parse_like_u32() {
    assert_eq!(parse_char_id("42"), 42);
    assert_eq!(parse_char_id("+7"), 7);
    assert_eq!(parse_char_id("abc"), 0);
    assert_eq!(parse_char_id(""), 0);
    assert_eq!(parse_char_id("+"), 0);
    assert_eq!(parse_char_id("4294967295"), 4_294_967_295);
    assert_eq!(parse_char_id("4294967296"), 0);
    assert_eq!(parse_char_id("12x"), 0);
}

#[test]
fn character_work_punch_in_and_out() {
    let t = table();
    let mut m = FactoryManager::new();
    assert!(m.character_work_punch_in(&t, "test01", 1, &vec!["5".to_string(), "6".to_string()]));
    assert_eq!(m.character_work_state.workers.len(), 2);
    assert_eq!(m.character_work_state.workers[1].work_slot, 1);
    assert!(m.character_work_punch_in(&t, "test01", 1, &vec!["6".to_string()]));
    assert_eq!(m.character_work_state.workers.len(), 2);
    assert_eq!(m.character_work_state.workers[1].char_inst_id, 6);
    assert_eq!(m.character_work_state.workers[1].work_slot, 0);
    let out = m.character_work_punch_out(&vec!["5".to_string(), "9".to_string()]);
    assert_eq!(out, vec!["5".to_string()]);
    assert_eq!(m.character_work_state.workers.len(), 1);
}

#[test]
fn observer_checkouts_and_bookmarks() {
    let m = manager_with_bag(&[]);
    match m.observer_checkout_at("test01", 2, 1, "CheckoutRelationBoard", 0) {
        ObserverResult::RelationBoard { connections } => assert!(connections.is_empty()),
        _ => panic!("relation board expected"),
    }
    match m.observer_checkout_at("test01", 2, 1, "Nope", 0) {
        ObserverResult::Error(s) => assert_eq!(s, "unknown checkout type: Nope"),
        _ => panic!("error expected"),
    }
    match m.observer_checkout_at("nowhere", 2, 1, "CheckoutRelationBoard", 0) {
        ObserverResult::Error(s) => assert_eq!(s, "region not found"),
        _ => panic!("error expected"),
    }
    match m.observer_checkout_at("test01", 2, 1, "CheckoutOutsideResource", 0) {
        ObserverResult::OutsideResource { nodes } => assert!(nodes.is_empty()),
        _ => panic!("outside resource expected"),
    }

    let mut m = m;
    m.statistic_set_bookmark_item_ids(&vec!["a".to_string(), "b".to_string(), "a".to_string()], false);
    assert_eq!(m.stt_state.visible_formulas, vec!["a".to_string(), "b".to_string()]);
    m.statistic_set_bookmark_item_ids(&vec!["a".to_string()], true);
    assert_eq!(m.stt_state.visible_formulas, vec!["b".to_string()]);
    assert!(m.statistic_require("test01", 0, 0, &Vec::new(), true).is_empty());
    assert!(m.statistic_require("nowhere", 0, 0, &Vec::new(), true).is_empty());
}

#[test]
fn repair_building_adds_node() {
    let mut t = table();
    t.buildings.insert(
        "bld".to_string(),
        BuildingEntry { building_type: 5, width: 1, height: 1, power_consume: 0, input_ports: Vec::new(), output_ports: Vec::new() },
    );
    let mut repairs: StrMap<RepairEntry> = StrMap::new();
    repairs.insert(
        "rp_1".to_string(),
        RepairEntry { cost_items: vec![ic("iron", 1)], building_id: "bld".to_string(), level_id: "map01_lv002".to_string() },
    );
    let mut m = manager_with_bag(&[("iron", 1)]);
    assert_eq!(m.repair_building(&repairs, &t, "test01", "rp_1"), Some(3));
    assert_eq!(bag_total(&m, "iron"), 0);
    let n = m.regions.get("test01").unwrap().node(3).unwrap();
    assert_eq!(n.template_id, "bld");
    assert_eq!(n.node_type, FCNodeType::Producer);
    assert_eq!(n.transform.scene_name, "map01_lv002");
    assert_eq!(m.repair_building(&repairs, &t, "test01", "rp_1"), None);
    assert_eq!(m.repair_building(&repairs, &t, "test01", "rp_missing"), None);
}

#[test]
fn speed_bonuses_come_from_region_workers_affecting_the_building() {
    let mut m = FactoryManager::new();
    m.character_work_state.workers.push(CharacterWorker {
        region_name: "r1".into(),
        char_inst_id: 1,
        skill_ids: vec!["s_all".into(), "s_other".into(), "s_missing".into(), "s_mine".into()],
        work_slot: 0,
    });
    m.character_work_state.workers.push(CharacterWorker {
        region_name: "r2".into(),
        char_inst_id: 2,
        skill_ids: vec!["s_all".into()],
        work_slot: 0,
    });
    let mut skills = StrMap::new();
    skills.insert("s_all".to_string(), SkillEffect { effect_building_id: vec![], type_list: vec![1, 2, 1] });
    skills.insert("s_other".to_string(), SkillEffect { effect_building_id: vec!["b_x".into()], type_list: vec![1] });
    skills.insert("s_mine".to_string(), SkillEffect { effect_building_id: vec!["b_x".into(), "b_me".into()], type_list: vec![2, 1] });
    let got = m.speed_bonus_sources(&skills, "r1", "b_me");
    assert_eq!(got, vec![("s_all".to_string(), 0), ("s_all".to_string(), 2), ("s_mine".to_string(), 1)]);
    assert!(m.speed_bonus_sources(&skills, "r3", "b_me").is_empty());
}

/// Puts `slot` under `key` in the bag of region "test01".
fn put_in_bag(m: &mut FactoryManager, key: u32, slot: ItemSlot) {
    let r = m.regions.get_mut("test01").unwrap();
    if let Some(FactoryComponent::Inventory(inv)) = r.node_mut(1).unwrap().component_mut(1) {
        inv.items.insert(key, slot);
    }
}

fn bag_slot(m: &FactoryManager, key: u32) -> Option<ItemSlot> {
    let r = m.regions.get("test01").unwrap();
    match r.node(1).unwrap().component(1) {
        Some(FactoryComponent::Inventory(inv)) => inv.items.get(&key).cloned(),
        _ => panic!("bag missing"),
    }
}

#[test]
fn manufacture_start_pays_ingredients_per_set() {
    let mut t = table();
    t.manufact_crafts.insert(
        "mf_gear".to_string(),
        ManufactCraft { total_progress: 10, ingredients: vec![ic("iron", 2), ic("coal", 1)], outcome: ic("gear", 1) },
    );
    let mut m = manager_with_bag(&[("iron", 20), ("coal", 9)]);
    let res = m.manufacture_start(&t, "test01", 5, "mf_gear", 6).unwrap();
    assert_eq!(res.old_formula, "");
    assert_eq!(bag_total(&m, "iron"), 12);
    assert_eq!(bag_total(&m, "coal"), 5);
    let machine = m.manufacture_state.get("test01").unwrap();
    assert_eq!(machine.set_count, 4);
    assert_eq!(machine.active_recipe.as_ref().unwrap().recipe_id, "mf_gear");

    let res = m.manufacture_start(&t, "test01", 5, "mf_gear", 1).unwrap();
    assert_eq!(res.old_formula, "mf_gear");
    assert_eq!(bag_total(&m, "iron"), 10);
    assert_eq!(m.manufacture_state.get("test01").unwrap().set_count, 1);
}

#[test]
fn manufacture_start_refuses_unknown_recipe_and_short_bag() {
    let mut t = table();
    t.manufact_crafts.insert(
        "mf_gear".to_string(),
        ManufactCraft { total_progress: 10, ingredients: vec![ic("iron", 2)], outcome: ic("gear", 1) },
    );
    let mut m = manager_with_bag(&[("iron", 3)]);
    assert!(matches!(m.manufacture_start(&t, "test01", 5, "nope", 1), Err(ManufactureError::RecipeNotFound)));
    assert!(matches!(
        m.manufacture_start(&t, "test01", 5, "mf_gear", 2),
        Err(ManufactureError::InsufficientIngredients)
    ));
    assert!(m.manufacture_state.get("test01").is_none());
    assert!(matches!(
        m.manufacture_start(&t, "other", 5, "mf_gear", 1),
        Err(ManufactureError::InsufficientIngredients)
    ));
}

#[test]
fn workshop_make_adds_outcomes_and_keeps_other_stacks() {
    let mut t = table();
    t.workshop_crafts.insert(
        "ws_plate".to_string(),
        WorkshopCraft { default_unlock: true, ingredients: vec![ic("iron", 2)], outcomes: vec![ic("plate", 1), ic("bolt", 3)] },
    );
    let mut m = manager_with_bag(&[("iron", 10)]);
    put_in_bag(&mut m, 0, ItemSlot { item_id: "x".to_string(), count: 5, inst_id: 0 });
    let made = m.workshop_make(&t, "test01", "ws_plate", 2).unwrap();
    assert_eq!(made.len(), 2);
    assert_eq!(made[0].item_id, "plate");
    assert_eq!(made[0].count, 2);
    assert_eq!(made[1].item_id, "bolt");
    assert_eq!(made[1].count, 6);
    assert_eq!(bag_total(&m, "iron"), 6);
    assert_eq!(bag_total(&m, "x"), 5);
    assert_eq!(bag_slot(&m, 0).unwrap().item_id, "x");
    assert_eq!(bag_total(&m, "plate"), 2);
    assert_eq!(bag_total(&m, "bolt"), 6);

    // a second make stacks onto the stacks the first one made
    m.workshop_make(&t, "test01", "ws_plate", 1).unwrap();
    assert_eq!(bag_total(&m, "plate"), 3);
    assert_eq!(bag_total(&m, "bolt"), 9);
    assert_eq!(bag_total(&m, "x"), 5);
}

#[test]
fn workshop_make_errors() {
    let mut t = table();
    t.workshop_crafts.insert(
        "ws_plate".to_string(),
        WorkshopCraft { default_unlock: true, ingredients: vec![ic("iron", 2)], outcomes: vec![ic("plate", 1)] },
    );
    t.workshop_crafts.insert(
        "ws_locked".to_string(),
        WorkshopCraft { default_unlock: false, ingredients: vec![], outcomes: vec![ic("plate", 1)] },
    );
    let mut m = manager_with_bag(&[("iron", 1)]);
    assert!(matches!(m.workshop_make(&t, "test01", "nope", 1), Err(WorkshopError::RecipeNotFound)));
    assert!(matches!(m.workshop_make(&t, "test01", "ws_locked", 1), Err(WorkshopError::NotUnlocked)));
    assert!(matches!(m.workshop_make(&t, "other", "ws_plate", 1), Err(WorkshopError::RegionNotFound)));
    assert!(matches!(
        m.workshop_make(&t, "test01", "ws_plate", 1),
        Err(WorkshopError::InsufficientIngredients)
    ));
    // what was found of a short ingredient has been drawn
    assert_eq!(bag_total(&m, "iron"), 0);
    assert_eq!(bag_total(&m, "plate"), 0);
}

#[test]
fn stt_rewards_never_replace_an_unrelated_stack() {
    let t = table();
    let mut tree: StrMap<SttNode> = StrMap::new();
    tree.insert(
        "n1".to_string(),
        SttNode {
            conditions: Vec::new(),
            pre_node: vec![String::new()],
            cost_items: Vec::new(),
            unlock_reward: vec![SttReward { item_id: "gold".to_string(), count: 2 }],
            action: None,
        },
    );
    let mut m = manager_with_bag(&[("iron", 2)]);
    put_in_bag(&mut m, 0, ItemSlot { item_id: "x".to_string(), count: 5, inst_id: 0 });
    assert!(m.stt_unlock_node(&tree, &t, "test01", "n1"));
    assert_eq!(bag_slot(&m, 0).unwrap().item_id, "x");
    assert_eq!(bag_total(&m, "x"), 5);
    // keys 0 and 10 are taken, so the new stack goes under key 1
    let gold = bag_slot(&m, 1).unwrap();
    assert_eq!(gold.item_id, "gold");
    assert_eq!(gold.count, 2);
    assert_eq!(bag_total(&m, "iron"), 2);
}

#[test]
fn dismantle_returns_the_building_item_to_the_bag() {
    let mut t = table();
    t.buildings.insert(
        "bld".to_string(),
        BuildingEntry { building_type: 5, width: 1, height: 1, power_consume: 0, input_ports: Vec::new(), output_ports: Vec::new() },
    );
    t.building_items.insert("bld".to_string(), "item_bld".to_string());
    let mut repairs: StrMap<RepairEntry> = StrMap::new();
    repairs.insert(
        "rp_1".to_string(),
        RepairEntry { cost_items: Vec::new(), building_id: "bld".to_string(), level_id: "map01_lv001".to_string() },
    );
    let mut m = manager_with_bag(&[("iron", 1)]);
    put_in_bag(&mut m, 0, ItemSlot { item_id: "x".to_string(), count: 5, inst_id: 0 });
    assert_eq!(m.repair_building(&repairs, &t, "test01", "rp_1"), Some(3));
    assert_eq!(m.dismantle(&t, "test01", 3).unwrap(), "bld");
    assert!(m.regions.get("test01").unwrap().node(3).is_none());
    assert_eq!(bag_total(&m, "item_bld"), 1);
    assert_eq!(bag_total(&m, "x"), 5);
    assert_eq!(bag_slot(&m, 0).unwrap().item_id, "x");
    assert!(matches!(m.dismantle(&t, "test01", 3), Err(DismantleError::NodeNotFound)));
    assert!(matches!(m.dismantle(&t, "test01", 2), Err(DismantleError::ReservedNode)));
    assert!(matches!(m.dismantle(&t, "nowhere", 3), Err(DismantleError::RegionNotFound)));

    // a second one stacks onto the returned item
    assert_eq!(m.repair_building(&repairs, &t, "test01", "rp_1"), Some(4));
    m.dismantle(&t, "test01", 4).unwrap();
    assert_eq!(bag_total(&m, "item_bld"), 2);
}

#[test]
fn move_cache_to_bag_keeps_other_stacks() {
    let mut m = manager_with_bag(&[("coal", 4)]);
    put_in_bag(&mut m, 0, ItemSlot { item_id: "x".to_string(), count: 5, inst_id: 0 });
    m.regions
        .get_mut("test01")
        .unwrap()
        .nodes
        .insert(7, machine_node(vec![ItemSlot { item_id: "iron".to_string(), count: 3, inst_id: 0 }], None));
    assert!(m.move_cache_to_bag("test01", 2, "iron").is_ok());
    assert!(m.move_cache_to_bag("test01", 2, "iron").is_ok());
    assert_eq!(bag_total(&m, "iron"), 2);
    assert_eq!(bag_total(&m, "x"), 5);
    assert_eq!(bag_total(&m, "coal"), 4);
    assert_eq!(bag_slot(&m, 0).unwrap().item_id, "x");
    match &m.regions.get("test01").unwrap().node(7).unwrap().components[1].1 {
        FactoryComponent::Cache(c) => assert_eq!(c.items[0].count, 1),
        _ => panic!("cache expected"),
    }
    assert!(m.move_cache_to_bag("test01", 2, "gold").is_err());
}

#[test]
fn recycler_storage_stays_within_its_cap() {
    let mut t = table();
    t.recycler_materials.insert("scrap".to_string(), 10);
    t.recycler_product_ids.push("prod".to_string());
    let rc = RecyclerConst { rec_round_need_value: 10, rec_basic_generate_time: 0, rec_temp_storage_length: 3 };
    let mut m = manager_with_bag(&[("scrap", 20)]);
    let mats = vec![CommitMaterial { item_id: "scrap".to_string(), count: 7 }];
    assert!(m.recycler_commit_material_at(&t, &rc, "test01", 3, &mats, 500));
    let rec = m.recycler_state.get("test01").unwrap();
    assert_eq!(rec.temp_storage.len(), 3);
    assert_eq!(rec.accumulated_value, 0);
    assert_eq!(bag_total(&m, "scrap"), 13);
}

#[test]
fn manufacture_settle_stops_at_stack_and_buffer_caps() {
    let mut t = table();
    t.manufact_crafts.insert(
        "mf_gear".to_string(),
        ManufactCraft { total_progress: 10, ingredients: Vec::new(), outcome: ic("gear", 1) },
    );
    let mut m = manager_with_bag(&[]);
    m.manufacture_start(&t, "test01", 5, "mf_gear", 4).unwrap();
    let start = m.manufacture_state.get("test01").unwrap().active_recipe.as_ref().unwrap().start_tick;
    let c = ManufactConst { outcome_buffer_stack_max_count: 2 };
    let r = m.manufacture_settle_at(&t, &c, "test01", 5, start + 100).unwrap();
    assert_eq!(r.settle_count, 2);
    let machine = m.manufacture_state.get("test01").unwrap();
    assert_eq!(machine.outcome_buffer.len(), 1);
    assert_eq!(machine.outcome_buffer[0].count, 2);

    // a buffer already holding 99 stacks of other items takes no new stack
    let mut m = manager_with_bag(&[]);
    m.manufacture_start(&t, "test01", 5, "mf_gear", 4).unwrap();
    let start = m.manufacture_state.get("test01").unwrap().active_recipe.as_ref().unwrap().start_tick;
    {
        let machine = m.manufacture_state.get_mut("test01").unwrap();
        for i in 0..99u32 {
            machine.outcome_buffer.push(ItemSlot { item_id: format!("other_{i}"), count: 1, inst_id: 0 });
        }
    }
    let c = ManufactConst { outcome_buffer_stack_max_count: 50 };
    let r = m.manufacture_settle_at(&t, &c, "test01", 5, start + 100).unwrap();
    assert_eq!(r.settle_count, 0);
    assert_eq!(m.manufacture_state.get("test01").unwrap().outcome_buffer.len(), 99);
}

#[test]
fn quickbar_pages_keep_their_size() {
    let mut m = FactoryManager::new();
    let pages_before = m.quickbars.len();
    assert!(m.quickbar_set_one(7, 3, "item_a"));
    assert_eq!(m.quickbars.len(), pages_before + 1);
    let page = m.quickbars.iter().find(|q| q.quickbar_type == 7).unwrap();
    assert_eq!(page.items.len(), 32);
    assert_eq!(page.items[3], "item_a");
    assert!(m.quickbar_move_one(7, 3, 31));
    let page = m.quickbars.iter().find(|q| q.quickbar_type == 7).unwrap();
    assert_eq!(page.items.len(), 32);
    assert_eq!(page.items[31], "item_a");
    assert_eq!(page.items[3], "");
    assert!(!m.quickbar_set_one(7, 32, "item_b"));
    assert!(!m.quickbar_set_one(7, -1, "item_b"));
    assert!(!m.quickbar_move_one(9, 0, 1));
    for q in &m.quickbars {
        assert_eq!(q.items.len(), 32);
    }
}

#[test]
fn move_cache_to_cache_keeps_every_stack() {
    let mut r = region();
    r.nodes.insert(
        7,
        machine_node(
            vec![
                ItemSlot { item_id: "a".to_string(), count: 2, inst_id: 0 },
                ItemSlot { item_id: "b".to_string(), count: 1, inst_id: 0 },
                ItemSlot { item_id: "a".to_string(), count: 3, inst_id: 0 },
            ],
            None,
        ),
    );
    let mut n2 = machine_node(vec![ItemSlot { item_id: "a".to_string(), count: 4, inst_id: 0 }], None);
    n2.node_id = 8;
    n2.components[0].0 = 4;
    n2.components[1].0 = 5;
    r.nodes.insert(8, n2);
    let mut m = FactoryManager::new();
    m.regions.insert("test01".to_string(), r);
    assert!(m.move_cache_to_cache("test01", 2, 5, "a").is_ok());
    let region = m.regions.get("test01").unwrap();
    match &region.node(7).unwrap().components[1].1 {
        FactoryComponent::Cache(c) => assert!(c.items.is_empty()),
        _ => panic!("cache expected"),
    }
    match &region.node(8).unwrap().components[1].1 {
        FactoryComponent::Cache(c) => {
            assert_eq!(c.items.len(), 2);
            assert_eq!(c.items[0].item_id, "a");
            assert_eq!(c.items[0].count, 9);
            assert_eq!(c.items[1].item_id, "b");
            assert_eq!(c.items[1].count, 1);
        },
        _ => panic!("cache expected"),
    }
}

#[test]
fn bootstrap_hub_mesh_reads_width_as_i32() {
    let r = FactoryManager::bootstrap_region(
        "test01",
        "region_102",
        "map01_lv001",
        "sp_hub_1",
        GridPos { x: 5, y: 5 },
        GridRange { x: 5, y: 5, w: u32::MAX, h: 2 },
        100,
        100_000,
    );
    let pts = &r.node(2).unwrap().transform.mesh.as_ref().unwrap().points;
    assert_eq!(pts[1], GridPos { x: 4, y: 5 });
    assert_eq!(pts[2], GridPos { x: 4, y: 7 });
}

#[test]
fn trade_zero_weights_generate_nothing_and_full_other_stacks_do_not_block_rewards() {
    let mut t = table();
    t.orders.insert("ord_1".to_string(), ());
    let mut contracts: StrMap<Contract> = StrMap::new();
    contracts.insert(
        "ct_zero".to_string(),
        Contract {
            min_value: 1,
            item_value_group: vec![("iron".to_string(), 3)],
            reward_items: vec!["gold".to_string()],
            order_id_group: vec!["ord_1".to_string()],
            order_weight: vec![0],
        },
    );
    contracts.insert(
        "ct_1".to_string(),
        Contract {
            min_value: 1,
            item_value_group: vec![("iron".to_string(), 3)],
            reward_items: vec!["gold".to_string()],
            order_id_group: vec!["ord_1".to_string()],
            order_weight: vec![1],
        },
    );
    let mut m = manager_with_bag(&[("iron", 10), ("stone", u32::MAX)]);
    assert!(m.trade_set_contract_at(&contracts, "test01", 7, "ct_zero", 1_000));
    m.trade_generate_orders_at(&t, &contracts, "test01", 1_000 + 360 * 2);
    assert!(m.trade_state.get("test01").unwrap().orders.is_empty());

    assert!(m.trade_set_contract_at(&contracts, "test01", 7, "ct_1", 2_000));
    m.trade_generate_orders_at(&t, &contracts, "test01", 2_000 + 360);
    let inst = m.trade_state.get("test01").unwrap().orders[0].inst_id as u64;
    let mut items: StrMap<i64> = StrMap::new();
    items.insert("iron".to_string(), 1);
    assert!(m.trade_cash_order_at(&t, &contracts, "test01", 7, inst, &items, 2_000 + 360));
    assert_eq!(bag_total(&m, "gold"), 1);
    assert_eq!(bag_total(&m, "stone"), u32::MAX);
}
