use perlica_logic::enums::{FCComponentPos, FCComponentType, FCConnectionPortType, FCConnectionType, FCDirection, FCNodeType};
use perlica_logic::factory::blackboard::PowerBlackboard;
use perlica_logic::factory::component::{
    BurnPowerState, FactoryComponent, InventoryState, PowerPoleState, ProducerState, StablePowerState,
};
use perlica_logic::factory::manager::FactoryManager;
use perlica_logic::factory::node::{FactoryNode, InteractiveObject, NodeTransform};
use perlica_logic::factory::region::{FactoryConnection, FactoryRegion};
use perlica_logic::factory::tick::current_tick;
use perlica_logic::factory::{GridPos, GridRange};
use perlica_logic::strmap::StrMap;

const EXPECTED_HUB_COMPONENT_IDS: &[u32] = &[2, 3, 4, 5, 6, 7, 8];

fn new_region() -> FactoryRegion {
    FactoryRegion::new("test01".to_string(), "region_102".to_string(), "map01_lv001".to_string(), 1)
}

fn bootstrap() -> FactoryRegion {
    FactoryManager::bootstrap_region(
        "test01",
        "region_102",
        "map01_lv001",
        "sp_hub_1",
        GridPos { x: 31, y: -22 },
        GridRange { x: 31, y: -22, w: 9, h: 9 },
        100,
        100_000,
    )
}

fn empty_transform(scene: &str) -> NodeTransform {
    NodeTransform {
        position: None,
        direction: FCDirection::Up,
        mesh: None,
        scene_name: scene.to_string(),
        world_position: None,
        world_rotation: None,
        bc_port_in: None,
        bc_port_out: None,
    }
}

fn producer(start: Option<u64>) -> ProducerState {
    ProducerState {
        formula_id: "mc_iron_1".to_string(),
        start_tick: start,
        current_progress: 50,
        in_power: true,
        in_block: false,
        power_cost: 10,
        last_formula_id: String::new(),
    }
}

#[test]
fn new_manager_defaults_to_test01_region() {
    let m = FactoryManager::new();
    assert_eq!(m.current_region, "test01");
    assert!(m.regions.is_empty(), "no regions until first push_factory");
}

#[test]
fn bootstrap_region_creates_inventory_and_hub_nodes() {
    let region = bootstrap();
    assert_eq!(region.name, "test01");
    assert_eq!(region.region_id, "region_102");
    assert_eq!(region.scene_name, "map01_lv001");
    assert_eq!(region.level, 1);
    assert_eq!(region.next_node_id, 3, "ids 1+2 reserved, next allocation is 3");
    assert_eq!(region.nodes.len(), 2);

    let inv = region.node(1).expect("inventory node present");
    assert_eq!(inv.node_type, FCNodeType::Inventory);
    assert_eq!(inv.template_id, "__inventory__");
    assert!(inv.transform.position.is_none(), "inventory has no grid position");
    assert!(inv.transform.mesh.is_none());
    assert!(inv.is_deactive, "inventory starts deactive (matches live server)");
    assert_eq!(inv.components.len(), 1);
    assert_eq!(inv.components[0].0, 1);
    assert!(matches!(inv.components[0].1, FactoryComponent::Inventory(_)));
    assert_eq!(inv.component_id_at(FCComponentPos::Inventory), Some(1u32));

    let hub = region.node(2).expect("hub node present");
    assert_eq!(hub.node_type, FCNodeType::Hub);
    assert_eq!(hub.template_id, "sp_hub_1");
    assert!(hub.transform.position.is_some());
    assert!(hub.transform.mesh.is_some());
    assert!(!hub.is_deactive, "hub starts active");
    assert_eq!(hub.interactive_object, Some(InteractiveObject { object_id: 1 }));
    assert_eq!(hub.components.len(), EXPECTED_HUB_COMPONENT_IDS.len());

    let actual_ids: Vec<u32> = hub.components.iter().map(|(id, _)| *id).collect();
    assert_eq!(actual_ids, EXPECTED_HUB_COMPONENT_IDS);

    let expected_pos: &[(FCComponentPos, u32)] = &[
        (FCComponentPos::Hub, 2),
        (FCComponentPos::BusLoader, 3),
        (FCComponentPos::PowerPole, 4),
        (FCComponentPos::PowerSave, 5),
        (FCComponentPos::StablePower, 6),
        (FCComponentPos::Selector, 7),
        (FCComponentPos::Inventory, 8),
    ];
    for (pos, id) in expected_pos {
        assert_eq!(hub.component_id_at(*pos), Some(*id), "component_pos mismatch for {pos:?}");
    }

    let expected_types: &[(u32, FCComponentType)] = &[
        (2, FCComponentType::Hub),
        (3, FCComponentType::BusLoader),
        (4, FCComponentType::PowerPole),
        (5, FCComponentType::PowerSave),
        (6, FCComponentType::StablePower),
        (7, FCComponentType::Selector),
        (8, FCComponentType::Inventory),
    ];
    for (id, want) in expected_types {
        let comp = hub.component(*id).unwrap_or_else(|| panic!("hub node missing component id {id}"));
        assert_eq!(comp.discriminant(), want.code(), "component id {id} has wrong type");
    }

    assert_eq!(region.blackboard.power_gen, 100);
    assert_eq!(region.blackboard.power_save_max, 100_000);
    assert_eq!(region.blackboard.power_save_current, 100_000);
    assert_eq!(region.blackboard.inventory_node_id, 1);
    assert!(!region.blackboard.is_stop_by_power);
}

#[test]
fn bootstrap_region_hub_mesh_is_4_point_rect_clockwise() {
    let region = bootstrap();
    let hub = region.node(2).unwrap();
    let mesh = hub.transform.mesh.as_ref().unwrap();
    assert_eq!(mesh.points.len(), 4);
    assert_eq!(mesh.points[0], GridPos { x: 31, y: -22 });
    assert_eq!(mesh.points[1], GridPos { x: 40, y: -22 });
    assert_eq!(mesh.points[2], GridPos { x: 40, y: -13 });
    assert_eq!(mesh.points[3], GridPos { x: 31, y: -13 });
}

#[test]
fn bootstrap_region_power_components_start_in_power() {
    let region = bootstrap();
    let hub = region.node(2).unwrap();

    let pole = hub.component(4).unwrap();
    if let FactoryComponent::PowerPole(s) = pole {
        assert!(s.in_power, "hub power pole starts powered");
    } else {
        panic!("component 4 should be PowerPole, got {pole:?}");
    }

    let save = hub.component(5).unwrap();
    if let FactoryComponent::PowerSave(s) = save {
        assert!(s.in_power);
        assert_eq!(s.power_save, 100_000);
    } else {
        panic!("component 5 should be PowerSave, got {save:?}");
    }

    let stable = hub.component(6).unwrap();
    if let FactoryComponent::StablePower(s) = stable {
        assert!(s.in_power);
        assert_eq!(s.power_gen_per_sec, 100);
    } else {
        panic!("component 6 should be StablePower, got {stable:?}");
    }
}

#[test]
fn allocate_node_id_after_bootstrap_starts_at_3() {
    let mut region = bootstrap();
    assert_eq!(region.allocate_node_id(), 3);
    assert_eq!(region.allocate_node_id(), 4);
    assert_eq!(region.allocate_node_id(), 5);
}

#[test]
fn empty_region_node_lookups_return_none() {
    let r = new_region();
    assert!(r.node(0).is_none());
    assert!(r.node(1).is_none());
    assert!(r.node(u32::MAX).is_none());
    assert_eq!(r.count_buildings_by_template("sp_hub_1"), 0);
}

#[test]
fn derive_region_id_returns_none_for_empty_table() {
    let table: StrMap<Vec<String>> = StrMap::new();
    assert!(FactoryManager::derive_region_id(&table, "map01_lv001").is_none());
}

#[test]
fn derive_region_id_takes_first_region_of_scene() {
    let mut table: StrMap<Vec<String>> = StrMap::new();
    table.insert("map01_lv001".to_string(), vec!["region_102".to_string(), "region_103".to_string()]);
    assert_eq!(FactoryManager::derive_region_id(&table, "map01_lv001"), Some("region_102".to_string()));
    assert!(FactoryManager::derive_region_id(&table, "map02_lv001").is_none());
}

#[test]
fn new_initializes_reserved_ids() {
    let r = new_region();
    assert_eq!(r.next_node_id, 3, "ids 1 (inv) and 2 (hub) reserved");
    assert_eq!(r.name, "test01");
    assert_eq!(r.region_id, "region_102");
    assert!(r.nodes.is_empty());
    assert!(r.connections.is_empty());
}

#[test]
fn allocate_node_id_is_sequential() {
    let mut r = new_region();
    assert_eq!(r.allocate_node_id(), 3);
    assert_eq!(r.allocate_node_id(), 4);
    assert_eq!(r.allocate_node_id(), 5);
    assert_eq!(r.next_node_id, 6);
}

#[test]
fn count_buildings_by_template() {
    let mut r = new_region();
    let mk = |id, tid: &str| FactoryNode {
        node_id: id,
        node_type: FCNodeType::PowerPole,
        template_id: tid.to_string(),
        transform: empty_transform("map01_lv001"),
        is_deactive: false,
        interactive_object: None,
        dynamic_property: Vec::new(),
        component_pos: Vec::new(),
        components: vec![(1, FactoryComponent::PowerPole(PowerPoleState { in_power: true }))],
    };
    r.nodes.insert(3, mk(3, "power_pole_1"));
    r.nodes.insert(4, mk(4, "power_pole_1"));
    r.nodes.insert(5, mk(5, "power_pole_2"));
    assert_eq!(r.count_buildings_by_template("power_pole_1"), 2);
    assert_eq!(r.count_buildings_by_template("power_pole_2"), 1);
    assert_eq!(r.count_buildings_by_template("power_pole_3"), 0);
}

#[test]
fn compute_producer_progress_uses_elapsed_times_speed() {
    let r = new_region();
    let speed = 100u64;
    let start = current_tick().saturating_sub(10);
    let running = producer(Some(start));
    let p = r.compute_producer_progress(&running, speed);
    assert!(p >= 1050);
    let paused = producer(None);
    assert_eq!(r.compute_producer_progress(&paused, speed), 50);
}

#[test]
fn compute_producer_progress_at_exact_tick() {
    let r = new_region();
    assert_eq!(r.compute_producer_progress_at(&producer(Some(1_000)), 100, 1_010), 1_050);
    assert_eq!(r.compute_producer_progress_at(&producer(Some(1_000)), 100, 900), 50);
}

#[test]
fn next_connection_index_starts_at_one_and_grows() {
    let mut r = new_region();
    assert_eq!(r.next_connection_index(), 1);
    r.connections.push(FactoryConnection {
        connection_type: FCConnectionType::Power,
        port_type: FCConnectionPortType::Hub,
        node_id_a: 2,
        node_id_b: 4,
        index: 1,
    });
    assert_eq!(r.next_connection_index(), 2);
}

#[test]
fn discriminant_matches_fc_component_type() {
    assert_eq!(FactoryComponent::Hub.discriminant(), FCComponentType::Hub.code());
    assert_eq!(FactoryComponent::Inventory(InventoryState::new()).discriminant(), FCComponentType::Inventory.code());
    assert_eq!(FactoryComponent::Producer(producer(None)).discriminant(), FCComponentType::Producer.code());
}

#[test]
fn power_role_helpers() {
    assert!(!FactoryComponent::Hub.is_power_source());
    assert!(FactoryComponent::StablePower(StablePowerState { in_power: true, power_gen_per_sec: 100 }).is_power_source());
    assert!(FactoryComponent::BurnPower(BurnPowerState {
        fuel_remaining: 0,
        fuel_start_tick: None,
        in_power: false,
        power_gen_per_sec: 100,
        current_burn_item_id: String::new(),
    })
    .is_power_source());
    assert!(FactoryComponent::PowerPole(PowerPoleState { in_power: true }).is_power_relay());
    assert!(FactoryComponent::Producer(producer(None)).is_power_consumer());
}

#[test]
fn component_lookup_by_id_and_pos() {
    let mut node = FactoryNode {
        node_id: 2,
        node_type: FCNodeType::Hub,
        template_id: "sp_hub_1".to_string(),
        transform: empty_transform("map01_lv001"),
        is_deactive: false,
        interactive_object: None,
        dynamic_property: Vec::new(),
        component_pos: vec![(FCComponentPos::Hub, 2u32)],
        components: vec![(2, FactoryComponent::Hub)],
    };
    assert!(matches!(node.component(2), Some(FactoryComponent::Hub)));
    assert!(node.component(99).is_none());
    assert!(matches!(node.component_at(FCComponentPos::Hub), Some(FactoryComponent::Hub)));
    if let Some(slot) = node.component_at_mut(FCComponentPos::Hub) {
        *slot = FactoryComponent::Inventory(InventoryState::new());
    }
    assert!(matches!(node.component_at(FCComponentPos::Hub), Some(FactoryComponent::Inventory(_))));
}

#[test]
fn blackboard_default_via_region_is_unpowered() {
    let bb = PowerBlackboard::default();
    assert!(!bb.is_stop_by_power);
}

#[test]
fn node_ids_with_component_finds_nodes_by_kind() {
    let region = bootstrap();
    let mut inv = region.node_ids_with_component(FCComponentType::Inventory);
    inv.sort();
    assert_eq!(inv, vec![1, 2]);
    assert_eq!(region.node_ids_with_component(FCComponentType::PowerPole), vec![2]);
    assert!(region.node_ids_with_component(FCComponentType::Producer).is_empty());
}
