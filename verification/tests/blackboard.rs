use perlica_logic::factory::blackboard::PowerBlackboard;

#[test]
fn default_is_unpowered_empty_region() {
    let bb = PowerBlackboard::default();
    assert_eq!(bb.inventory_node_id, 1);
    assert_eq!(bb.power_cost, 0);
    assert_eq!(bb.power_gen, 0);
    assert!(!bb.is_stop_by_power);
}

#[test]
fn with_hub_power_fills_battery() {
    let bb = PowerBlackboard::with_hub_power(1, 100, 100_000);
    assert_eq!(bb.power_gen, 100);
    assert_eq!(bb.power_save_max, 100_000);
    assert_eq!(bb.power_save_current, 100_000);
    assert!(!bb.has_power_deficit());
}

#[test]
fn deficit_detected_when_cost_exceeds_gen_and_storage() {
    let mut bb = PowerBlackboard::with_hub_power(1, 100, 50);
    bb.power_cost = 200;
    assert!(bb.has_power_deficit());
}

#[test]
fn blackboard_with_hub_power_fills_battery_and_no_deficit() {
    let bb = PowerBlackboard::with_hub_power(1, 100, 100_000);
    assert_eq!(bb.power_gen, 100);
    assert_eq!(bb.power_save_max, 100_000);
    assert_eq!(bb.power_save_current, 100_000);
    assert_eq!(bb.inventory_node_id, 1);
    assert!(!bb.is_stop_by_power);
    assert!(!bb.has_power_deficit());
}

#[test]
fn blackboard_deficit_triggers_when_cost_exceeds_gen_plus_storage() {
    let mut bb = PowerBlackboard::with_hub_power(1, 100, 50);
    bb.power_cost = 151;
    assert!(bb.has_power_deficit(), "cost > gen + storage");
    bb.power_cost = 150;
    assert!(!bb.has_power_deficit(), "cost == gen + storage is not a deficit");
}

#[test]
fn new_keeps_inventory_node_and_nothing_else() {
    let bb = PowerBlackboard::new(7);
    assert_eq!(bb.inventory_node_id, 7);
    assert_eq!(bb.power_save_max, 0);
    assert_eq!(bb.power_save_current, 0);
    assert!(!bb.is_stop_by_power);
}

#[test]
fn deficit_does_not_overflow_at_extremes() {
    let mut bb = PowerBlackboard::with_hub_power(1, i64::MAX, i64::MAX);
    bb.power_cost = i64::MAX;
    assert!(!bb.has_power_deficit());
}
