use perlica_logic::factory::component::BurnPowerState;
use perlica_logic::factory::power::{compute_fuel_state, compute_fuel_state_at, recompute_blackboard, PowerGraph};
use perlica_logic::factory::region::FactoryRegion;
use perlica_logic::factory::tick::current_tick;

fn test_region() -> FactoryRegion {
    FactoryRegion::new("test01".to_string(), "region_102".to_string(), "map01_lv001".to_string(), 1)
}

fn burn(start: Option<u64>) -> BurnPowerState {
    BurnPowerState {
        fuel_remaining: 6_000,
        fuel_start_tick: start,
        in_power: true,
        power_gen_per_sec: 100,
        current_burn_item_id: String::new(),
    }
}

#[test]
fn compute_returns_default_on_empty_region() {
    let region = test_region();
    let g = PowerGraph::compute(&region);
    assert!(g.powered_nodes.is_empty());
    assert_eq!(g.total_generation, 0);
    assert!(!g.has_deficit());
}

#[test]
fn fuel_state_no_fuel_when_start_is_none() {
    let c = compute_fuel_state(&burn(None), 125);
    assert!(!c.has_fuel);
    assert_eq!(c.remaining_ticks, 0);
}

#[test]
fn fuel_state_depletes_over_time() {
    let start = current_tick().saturating_sub(10);
    let c = compute_fuel_state(&burn(Some(start)), 125);
    assert!(c.has_fuel, "fuel should still be burning after ~10 ticks");
    assert!(
        matches!(c.remaining_ticks, 37 | 38),
        "remaining_ticks should be 37 or 38 (got {})",
        c.remaining_ticks
    );
}

#[test]
fn fuel_state_depleted_after_burn_duration() {
    let start = current_tick().saturating_sub(100);
    let c = compute_fuel_state(&burn(Some(start)), 125);
    assert!(!c.has_fuel, "fuel should be gone after 100 ticks");
    assert_eq!(c.remaining_ticks, 0);
}

#[test]
fn recompute_blackboard_is_safe_on_empty_region() {
    let mut region = test_region();
    recompute_blackboard(&mut region);
    assert!(!region.blackboard.is_stop_by_power);
}

#[test]
fn fuel_state_at_exact_tick() {
    // 6000 fuel at 125 per tick lasts 48 ticks; after 10 there are 38 left.
    let c = compute_fuel_state_at(&burn(Some(1_000)), 125, 1_010);
    assert!(c.has_fuel);
    assert_eq!(c.remaining_ticks, 38);
    let done = compute_fuel_state_at(&burn(Some(1_000)), 125, 1_048);
    assert!(!done.has_fuel);
    assert_eq!(done.remaining_ticks, 0);
}
