use f1clash_setup::models::driver::{DriverBoost, DriverInventoryItem, DriverStats, OwnedDriverDefinition, OwnedDriverLevelStats};
use f1clash_setup::models::part::{OwnedLevelStats, OwnedPartDefinition, PartCategory, Stats};
use f1clash_setup::models::setup::{Boost, InventoryItem, Setup};
use f1clash_setup::setup_stats::{
    base_part_stats, base_totals, compute_driver_stats, compute_part_stats, default_part_stats, driver_slot_display,
    ids_of, setup_driver_ids, setup_part_ids, setup_slot_display, slot_for, try_base_totals, try_driver_stats, try_part_stats, driver_slots_in_range,
};

fn empty_setup() -> Setup {
    Setup {
        id: 1,
        name: "S".to_string(),
        engine_id: None,
        front_wing_id: None,
        rear_wing_id: None,
        suspension_id: None,
        brakes_id: None,
        gearbox_id: None,
        battery_id: None,
        driver1_id: None,
        driver2_id: None,
    }
}

fn catalog() -> Vec<OwnedPartDefinition> {
    vec![OwnedPartDefinition {
        id: 1,
        name: "Engine A".to_string(),
        season: "2025".to_string(),
        category: PartCategory::Engine,
        series: 1,
        rarity: "Rare".to_string(),
        sort_order: 0,
        additional_stat_name: None,
        levels: vec![OwnedLevelStats {
            level: 1,
            speed: 10,
            cornering: 20,
            power_unit: 30,
            qualifying: 40,
            pit_stop_hundredths: 100,
            additional_stat_value: 0,
        }],
    }]
}

fn drivers_catalog() -> Vec<OwnedDriverDefinition> {
    vec![OwnedDriverDefinition {
        id: 1,
        name: "Max".to_string(),
        season: "2025".to_string(),
        rarity: "Epic".to_string(),
        series: "1".to_string(),
        sort_order: 0,
        levels: vec![OwnedDriverLevelStats {
            level: 1,
            overtaking: 10,
            defending: 20,
            qualifying: 30,
            race_start: 40,
            tyre_management: 50,
            cards_required: 0,
            coins_cost: 0,
            legacy_points: 0,
        }],
    }]
}

fn engine() -> InventoryItem {
    InventoryItem { id: 5, part_name: "Engine A".to_string(), level: 1, cards_owned: 0 }
}

fn max() -> DriverInventoryItem {
    DriverInventoryItem { id: 8, driver_name: "Max".to_string(), rarity: "Epic".to_string(), level: 1, cards_owned: 0 }
}

#[test]
fn ids_follow_slot_order() {
    assert_eq!(ids_of(&[None, Some(3), None, Some(1)]), vec![3, 1]);
    let mut s = empty_setup();
    s.battery_id = Some(7);
    s.engine_id = Some(2);
    s.brakes_id = Some(4);
    assert_eq!(setup_part_ids(&s), vec![2, 4, 7]);
    s.driver2_id = Some(9);
    assert_eq!(setup_driver_ids(&s), vec![9]);
    s.driver1_id = Some(1);
    assert_eq!(setup_driver_ids(&s), vec![1, 9]);
}

#[test]
fn empty_setup_gets_seven_defaults() {
    assert_eq!(
        default_part_stats(),
        Stats { speed: 1, cornering: 1, power_unit: 1, qualifying: 1, pit_stop_hundredths: 100, additional_stat_value: 0 }
    );
    let s = compute_part_stats(&empty_setup(), &[], &catalog(), &[]);
    assert_eq!(
        s,
        Stats { speed: 7, cornering: 7, power_unit: 7, qualifying: 7, pit_stop_hundredths: 700, additional_stat_value: 0 }
    );
}

#[test]
fn assigned_parts_are_summed_with_boosts() {
    let mut s = empty_setup();
    s.engine_id = Some(5);
    let boosts = vec![Boost { id: 1, part_name: "Engine A".to_string(), percentage: 10 }];
    let st = compute_part_stats(&s, &[engine()], &catalog(), &boosts);
    assert_eq!(
        st,
        Stats { speed: 17, cornering: 28, power_unit: 39, qualifying: 50, pit_stop_hundredths: 693, additional_stat_value: 0 }
    );
    let base = base_part_stats(&s, &[engine()], &catalog());
    assert_eq!(
        base,
        Stats { speed: 16, cornering: 26, power_unit: 36, qualifying: 46, pit_stop_hundredths: 700, additional_stat_value: 0 }
    );
}

#[test]
fn driver_stats_zero_without_drivers() {
    let z = compute_driver_stats(&empty_setup(), &[max()], &drivers_catalog(), &[]);
    assert_eq!(z, DriverStats { overtaking: 0, defending: 0, qualifying: 0, race_start: 0, tyre_management: 0 });
    let mut s = empty_setup();
    s.driver1_id = Some(8);
    let d = compute_driver_stats(&s, &[max()], &drivers_catalog(), &[]);
    assert_eq!(d, DriverStats { overtaking: 10, defending: 20, qualifying: 30, race_start: 40, tyre_management: 50 });
}

#[test]
fn slot_of_each_category() {
    let mut s = empty_setup();
    s.gearbox_id = Some(3);
    assert_eq!(slot_for(&s, PartCategory::Gearbox), Some(3));
    assert_eq!(slot_for(&s, PartCategory::Engine), None);
}

#[test]
fn slot_table_shows_part_or_default() {
    let mut s = empty_setup();
    s.engine_id = Some(5);
    s.brakes_id = Some(99);
    let boosts = vec![Boost { id: 1, part_name: "Engine A".to_string(), percentage: 20 }];
    let rows = setup_slot_display(
        &s,
        &[PartCategory::Engine, PartCategory::Brakes, PartCategory::Battery],
        &[engine()],
        &catalog(),
        &boosts,
    );
    assert_eq!(rows.len(), 3);
    assert_eq!(rows[0].category_name, "Engine");
    assert_eq!(rows[0].part_name, "Engine A");
    assert_eq!(rows[0].level, Some(1));
    assert_eq!(rows[0].rarity_class, "rarity-rare");
    assert_eq!(rows[0].boost_pct, Some(20));
    assert_eq!(rows[1].category_name, "Brakes");
    assert_eq!(rows[1].part_name, "Default");
    assert_eq!(rows[1].level, None);
    assert_eq!(rows[1].rarity_class, "");
    assert_eq!(rows[2].part_name, "Default");
}

#[test]
fn driver_table_shows_base_and_boosted() {
    let mut s = empty_setup();
    s.driver1_id = Some(77);
    s.driver2_id = Some(8);
    let boosts = vec![DriverBoost { id: 1, driver_name: "Max".to_string(), rarity: "Epic".to_string(), percentage: 50 }];
    let rows = driver_slot_display(&s, &[max()], &drivers_catalog(), &boosts);
    assert_eq!(rows.len(), 1);
    assert_eq!(rows[0].name, "Max");
    assert_eq!(rows[0].rarity_class, "rarity-epic");
    assert_eq!(rows[0].base, DriverStats { overtaking: 10, defending: 20, qualifying: 30, race_start: 40, tyre_management: 50 });
    assert_eq!(rows[0].boosted, DriverStats { overtaking: 15, defending: 30, qualifying: 45, race_start: 60, tyre_management: 75 });
    assert_eq!(rows[0].boost_pct, Some(50));
}

#[test]
fn setups_list_totals() {
    let mut s = empty_setup();
    assert_eq!(base_totals(&s, &[engine()], &[max()], &catalog(), &drivers_catalog()), (35, 0));
    s.engine_id = Some(5);
    s.driver1_id = Some(8);
    s.driver2_id = Some(8);
    assert_eq!(base_totals(&s, &[engine()], &[max()], &catalog(), &drivers_catalog()), (131, 300));
}

#[test]
fn part_sums_are_exact_up_to_the_i32_limit() {
    let mut s = empty_setup();
    s.engine_id = Some(5);
    let mut big = catalog();
    big[0].levels[0].speed = 2_000_000_000;
    // Far beyond ±1 000 000 the sum is still computed exactly.
    let st = try_part_stats(&s, &[engine()], &big, &[]).unwrap();
    assert_eq!(st.speed, 2_000_000_006);
    assert_eq!(compute_part_stats(&s, &[engine()], &big, &[]), st);
    // A boost past i32::MAX, or defaults pushed past it, are refused.
    let boosts = vec![Boost { id: 1, part_name: "Engine A".to_string(), percentage: 10 }];
    assert_eq!(try_part_stats(&s, &[engine()], &big, &boosts), None);
    big[0].levels[0].speed = 2_147_483_642;
    assert_eq!(try_part_stats(&s, &[engine()], &big, &[]), None);
}

#[test]
fn driver_sums_are_exact_and_refuse_overflow() {
    let mut s = empty_setup();
    assert_eq!(try_driver_stats(&s, &[max()], &drivers_catalog(), &[]), Some(DriverStats::default()));
    s.driver1_id = Some(9);
    let d = try_driver_stats(&s, &[max()], &drivers_catalog(), &[]).unwrap();
    assert_eq!(d, compute_driver_stats(&s, &[max()], &drivers_catalog(), &[]));
    let two = [max(), max()];
    let mut cat = drivers_catalog();
    cat[0].levels[0].overtaking = 1_500_000_000;
    assert_eq!(try_driver_stats(&s, &two, &cat, &[]), None);
}

#[test]
fn base_totals_refuse_overflow_only() {
    let mut s = empty_setup();
    s.engine_id = Some(5);
    let mut big = catalog();
    big[0].levels[0].speed = 2_147_483_600;
    // The speed sum with the defaults fits, but the total performance adds the other stats.
    assert_eq!(try_base_totals(&s, &[engine()], &[max()], &big, &drivers_catalog()), None);
    assert_eq!(try_base_totals(&s, &[engine()], &[max()], &catalog(), &drivers_catalog()), Some((131, 0)));
}

#[test]
fn driver_slot_check_looks_at_boosts() {
    let mut s = empty_setup();
    s.driver1_id = Some(8);
    let mut cat = drivers_catalog();
    cat[0].levels[0].overtaking = 2_000_000_000;
    let boosts = vec![DriverBoost { id: 1, driver_name: "Max".to_string(), rarity: "Epic".to_string(), percentage: 50 }];
    assert!(!driver_slots_in_range(&s, &[max()], &cat, &boosts));
    assert!(driver_slots_in_range(&s, &[max()], &cat, &[]));
    assert!(driver_slots_in_range(&empty_setup(), &[max()], &cat, &boosts));
}
