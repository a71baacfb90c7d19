use f1clash_setup::resolve::pool_boosts_in_range;
use f1clash_setup::resolve::driver_pool_boosts_in_range;
use f1clash_setup::models::driver::{DriverBoost, DriverInventoryItem, DriverStats, OwnedDriverDefinition, OwnedDriverLevelStats};
use f1clash_setup::models::part::{OwnedLevelStats, OwnedPartDefinition, PartCategory, Stats};
use f1clash_setup::models::setup::{Boost, InventoryItem};
use f1clash_setup::resolve::{
    find_boost, find_def, find_driver_boost, find_driver_index, inventory_by_category, resolve_driver_stats,
    resolve_drivers, resolve_part_stats, resolve_parts,
};

fn lvl(level: i32) -> OwnedLevelStats {
    OwnedLevelStats {
        level,
        speed: 10,
        cornering: 20,
        power_unit: 30,
        qualifying: 40,
        pit_stop_hundredths: 100,
        additional_stat_value: 0,
    }
}

fn part(name: &str, category: PartCategory, series: i32) -> OwnedPartDefinition {
    OwnedPartDefinition {
        id: 1,
        name: name.to_string(),
        season: "2025".to_string(),
        category,
        series,
        rarity: "Epic".to_string(),
        sort_order: 0,
        additional_stat_name: None,
        levels: vec![lvl(1), lvl(2)],
    }
}

fn item(id: i32, name: &str, level: i32) -> InventoryItem {
    InventoryItem { id, part_name: name.to_string(), level, cards_owned: 0 }
}

fn catalog() -> Vec<OwnedPartDefinition> {
    vec![
        part("Engine A", PartCategory::Engine, 1),
        part("Engine B", PartCategory::Engine, 3),
        part("Brake A", PartCategory::Brakes, 1),
    ]
}

fn dlvl(level: i32) -> OwnedDriverLevelStats {
    OwnedDriverLevelStats {
        level,
        overtaking: 10,
        defending: 20,
        qualifying: 30,
        race_start: 40,
        tyre_management: 50,
        cards_required: 0,
        coins_cost: 0,
        legacy_points: 0,
    }
}

fn driver(name: &str, rarity: &str, series: &str) -> OwnedDriverDefinition {
    OwnedDriverDefinition {
        id: 1,
        name: name.to_string(),
        season: "2025".to_string(),
        rarity: rarity.to_string(),
        series: series.to_string(),
        sort_order: 0,
        levels: vec![dlvl(1)],
    }
}

fn ditem(id: i32, name: &str, rarity: &str, level: i32) -> DriverInventoryItem {
    DriverInventoryItem { id, driver_name: name.to_string(), rarity: rarity.to_string(), level, cards_owned: 0 }
}

#[test]
fn lookups_return_the_first_match() {
    let c = catalog();
    assert_eq!(find_def(&c, &"Brake A".to_string()), Some(2));
    assert_eq!(find_def(&c, &"Nope".to_string()), None);
    let b = vec![
        Boost { id: 1, part_name: "Engine A".to_string(), percentage: 10 },
        Boost { id: 2, part_name: "Engine A".to_string(), percentage: 20 },
    ];
    assert_eq!(find_boost(&b, &"Engine A".to_string()), Some(0));
    assert_eq!(find_boost(&b, &"Brake A".to_string()), None);
}

#[test]
fn part_stats_apply_the_boost() {
    let c = catalog();
    let b = vec![Boost { id: 1, part_name: "Engine A".to_string(), percentage: 10 }];
    let r = resolve_part_stats(&c, &b, &item(1, "Engine A", 2)).unwrap();
    assert_eq!(r.0, 0);
    assert_eq!(
        r.1,
        Stats { speed: 11, cornering: 22, power_unit: 33, qualifying: 44, pit_stop_hundredths: 93, additional_stat_value: 0 }
    );
    let plain = resolve_part_stats(&c, &b, &item(2, "Brake A", 1)).unwrap();
    assert_eq!(plain.1.speed, 10);
    assert_eq!(plain.1.pit_stop_hundredths, 100);
}

#[test]
fn part_stats_need_a_known_part_and_level() {
    let c = catalog();
    assert!(resolve_part_stats(&c, &[], &item(1, "Engine A", 3)).is_none());
    assert!(resolve_part_stats(&c, &[], &item(1, "Unknown", 1)).is_none());
}

#[test]
fn pools_filter_by_category_and_series_with_a_stand_in() {
    let c = catalog();
    let items = vec![item(1, "Engine A", 1), item(2, "Engine B", 1), item(3, "Brake A", 9), item(4, "Brake A", 2)];
    let pools = resolve_parts(&c, &items, &[], &[PartCategory::Engine, PartCategory::Brakes, PartCategory::Gearbox], 2);
    assert_eq!(pools.len(), 3);
    let ids: Vec<i32> = pools[0].iter().map(|p| p.item.id).collect();
    assert_eq!(ids, vec![1]);
    assert_eq!(pools[0][0].rarity_css_class, "rarity-epic");
    let ids: Vec<i32> = pools[1].iter().map(|p| p.item.id).collect();
    assert_eq!(ids, vec![4]);
    assert_eq!(pools[2].len(), 1);
    assert_eq!(pools[2][0].item.part_name, "(no Gearbox)");
    assert_eq!(pools[2][0].item.id, 0);
    assert_eq!(
        pools[2][0].stats,
        Stats { speed: 1, cornering: 1, power_unit: 1, qualifying: 1, pit_stop_hundredths: 100, additional_stat_value: 0 }
    );
    assert_eq!(pools[2][0].rarity_css_class, "secondary");
}

#[test]
fn driver_lookups_use_name_and_rarity() {
    let dc = vec![driver("Max", "Epic", "1"), driver("Max", "Rare", "1")];
    assert_eq!(find_driver_index(&dc, &"Max".to_string(), &"Rare".to_string()), Some(1));
    assert_eq!(find_driver_index(&dc, &"Max".to_string(), &"Common".to_string()), None);
    let b = vec![DriverBoost { id: 1, driver_name: "Max".to_string(), rarity: "Rare".to_string(), percentage: 50 }];
    assert_eq!(find_driver_boost(&b, &"Max".to_string(), &"Rare".to_string()), Some(0));
    assert_eq!(find_driver_boost(&b, &"Max".to_string(), &"Epic".to_string()), None);
    let (d, s) = resolve_driver_stats(&dc, &b, &ditem(1, "Max", "Rare", 1)).unwrap();
    assert_eq!(d, 1);
    assert_eq!(s, DriverStats { overtaking: 15, defending: 30, qualifying: 45, race_start: 60, tyre_management: 75 });
}

#[test]
fn driver_pool_filters_series_and_unknown() {
    let dc = vec![driver("Max", "Epic", "2"), driver("Lando", "Rare", "5"), driver("Odd", "Rare", "x")];
    let items = vec![
        ditem(1, "Max", "Epic", 1),
        ditem(2, "Lando", "Rare", 1),
        ditem(3, "Odd", "Rare", 1),
        ditem(4, "Max", "Epic", 2),
        ditem(5, "Ghost", "Epic", 1),
    ];
    let ids: Vec<i32> = resolve_drivers(&items, &dc, &[], 4).iter().map(|d| d.item.id).collect();
    assert_eq!(ids, vec![1]);
    let ids: Vec<i32> = resolve_drivers(&items, &dc, &[], i32::MAX).iter().map(|d| d.item.id).collect();
    assert_eq!(ids, vec![1, 2, 3]);
}

#[test]
fn inventory_is_grouped_by_category() {
    let c = catalog();
    let items = vec![item(1, "Brake A", 1), item(2, "Engine A", 2), item(3, "Engine B", 7), item(4, "Engine B", 1)];
    let g = inventory_by_category(&items, &c, &[PartCategory::Engine, PartCategory::Brakes, PartCategory::Battery]);
    assert_eq!(g.len(), 3);
    assert_eq!(g[0].0, PartCategory::Engine);
    let ids: Vec<i32> = g[0].1.iter().map(|(i, _)| i.id).collect();
    assert_eq!(ids, vec![2, 4]);
    assert_eq!(g[0].1[0].1, lvl(2));
    assert_eq!(g[1].0, PartCategory::Brakes);
    assert_eq!(g[1].1.len(), 1);
    assert_eq!(g[2].0, PartCategory::Battery);
    assert!(g[2].1.is_empty());
}

#[test]
fn resolve_parts_caps_each_pool_at_ten_best_totals() {
    let mut c = Vec::new();
    let mut items = Vec::new();
    for i in 1..=12 {
        let name = format!("Engine {}", i);
        let mut d = part(&name, PartCategory::Engine, 1);
        d.levels = vec![OwnedLevelStats { speed: i, ..lvl(1) }];
        c.push(d);
        items.push(item(i, &name, 1));
    }
    let pools = resolve_parts(&c, &items, &[], &[PartCategory::Engine], 5);
    assert_eq!(pools.len(), 1);
    assert_eq!(pools[0].len(), 10);
    let ids: Vec<i32> = pools[0].iter().map(|p| p.item.id).collect();
    assert_eq!(ids, vec![12, 11, 10, 9, 8, 7, 6, 5, 4, 3]);
}

#[test]
fn pool_boost_check_is_exact() {
    let mut big = part("Engine A", PartCategory::Engine, 1);
    big.levels = vec![OwnedLevelStats { speed: 2_000_000_000, ..lvl(1) }];
    let c = vec![big, part("Brake A", PartCategory::Brakes, 1)];
    let items = vec![item(1, "Engine A", 1), item(2, "Brake A", 1)];
    let boosts = vec![Boost { id: 1, part_name: "Engine A".to_string(), percentage: 50 }];
    // The engine's boost overflows, but only where the engine is pooled.
    assert!(!pool_boosts_in_range(&c, &boosts, &items, &[PartCategory::Engine], 5));
    assert!(pool_boosts_in_range(&c, &boosts, &items, &[PartCategory::Brakes], 5));
    assert!(pool_boosts_in_range(&c, &boosts, &items, &[PartCategory::Engine], 0));
    let small = vec![Boost { id: 1, part_name: "Engine A".to_string(), percentage: 5 }];
    assert!(pool_boosts_in_range(&c, &small, &items, &[PartCategory::Engine], 5));
    // A catalog far beyond the old ±1 000 000 range still resolves.
    let pools = resolve_parts(&c, &items, &small, &[PartCategory::Engine], 5);
    assert_eq!(pools[0][0].stats.speed, 2_100_000_000);
}

#[test]
fn driver_boost_check_only_counts_drivers_in_series() {
    let mut big = driver("Max", "Epic", "2");
    big.levels[0].overtaking = 2_000_000_000;
    let dc = vec![big, driver("Lando", "Rare", "5")];
    let items = vec![ditem(1, "Max", "Epic", 1), ditem(2, "Lando", "Rare", 1)];
    let boosts = vec![DriverBoost { id: 1, driver_name: "Max".to_string(), rarity: "Epic".to_string(), percentage: 50 }];
    assert!(!driver_pool_boosts_in_range(&dc, &boosts, &items, 5));
    assert!(driver_pool_boosts_in_range(&dc, &boosts, &items, 1));
    assert!(driver_pool_boosts_in_range(&dc, &[], &items, 5));
    let pool = resolve_drivers(&items, &dc, &[], 5);
    assert_eq!(pool[0].stats.overtaking, 2_000_000_000);
}
