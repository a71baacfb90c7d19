use f1clash_setup::data::calculate_upgrade;
use f1clash_setup::display::labels_or;
use f1clash_setup::models::driver::DriverStats;
use f1clash_setup::setup_stats::setup_score;
use f1clash_setup::share::reuse_or_insert;
use f1clash_setup::bulk::boost_form_entries;
use f1clash_setup::forms::AdvisorQuery;
use f1clash_setup::models::driver::{DriverBoost, OwnedDriverDefinition, OwnedDriverLevelStats};
use f1clash_setup::models::part::{OwnedLevelStats, OwnedPartDefinition, PartCategory, Stats};
use f1clash_setup::models::setup::{Boost, InventoryItem};
use f1clash_setup::optimize::combos_fit;
use f1clash_setup::optimizer_core::ResolvedPart;
use f1clash_setup::resolve::{boosts_in_range, catalog_in_range, driver_boosts_in_range, driver_catalog_in_range};
use f1clash_setup::share::{sort_parts_by_name, PartSnapshot};
use f1clash_setup::upgrade_advisor::{advisor_inputs_valid, inventory_within_series};

fn lvl(speed: i32) -> OwnedLevelStats {
    OwnedLevelStats { level: 1, speed, cornering: 0, power_unit: 0, qualifying: 0, pit_stop_hundredths: 100, additional_stat_value: 0 }
}

fn part(name: &str, series: i32, speed: i32) -> OwnedPartDefinition {
    OwnedPartDefinition {
        id: 1,
        name: name.to_string(),
        season: "2025".to_string(),
        category: PartCategory::Engine,
        series,
        rarity: "Common".to_string(),
        sort_order: 0,
        additional_stat_name: None,
        levels: vec![lvl(speed)],
    }
}

fn driver(name: &str, rarity: &str, overtaking: i32) -> OwnedDriverDefinition {
    OwnedDriverDefinition {
        id: 1,
        name: name.to_string(),
        season: "2025".to_string(),
        rarity: rarity.to_string(),
        series: "1".to_string(),
        sort_order: 0,
        levels: vec![OwnedDriverLevelStats {
            level: 1,
            overtaking,
            defending: 0,
            qualifying: 0,
            race_start: 0,
            tyre_management: 0,
            cards_required: 0,
            coins_cost: 0,
            legacy_points: 0,
        }],
    }
}

fn item(id: i32, name: &str) -> InventoryItem {
    InventoryItem { id, part_name: name.to_string(), level: 1, cards_owned: 0 }
}

fn rp(id: i32) -> ResolvedPart {
    ResolvedPart {
        item: item(id, "P"),
        stats: Stats { speed: 1, cornering: 1, power_unit: 1, qualifying: 1, pit_stop_hundredths: 100, additional_stat_value: 0 },
        rarity_css_class: "rarity-common",
    }
}

fn field(k: &str, v: &str) -> (String, String) {
    (k.to_string(), v.to_string())
}

#[test]
fn boost_form_keeps_known_non_zero_boosts() {
    let catalog = vec![part("Engine A", 1, 1)];
    let drivers = vec![driver("Max", "Epic", 1)];
    let form = vec![
        field("part:Engine A", "10"),
        field("part:Engine A", "0"),
        field("part:Nope", "5"),
        field("driver:Max:Epic", "-20"),
        field("driver:Max:Rare", "20"),
        field("driver:Max:Epic", "x"),
    ];
    let (parts, ds) = boost_form_entries(&form, &catalog, &drivers, "2025");
    assert_eq!(parts, vec![("Engine A".to_string(), 10)]);
    assert_eq!(ds, vec![("Max".to_string(), "Epic".to_string(), -20)]);
}

#[test]
fn range_checks() {
    assert!(catalog_in_range(&[part("A", 1, 1_000_000)]));
    assert!(!catalog_in_range(&[part("A", 1, 1_000_001)]));
    assert!(driver_catalog_in_range(&[driver("M", "Epic", -1_000_000)]));
    assert!(!driver_catalog_in_range(&[driver("M", "Epic", -1_000_001)]));
    assert!(boosts_in_range(&[Boost { id: 1, part_name: "A".to_string(), percentage: 1000 }]));
    assert!(!boosts_in_range(&[Boost { id: 1, part_name: "A".to_string(), percentage: -1001 }]));
    let db = |p: i32| DriverBoost { id: 1, driver_name: "M".to_string(), rarity: "Epic".to_string(), percentage: p };
    assert!(driver_boosts_in_range(&[db(-1000)]));
    assert!(!driver_boosts_in_range(&[db(1001)]));
}

#[test]
fn combination_counts() {
    assert!(combos_fit(&[vec![rp(1), rp(2)], vec![rp(3)]]));
    assert!(combos_fit(&[]));
    assert!(combos_fit(&[vec![], vec![rp(1)]]));
}

#[test]
fn advisor_series_filter_and_inputs() {
    let catalog = vec![part("Low", 2, 1), part("High", 9, 1)];
    let inv = vec![item(1, "Low"), item(2, "High"), item(3, "Unknown")];
    let kept: Vec<i32> = inventory_within_series(&inv, &catalog, 5).iter().map(|i| i.id).collect();
    assert_eq!(kept, vec![1]);
    let pools = vec![vec![rp(1)]];
    assert!(advisor_inputs_valid(&pools, &[PartCategory::Engine], &catalog, &inv, &[]));
    assert!(!advisor_inputs_valid(&pools, &[], &catalog, &inv, &[]));
    let q = AdvisorQuery { speed: true, cornering: false, power_unit: false, qualifying: true, max_part_series: None };
    assert_eq!(q.part_series_limit(), 12);
    let p = q.priorities();
    assert!(p.speed && p.qualifying && !p.cornering && !p.power_unit);
}

fn snap(name: &str, total: i32) -> PartSnapshot {
    PartSnapshot {
        category: "Engine".to_string(),
        part_name: name.to_string(),
        level: 1,
        rarity: "Common".to_string(),
        speed: 0,
        cornering: 0,
        power_unit: 0,
        qualifying: 0,
        pit_stop_hundredths: 0,
        total,
    }
}

#[test]
fn sorted_snapshot_ignores_input_order() {
    let a = vec![snap("Gamma", 3), snap("Alpha", 1), snap("Beta", 2)];
    let b = vec![snap("Beta", 2), snap("Gamma", 3), snap("Alpha", 1)];
    let sa: Vec<(String, i32)> = sort_parts_by_name(&a).into_iter().map(|p| (p.part_name, p.total)).collect();
    let sb: Vec<(String, i32)> = sort_parts_by_name(&b).into_iter().map(|p| (p.part_name, p.total)).collect();
    assert_eq!(sa, sb);
    assert_eq!(sa[0].0, "Alpha");
}

#[test]
fn setup_score_adds_part_and_driver_totals() {
    let parts = Stats { speed: 10, cornering: 20, power_unit: 30, qualifying: 40, pit_stop_hundredths: 100, additional_stat_value: 9 };
    let drivers = DriverStats { overtaking: 1, defending: 2, qualifying: 3, race_start: 4, tyre_management: 5 };
    assert_eq!(setup_score(&parts, &drivers), 281 + 15);
}

#[test]
fn labels_or_joins_or_falls_back() {
    assert_eq!(labels_or(&vec![], "Total performance"), "Total performance");
    assert_eq!(labels_or(&vec!["Speed", "Cornering"], "x"), "Speed, Cornering");
}

#[test]
fn resharing_reuses_the_stored_link() {
    assert_eq!(reuse_or_insert(Some("abc".to_string()), String::new()), ("abc".to_string(), false));
    assert_eq!(reuse_or_insert(None, "fresh".to_string()), ("fresh".to_string(), true));
}

#[test]
fn more_cards_never_need_fewer_coins() {
    let mut prev = calculate_upgrade(1, 0, 1, "Rare", "2025");
    for cards in [10, 50, 100, 200, 500, 1000, 5000] {
        let next = calculate_upgrade(1, cards, 1, "Rare", "2025");
        assert!(prev.reachable_level <= next.reachable_level);
        assert!(prev.coins_needed <= next.coins_needed);
        prev = next;
    }
}
