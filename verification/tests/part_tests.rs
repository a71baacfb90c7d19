use f1clash_setup::data::StatPriorities;
use f1clash_setup::models::part::{OwnedLevelStats, OwnedPartDefinition, PartCategory, Stats};

// Pit stop times are given in hundredths of a second (100 = 1.00 s).
fn stats(
    speed: i32,
    cornering: i32,
    power_unit: i32,
    qualifying: i32,
    pit_stop_hundredths: i32,
    additional_stat_value: i32,
) -> Stats {
    Stats { speed, cornering, power_unit, qualifying, pit_stop_hundredths, additional_stat_value }
}

fn level_stats(level: i32, speed: i32, cornering: i32, power_unit: i32, qualifying: i32) -> OwnedLevelStats {
    OwnedLevelStats {
        level,
        speed,
        cornering,
        power_unit,
        qualifying,
        pit_stop_hundredths: 100,
        additional_stat_value: 0,
    }
}

fn part_def(levels: Vec<OwnedLevelStats>, additional_stat_name: Option<&str>, rarity: &str) -> OwnedPartDefinition {
    OwnedPartDefinition {
        id: 1,
        name: "Test".to_string(),
        season: "2025".to_string(),
        category: PartCategory::Engine,
        series: 1,
        rarity: rarity.to_string(),
        sort_order: 0,
        additional_stat_name: additional_stat_name.map(|s| s.to_string()),
        levels,
    }
}

#[test]
fn total_performance_sums_four_stats_and_pit_contribution() {
    // pit=1.00 → round(7 + 29*(7-1)) = 181
    let s = stats(10, 20, 30, 40, 100, 5);
    assert_eq!(s.total_performance(), 281);
}

#[test]
fn total_performance_includes_pit_stop_excludes_additional_stat() {
    // pit=7.00 (baseline) → 7 + 29*0 = 7
    let s = stats(0, 0, 0, 0, 700, 999);
    assert_eq!(s.total_performance(), 7);
    // pit=0.00 (fastest possible) → 7 + 29*7 = 210
    let s_fast = stats(0, 0, 0, 0, 0, 0);
    assert_eq!(s_fast.total_performance(), 210);
}

#[test]
fn part_add_combines_all_fields() {
    let a = stats(10, 20, 30, 40, 100, 5);
    let b = stats(1, 2, 3, 4, 50, 1);
    let c = a.add(&b);
    assert_eq!(c.speed, 11);
    assert_eq!(c.cornering, 22);
    assert_eq!(c.power_unit, 33);
    assert_eq!(c.qualifying, 44);
    assert_eq!(c.pit_stop_hundredths, 150);
    assert_eq!(c.additional_stat_value, 6);
}

#[test]
fn part_boosted_zero_percent_is_identity() {
    let s = stats(100, 50, 30, 20, 200, 7);
    let b = s.boosted(0);
    assert_eq!(b.speed, 100);
    assert_eq!(b.cornering, 50);
    assert_eq!(b.power_unit, 30);
    assert_eq!(b.qualifying, 20);
    assert_eq!(b.pit_stop_hundredths, 200);
    assert_eq!(b.additional_stat_value, 7);
}

#[test]
fn boosted_100_percent_doubles_performance_stats() {
    // pit stop: 2.00 - 0.70 * 1.0 = 1.30 (fixed 0.7 s reduction per 100 %)
    let s = stats(50, 40, 30, 20, 200, 5);
    let b = s.boosted(100);
    assert_eq!(b.speed, 100);
    assert_eq!(b.cornering, 80);
    assert_eq!(b.power_unit, 60);
    assert_eq!(b.qualifying, 40);
    assert_eq!(b.pit_stop_hundredths, 130);
    assert_eq!(b.additional_stat_value, 5); // unchanged
}

#[test]
fn boosted_10_percent_ceils_small_bonus_and_reduces_pit_by_0_07s() {
    // Integer stats: 3 * 10% = 0.3 → ceil = 1, so 3 + 1 = 4
    // Pit stop:      0.81 - 0.7 * 0.1 = 0.81 - 0.07 = 0.74
    let s = stats(3, 0, 0, 0, 81, 0);
    let b = s.boosted(10);
    assert_eq!(b.speed, 4);
    assert_eq!(b.pit_stop_hundredths, 74);
}

#[test]
fn part_boosted_50_percent_ceils_bonus() {
    let s = stats(3, 0, 0, 0, 100, 0);
    let b = s.boosted(50);
    assert_eq!(b.speed, 5); // 3 + ceil(1.5) = 3 + 2 = 5
}

#[test]
fn boosted_additional_stat_is_always_unchanged() {
    let s = stats(100, 100, 100, 100, 100, 42);
    assert_eq!(s.boosted(25).additional_stat_value, 42);
    assert_eq!(s.boosted(100).additional_stat_value, 42);
}

// --- OwnedLevelStats ---

#[test]
fn owned_level_stats_total_performance_sums_four_stats_and_pit_contribution() {
    // pit=1.00 (baseline per part) → round(1 + 0) = 1
    let ls = level_stats(1, 10, 20, 30, 40);
    assert_eq!(ls.total_performance(), 101);
}

#[test]
fn owned_level_stats_total_performance_includes_pit_stop_excludes_additional_stat() {
    // pit=1.00 baseline → contribution = 1; additional_stat excluded
    let mut ls = level_stats(1, 0, 0, 0, 0);
    ls.additional_stat_value = 999;
    assert_eq!(ls.total_performance(), 1);
}

#[test]
fn owned_level_stats_priority_score_no_priorities() {
    let ls = level_stats(1, 10, 20, 30, 40);
    assert_eq!(ls.priority_score(&StatPriorities::default()), 0);
}

#[test]
fn owned_level_stats_priority_score_all_priorities() {
    let ls = level_stats(1, 10, 20, 30, 40);
    let p = StatPriorities { speed: true, cornering: true, power_unit: true, qualifying: true };
    // priority_score sums only the selected stats, not pit stop
    assert_eq!(ls.priority_score(&p), 100);
}

#[test]
fn owned_level_stats_priority_score_partial() {
    let ls = level_stats(1, 10, 20, 30, 40);
    let p = StatPriorities { speed: true, qualifying: true, ..Default::default() };
    assert_eq!(ls.priority_score(&p), 50); // 10 + 40
}

// --- OwnedPartDefinition ---

#[test]
fn stats_for_level_found() {
    let part = part_def(vec![level_stats(1, 5, 5, 5, 5), level_stats(2, 10, 10, 10, 10)], None, "Common");
    assert!(part.stats_for_level(1).is_some());
    assert_eq!(part.stats_for_level(1).unwrap().level, 1);
    assert_eq!(part.stats_for_level(2).unwrap().speed, 10);
}

#[test]
fn stats_for_level_not_found() {
    let part = part_def(vec![level_stats(1, 5, 5, 5, 5)], None, "Common");
    assert!(part.stats_for_level(99).is_none());
}

#[test]
fn max_level_returns_last() {
    let part = part_def(
        vec![level_stats(1, 0, 0, 0, 0), level_stats(5, 0, 0, 0, 0), level_stats(8, 0, 0, 0, 0)],
        None,
        "Rare",
    );
    assert_eq!(part.max_level(), 8);
}

#[test]
fn max_level_empty_returns_1() {
    let part = part_def(vec![], None, "Common");
    assert_eq!(part.max_level(), 1);
}

#[test]
fn rarity_css_class_common() {
    assert_eq!(part_def(vec![], None, "Common").rarity_css_class(), "rarity-common");
}

#[test]
fn rarity_css_class_rare() {
    assert_eq!(part_def(vec![], None, "Rare").rarity_css_class(), "rarity-rare");
}

#[test]
fn rarity_css_class_epic() {
    assert_eq!(part_def(vec![], None, "Epic").rarity_css_class(), "rarity-epic");
}

#[test]
fn rarity_css_class_unknown_falls_back_to_common() {
    assert_eq!(part_def(vec![], None, "Legendary").rarity_css_class(), "rarity-common");
}

#[test]
fn additional_stat_name_is_none_by_default() {
    let part = part_def(vec![], None, "Common");
    assert!(part.additional_stat_name.is_none());
}

#[test]
fn additional_stat_name_is_some_when_set() {
    let part = part_def(vec![], Some("Overtake Mode"), "Epic");
    assert_eq!(part.additional_stat_name.as_deref(), Some("Overtake Mode"));
}

// --- PartCategory::Battery ---

#[test]
fn battery_slug_is_battery() {
    assert_eq!(PartCategory::Battery.slug(), "battery");
}

#[test]
fn battery_display_name_is_battery() {
    assert_eq!(PartCategory::Battery.display_name(), "Battery");
}

#[test]
fn part_category_all_contains_all_variants() {
    let all = PartCategory::all();
    assert!(all.contains(&PartCategory::Engine));
    assert!(all.contains(&PartCategory::FrontWing));
    assert!(all.contains(&PartCategory::RearWing));
    assert!(all.contains(&PartCategory::Suspension));
    assert!(all.contains(&PartCategory::Brakes));
    assert!(all.contains(&PartCategory::Gearbox));
    assert!(all.contains(&PartCategory::Battery));
    assert_eq!(all.len(), 7);
}

#[test]
fn part_category_display_name_and_slug_are_consistent() {
    for cat in PartCategory::all() {
        assert!(!cat.display_name().is_empty());
        assert!(!cat.slug().is_empty());
    }
}

#[test]
fn owned_level_pit_points_use_the_corrected_multiplier() {
    let l = OwnedLevelStats {
        level: 1,
        speed: 0,
        cornering: 0,
        power_unit: 0,
        qualifying: 0,
        pit_stop_hundredths: 50,
        additional_stat_value: 0,
    };
    // round(1 + 29 * (1.0 - 0.5)) = round(15.5) = 16
    assert_eq!(l.total_performance(), 16);
    let slow = OwnedLevelStats { pit_stop_hundredths: 130, ..l };
    // 1 + 29 * (1.0 - 1.3) = -7.7 → -8
    assert_eq!(slow.total_performance(), -8);
}
