use f1clash_setup::models::part::PartCategory;
use f1clash_setup::optimizer_core::run_brute_force;
use f1clash_setup::optimizer_core::prune_category;
use f1clash_setup::data::StatPriorities;
use f1clash_setup::models::driver::DriverStats;
use f1clash_setup::models::part::Stats;
use f1clash_setup::optimizer_core::{score_part_combo, DriverPriorities};

fn ds(
    overtaking: i32,
    defending: i32,
    qualifying: i32,
    race_start: i32,
    tyre_management: i32,
) -> DriverStats {
    DriverStats { overtaking, defending, qualifying, race_start, tyre_management }
}

fn part_stats(speed: i32, cornering: i32, power_unit: i32, qualifying: i32) -> Stats {
    Stats { speed, cornering, power_unit, qualifying, pit_stop_hundredths: 100, additional_stat_value: 0 }
}

#[test]
fn driver_priorities_any_selected_false_when_all_false() {
    assert!(!DriverPriorities::default().any_selected());
}

#[test]
fn driver_priorities_any_selected_true_for_each_field() {
    assert!(DriverPriorities { overtaking: true, ..Default::default() }.any_selected());
    assert!(DriverPriorities { defending: true, ..Default::default() }.any_selected());
    assert!(DriverPriorities { qualifying: true, ..Default::default() }.any_selected());
    assert!(DriverPriorities { race_start: true, ..Default::default() }.any_selected());
    assert!(DriverPriorities { tyre_management: true, ..Default::default() }.any_selected());
}

#[test]
fn driver_priorities_labels_empty_when_none_selected() {
    assert!(DriverPriorities::default().labels().is_empty());
}

#[test]
fn driver_priorities_labels_correct_order() {
    let p = DriverPriorities {
        overtaking: true,
        defending: true,
        qualifying: true,
        race_start: true,
        tyre_management: true,
    };
    assert_eq!(p.labels(), vec!["Overtaking", "Defending", "Qualifying", "Race Start", "Tyre Mgmt"]);
}

#[test]
fn driver_score_no_priorities_returns_total_twice() {
    let stats = ds(10, 20, 30, 40, 50);
    let p = DriverPriorities::default();
    assert_eq!(p.score(&stats), (150, 150));
}

#[test]
fn driver_score_single_priority_returns_that_stat_twice() {
    let stats = ds(10, 20, 30, 40, 50);
    let p = DriverPriorities { overtaking: true, ..Default::default() };
    assert_eq!(p.score(&stats), (10, 10));
}

#[test]
fn driver_score_multiple_priorities_returns_min_and_sum() {
    let stats = ds(10, 20, 30, 40, 50);
    let p = DriverPriorities { overtaking: true, defending: true, ..Default::default() };
    assert_eq!(p.score(&stats), (10, 30));
}

#[test]
fn driver_score_prefers_higher_min_first() {
    let high_min = ds(15, 15, 0, 0, 0);
    let low_min = ds(10, 20, 0, 0, 0);
    let p = DriverPriorities { overtaking: true, defending: true, ..Default::default() };
    let s_high = p.score(&high_min);
    let s_low = p.score(&low_min);
    assert!(s_high > s_low);
}

#[test]
fn score_part_combo_speed_only_returns_speed_twice() {
    let stats = part_stats(50, 20, 10, 5);
    let p = StatPriorities { speed: true, ..Default::default() };
    assert_eq!(score_part_combo(&stats, &p), (50, 50));
}

#[test]
fn score_part_combo_multiple_priorities_returns_min_and_sum() {
    let stats = part_stats(100, 50, 0, 0);
    let p = StatPriorities { speed: true, cornering: true, ..Default::default() };
    assert_eq!(score_part_combo(&stats, &p), (50, 150));
}

#[test]
fn score_part_combo_all_priorities_matches_total_when_equal_stats() {
    let stats = part_stats(25, 25, 25, 25);
    let p = StatPriorities { speed: true, cornering: true, power_unit: true, qualifying: true };
    assert_eq!(score_part_combo(&stats, &p), (25, 100));
}

#[test]
fn score_part_combo_no_priorities_returns_total_performance_twice() {
    // pit=1.0 → round(7 + 29*(7-1)) = 181; total = 100 + 181 = 281
    let stats = part_stats(10, 20, 30, 40);
    let p = StatPriorities::default();
    assert_eq!(score_part_combo(&stats, &p), (281, 281));
}

fn resolved(id: i32, stats: Stats) -> f1clash_setup::optimizer_core::ResolvedPart {
    f1clash_setup::optimizer_core::ResolvedPart {
        item: f1clash_setup::models::setup::InventoryItem {
            id,
            part_name: format!("P{}", id),
            level: 1,
            cards_owned: 0,
        },
        stats,
        rarity_css_class: "rarity-common",
    }
}

fn zero_stats() -> Stats {
    Stats { speed: 0, cornering: 0, power_unit: 0, qualifying: 0, pit_stop_hundredths: 0, additional_stat_value: 0 }
}

#[test]
fn equal_scores_are_broken_by_total_performance() {
    let a = resolved(1, Stats { speed: 10, ..zero_stats() });
    let b = resolved(2, Stats { speed: 10, cornering: 5, ..zero_stats() });
    assert_eq!(a.stats.total_performance(), 220);
    assert_eq!(b.stats.total_performance(), 225);
    let pools = vec![vec![a, b]];
    let prios = StatPriorities { speed: true, ..Default::default() };
    let r = run_brute_force(&pools, &[PartCategory::Engine], &[(None, None)], &[], &prios, &DriverPriorities::default())
        .unwrap();
    assert_eq!(r.part_picks[0].1.id, 2);
}

#[test]
fn equal_ranks_keep_the_first_combination() {
    let a = resolved(1, Stats { speed: 10, ..zero_stats() });
    let b = resolved(2, Stats { speed: 10, ..zero_stats() });
    let pools = vec![vec![a, b]];
    let prios = StatPriorities { speed: true, ..Default::default() };
    let r = run_brute_force(&pools, &[PartCategory::Engine], &[(None, None)], &[], &prios, &DriverPriorities::default())
        .unwrap();
    assert_eq!(r.part_picks[0].1.id, 1);
}

#[test]
fn pruning_keeps_the_ten_highest_totals_highest_first() {
    let parts: Vec<_> = (1..=12).map(|i| resolved(i, Stats { speed: i * 3 % 13, ..zero_stats() })).collect();
    let totals: Vec<i32> = parts.iter().map(|p| p.stats.speed).collect();
    let kept = prune_category(parts);
    assert_eq!(kept.len(), 10);
    let kept_speeds: Vec<i32> = kept.iter().map(|p| p.stats.speed).collect();
    let mut expected = totals.clone();
    expected.sort_by(|a, b| b.cmp(a));
    expected.truncate(10);
    assert_eq!(kept_speeds, expected);
}

#[test]
fn pruning_keeps_small_pools_and_orders_ties_by_position() {
    let parts = vec![
        resolved(1, Stats { speed: 5, ..zero_stats() }),
        resolved(2, Stats { speed: 9, ..zero_stats() }),
        resolved(3, Stats { speed: 5, ..zero_stats() }),
    ];
    let kept = prune_category(parts);
    let ids: Vec<i32> = kept.iter().map(|p| p.item.id).collect();
    assert_eq!(ids, vec![2, 1, 3]);
    assert!(prune_category(Vec::new()).is_empty());
}
