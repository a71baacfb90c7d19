use f1clash_setup::data::{calculate_upgrade, format_coins, max_level_for_rarity, StatPriorities};

// --- Upgrade calculator ---

#[test]
fn max_level_for_rarity_common() {
    assert_eq!(max_level_for_rarity("Common"), 11);
}

#[test]
fn max_level_for_rarity_rare() {
    assert_eq!(max_level_for_rarity("Rare"), 9);
}

#[test]
fn max_level_for_rarity_epic() {
    assert_eq!(max_level_for_rarity("Epic"), 8);
}

#[test]
fn calculate_upgrade_already_at_max() {
    let info = calculate_upgrade(8, 999, 1, "Epic", "2025");
    assert_eq!(info.reachable_level, 8);
    assert_eq!(info.coins_needed, 0);
}

#[test]
fn calculate_upgrade_no_cards() {
    let info = calculate_upgrade(1, 0, 1, "Common", "2025");
    assert_eq!(info.reachable_level, 1);
    assert_eq!(info.coins_needed, 0);
    assert_eq!(info.cards_to_next, 4); // need 4 cards for L1→L2
}

#[test]
fn calculate_upgrade_exact_cards_for_one_level() {
    // 4 cards = exactly enough for L1→L2, series 1 costs 2_000 coins
    let info = calculate_upgrade(1, 4, 1, "Common", "2025");
    assert_eq!(info.reachable_level, 2);
    assert_eq!(info.coins_needed, 2_000);
}

#[test]
fn calculate_upgrade_two_levels() {
    // 4 + 10 = 14 cards → L1→L2→L3, series 1: 2_000 + 8_000 = 10_000 coins
    let info = calculate_upgrade(1, 14, 1, "Common", "2025");
    assert_eq!(info.reachable_level, 3);
    assert_eq!(info.coins_needed, 10_000);
}

#[test]
fn calculate_upgrade_not_enough_for_next() {
    // Only 3 cards at L1 — need 4 for L1→L2
    let info = calculate_upgrade(1, 3, 1, "Common", "2025");
    assert_eq!(info.reachable_level, 1);
    assert_eq!(info.coins_needed, 0);
    assert_eq!(info.cards_to_next, 1);
}

#[test]
fn calculate_upgrade_series_2_costs() {
    // 4 cards at L1, series 2 costs 6_000 for L1→L2 in 2025
    let info = calculate_upgrade(1, 4, 2, "Common", "2025");
    assert_eq!(info.reachable_level, 2);
    assert_eq!(info.coins_needed, 6_000);
}

#[test]
fn format_coins_small() {
    assert_eq!(format_coins(500), "500");
}

#[test]
fn format_coins_thousands() {
    assert_eq!(format_coins(2_000), "2K");
}

#[test]
fn format_coins_millions() {
    assert_eq!(format_coins(1_250_000), "1.2M");
    assert_eq!(format_coins(1_750_000), "1.8M");
}

#[test]
fn format_coins_billions() {
    assert_eq!(format_coins(1_200_000_000), "1.2B");
}

// --- StatPriorities ---

#[test]
fn stat_priorities_any_selected_false_when_all_false() {
    assert!(!StatPriorities::default().any_selected());
}

#[test]
fn stat_priorities_any_selected_true_when_one_set() {
    assert!(StatPriorities { speed: true, ..Default::default() }.any_selected());
    assert!(StatPriorities { cornering: true, ..Default::default() }.any_selected());
    assert!(StatPriorities { power_unit: true, ..Default::default() }.any_selected());
    assert!(StatPriorities { qualifying: true, ..Default::default() }.any_selected());
}

#[test]
fn stat_priorities_labels_empty_when_none_selected() {
    assert!(StatPriorities::default().labels().is_empty());
}

#[test]
fn stat_priorities_labels_correct_order() {
    let p = StatPriorities { speed: true, cornering: true, power_unit: true, qualifying: true };
    assert_eq!(p.labels(), vec!["Speed", "Cornering", "Power Unit", "Qualifying"]);
}

#[test]
fn stat_priorities_labels_single() {
    let p = StatPriorities { qualifying: true, ..Default::default() };
    assert_eq!(p.labels(), vec!["Qualifying"]);
}
