use f1clash_setup::display::{fmt_delta, fmt_pit_delta};

#[test]
fn delta_has_a_plus_only_when_positive() {
    assert_eq!(fmt_delta(3), "+3");
    assert_eq!(fmt_delta(-2), "-2");
    assert_eq!(fmt_delta(0), "0");
    assert_eq!(fmt_delta(i32::MAX), "+2147483647");
    assert_eq!(fmt_delta(i32::MIN), "-2147483648");
}

#[test]
fn pit_delta_in_seconds_with_two_decimals() {
    assert_eq!(fmt_pit_delta(-5), "-0.05");
    assert_eq!(fmt_pit_delta(10), "+0.10");
    assert_eq!(fmt_pit_delta(0), "0.00");
    assert_eq!(fmt_pit_delta(-120), "-1.20");
    assert_eq!(fmt_pit_delta(1234), "+12.34");
    assert_eq!(fmt_pit_delta(i32::MIN), "-21474836.48");
}

use f1clash_setup::display::{driver_upgrade_tag, part_upgrade_tag, UpgradeTag};
use f1clash_setup::models::driver::{OwnedDriverDefinition, OwnedDriverLevelStats};
use f1clash_setup::models::part::{OwnedPartDefinition, PartCategory};

fn part(rarity: &str, series: i32) -> OwnedPartDefinition {
    OwnedPartDefinition {
        id: 1,
        name: "P".to_string(),
        season: "2025".to_string(),
        category: PartCategory::Engine,
        series,
        rarity: rarity.to_string(),
        sort_order: 0,
        additional_stat_name: None,
        levels: vec![],
    }
}

fn driver(max_level: i32) -> OwnedDriverDefinition {
    OwnedDriverDefinition {
        id: 1,
        name: "D".to_string(),
        season: "2025".to_string(),
        rarity: "Common".to_string(),
        series: "1".to_string(),
        sort_order: 0,
        levels: (1..=max_level)
            .map(|level| OwnedDriverLevelStats {
                level,
                overtaking: 0,
                defending: 0,
                qualifying: 0,
                race_start: 0,
                tyre_management: 0,
                cards_required: 0,
                coins_cost: 0,
                legacy_points: 0,
            })
            .collect(),
    }
}

#[test]
fn part_tag_hidden_without_catalog_or_cards() {
    assert_eq!(part_upgrade_tag(1, 10, None, "2025"), UpgradeTag::Hidden);
    assert_eq!(part_upgrade_tag(1, 0, Some(&part("Common", 1)), "2025"), UpgradeTag::Hidden);
}

#[test]
fn part_tag_max_at_rarity_cap() {
    assert_eq!(part_upgrade_tag(8, 100, Some(&part("Epic", 1)), "2025"), UpgradeTag::Max);
    assert_eq!(part_upgrade_tag(9, 0, Some(&part("Rare", 1)), "2025"), UpgradeTag::Max);
}

#[test]
fn part_tag_reachable_or_missing_cards() {
    let p = part("Common", 1);
    let info = f1clash_setup::data::calculate_upgrade(1, 14, 1, "Common", "2025");
    assert_eq!(info.reachable_level, 3);
    assert_eq!(
        part_upgrade_tag(1, 14, Some(&p), "2025"),
        UpgradeTag::Reachable { level: 3, coins: Some(info.coins_needed) }
    );
    assert_eq!(part_upgrade_tag(1, 3, Some(&p), "2025"), UpgradeTag::Need { cards: 1 });
}

#[test]
fn driver_tag_follows_the_card_walk() {
    let d = driver(5);
    assert_eq!(driver_upgrade_tag(5, 10, Some(&d)), UpgradeTag::Max);
    assert_eq!(driver_upgrade_tag(2, 0, Some(&d)), UpgradeTag::Hidden);
    assert_eq!(driver_upgrade_tag(2, 30, Some(&d)), UpgradeTag::Reachable { level: 4, coins: None });
    assert_eq!(driver_upgrade_tag(2, 9, Some(&d)), UpgradeTag::Need { cards: 1 });
    assert_eq!(driver_upgrade_tag(2, 9, None), UpgradeTag::Hidden);
}
