use f1clash_setup::data::calculate_upgrade;
use f1clash_setup::data::StatPriorities;
use f1clash_setup::models::part::{OwnedLevelStats, OwnedPartDefinition, PartCategory, Stats};
use f1clash_setup::models::setup::InventoryItem;
use f1clash_setup::optimizer_core::ResolvedPart;
use f1clash_setup::upgrade_advisor::run_upgrade_advisor;

fn make_part(id: i32, name: &str, level: i32, cards: i32, speed: i32, total: i32) -> (InventoryItem, ResolvedPart) {
    let item = InventoryItem { id, part_name: name.to_string(), level, cards_owned: cards };
    let stats = Stats {
        speed,
        cornering: total / 4,
        power_unit: total / 4,
        qualifying: total / 4,
        pit_stop_hundredths: 50,
        additional_stat_value: 0,
    };
    let rp = ResolvedPart { item: item.clone(), stats, rarity_css_class: "rarity-common" };
    (item, rp)
}

fn make_catalog_part(name: &str, category: PartCategory, series: i32) -> OwnedPartDefinition {
    let levels: Vec<OwnedLevelStats> = (1..=9)
        .map(|l| OwnedLevelStats {
            level: l,
            speed: l * 5,
            cornering: l * 4,
            power_unit: l * 3,
            qualifying: l * 3,
            pit_stop_hundredths: 100 - 5 * l,
            additional_stat_value: 0,
        })
        .collect();
    OwnedPartDefinition {
        id: 1,
        name: name.to_string(),
        season: "2026".to_string(),
        category,
        series,
        rarity: "Rare".to_string(),
        sort_order: 0,
        additional_stat_name: None,
        levels,
    }
}

#[test]
fn maxed_part_produces_no_candidate() {
    let item = InventoryItem { id: 1, part_name: "Engine".to_string(), level: 9, cards_owned: 500 };
    let part_def = make_catalog_part("Engine", PartCategory::Engine, 1);
    // Rare max = 9
    let rp = ResolvedPart {
        item: item.clone(),
        stats: Stats {
            speed: 50,
            cornering: 40,
            power_unit: 30,
            qualifying: 30,
            pit_stop_hundredths: 40,
            additional_stat_value: 0,
        },
        rarity_css_class: "rarity-rare",
    };

    // Single category, single part
    let parts_per_cat = vec![vec![rp]];
    let categories = vec![PartCategory::Engine];
    let catalog = vec![part_def];
    let inventory = vec![item];
    let priorities = StatPriorities::default();

    let result = run_upgrade_advisor(&parts_per_cat, &categories, &catalog, &inventory, &[], &priorities, "2025");
    assert!(result.immediate.is_empty(), "maxed part should not appear in immediate");
    assert!(result.planned.is_empty(), "maxed part should not appear in planned");
}

#[test]
fn upgrade_with_enough_cards_appears_in_immediate() {
    let (item, rp) = make_part(1, "Engine", 3, 500, 30, 60);
    let part_def = make_catalog_part("Engine", PartCategory::Engine, 1);
    let parts_per_cat = vec![vec![rp]];
    let categories = vec![PartCategory::Engine];

    let result = run_upgrade_advisor(
        &parts_per_cat,
        &categories,
        &[part_def],
        &[item],
        &[],
        &StatPriorities::default(),
        "2025",
    );
    // Should appear in immediate (500 cards >> cost for next levels)
    assert!(!result.immediate.is_empty(), "should have immediate upgrades");
}

#[test]
fn no_cards_part_not_in_immediate_but_in_planned() {
    let (mut item, rp) = make_part(1, "Engine", 3, 0, 30, 60);
    item.cards_owned = 0;
    let part_def = make_catalog_part("Engine", PartCategory::Engine, 1);
    let parts_per_cat = vec![vec![rp]];
    let categories = vec![PartCategory::Engine];

    let result = run_upgrade_advisor(
        &parts_per_cat,
        &categories,
        &[part_def],
        &[item],
        &[],
        &StatPriorities::default(),
        "2025",
    );
    assert!(result.immediate.is_empty(), "0 cards should not be immediate");
    assert!(!result.planned.is_empty(), "should still appear in planned");
}

#[test]
fn planned_target_is_always_current_plus_one() {
    let (item, rp) = make_part(1, "Engine", 3, 0, 30, 60);
    let part_def = make_catalog_part("Engine", PartCategory::Engine, 1);
    let parts_per_cat = vec![vec![rp]];
    let categories = vec![PartCategory::Engine];

    let result = run_upgrade_advisor(
        &parts_per_cat,
        &categories,
        &[part_def],
        &[item],
        &[],
        &StatPriorities::default(),
        "2025",
    );
    for rec in &result.planned {
        assert_eq!(
            rec.candidate.target_level,
            rec.candidate.current_level + 1,
            "planned target should always be current+1"
        );
    }
}

#[test]
fn immediate_simulates_only_the_reachable_level() {
    let (item, rp) = make_part(1, "Engine", 3, 500, 30, 60);
    let part_def = make_catalog_part("Engine", PartCategory::Engine, 1);
    let reach = calculate_upgrade(3, 500, 1, "Rare", "2025").reachable_level;
    assert_eq!(reach, 7);
    let result = run_upgrade_advisor(
        &vec![vec![rp]],
        &[PartCategory::Engine],
        &[part_def],
        &[item],
        &[],
        &StatPriorities::default(),
        "2025",
    );
    assert_eq!(result.immediate.len(), 1);
    assert_eq!(result.immediate[0].candidate.target_level, 7);
    assert!(result.immediate[0].candidate.at_reachable_level);
    assert_eq!(result.planned.len(), 1);
    assert_eq!(result.planned[0].candidate.target_level, 4);
    assert!(!result.planned[0].candidate.at_reachable_level);
}

#[test]
fn one_level_reach_is_both_immediate_and_planned() {
    let cards = calculate_upgrade(3, 0, 1, "Rare", "2025").cards_to_next;
    let (item, rp) = make_part(1, "Engine", 3, cards, 30, 60);
    let part_def = make_catalog_part("Engine", PartCategory::Engine, 1);
    assert_eq!(calculate_upgrade(3, cards, 1, "Rare", "2025").reachable_level, 4);
    let result = run_upgrade_advisor(
        &vec![vec![rp]],
        &[PartCategory::Engine],
        &[part_def],
        &[item],
        &[],
        &StatPriorities::default(),
        "2025",
    );
    assert_eq!(result.immediate.len(), 1);
    assert_eq!(result.immediate[0].candidate.target_level, 4);
    assert_eq!(result.planned.len(), 1);
    assert_eq!(result.planned[0].candidate.target_level, 4);
}
