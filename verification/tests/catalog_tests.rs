use f1clash_setup::catalog::{
    assemble_catalog, assemble_drivers_catalog, catalog_for_season, categories_for_season,
    drivers_catalog_for_season, find_driver_def, find_part, group_season_categories, parts_by_category,
    DriverLevelRow, DriverRow, LevelRow, PartRow,
};
use f1clash_setup::models::driver::{OwnedDriverDefinition, OwnedDriverLevelStats};
use f1clash_setup::models::part::{OwnedLevelStats, OwnedPartDefinition, PartCategory};

fn part(id: i32, name: &str, season: &str, category: PartCategory) -> OwnedPartDefinition {
    OwnedPartDefinition {
        id,
        name: name.to_string(),
        season: season.to_string(),
        category,
        series: 1,
        rarity: "Common".to_string(),
        sort_order: id,
        additional_stat_name: None,
        levels: vec![],
    }
}

fn driver(id: i32, name: &str, rarity: &str, season: &str) -> OwnedDriverDefinition {
    OwnedDriverDefinition {
        id,
        name: name.to_string(),
        season: season.to_string(),
        rarity: rarity.to_string(),
        series: "1".to_string(),
        sort_order: id,
        levels: vec![],
    }
}

fn lvl(level: i32) -> OwnedLevelStats {
    OwnedLevelStats {
        level,
        speed: level,
        cornering: 0,
        power_unit: 0,
        qualifying: 0,
        pit_stop_hundredths: 100,
        additional_stat_value: 0,
    }
}

fn dlvl(level: i32) -> OwnedDriverLevelStats {
    OwnedDriverLevelStats {
        level,
        overtaking: level,
        defending: 0,
        qualifying: 0,
        race_start: 0,
        tyre_management: 0,
        cards_required: 0,
        coins_cost: 0,
        legacy_points: 0,
    }
}

fn catalog() -> Vec<OwnedPartDefinition> {
    vec![
        part(1, "Brake A", "2025", PartCategory::Brakes),
        part(2, "Engine A", "2024", PartCategory::Engine),
        part(3, "Engine B", "2025", PartCategory::Engine),
        part(4, "Brake A", "2024", PartCategory::Brakes),
        part(5, "Brake B", "2025", PartCategory::Brakes),
    ]
}

#[test]
fn season_catalog_keeps_order() {
    let c = catalog_for_season(&catalog(), "2025");
    let ids: Vec<i32> = c.iter().map(|d| d.id).collect();
    assert_eq!(ids, vec![1, 3, 5]);
    assert!(catalog_for_season(&catalog(), "2023").is_empty());
}

#[test]
fn parts_by_category_filters_season_and_category() {
    let c = parts_by_category(&catalog(), "2025", PartCategory::Brakes);
    let ids: Vec<i32> = c.iter().map(|d| d.id).collect();
    assert_eq!(ids, vec![1, 5]);
    assert!(parts_by_category(&catalog(), "2025", PartCategory::Gearbox).is_empty());
}

#[test]
fn find_part_by_name_and_season() {
    assert_eq!(find_part(&catalog(), "Brake A", "2024").map(|d| d.id), Some(4));
    assert_eq!(find_part(&catalog(), "Brake A", "2025").map(|d| d.id), Some(1));
    assert!(find_part(&catalog(), "Engine A", "2025").is_none());
}

#[test]
fn categories_of_a_season() {
    let sc = vec![
        ("2024".to_string(), vec![PartCategory::Engine]),
        ("2025".to_string(), vec![PartCategory::Brakes, PartCategory::Battery]),
    ];
    assert_eq!(categories_for_season(&sc, "2025"), vec![PartCategory::Brakes, PartCategory::Battery]);
    assert!(categories_for_season(&sc, "2026").is_empty());
}

#[test]
fn drivers_of_a_season_and_lookup() {
    let dc = vec![driver(1, "Max", "Epic", "2025"), driver(2, "Max", "Epic", "2024"), driver(3, "Max", "Rare", "2025")];
    let ids: Vec<i32> = drivers_catalog_for_season(&dc, "2025").iter().map(|d| d.id).collect();
    assert_eq!(ids, vec![1, 3]);
    assert_eq!(find_driver_def(&dc, "Max", "Rare", "2025").map(|d| d.id), Some(3));
    assert_eq!(find_driver_def(&dc, "Max", "Epic", "2024").map(|d| d.id), Some(2));
    assert!(find_driver_def(&dc, "Max", "Common", "2025").is_none());
}

#[test]
fn season_categories_are_grouped_and_sorted() {
    let rows = vec![
        ("2025".to_string(), PartCategory::Engine),
        ("2024".to_string(), PartCategory::Brakes),
        ("2025".to_string(), PartCategory::FrontWing),
        ("2025".to_string(), PartCategory::Battery),
        ("2024".to_string(), PartCategory::FrontWing),
    ];
    let g = group_season_categories(&rows);
    assert_eq!(g.len(), 2);
    assert_eq!(g[0].0, "2025");
    assert_eq!(g[0].1, vec![PartCategory::FrontWing, PartCategory::Engine, PartCategory::Battery]);
    assert_eq!(g[1].0, "2024");
    assert_eq!(g[1].1, vec![PartCategory::FrontWing, PartCategory::Brakes]);
}

#[test]
fn catalog_is_assembled_from_rows() {
    let parts = vec![
        PartRow {
            id: 10,
            name: "Brake A".to_string(),
            season: "2025".to_string(),
            category: PartCategory::Brakes,
            series: 2,
            rarity: "Rare".to_string(),
            sort_order: 1,
            additional_stat_name: Some("DRS".to_string()),
        },
        PartRow {
            id: 20,
            name: "Engine A".to_string(),
            season: "2025".to_string(),
            category: PartCategory::Engine,
            series: 1,
            rarity: "Common".to_string(),
            sort_order: 2,
            additional_stat_name: None,
        },
    ];
    let levels = vec![
        LevelRow { part_id: 20, stats: lvl(1) },
        LevelRow { part_id: 10, stats: lvl(1) },
        LevelRow { part_id: 10, stats: lvl(2) },
    ];
    let c = assemble_catalog(&parts, &levels);
    assert_eq!(c.len(), 2);
    assert_eq!(c[0].id, 10);
    assert_eq!(c[0].name, "Brake A");
    assert_eq!(c[0].series, 2);
    assert_eq!(c[0].additional_stat_name.as_deref(), Some("DRS"));
    assert_eq!(c[0].levels, vec![lvl(1), lvl(2)]);
    assert_eq!(c[1].id, 20);
    assert_eq!(c[1].levels, vec![lvl(1)]);
}

#[test]
fn driver_catalog_is_assembled_from_rows() {
    let drivers = vec![DriverRow {
        id: 7,
        name: "Max".to_string(),
        season: "2025".to_string(),
        rarity: "Epic".to_string(),
        series: "3".to_string(),
        sort_order: 0,
    }];
    let levels = vec![
        DriverLevelRow { driver_id: 7, stats: dlvl(1) },
        DriverLevelRow { driver_id: 8, stats: dlvl(1) },
        DriverLevelRow { driver_id: 7, stats: dlvl(2) },
    ];
    let c = assemble_drivers_catalog(&drivers, &levels);
    assert_eq!(c.len(), 1);
    assert_eq!(c[0].name, "Max");
    assert_eq!(c[0].series, "3");
    assert_eq!(c[0].levels, vec![dlvl(1), dlvl(2)]);
}
