use f1clash_setup::bulk::{bulk_driver_entries, bulk_part_entries, parts_count_bucket};
use f1clash_setup::export::{export_data, export_filename, importable_drivers, importable_parts, DriverEntry, PartEntry};
use f1clash_setup::models::driver::{DriverInventoryItem, OwnedDriverDefinition};
use f1clash_setup::models::part::{OwnedPartDefinition, PartCategory};
use f1clash_setup::models::setup::InventoryItem;

fn part_def(name: &str, season: &str) -> OwnedPartDefinition {
    OwnedPartDefinition {
        id: 1,
        name: name.to_string(),
        season: season.to_string(),
        category: PartCategory::Engine,
        series: 1,
        rarity: "Common".to_string(),
        sort_order: 0,
        additional_stat_name: None,
        levels: vec![],
    }
}

fn driver_def(name: &str, rarity: &str, season: &str) -> OwnedDriverDefinition {
    OwnedDriverDefinition {
        id: 1,
        name: name.to_string(),
        season: season.to_string(),
        rarity: rarity.to_string(),
        series: "1".to_string(),
        sort_order: 0,
        levels: vec![],
    }
}

fn field(k: &str, v: &str) -> (String, String) {
    (k.to_string(), v.to_string())
}

#[test]
fn export_keeps_order_and_fields() {
    let parts = vec![
        InventoryItem { id: 1, part_name: "Brake A".to_string(), level: 3, cards_owned: 5 },
        InventoryItem { id: 2, part_name: "Engine B".to_string(), level: 1, cards_owned: 0 },
    ];
    let drivers = vec![DriverInventoryItem {
        id: 9,
        driver_name: "Max".to_string(),
        rarity: "Epic".to_string(),
        level: 4,
        cards_owned: 2,
    }];
    let e = export_data("2025", &parts, &drivers);
    assert_eq!(e.season, "2025");
    assert_eq!(e.parts.len(), 2);
    assert_eq!(e.parts[0].name, "Brake A");
    assert_eq!(e.parts[0].level, 3);
    assert_eq!(e.parts[1].name, "Engine B");
    assert_eq!(e.parts[1].level, 1);
    assert_eq!(e.drivers.len(), 1);
    assert_eq!(e.drivers[0].name, "Max");
    assert_eq!(e.drivers[0].rarity, "Epic");
    assert_eq!(e.drivers[0].level, 4);
}

#[test]
fn export_filename_names_the_season() {
    assert_eq!(export_filename("2025"), "f1clash_inventory_2025.json");
}

#[test]
fn import_keeps_known_parts_with_a_level() {
    let catalog = vec![part_def("Brake A", "2025"), part_def("Engine B", "2024")];
    let entries = vec![
        PartEntry { name: "Brake A".to_string(), level: 2 },
        PartEntry { name: "Brake A".to_string(), level: 0 },
        PartEntry { name: "Engine B".to_string(), level: 3 },
        PartEntry { name: "Unknown".to_string(), level: 5 },
    ];
    let kept = importable_parts(&entries, &catalog, "2025");
    assert_eq!(kept.len(), 1);
    assert_eq!(kept[0].name, "Brake A");
    assert_eq!(kept[0].level, 2);
}

#[test]
fn import_keeps_known_drivers_by_name_and_rarity() {
    let catalog = vec![driver_def("Max", "Epic", "2025"), driver_def("Lando", "Rare", "2025")];
    let entries = vec![
        DriverEntry { name: "Max".to_string(), rarity: "Epic".to_string(), level: 1 },
        DriverEntry { name: "Max".to_string(), rarity: "Rare".to_string(), level: 1 },
        DriverEntry { name: "Lando".to_string(), rarity: "Rare".to_string(), level: -1 },
        DriverEntry { name: "Lando".to_string(), rarity: "Rare".to_string(), level: 7 },
    ];
    let kept = importable_drivers(&entries, &catalog, "2025");
    assert_eq!(kept.len(), 2);
    assert_eq!((kept[0].name.as_str(), kept[0].rarity.as_str(), kept[0].level), ("Max", "Epic", 1));
    assert_eq!((kept[1].name.as_str(), kept[1].rarity.as_str(), kept[1].level), ("Lando", "Rare", 7));
}

#[test]
fn bulk_parts_reads_part_fields() {
    let catalog = vec![part_def("Brake A", "2025"), part_def("Engine B", "2025")];
    let form = vec![
        field("part:Brake A", "4"),
        field("season", "2025"),
        field("part:Engine B", "0"),
        field("part:Engine B", "x"),
        field("part:Nope", "3"),
        field("part:Engine B", "2"),
    ];
    let r = bulk_part_entries(&form, &catalog, "2025");
    assert_eq!(r.len(), 2);
    assert_eq!((r[0].name.as_str(), r[0].level), ("Brake A", 4));
    assert_eq!((r[1].name.as_str(), r[1].level), ("Engine B", 2));
}

#[test]
fn bulk_drivers_split_at_the_last_colon() {
    let catalog = vec![driver_def("Dr: Who", "Epic", "2025"), driver_def("Max", "Common", "2025")];
    let form = vec![
        field("driver:Dr: Who:Epic", "3"),
        field("driver:Max:Common", "1"),
        field("driver:Max", "1"),
        field("driver:Max:Rare", "1"),
        field("part:Max:Common", "1"),
    ];
    let r = bulk_driver_entries(&form, &catalog, "2025");
    assert_eq!(r.len(), 2);
    assert_eq!((r[0].name.as_str(), r[0].rarity.as_str(), r[0].level), ("Dr: Who", "Epic", 3));
    assert_eq!((r[1].name.as_str(), r[1].rarity.as_str(), r[1].level), ("Max", "Common", 1));
}

#[test]
fn bulk_count_buckets() {
    let mk = |n: usize| -> Vec<(String, String)> {
        let mut v: Vec<(String, String)> = (0..n).map(|i| field(&format!("part:P{i}"), "1")).collect();
        v.push(field("season", "2025"));
        v
    };
    assert_eq!(parts_count_bucket(&mk(0)), "0");
    assert_eq!(parts_count_bucket(&mk(1)), "1-7");
    assert_eq!(parts_count_bucket(&mk(7)), "1-7");
    assert_eq!(parts_count_bucket(&mk(8)), "8-14");
    assert_eq!(parts_count_bucket(&mk(14)), "8-14");
    assert_eq!(parts_count_bucket(&mk(15)), "15+");
}
