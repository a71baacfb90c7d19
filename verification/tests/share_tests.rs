use f1clash_setup::data::StatPriorities;
use f1clash_setup::models::driver::{DriverBoost, DriverInventoryItem, OwnedDriverDefinition, OwnedDriverLevelStats};
use f1clash_setup::models::part::{OwnedLevelStats, OwnedPartDefinition, PartCategory};
use f1clash_setup::models::setup::{Boost, InventoryItem};
use f1clash_setup::share::{
    back_href, build_drivers_snapshot, build_parts_snapshot, category_position, content_hash,
    share_driver_ids, share_hash_from_seed, share_part_ids, share_priority_label, sort_by_category,
    sort_drivers_by_name, sort_parts_by_name, try_drivers_snapshot, try_parts_snapshot, viewer_levels, DriverSnapshot, PartSnapshot,
    ShareForm,
};

fn snap(category: &str, name: &str) -> PartSnapshot {
    PartSnapshot {
        category: category.to_string(),
        part_name: name.to_string(),
        level: 1,
        rarity: "Common".to_string(),
        speed: 0,
        cornering: 0,
        power_unit: 0,
        qualifying: 0,
        pit_stop_hundredths: 0,
        total: 0,
    }
}

fn dsnap(name: &str, rarity: &str) -> DriverSnapshot {
    DriverSnapshot {
        driver_name: name.to_string(),
        rarity: rarity.to_string(),
        level: 1,
        overtaking: 0,
        defending: 0,
        qualifying: 0,
        race_start: 0,
        tyre_management: 0,
        total: 0,
    }
}

fn part_def(name: &str, category: PartCategory, rarity: &str) -> OwnedPartDefinition {
    OwnedPartDefinition {
        id: 1,
        name: name.to_string(),
        season: "2025".to_string(),
        category,
        series: 1,
        rarity: rarity.to_string(),
        sort_order: 0,
        additional_stat_name: None,
        levels: vec![OwnedLevelStats {
            level: 2,
            speed: 10,
            cornering: 20,
            power_unit: 30,
            qualifying: 40,
            pit_stop_hundredths: 100,
            additional_stat_value: 0,
        }],
    }
}

#[test]
fn share_hash_is_eight_charset_characters() {
    assert_eq!(share_hash_from_seed(0), "AHQXenv4");
    assert_eq!(share_hash_from_seed(123_456_789), "RYPWdmu3");
    let h = share_hash_from_seed(987_654_321);
    assert_eq!(h.chars().count(), 8);
    assert!(h.chars().all(|c| "ABCDEFGHJKLMNPQRSTUVWXYZabcdefghjkmnpqrstuvwxyz23456789".contains(c)));
}

#[test]
fn content_hash_is_sha256_of_the_concatenation() {
    assert_eq!(
        content_hash("My Setup", "2025", "{\"cornering\":false}", "[]", "[]"),
        "f0aa69de274da34d5ee98e69157c399b4ea54bf72790af8eb19f38df5f06a969"
    );
    assert_ne!(
        content_hash("My Setup", "2025", "{}", "[]", "[]"),
        content_hash("My Setup", "2026", "{}", "[]", "[]")
    );
}

#[test]
fn category_position_follows_canonical_order() {
    assert_eq!(category_position(&"Front Wing".to_string()), 0);
    assert_eq!(category_position(&"Battery".to_string()), 6);
    assert_eq!(category_position(&"Nope".to_string()), 7);
}

#[test]
fn sort_by_category_is_stable_and_puts_unknown_last() {
    let v = vec![
        snap("Engine", "e1"),
        snap("Unknown", "u"),
        snap("Brakes", "b"),
        snap("Engine", "e2"),
        snap("Front Wing", "f"),
    ];
    let names: Vec<String> = sort_by_category(&v).into_iter().map(|p| p.part_name).collect();
    assert_eq!(names, vec!["f", "b", "e1", "e2", "u"]);
}

#[test]
fn sort_by_name_is_stable() {
    let v = vec![snap("A", "b"), snap("B", "a"), snap("C", "b"), snap("D", "B")];
    let sorted: Vec<(String, String)> =
        sort_parts_by_name(&v).into_iter().map(|p| (p.part_name, p.category)).collect();
    assert_eq!(
        sorted,
        vec![
            ("B".to_string(), "D".to_string()),
            ("a".to_string(), "B".to_string()),
            ("b".to_string(), "A".to_string()),
            ("b".to_string(), "C".to_string()),
        ]
    );
    let d = vec![dsnap("Zed", "Rare"), dsnap("Abe", "Epic")];
    let dn: Vec<String> = sort_drivers_by_name(&d).into_iter().map(|x| x.driver_name).collect();
    assert_eq!(dn, vec!["Abe", "Zed"]);
}

#[test]
fn share_ids_follow_slot_order() {
    let form = ShareForm {
        name: "x".to_string(),
        brakes_id: Some(5),
        gearbox_id: None,
        rear_wing_id: Some(3),
        front_wing_id: Some(2),
        suspension_id: None,
        engine_id: Some(1),
        battery_id: Some(7),
        driver1_id: None,
        driver2_id: Some(9),
        speed: true,
        cornering: false,
        power_unit: false,
        qualifying: false,
    };
    assert_eq!(share_part_ids(&form), vec![1, 2, 3, 5, 7]);
    assert_eq!(share_driver_ids(&form), vec![9]);
}

#[test]
fn back_href_depends_on_origin() {
    assert_eq!(back_href("/setup/share"), "/setups");
    assert_eq!(back_href("/optimizer/share"), "/optimizer");
}

#[test]
fn parts_snapshot_applies_boosts_and_sums() {
    let catalog = vec![part_def("Engine A", PartCategory::Engine, "Epic")];
    let items = vec![
        InventoryItem { id: 1, part_name: "Engine A".to_string(), level: 2, cards_owned: 0 },
        InventoryItem { id: 2, part_name: "Missing".to_string(), level: 2, cards_owned: 0 },
    ];
    let boosts = vec![Boost { id: 1, part_name: "Engine A".to_string(), percentage: 100 }];
    let (snaps, total) = build_parts_snapshot(&items, &catalog, &boosts);
    assert_eq!(snaps.len(), 1);
    assert_eq!(snaps[0].category, "Engine");
    assert_eq!(snaps[0].rarity, "Epic");
    assert_eq!(snaps[0].speed, 20);
    assert_eq!(snaps[0].pit_stop_hundredths, 30);
    // 20 + 40 + 60 + 80 + round(7 + 29 * (7 - 0.30)) = 200 + 201
    assert_eq!(snaps[0].total, 401);
    assert_eq!(total.speed, 20);
    assert_eq!(total.qualifying, 80);
}

#[test]
fn drivers_snapshot_matches_name_and_rarity() {
    let catalog = vec![OwnedDriverDefinition {
        id: 1,
        name: "Max".to_string(),
        season: "2025".to_string(),
        rarity: "Epic".to_string(),
        series: "1".to_string(),
        sort_order: 0,
        levels: vec![OwnedDriverLevelStats {
            level: 1,
            overtaking: 10,
            defending: 10,
            qualifying: 10,
            race_start: 10,
            tyre_management: 10,
            cards_required: 0,
            coins_cost: 0,
            legacy_points: 0,
        }],
    }];
    let items = vec![
        DriverInventoryItem { id: 1, driver_name: "Max".to_string(), rarity: "Epic".to_string(), level: 1, cards_owned: 0 },
        DriverInventoryItem { id: 2, driver_name: "Max".to_string(), rarity: "Rare".to_string(), level: 1, cards_owned: 0 },
    ];
    let boosts = vec![DriverBoost { id: 1, driver_name: "Max".to_string(), rarity: "Epic".to_string(), percentage: 10 }];
    let (snaps, total) = build_drivers_snapshot(&items, &catalog, &boosts);
    assert_eq!(snaps.len(), 1);
    assert_eq!(snaps[0].overtaking, 11);
    assert_eq!(snaps[0].total, 55);
    assert_eq!(total.total(), 55);
}

#[test]
fn viewer_levels_use_first_owned_item() {
    let parts = vec![snap("Engine", "A"), snap("Brakes", "B")];
    let viewer = vec![
        InventoryItem { id: 1, part_name: "A".to_string(), level: 4, cards_owned: 0 },
        InventoryItem { id: 2, part_name: "A".to_string(), level: 9, cards_owned: 0 },
    ];
    assert_eq!(viewer_levels(&parts, &viewer), vec![Some(4), None]);
}

#[test]
fn share_priority_label_defaults_to_total() {
    assert_eq!(share_priority_label(&StatPriorities::default()), "Total performance");
    let p = StatPriorities { speed: true, qualifying: true, ..Default::default() };
    assert_eq!(share_priority_label(&p), "Speed, Qualifying");
}

#[test]
fn parts_snapshot_is_exact_and_refuses_overflow() {
    let def = |speed: i32| OwnedPartDefinition {
        id: 1,
        name: "Wing".to_string(),
        season: "2025".to_string(),
        category: PartCategory::FrontWing,
        series: 1,
        rarity: "Epic".to_string(),
        sort_order: 0,
        additional_stat_name: None,
        levels: vec![OwnedLevelStats {
            level: 1,
            speed,
            cornering: 0,
            power_unit: 0,
            qualifying: 0,
            pit_stop_hundredths: 100,
            additional_stat_value: 0,
        }],
    };
    let item = InventoryItem { id: 1, part_name: "Wing".to_string(), level: 1, cards_owned: 0 };
    let (snaps, total) = try_parts_snapshot(&[item.clone()], &[def(5_000_000)], &[]).unwrap();
    assert_eq!(total.speed, 5_000_000);
    assert_eq!(snaps[0].total, 5_000_181);
    // The part's total passes i32::MAX.
    assert!(try_parts_snapshot(&[item.clone()], &[def(2_147_483_600)], &[]).is_none());
    // Two parts whose sum passes i32::MAX.
    assert!(try_parts_snapshot(&[item.clone(), item], &[def(1_500_000_000)], &[]).is_none());
}

#[test]
fn drivers_snapshot_refuses_overflow() {
    let def = |v: i32| OwnedDriverDefinition {
        id: 1,
        name: "Max".to_string(),
        season: "2025".to_string(),
        rarity: "Epic".to_string(),
        series: "1".to_string(),
        sort_order: 0,
        levels: vec![OwnedDriverLevelStats {
            level: 1,
            overtaking: v,
            defending: 0,
            qualifying: 0,
            race_start: 0,
            tyre_management: 0,
            cards_required: 0,
            coins_cost: 0,
            legacy_points: 0,
        }],
    };
    let item = DriverInventoryItem { id: 1, driver_name: "Max".to_string(), rarity: "Epic".to_string(), level: 1, cards_owned: 0 };
    let (snaps, total) = try_drivers_snapshot(&[item.clone()], &[def(5_000_000)], &[]).unwrap();
    assert_eq!(total.overtaking, 5_000_000);
    assert_eq!(snaps[0].total, 5_000_000);
    assert!(try_drivers_snapshot(&[item.clone(), item], &[def(1_500_000_000)], &[]).is_none());
}
