use f1clash_setup::optimize::{drivers_in_range, pools_in_range};
use f1clash_setup::data::StatPriorities;
use f1clash_setup::models::driver::{DriverInventoryItem, DriverStats};
use f1clash_setup::models::part::{PartCategory, Stats};
use f1clash_setup::models::setup::InventoryItem;
use f1clash_setup::optimize::{optimize, preset_defs, run_presets};
use f1clash_setup::optimizer_core::{DriverPriorities, ResolvedDriver, ResolvedPart};

fn rp(id: i32, speed: i32, cornering: i32) -> ResolvedPart {
    ResolvedPart {
        item: InventoryItem { id, part_name: format!("P{id}"), level: 1, cards_owned: 0 },
        stats: Stats { speed, cornering, power_unit: 0, qualifying: 0, pit_stop_hundredths: 100, additional_stat_value: 0 },
        rarity_css_class: "rarity-common",
    }
}

fn rd(id: i32, v: i32) -> ResolvedDriver {
    ResolvedDriver {
        item: DriverInventoryItem { id, driver_name: format!("D{id}"), rarity: "Common".to_string(), level: 1, cards_owned: 0 },
        stats: DriverStats { overtaking: v, defending: v, qualifying: v, race_start: v, tyre_management: v },
    }
}

fn pools() -> Vec<Vec<ResolvedPart>> {
    vec![vec![rp(1, 10, 50), rp(2, 20, 0)], vec![rp(3, 5, 0), rp(4, 5, 0)]]
}

const CATS: [PartCategory; 2] = [PartCategory::Engine, PartCategory::Brakes];

#[test]
fn optimize_picks_best_parts_and_drivers() {
    let speed = StatPriorities { speed: true, cornering: false, power_unit: false, qualifying: false };
    let drivers = vec![rd(7, 30), rd(8, 1)];
    let r = optimize(&pools(), &CATS, &drivers, &speed, &DriverPriorities::default()).unwrap();
    let ids: Vec<i32> = r.part_picks.iter().map(|(_, i, _)| i.id).collect();
    assert_eq!(ids, vec![2, 3]);
    assert_eq!(r.part_picks[0].0, PartCategory::Engine);
    assert_eq!(r.part_picks[1].0, PartCategory::Brakes);
    assert_eq!(r.total_parts.speed, 25);
    assert_eq!(r.total_parts.pit_stop_hundredths, 200);
    assert_eq!(r.driver1.as_ref().map(|(d, _)| d.id), Some(7));
    assert_eq!(r.driver2.as_ref().map(|(d, _)| d.id), Some(8));
    assert_eq!(r.total_drivers, DriverStats { overtaking: 31, defending: 31, qualifying: 31, race_start: 31, tyre_management: 31 });
}

#[test]
fn optimize_without_drivers_picks_none() {
    let cornering = StatPriorities { speed: false, cornering: true, power_unit: false, qualifying: false };
    let r = optimize(&pools(), &CATS, &[], &cornering, &DriverPriorities::default()).unwrap();
    let ids: Vec<i32> = r.part_picks.iter().map(|(_, i, _)| i.id).collect();
    assert_eq!(ids, vec![1, 3]);
    assert!(r.driver1.is_none());
    assert!(r.driver2.is_none());
}

#[test]
fn optimize_needs_every_category_filled() {
    let p = vec![vec![rp(1, 1, 1)], vec![]];
    let none = StatPriorities { speed: false, cornering: false, power_unit: false, qualifying: false };
    assert!(optimize(&p, &CATS, &[], &none, &DriverPriorities::default()).is_none());
}

#[test]
fn presets_are_six_in_order() {
    let d = preset_defs();
    let labels: Vec<&str> = d.iter().map(|(l, _)| *l).collect();
    assert_eq!(
        labels,
        vec!["Speed", "Speed + Qualifying", "Cornering", "Cornering + Qualifying", "Power Unit", "Power Unit + Qualifying"]
    );
    assert!(d[1].1.speed && d[1].1.qualifying && !d[1].1.cornering);
    assert!(d[4].1.power_unit && !d[4].1.qualifying);
}

#[test]
fn preset_runs_use_their_priorities() {
    let r = run_presets(&pools(), &CATS);
    assert_eq!(r.len(), 6);
    assert_eq!(r[0].label, "Speed");
    let ids: Vec<i32> = r[0].result.as_ref().unwrap().part_picks.iter().map(|(_, i, _)| i.id).collect();
    assert_eq!(ids, vec![2, 3]);
    let ids: Vec<i32> = r[2].result.as_ref().unwrap().part_picks.iter().map(|(_, i, _)| i.id).collect();
    assert_eq!(ids, vec![1, 3]);
    assert!(r[0].result.as_ref().unwrap().driver1.is_none());
}

#[test]
fn range_checks_accept_ordinary_pools_and_drivers() {
    assert!(pools_in_range(&pools()));
    assert!(!pools_in_range(&vec![vec![rp(1, 20_000_000, 0)]]));
    let many: Vec<Vec<ResolvedPart>> = (0..17).map(|i| vec![rp(i, 1, 1)]).collect();
    assert!(!pools_in_range(&many));
    assert!(drivers_in_range(&[rd(1, 30), rd(2, 40)]));
    assert!(!drivers_in_range(&[rd(1, 13_000_000)]));
}
