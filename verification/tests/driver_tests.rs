use f1clash_setup::models::driver::DriverStats;

fn ds(
    overtaking: i32,
    defending: i32,
    qualifying: i32,
    race_start: i32,
    tyre_management: i32,
) -> DriverStats {
    DriverStats { overtaking, defending, qualifying, race_start, tyre_management }
}

#[test]
fn total_sums_all_five_stats() {
    assert_eq!(ds(10, 20, 30, 40, 50).total(), 150);
}

#[test]
fn total_with_zeros() {
    assert_eq!(ds(0, 0, 0, 0, 0).total(), 0);
}

#[test]
fn driver_add_combines_all_fields() {
    let a = ds(10, 20, 30, 40, 50);
    let b = ds(1, 2, 3, 4, 5);
    let c = a.add(&b);
    assert_eq!(c.overtaking, 11);
    assert_eq!(c.defending, 22);
    assert_eq!(c.qualifying, 33);
    assert_eq!(c.race_start, 44);
    assert_eq!(c.tyre_management, 55);
}

#[test]
fn driver_boosted_zero_percent_is_identity() {
    let s = ds(30, 25, 20, 15, 10);
    let b = s.boosted(0);
    assert_eq!(b.overtaking, 30);
    assert_eq!(b.defending, 25);
    assert_eq!(b.qualifying, 20);
    assert_eq!(b.race_start, 15);
    assert_eq!(b.tyre_management, 10);
}

#[test]
fn boosted_100_percent_doubles_all_stats() {
    let s = ds(10, 20, 30, 40, 50);
    let b = s.boosted(100);
    assert_eq!(b.overtaking, 20);
    assert_eq!(b.defending, 40);
    assert_eq!(b.qualifying, 60);
    assert_eq!(b.race_start, 80);
    assert_eq!(b.tyre_management, 100);
}

#[test]
fn boosted_10_percent_ceils_small_bonus() {
    // 3 * 10% = 0.3 → ceil = 1, so 3 + 1 = 4 (not 3)
    let s = ds(3, 0, 0, 0, 0);
    let b = s.boosted(10);
    assert_eq!(b.overtaking, 4);
}

#[test]
fn driver_boosted_50_percent_ceils_bonus() {
    // 3 * 0.5 = 1.5 → ceil = 2, so 3 + 2 = 5
    let s = ds(3, 0, 0, 0, 0);
    let b = s.boosted(50);
    assert_eq!(b.overtaking, 5);
}

#[test]
fn driver_sums_commute_associate_and_add_totals() {
    let a = DriverStats { overtaking: 1, defending: 2, qualifying: 3, race_start: 4, tyre_management: 5 };
    let b = DriverStats { overtaking: 10, defending: -20, qualifying: 30, race_start: 40, tyre_management: 50 };
    let c = DriverStats { overtaking: 7, defending: 7, qualifying: 7, race_start: 7, tyre_management: 7 };
    assert_eq!(a.add(&b), b.add(&a));
    assert_eq!(a.add(&b).add(&c), a.add(&b.add(&c)));
    assert_eq!(a.add(&DriverStats::default()), a);
    assert_eq!(a.add(&b).total(), a.total() + b.total());
}

#[test]
fn driver_boost_follows_double_arithmetic() {
    // 0.07 is stored slightly above 7/100, so 100 × 7 % rounds up to 8.
    let b = ds(100, -100, 3, 1_000_000, 57).boosted(7);
    assert_eq!(b.overtaking, 108);
    assert_eq!(b.defending, -107);
    assert_eq!(b.qualifying, 4);
    assert_eq!(b.race_start, 1_070_000);
    assert_eq!(b.tyre_management, 61);
    let n = ds(57, 100, 0, 0, 0).boosted(-3);
    assert_eq!(n.overtaking, 56);
    assert_eq!(n.defending, 97);
}
