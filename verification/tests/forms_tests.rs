use f1clash_setup::forms::id_list;
use f1clash_setup::models::part::PartCategory;
use f1clash_setup::analytics::NoopGeoIp;
use f1clash_setup::forms::{
    optional_i32, CardsForm, NotAnInteger, OptimizerQuery, PresetsQuery, SaveForm, SeasonForm, SetupForm,
};

#[test]
fn optional_field_blank_is_none() {
    assert_eq!(optional_i32(""), Ok(None));
    assert_eq!(optional_i32("   "), Ok(None));
}

#[test]
fn optional_field_is_trimmed_and_parsed() {
    assert_eq!(optional_i32("3"), Ok(Some(3)));
    assert_eq!(optional_i32("  12 "), Ok(Some(12)));
    assert_eq!(optional_i32("-4"), Ok(Some(-4)));
    assert_eq!(optional_i32("+7"), Ok(Some(7)));
}

#[test]
fn optional_field_rejects_non_integers() {
    assert_eq!(optional_i32("abc"), Err(NotAnInteger));
    assert_eq!(optional_i32("1 2"), Err(NotAnInteger));
    assert_eq!(optional_i32("99999999999"), Err(NotAnInteger));
}

#[test]
fn optimizer_query_maps_fields() {
    let q = OptimizerQuery {
        speed: true,
        cornering: false,
        power_unit: true,
        qualifying: false,
        overtaking: false,
        defending: true,
        d_qualifying: true,
        race_start: false,
        tyre_management: true,
        max_part_series: Some(4),
        max_driver_series: None,
    };
    let p = q.part_priorities();
    assert!(p.speed && !p.cornering && p.power_unit && !p.qualifying);
    let d = q.driver_priorities();
    assert!(!d.overtaking && d.defending && d.qualifying && !d.race_start && d.tyre_management);
    assert_eq!(q.part_series_limit(), 4);
    assert_eq!(q.driver_series_limit(), i32::MAX);
    assert_eq!(PresetsQuery { max_part_series: None }.part_series_limit(), i32::MAX);
    assert_eq!(PresetsQuery { max_part_series: Some(2) }.part_series_limit(), 2);
}

#[test]
fn forms_become_setups() {
    let f = SaveForm {
        name: "Best".to_string(),
        brakes_id: Some(1),
        gearbox_id: None,
        rear_wing_id: Some(3),
        front_wing_id: None,
        suspension_id: None,
        engine_id: Some(6),
        battery_id: None,
        driver1_id: Some(8),
        driver2_id: None,
    };
    let s = f.to_setup(42);
    assert_eq!(s.id, 42);
    assert_eq!(s.name, "Best");
    assert_eq!((s.brakes_id, s.rear_wing_id, s.engine_id, s.driver1_id), (Some(1), Some(3), Some(6), Some(8)));
    assert_eq!((s.gearbox_id, s.driver2_id), (None, None));
    let g = SetupForm {
        name: "Mine".to_string(),
        engine_id: None,
        front_wing_id: Some(2),
        rear_wing_id: None,
        suspension_id: Some(4),
        brakes_id: None,
        gearbox_id: None,
        battery_id: Some(7),
        driver1_id: None,
        driver2_id: Some(9),
    };
    let t = g.to_setup(1);
    assert_eq!((t.front_wing_id, t.suspension_id, t.battery_id, t.driver2_id), (Some(2), Some(4), Some(7), Some(9)));
    assert_eq!(t.name, "Mine");
}

#[test]
fn cards_are_never_stored_negative() {
    assert_eq!(CardsForm { cards: -5 }.stored_cards(), 0);
    assert_eq!(CardsForm { cards: 0 }.stored_cards(), 0);
    assert_eq!(CardsForm { cards: 17 }.stored_cards(), 17);
}

#[test]
fn season_target_is_trimmed() {
    assert_eq!(SeasonForm { season: " 2026 ".to_string() }.target(), Some("2026".to_string()));
    assert_eq!(SeasonForm { season: "   ".to_string() }.target(), None);
}

#[test]
fn noop_geoip_knows_no_country() {
    assert_eq!(NoopGeoIp.lookup("8.8.8.8"), None);
}

#[test]
fn comparison_ids_skip_non_integers() {
    assert_eq!(id_list("1,2,3"), vec![1, 2, 3]);
    assert_eq!(id_list(" 4 , x, 5,,"), vec![4, 5]);
    assert_eq!(id_list(""), Vec::<i32>::new());
    assert_eq!(id_list("-7"), vec![-7]);
}

#[test]
fn category_slugs_read_back() {
    for c in PartCategory::all() {
        assert_eq!(PartCategory::from_slug(c.slug()), Some(*c));
    }
    assert_eq!(PartCategory::from_slug("rear_wing"), Some(PartCategory::RearWing));
    assert_eq!(PartCategory::from_slug("Rear Wing"), None);
}
