use f1clash_setup::drivers_data::{DriverCategory, DriverRarity};

// --- DriverRarity::from_db ---

#[test]
fn from_db_parses_all_variants() {
    assert_eq!(DriverRarity::from_db("Common"), Some(DriverRarity::Common));
    assert_eq!(DriverRarity::from_db("Rare"), Some(DriverRarity::Rare));
    assert_eq!(DriverRarity::from_db("Epic"), Some(DriverRarity::Epic));
    assert_eq!(DriverRarity::from_db("Legendary"), Some(DriverRarity::Legendary));
    assert_eq!(DriverRarity::from_db("Prospect Standard"), Some(DriverRarity::ProspectStandard));
    assert_eq!(
        DriverRarity::from_db("Prospect Turbocharged"),
        Some(DriverRarity::ProspectTurbocharged)
    );
    assert_eq!(DriverRarity::from_db("Podium Stars"), Some(DriverRarity::PodiumStars));
    assert_eq!(
        DriverRarity::from_db("Podium Stars Legends"),
        Some(DriverRarity::PodiumStarsLegends)
    );
}

#[test]
fn from_db_returns_none_for_unknown() {
    assert!(DriverRarity::from_db("").is_none());
    assert!(DriverRarity::from_db("common").is_none()); // case-sensitive
    assert!(DriverRarity::from_db("Unknown").is_none());
}

// --- DriverRarity::category ---

#[test]
fn category_normal_for_common_rare_epic() {
    assert_eq!(DriverRarity::Common.category(), DriverCategory::Normal);
    assert_eq!(DriverRarity::Rare.category(), DriverCategory::Normal);
    assert_eq!(DriverRarity::Epic.category(), DriverCategory::Normal);
}

#[test]
fn category_legendary_for_legendary() {
    assert_eq!(DriverRarity::Legendary.category(), DriverCategory::Legendary);
}

#[test]
fn category_special_edition_for_rest() {
    assert_eq!(DriverRarity::ProspectStandard.category(), DriverCategory::SpecialEdition);
    assert_eq!(DriverRarity::ProspectTurbocharged.category(), DriverCategory::SpecialEdition);
    assert_eq!(DriverRarity::PodiumStars.category(), DriverCategory::SpecialEdition);
    assert_eq!(DriverRarity::PodiumStarsLegends.category(), DriverCategory::SpecialEdition);
}
