//! Driver rarities and the categories they are grouped in.

use vstd::prelude::*;

use crate::text::str_eq;

verus! {

#[derive(Debug, Clone, Copy, PartialEq, Eq, Structural)]
pub enum DriverRarity {
    Common,
    Rare,
    Epic,
    Legendary,
    ProspectStandard,
    ProspectTurbocharged,
    PodiumStars,
    PodiumStarsLegends,
}

impl DriverRarity {
    pub open spec fn label_view(self) -> Seq<char> {
        match self {
            DriverRarity::Common => "Common"@,
            DriverRarity::Rare => "Rare"@,
            DriverRarity::Epic => "Epic"@,
            DriverRarity::Legendary => "Legendary"@,
            DriverRarity::ProspectStandard => "Prospect Standard"@,
            DriverRarity::ProspectTurbocharged => "Prospect Turbocharged"@,
            DriverRarity::PodiumStars => "Podium Stars"@,
            DriverRarity::PodiumStarsLegends => "Podium Stars Legends"@,
        }
    }

    pub open spec fn css_class_view(self) -> Seq<char> {
        match self {
            DriverRarity::Common => "rarity-common"@,
            DriverRarity::Rare => "rarity-rare"@,
            DriverRarity::Epic => "rarity-epic"@,
            DriverRarity::Legendary => "rarity-legendary"@,
            DriverRarity::ProspectStandard => "rarity-prospect-std"@,
            DriverRarity::ProspectTurbocharged => "rarity-prospect-turbo"@,
            DriverRarity::PodiumStars => "rarity-podium"@,
            DriverRarity::PodiumStarsLegends => "rarity-podium-legends"@,
        }
    }

    /// The rarity whose database key is `s` (keys are the labels, compared
    /// case-sensitively).
    pub open spec fn from_db_spec(s: Seq<char>) -> Option<DriverRarity> {
        if s == "Common"@ {
            Some(DriverRarity::Common)
        } else if s == "Rare"@ {
            Some(DriverRarity::Rare)
        } else if s == "Epic"@ {
            Some(DriverRarity::Epic)
        } else if s == "Legendary"@ {
            Some(DriverRarity::Legendary)
        } else if s == "Prospect Standard"@ {
            Some(DriverRarity::ProspectStandard)
        } else if s == "Prospect Turbocharged"@ {
            Some(DriverRarity::ProspectTurbocharged)
        } else if s == "Podium Stars"@ {
            Some(DriverRarity::PodiumStars)
        } else if s == "Podium Stars Legends"@ {
            Some(DriverRarity::PodiumStarsLegends)
        } else {
            None
        }
    }

    pub open spec fn category_spec(self) -> DriverCategory {
        match self {
            DriverRarity::Common | DriverRarity::Rare | DriverRarity::Epic => DriverCategory::Normal,
            DriverRarity::Legendary => DriverCategory::Legendary,
            _ => DriverCategory::SpecialEdition,
        }
    }

    pub fn label(&self) -> (r: &'static str)
        ensures
            r@ == self.label_view(),
    {
        match self {
            DriverRarity::Common => "Common",
            DriverRarity::Rare => "Rare",
            DriverRarity::Epic => "Epic",
            DriverRarity::Legendary => "Legendary",
            DriverRarity::ProspectStandard => "Prospect Standard",
            DriverRarity::ProspectTurbocharged => "Prospect Turbocharged",
            DriverRarity::PodiumStars => "Podium Stars",
            DriverRarity::PodiumStarsLegends => "Podium Stars Legends",
        }
    }

    pub fn css_class(&self) -> (r: &'static str)
        ensures
            r@ == self.css_class_view(),
    {
        match self {
            DriverRarity::Common => "rarity-common",
            DriverRarity::Rare => "rarity-rare",
            DriverRarity::Epic => "rarity-epic",
            DriverRarity::Legendary => "rarity-legendary",
            DriverRarity::ProspectStandard => "rarity-prospect-std",
            DriverRarity::ProspectTurbocharged => "rarity-prospect-turbo",
            DriverRarity::PodiumStars => "rarity-podium",
            DriverRarity::PodiumStarsLegends => "rarity-podium-legends",
        }
    }

    /// The key under which the rarity is stored: its label.
    pub fn db_key(&self) -> (r: &'static str)
        ensures
            r@ == self.label_view(),
    {
        self.label()
    }

    pub fn from_db(s: &str) -> (r: Option<DriverRarity>)
        ensures
            r == DriverRarity::from_db_spec(s@),
    {
        if str_eq(s, "Common") {
            Some(DriverRarity::Common)
        } else if str_eq(s, "Rare") {
            Some(DriverRarity::Rare)
        } else if str_eq(s, "Epic") {
            Some(DriverRarity::Epic)
        } else if str_eq(s, "Legendary") {
            Some(DriverRarity::Legendary)
        } else if str_eq(s, "Prospect Standard") {
            Some(DriverRarity::ProspectStandard)
        } else if str_eq(s, "Prospect Turbocharged") {
            Some(DriverRarity::ProspectTurbocharged)
        } else if str_eq(s, "Podium Stars") {
            Some(DriverRarity::PodiumStars)
        } else if str_eq(s, "Podium Stars Legends") {
            Some(DriverRarity::PodiumStarsLegends)
        } else {
            None
        }
    }

    pub fn category(&self) -> (r: DriverCategory)
        ensures
            r == self.category_spec(),
    {
        match self {
            DriverRarity::Common | DriverRarity::Rare | DriverRarity::Epic => DriverCategory::Normal,
            DriverRarity::Legendary => DriverCategory::Legendary,
            _ => DriverCategory::SpecialEdition,
        }
    }
}

#[derive(Debug, Clone, Copy, PartialEq, Eq, Structural)]
pub enum DriverCategory {
    Normal,
    Legendary,
    SpecialEdition,
}

impl DriverCategory {
    pub open spec fn display_name_view(self) -> Seq<char> {
        match self {
            DriverCategory::Normal => "Normal"@,
            DriverCategory::Legendary => "Legendary"@,
            DriverCategory::SpecialEdition => "Special Edition"@,
        }
    }

    /// All categories, in display order.
    pub fn all() -> (r: &'static [DriverCategory])
        ensures
            r@ == seq![DriverCategory::Normal, DriverCategory::Legendary, DriverCategory::SpecialEdition],
    {
        &[DriverCategory::Normal, DriverCategory::Legendary, DriverCategory::SpecialEdition]
    }

    pub fn display_name(&self) -> (r: &'static str)
        ensures
            r@ == self.display_name_view(),
    {
        match self {
            DriverCategory::Normal => "Normal",
            DriverCategory::Legendary => "Legendary",
            DriverCategory::SpecialEdition => "Special Edition",
        }
    }
}

/// The database key of a rarity reads back as that rarity.
pub proof fn law_db_key_round_trip(r: DriverRarity)
    ensures
        DriverRarity::from_db_spec(r.label_view()) == Some(r),
{
    reveal_strlit("Common");
    reveal_strlit("Rare");
    reveal_strlit("Epic");
    reveal_strlit("Legendary");
    reveal_strlit("Prospect Standard");
    reveal_strlit("Prospect Turbocharged");
    reveal_strlit("Podium Stars");
    reveal_strlit("Podium Stars Legends");
    assert("Rare"@.len() != "Common"@.len());
    assert("Epic"@.len() != "Common"@.len());
    assert("Epic"@[0] != "Rare"@[0]);
    assert("Legendary"@.len() != "Common"@.len());
    assert("Legendary"@.len() != "Rare"@.len());
    assert("Legendary"@.len() != "Epic"@.len());
    assert("Prospect Standard"@.len() != "Common"@.len());
    assert("Prospect Standard"@.len() != "Rare"@.len());
    assert("Prospect Standard"@.len() != "Epic"@.len());
    assert("Prospect Standard"@.len() != "Legendary"@.len());
    assert("Prospect Turbocharged"@.len() != "Common"@.len());
    assert("Prospect Turbocharged"@.len() != "Rare"@.len());
    assert("Prospect Turbocharged"@.len() != "Epic"@.len());
    assert("Prospect Turbocharged"@.len() != "Legendary"@.len());
    assert("Prospect Turbocharged"@.len() != "Prospect Standard"@.len());
    assert("Podium Stars"@.len() != "Common"@.len());
    assert("Podium Stars"@.len() != "Rare"@.len());
    assert("Podium Stars"@.len() != "Epic"@.len());
    assert("Podium Stars"@.len() != "Legendary"@.len());
    assert("Podium Stars"@.len() != "Prospect Standard"@.len());
    assert("Podium Stars"@.len() != "Prospect Turbocharged"@.len());
    assert("Podium Stars Legends"@.len() != "Common"@.len());
    assert("Podium Stars Legends"@.len() != "Rare"@.len());
    assert("Podium Stars Legends"@.len() != "Epic"@.len());
    assert("Podium Stars Legends"@.len() != "Legendary"@.len());
    assert("Podium Stars Legends"@.len() != "Prospect Standard"@.len());
    assert("Podium Stars Legends"@.len() != "Prospect Turbocharged"@.len());
    assert("Podium Stars Legends"@.len() != "Podium Stars"@.len());
}

} // verus!
