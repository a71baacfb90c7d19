//! Saved setups, owned parts and part boosts.

use vstd::prelude::*;

verus! {

/// A saved car setup (part slots + 2 drivers). Every slot may be empty
/// (`None` means "use the default placeholder" for that category).
#[derive(Debug, Clone, Copy, PartialEq, Eq, Structural)]
pub struct SetupSlots {
    pub engine_id: Option<i32>,
    pub front_wing_id: Option<i32>,
    pub rear_wing_id: Option<i32>,
    pub suspension_id: Option<i32>,
    pub brakes_id: Option<i32>,
    pub gearbox_id: Option<i32>,
    pub battery_id: Option<i32>,
    pub driver1_id: Option<i32>,
    pub driver2_id: Option<i32>,
}

/// A saved car setup.
#[derive(Debug)]
pub struct Setup {
    pub id: i32,
    pub name: String,
    pub engine_id: Option<i32>,
    pub front_wing_id: Option<i32>,
    pub rear_wing_id: Option<i32>,
    pub suspension_id: Option<i32>,
    pub brakes_id: Option<i32>,
    pub gearbox_id: Option<i32>,
    pub battery_id: Option<i32>,
    pub driver1_id: Option<i32>,
    pub driver2_id: Option<i32>,
}

/// An inventory item — a part the player owns at a specific level.
#[derive(Debug)]
pub struct InventoryItem {
    pub id: i32,
    pub part_name: String,
    pub level: i32,
    pub cards_owned: i32,
}

impl Clone for InventoryItem {
    fn clone(&self) -> (r: Self)
        ensures
            r == *self,
    {
        InventoryItem {
            id: self.id,
            part_name: self.part_name.clone(),
            level: self.level,
            cards_owned: self.cards_owned,
        }
    }
}

/// A global boost applied to a specific part.
#[derive(Debug)]
pub struct Boost {
    pub id: i32,
    pub part_name: String,
    pub percentage: i32,
}

impl Clone for Boost {
    fn clone(&self) -> (r: Self)
        ensures
            r == *self,
    {
        Boost { id: self.id, part_name: self.part_name.clone(), percentage: self.percentage }
    }
}

} // verus!
