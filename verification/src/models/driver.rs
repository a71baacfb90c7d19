//! Drivers: catalog definitions, per-level stats, owned drivers and boosts.

use vstd::prelude::*;

use crate::models::part::{lemma_boost_by_zero, lemma_boost_positive, boost_stat, boost_value, boost_wide, fits_i32, fits_i32_exec, first_level_index_by};

verus! {

/// Per-level stats for a driver definition.
#[derive(Debug, Clone, Copy, PartialEq, Eq, Structural)]
pub struct OwnedDriverLevelStats {
    pub level: i32,
    pub overtaking: i32,
    pub defending: i32,
    pub qualifying: i32,
    pub race_start: i32,
    pub tyre_management: i32,
    pub cards_required: i32,
    pub coins_cost: i64,
    pub legacy_points: i32,
}

/// Driver stats — separate from part stats.
#[derive(Debug, Clone, Copy, PartialEq, Eq, Structural)]
pub struct DriverStats {
    pub overtaking: i32,
    pub defending: i32,
    pub qualifying: i32,
    pub race_start: i32,
    pub tyre_management: i32,
}

impl Default for DriverStats {
    fn default() -> (r: DriverStats)
        ensures
            r == DriverStats::zero(),
    {
        DriverStats { overtaking: 0, defending: 0, qualifying: 0, race_start: 0, tyre_management: 0 }
    }
}

impl OwnedDriverLevelStats {
    pub open spec fn total_spec(self) -> int {
        self.overtaking + self.defending + self.qualifying + self.race_start + self.tyre_management
    }

    pub open spec fn to_stats_spec(self) -> DriverStats {
        DriverStats {
            overtaking: self.overtaking,
            defending: self.defending,
            qualifying: self.qualifying,
            race_start: self.race_start,
            tyre_management: self.tyre_management,
        }
    }

    pub fn total(&self) -> (r: i32)
        requires
            fits_i32(self.total_spec()),
        ensures
            r == self.total_spec(),
    {
        (self.overtaking as i64 + self.defending as i64 + self.qualifying as i64
            + self.race_start as i64 + self.tyre_management as i64) as i32
    }

    pub fn to_stats(&self) -> (r: DriverStats)
        ensures
            r == self.to_stats_spec(),
    {
        DriverStats {
            overtaking: self.overtaking,
            defending: self.defending,
            qualifying: self.qualifying,
            race_start: self.race_start,
            tyre_management: self.tyre_management,
        }
    }
}

impl DriverStats {
    pub open spec fn zero() -> DriverStats {
        DriverStats { overtaking: 0, defending: 0, qualifying: 0, race_start: 0, tyre_management: 0 }
    }

    pub open spec fn total_spec(self) -> int {
        self.overtaking + self.defending + self.qualifying + self.race_start + self.tyre_management
    }

    pub open spec fn can_add(self, o: DriverStats) -> bool {
        fits_i32(self.overtaking + o.overtaking) && fits_i32(self.defending + o.defending)
            && fits_i32(self.qualifying + o.qualifying) && fits_i32(self.race_start + o.race_start)
            && fits_i32(self.tyre_management + o.tyre_management)
    }

    pub open spec fn add_spec(self, o: DriverStats) -> DriverStats {
        DriverStats {
            overtaking: (self.overtaking + o.overtaking) as i32,
            defending: (self.defending + o.defending) as i32,
            qualifying: (self.qualifying + o.qualifying) as i32,
            race_start: (self.race_start + o.race_start) as i32,
            tyre_management: (self.tyre_management + o.tyre_management) as i32,
        }
    }

    pub open spec fn can_boost(self, pct: int) -> bool {
        fits_i32(boost_stat(self.overtaking as int, pct)) && fits_i32(
            boost_stat(self.defending as int, pct),
        ) && fits_i32(boost_stat(self.qualifying as int, pct)) && fits_i32(
            boost_stat(self.race_start as int, pct),
        ) && fits_i32(boost_stat(self.tyre_management as int, pct))
    }

    pub open spec fn boosted_spec(self, pct: int) -> DriverStats {
        DriverStats {
            overtaking: boost_stat(self.overtaking as int, pct) as i32,
            defending: boost_stat(self.defending as int, pct) as i32,
            qualifying: boost_stat(self.qualifying as int, pct) as i32,
            race_start: boost_stat(self.race_start as int, pct) as i32,
            tyre_management: boost_stat(self.tyre_management as int, pct) as i32,
        }
    }

    pub fn total(&self) -> (r: i32)
        requires
            fits_i32(self.total_spec()),
        ensures
            r == self.total_spec(),
    {
        (self.overtaking as i64 + self.defending as i64 + self.qualifying as i64
            + self.race_start as i64 + self.tyre_management as i64) as i32
    }

    pub fn add(&self, other: &DriverStats) -> (r: DriverStats)
        requires
            self.can_add(*other),
        ensures
            r == self.add_spec(*other),
    {
        DriverStats {
            overtaking: self.overtaking + other.overtaking,
            defending: self.defending + other.defending,
            qualifying: self.qualifying + other.qualifying,
            race_start: self.race_start + other.race_start,
            tyre_management: self.tyre_management + other.tyre_management,
        }
    }

    /// Whether boosting by `percentage` keeps every stat within `i32`.
    pub fn boost_fits(&self, percentage: i32) -> (r: bool)
        ensures
            r == self.can_boost(percentage as int),
    {
        fits_i32_exec(boost_wide(self.overtaking, percentage)) && fits_i32_exec(
            boost_wide(self.defending, percentage),
        ) && fits_i32_exec(boost_wide(self.qualifying, percentage)) && fits_i32_exec(
            boost_wide(self.race_start, percentage),
        ) && fits_i32_exec(boost_wide(self.tyre_management, percentage))
    }

    /// The field-wise sum, or `None` when a field leaves `i32`.
    pub fn checked_add(&self, other: &DriverStats) -> (r: Option<DriverStats>)
        ensures
            match r {
                Some(t) => self.can_add(*other) && t == self.add_spec(*other),
                None => !self.can_add(*other),
            },
    {
        if fits_i32_exec(self.overtaking as i64 + other.overtaking as i64) && fits_i32_exec(
            self.defending as i64 + other.defending as i64,
        ) && fits_i32_exec(self.qualifying as i64 + other.qualifying as i64) && fits_i32_exec(
            self.race_start as i64 + other.race_start as i64,
        ) && fits_i32_exec(self.tyre_management as i64 + other.tyre_management as i64) {
            Some(self.add(other))
        } else {
            None
        }
    }

    /// Integer stats use ceiling so any non-zero boost always adds at least 1.
    pub fn boosted(&self, percentage: i32) -> (r: DriverStats)
        requires
            self.can_boost(percentage as int),
        ensures
            r == self.boosted_spec(percentage as int),
    {
        DriverStats {
            overtaking: boost_value(self.overtaking, percentage),
            defending: boost_value(self.defending, percentage),
            qualifying: boost_value(self.qualifying, percentage),
            race_start: boost_value(self.race_start, percentage),
            tyre_management: boost_value(self.tyre_management, percentage),
        }
    }
}

/// Each of the five stats counts once in a total, tyre management
/// included: replacing one stat by `k` moves the total by the difference.
/// A driver level's total is the total of its stats as driver stats.
pub proof fn law_driver_totals_count_each_stat(ls: OwnedDriverLevelStats, s: DriverStats, k: i32)
    ensures
        ls.total_spec() == ls.to_stats_spec().total_spec(),
        (OwnedDriverLevelStats { overtaking: k, ..ls }).total_spec() == ls.total_spec() - ls.overtaking + k,
        (OwnedDriverLevelStats { defending: k, ..ls }).total_spec() == ls.total_spec() - ls.defending + k,
        (OwnedDriverLevelStats { qualifying: k, ..ls }).total_spec() == ls.total_spec() - ls.qualifying + k,
        (OwnedDriverLevelStats { race_start: k, ..ls }).total_spec() == ls.total_spec() - ls.race_start + k,
        (OwnedDriverLevelStats { tyre_management: k, ..ls }).total_spec() == ls.total_spec() - ls.tyre_management
            + k,
        (OwnedDriverLevelStats { level: k, ..ls }).total_spec() == ls.total_spec(),
        (DriverStats { overtaking: k, ..s }).total_spec() == s.total_spec() - s.overtaking + k,
        (DriverStats { defending: k, ..s }).total_spec() == s.total_spec() - s.defending + k,
        (DriverStats { qualifying: k, ..s }).total_spec() == s.total_spec() - s.qualifying + k,
        (DriverStats { race_start: k, ..s }).total_spec() == s.total_spec() - s.race_start + k,
        (DriverStats { tyre_management: k, ..s }).total_spec() == s.total_spec() - s.tyre_management + k,
        DriverStats::zero().total_spec() == 0,
{
}

/// Adding driver stats: zero changes nothing; the sum is commutative and
/// associative wherever no field overflows; and the total of a sum is the
/// sum of the totals.
pub proof fn law_driver_add(a: DriverStats, b: DriverStats, c: DriverStats)
    ensures
        a.can_add(DriverStats::zero()),
        a.add_spec(DriverStats::zero()) == a,
        a.can_add(b) == b.can_add(a),
        a.can_add(b) ==> a.add_spec(b) == b.add_spec(a),
        a.can_add(b) ==> a.add_spec(b).total_spec() == a.total_spec() + b.total_spec(),
        a.can_add(b) && a.add_spec(b).can_add(c) && b.can_add(c) ==> a.can_add(b.add_spec(c)) && a.add_spec(b).add_spec(c)
            == a.add_spec(b.add_spec(c)),
{
}

/// Any positive boost adds at least one point to every positive stat, and
/// a 0 % boost changes nothing.
pub proof fn law_positive_boost_adds_at_least_one(s: DriverStats, pct: int)
    requires
        pct > 0,
        s.overtaking > 0,
    ensures
        boost_stat(s.overtaking as int, pct) >= s.overtaking + 1,
        s.can_boost(0) && s.boosted_spec(0) == s,
{
    lemma_boost_positive(s.overtaking as int, pct);
    lemma_boost_by_zero(s.overtaking as int);
    lemma_boost_by_zero(s.defending as int);
    lemma_boost_by_zero(s.qualifying as int);
    lemma_boost_by_zero(s.race_start as int);
    lemma_boost_by_zero(s.tyre_management as int);
}

/// Catalog driver definition (one per name + rarity + season).
#[derive(Debug)]
pub struct OwnedDriverDefinition {
    pub id: i32,
    pub name: String,
    pub season: String,
    pub rarity: String,
    pub series: String,
    pub sort_order: i32,
    pub levels: Vec<OwnedDriverLevelStats>,
}

/// The mathematical model of a driver definition: its fields, strings as
/// character sequences.
pub struct DriverDefView {
    pub id: i32,
    pub name: Seq<char>,
    pub season: Seq<char>,
    pub rarity: Seq<char>,
    pub series: Seq<char>,
    pub sort_order: i32,
    pub levels: Seq<OwnedDriverLevelStats>,
}

impl View for OwnedDriverDefinition {
    type V = DriverDefView;

    open spec fn view(&self) -> DriverDefView {
        DriverDefView {
            id: self.id,
            name: self.name@,
            season: self.season@,
            rarity: self.rarity@,
            series: self.series@,
            sort_order: self.sort_order,
            levels: self.levels@,
        }
    }
}

impl Clone for OwnedDriverDefinition {
    fn clone(&self) -> (r: Self)
        ensures
            r@ == self@,
    {
        let levels = self.levels.clone();
        assert(levels@ =~= self.levels@);
        OwnedDriverDefinition {
            id: self.id,
            name: self.name.clone(),
            season: self.season.clone(),
            rarity: self.rarity.clone(),
            series: self.series.clone(),
            sort_order: self.sort_order,
            levels,
        }
    }
}

impl OwnedDriverDefinition {
    pub open spec fn max_level_spec(self) -> int {
        if self.levels@.len() == 0 {
            1
        } else {
            self.levels@.last().level as int
        }
    }

    /// The stats of the first entry for `level`, if there is one.
    pub fn stats_for_level(&self, level: i32) -> (r: Option<&OwnedDriverLevelStats>)
        ensures
            match first_level_index_by(self.levels@.map_values(|l: OwnedDriverLevelStats| l.level), level) {
                Some(i) => 0 <= i < self.levels@.len() && r == Some(&self.levels@[i]),
                None => r is None,
            },
    {
        let ghost lv = self.levels@.map_values(|l: OwnedDriverLevelStats| l.level);
        let mut i: usize = 0;
        while i < self.levels.len()
            invariant
                0 <= i <= self.levels.len(),
                lv == self.levels@.map_values(|l: OwnedDriverLevelStats| l.level),
                forall|j: int| 0 <= j < i ==> lv[j] != level,
            decreases self.levels.len() - i,
        {
            if self.levels[i].level == level {
                let ghost k = first_level_index_by(lv, level);
                assert(lv[i as int] == level);
                assert(k is Some);
                assert(k->0 == i) by {
                    let c = k->0;
                    if c < i {
                    } else if c > i {
                    }
                }
                return Some(&self.levels[i]);
            }
            i = i + 1;
        }
        None
    }

    /// The level of the last entry, or 1 when there are none.
    pub fn max_level(&self) -> (r: i32)
        ensures
            r == self.max_level_spec(),
    {
        if self.levels.len() == 0 {
            1
        } else {
            self.levels[self.levels.len() - 1].level
        }
    }
}

/// A driver the player owns.
#[derive(Debug)]
pub struct DriverInventoryItem {
    pub id: i32,
    pub driver_name: String,
    pub rarity: String,
    pub level: i32,
    pub cards_owned: i32,
}

impl Clone for DriverInventoryItem {
    fn clone(&self) -> (r: Self)
        ensures
            r == *self,
    {
        DriverInventoryItem {
            id: self.id,
            driver_name: self.driver_name.clone(),
            rarity: self.rarity.clone(),
            level: self.level,
            cards_owned: self.cards_owned,
        }
    }
}

/// A boost applied to a driver.
#[derive(Debug)]
pub struct DriverBoost {
    pub id: i32,
    pub driver_name: String,
    pub rarity: String,
    pub percentage: i32,
}

impl Clone for DriverBoost {
    fn clone(&self) -> (r: Self)
        ensures
            r == *self,
    {
        DriverBoost {
            id: self.id,
            driver_name: self.driver_name.clone(),
            rarity: self.rarity.clone(),
            percentage: self.percentage,
        }
    }
}

} // verus!
