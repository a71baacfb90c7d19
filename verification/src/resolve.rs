//! Resolving owned parts and drivers to their effective stats: the catalog
//! entry of the item, its stats at the owned level, and the boost applied.

use vstd::prelude::*;

use crate::find::{first_where, lemma_first_where_found, lemma_first_where_range};
use crate::models::driver::{
    DriverBoost, DriverInventoryItem, DriverStats, OwnedDriverDefinition, OwnedDriverLevelStats,
};
use crate::models::part::{
    boost_stat, lemma_boost_bonus_bounded, first_level_index, first_level_index_by, part_rarity_css, OwnedLevelStats,
    OwnedPartDefinition,
    PartCategory, Stats,
};
use crate::models::setup::{Boost, InventoryItem};
use crate::optimizer_core::{
    lemma_top_by_map, part_total_key, prune_category, pruned, stats_table, stats_within, table_within, top_by,
    ResolvedDriver, ResolvedPart, POOL_CAP,
};
use crate::text::{parse_i32, parse_i32_spec, push_str, string_of};
use crate::text::str_eq;

verus! {

/// Index of the first catalog part named `name`.
pub open spec fn first_def(catalog: Seq<OwnedPartDefinition>, name: Seq<char>) -> Option<int> {
    first_where(catalog.len() as int, |i: int| catalog[i].name@ == name)
}

/// Index of the first boost for the part named `name`.
pub open spec fn first_boost(boosts: Seq<Boost>, name: Seq<char>) -> Option<int> {
    first_where(boosts.len() as int, |i: int| boosts[i].part_name@ == name)
}

/// Index of the first catalog part named `name`.
pub fn find_def(catalog: &[OwnedPartDefinition], name: &String) -> (r: Option<usize>)
    ensures
        match first_def(catalog@, name@) {
            Some(i) => 0 <= i < catalog@.len() && r == Some(i as usize),
            None => r is None,
        },
{
    let ghost pred = |i: int| catalog@[i].name@ == name@;
    let mut i: usize = 0;
    while i < catalog.len()
        invariant
            0 <= i <= catalog@.len(),
            pred == (|i: int| catalog@[i].name@ == name@),
            forall|j: int| 0 <= j < i ==> !#[trigger] pred(j),
        decreases catalog@.len() - i,
    {
        if str_eq(catalog[i].name.as_str(), name.as_str()) {
            proof {
                lemma_first_where_found(catalog@.len() as int, pred, i as int);
            }
            return Some(i);
        }
        i = i + 1;
    }
    None
}

/// Index of the first boost for the part named `name`.
pub fn find_boost(boosts: &[Boost], name: &String) -> (r: Option<usize>)
    ensures
        match first_boost(boosts@, name@) {
            Some(i) => 0 <= i < boosts@.len() && r == Some(i as usize),
            None => r is None,
        },
{
    let ghost pred = |i: int| boosts@[i].part_name@ == name@;
    let mut i: usize = 0;
    while i < boosts.len()
        invariant
            0 <= i <= boosts@.len(),
            pred == (|i: int| boosts@[i].part_name@ == name@),
            forall|j: int| 0 <= j < i ==> !#[trigger] pred(j),
        decreases boosts@.len() - i,
    {
        if str_eq(boosts[i].part_name.as_str(), name.as_str()) {
            proof {
                lemma_first_where_found(boosts@.len() as int, pred, i as int);
            }
            return Some(i);
        }
        i = i + 1;
    }
    None
}

/// A level's stats within ±1 000 000, boosted by at most ±1000 %, stay
/// within ±12 000 000.
pub proof fn lemma_upgraded_within(ls: OwnedLevelStats, pct: int)
    requires
        stats_within(ls.to_stats_spec(), 1_000_000),
        -1000 <= pct <= 1000,
    ensures
        ls.to_stats_spec().can_boost(pct),
        stats_within(ls.to_stats_spec().boosted_spec(pct), 12_000_000),
        stats_within(ls.to_stats_spec(), 12_000_000),
{
    let s = ls.to_stats_spec();
    lemma_boost_within(s.speed as int, pct);
    lemma_boost_within(s.cornering as int, pct);
    lemma_boost_within(s.power_unit as int, pct);
    lemma_boost_within(s.qualifying as int, pct);
}

/// A stat within ±1 000 000 boosted by at most ±1000 % stays within
/// ±12 000 000.
pub proof fn lemma_boost_within(v: int, pct: int)
    requires
        -1_000_000 <= v <= 1_000_000,
        -1000 <= pct <= 1000,
    ensures
        -12_000_000 <= boost_stat(v, pct) <= 12_000_000,
{
    lemma_boost_bonus_bounded(v, pct);
}


// ── Parts ─────────────────────────────────────────────────────────────────────

/// Every level of every catalog part has stats within ±1 000 000.
pub open spec fn catalog_within(catalog: Seq<OwnedPartDefinition>) -> bool {
    forall|d: int, l: int|
        0 <= d < catalog.len() && 0 <= l < catalog[d].levels@.len() ==> stats_within(
            #[trigger] catalog[d].levels@[l].to_stats_spec(),
            1_000_000,
        )
}

/// Every boost lies within ±1000 %.
pub open spec fn boosts_within(boosts: Seq<Boost>) -> bool {
    forall|b: int| 0 <= b < boosts.len() ==> -1000 <= #[trigger] boosts[b].percentage <= 1000
}

fn level_in_range(l: &OwnedLevelStats) -> (r: bool)
    ensures
        r == stats_within(l.to_stats_spec(), 1_000_000),
{
    let b: i32 = 1_000_000;
    -b <= l.speed && l.speed <= b && -b <= l.cornering && l.cornering <= b && -b <= l.power_unit
        && l.power_unit <= b && -b <= l.qualifying && l.qualifying <= b && -b <= l.pit_stop_hundredths
        && l.pit_stop_hundredths <= b && -b <= l.additional_stat_value && l.additional_stat_value <= b
}

/// Whether every level of every catalog part has stats within ±1 000 000,
/// the range within which effective stats and their sums are computed.
pub fn catalog_in_range(catalog: &[OwnedPartDefinition]) -> (r: bool)
    ensures
        r == catalog_within(catalog@),
{
    let mut d: usize = 0;
    while d < catalog.len()
        invariant
            0 <= d <= catalog@.len(),
            forall|dd: int, l: int|
                0 <= dd < d && 0 <= l < catalog@[dd].levels@.len() ==> stats_within(
                    #[trigger] catalog@[dd].levels@[l].to_stats_spec(),
                    1_000_000,
                ),
        decreases catalog@.len() - d,
    {
        let levels = &catalog[d].levels;
        let mut l: usize = 0;
        while l < levels.len()
            invariant
                0 <= d < catalog@.len(),
                levels@ == catalog@[d as int].levels@,
                0 <= l <= levels@.len(),
                forall|ll: int| 0 <= ll < l ==> stats_within(#[trigger] levels@[ll].to_stats_spec(), 1_000_000),
            decreases levels@.len() - l,
        {
            if !level_in_range(&levels[l]) {
                assert(!stats_within(catalog@[d as int].levels@[l as int].to_stats_spec(), 1_000_000));
                return false;
            }
            l = l + 1;
        }
        assert forall|dd: int, ll: int|
            0 <= dd < d + 1 && 0 <= ll < catalog@[dd].levels@.len() implies stats_within(
                #[trigger] catalog@[dd].levels@[ll].to_stats_spec(),
                1_000_000,
            ) by {
            if dd == d {
                assert(levels@[ll] == catalog@[dd].levels@[ll]);
            }
        }
        d = d + 1;
    }
    true
}

/// Whether every boost lies within ±1000 %.
pub fn boosts_in_range(boosts: &[Boost]) -> (r: bool)
    ensures
        r == boosts_within(boosts@),
{
    let mut b: usize = 0;
    while b < boosts.len()
        invariant
            0 <= b <= boosts@.len(),
            forall|j: int| 0 <= j < b ==> -1000 <= #[trigger] boosts@[j].percentage <= 1000,
        decreases boosts@.len() - b,
    {
        if boosts[b].percentage < -1000 || boosts[b].percentage > 1000 {
            assert(!(-1000 <= boosts@[b as int].percentage <= 1000));
            return false;
        }
        b = b + 1;
    }
    true
}

/// `s` boosted by the first boost for the part named `name`, if any.
pub open spec fn boosted_by(boosts: Seq<Boost>, name: Seq<char>, s: Stats) -> Stats {
    match first_boost(boosts, name) {
        Some(b) => s.boosted_spec(boosts[b].percentage as int),
        None => s,
    }
}

/// The catalog entry of an owned part and its effective stats: the stats of
/// the first entry for its level, boosted by the first boost for its part;
/// `None` when the catalog lacks the part or the level.
pub open spec fn part_stats_spec(catalog: Seq<OwnedPartDefinition>, boosts: Seq<Boost>, item: InventoryItem) -> Option<
    (int, Stats),
> {
    match first_def(catalog, item.part_name@) {
        None => None,
        Some(d) => match first_level_index(catalog[d].levels@, item.level) {
            None => None,
            Some(l) => Some((d, boosted_by(boosts, item.part_name@, catalog[d].levels@[l].to_stats_spec()))),
        },
    }
}

/// Boosting the stats of an owned part at its level by the first boost for
/// its name stays within `i32` (there is nothing to boost when the catalog
/// lacks the part or the level, or no boost names it).
#[verifier::opaque]
pub open spec fn boost_fits(catalog: Seq<OwnedPartDefinition>, boosts: Seq<Boost>, item: InventoryItem) -> bool {
    match first_def(catalog, item.part_name@) {
        None => true,
        Some(d) => match first_level_index(catalog[d].levels@, item.level) {
            None => true,
            Some(l) => match first_boost(boosts, item.part_name@) {
                None => true,
                Some(b) => catalog[d].levels@[l].to_stats_spec().can_boost(boosts[b].percentage as int),
            },
        },
    }
}

/// The catalog entry of an owned part and its effective stats.
pub fn resolve_part_stats(catalog: &[OwnedPartDefinition], boosts: &[Boost], item: &InventoryItem) -> (r:
    Option<(usize, Stats)>)
    requires
        boost_fits(catalog@, boosts@, *item),
    ensures
        match part_stats_spec(catalog@, boosts@, *item) {
            Some((d, s)) => r == Some((d as usize, s)) && 0 <= d < catalog@.len(),
            None => r is None,
        },
        catalog_within(catalog@) && boosts_within(boosts@) ==> (r matches Some((_, s)) ==> stats_within(
            s,
            12_000_000,
        )),
{
    let d = match find_def(catalog, &item.part_name) {
        Some(d) => d,
        None => return None,
    };
    let ls = match catalog[d].stats_for_level(item.level) {
        Some(ls) => ls,
        None => return None,
    };
    let ghost l = first_level_index(catalog@[d as int].levels@, item.level)->0;
    let s = ls.to_stats();
    proof {
        reveal(boost_fits);
    }
    match find_boost(boosts, &item.part_name) {
        Some(b) => {
            proof {
                if catalog_within(catalog@) && boosts_within(boosts@) {
                    assert(stats_within(catalog@[d as int].levels@[l].to_stats_spec(), 1_000_000));
                    lemma_upgraded_within(*ls, boosts@[b as int].percentage as int);
                }
            }
            Some((d, s.boosted(boosts[b].percentage)))
        },
        None => {
            proof {
                if catalog_within(catalog@) && boosts_within(boosts@) {
                    assert(stats_within(catalog@[d as int].levels@[l].to_stats_spec(), 1_000_000));
                    lemma_upgraded_within(*ls, 0);
                }
            }
            Some((d, s))
        },
    }
}

// ── Drivers ───────────────────────────────────────────────────────────────────

/// Every driver stat lies within `-b..=b`.
pub open spec fn driver_stats_within(s: DriverStats, b: int) -> bool {
    -b <= s.overtaking <= b && -b <= s.defending <= b && -b <= s.qualifying <= b && -b
        <= s.race_start <= b && -b <= s.tyre_management <= b
}

/// Every level of every catalog driver has stats within ±1 000 000.
pub open spec fn driver_catalog_within(catalog: Seq<OwnedDriverDefinition>) -> bool {
    forall|d: int, l: int|
        0 <= d < catalog.len() && 0 <= l < catalog[d].levels@.len() ==> driver_stats_within(
            #[trigger] catalog[d].levels@[l].to_stats_spec(),
            1_000_000,
        )
}

/// Every driver boost lies within ±1000 %.
pub open spec fn driver_boosts_within(boosts: Seq<DriverBoost>) -> bool {
    forall|b: int| 0 <= b < boosts.len() ==> -1000 <= #[trigger] boosts[b].percentage <= 1000
}

fn driver_level_in_range(l: &OwnedDriverLevelStats) -> (r: bool)
    ensures
        r == driver_stats_within(l.to_stats_spec(), 1_000_000),
{
    let b: i32 = 1_000_000;
    -b <= l.overtaking && l.overtaking <= b && -b <= l.defending && l.defending <= b && -b <= l.qualifying
        && l.qualifying <= b && -b <= l.race_start && l.race_start <= b && -b <= l.tyre_management
        && l.tyre_management <= b
}

/// Whether every level of every catalog driver has stats within ±1 000 000.
pub fn driver_catalog_in_range(catalog: &[OwnedDriverDefinition]) -> (r: bool)
    ensures
        r == driver_catalog_within(catalog@),
{
    let mut d: usize = 0;
    while d < catalog.len()
        invariant
            0 <= d <= catalog@.len(),
            forall|dd: int, l: int|
                0 <= dd < d && 0 <= l < catalog@[dd].levels@.len() ==> driver_stats_within(
                    #[trigger] catalog@[dd].levels@[l].to_stats_spec(),
                    1_000_000,
                ),
        decreases catalog@.len() - d,
    {
        let levels = &catalog[d].levels;
        let mut l: usize = 0;
        while l < levels.len()
            invariant
                0 <= d < catalog@.len(),
                levels@ == catalog@[d as int].levels@,
                0 <= l <= levels@.len(),
                forall|ll: int|
                    0 <= ll < l ==> driver_stats_within(#[trigger] levels@[ll].to_stats_spec(), 1_000_000),
            decreases levels@.len() - l,
        {
            if !driver_level_in_range(&levels[l]) {
                assert(!driver_stats_within(catalog@[d as int].levels@[l as int].to_stats_spec(), 1_000_000));
                return false;
            }
            l = l + 1;
        }
        assert forall|dd: int, ll: int|
            0 <= dd < d + 1 && 0 <= ll < catalog@[dd].levels@.len() implies driver_stats_within(
                #[trigger] catalog@[dd].levels@[ll].to_stats_spec(),
                1_000_000,
            ) by {
            if dd == d {
                assert(levels@[ll] == catalog@[dd].levels@[ll]);
            }
        }
        d = d + 1;
    }
    true
}

/// Whether every driver boost lies within ±1000 %.
pub fn driver_boosts_in_range(boosts: &[DriverBoost]) -> (r: bool)
    ensures
        r == driver_boosts_within(boosts@),
{
    let mut b: usize = 0;
    while b < boosts.len()
        invariant
            0 <= b <= boosts@.len(),
            forall|j: int| 0 <= j < b ==> -1000 <= #[trigger] boosts@[j].percentage <= 1000,
        decreases boosts@.len() - b,
    {
        if boosts[b].percentage < -1000 || boosts[b].percentage > 1000 {
            assert(!(-1000 <= boosts@[b as int].percentage <= 1000));
            return false;
        }
        b = b + 1;
    }
    true
}

/// Index of the first catalog driver with this name and rarity.
pub open spec fn first_driver_def(catalog: Seq<OwnedDriverDefinition>, name: Seq<char>, rarity: Seq<char>) -> Option<
    int,
> {
    first_where(catalog.len() as int, |i: int| catalog[i].name@ == name && catalog[i].rarity@ == rarity)
}

/// Index of the first boost for the driver with this name and rarity.
pub open spec fn first_driver_boost(boosts: Seq<DriverBoost>, name: Seq<char>, rarity: Seq<char>) -> Option<
    int,
> {
    first_where(boosts.len() as int, |i: int| boosts[i].driver_name@ == name && boosts[i].rarity@ == rarity)
}

/// Index of the first entry for `level` among a driver's levels.
pub open spec fn driver_level_index(levels: Seq<OwnedDriverLevelStats>, level: i32) -> Option<int> {
    first_level_index_by(levels.map_values(|l: OwnedDriverLevelStats| l.level), level)
}

/// The catalog entry of an owned driver and its effective stats: the stats
/// of the first entry for its level, boosted by the first boost for it;
/// `None` when the catalog lacks the driver or the level.
pub open spec fn driver_stats_spec(
    catalog: Seq<OwnedDriverDefinition>,
    boosts: Seq<DriverBoost>,
    item: DriverInventoryItem,
) -> Option<(int, DriverStats)> {
    match first_driver_def(catalog, item.driver_name@, item.rarity@) {
        None => None,
        Some(d) => match driver_level_index(catalog[d].levels@, item.level) {
            None => None,
            Some(l) => {
                let s = catalog[d].levels@[l].to_stats_spec();
                Some(
                    (
                        d,
                        match first_driver_boost(boosts, item.driver_name@, item.rarity@) {
                            Some(b) => s.boosted_spec(boosts[b].percentage as int),
                            None => s,
                        },
                    ),
                )
            },
        },
    }
}

/// Index of the first catalog driver with this name and rarity.
pub fn find_driver_index(catalog: &[OwnedDriverDefinition], name: &String, rarity: &String) -> (r: Option<
    usize,
>)
    ensures
        match first_driver_def(catalog@, name@, rarity@) {
            Some(i) => 0 <= i < catalog@.len() && r == Some(i as usize),
            None => r is None,
        },
{
    let ghost pred = |i: int| catalog@[i].name@ == name@ && catalog@[i].rarity@ == rarity@;
    let mut i: usize = 0;
    while i < catalog.len()
        invariant
            0 <= i <= catalog@.len(),
            pred == (|i: int| catalog@[i].name@ == name@ && catalog@[i].rarity@ == rarity@),
            forall|j: int| 0 <= j < i ==> !#[trigger] pred(j),
        decreases catalog@.len() - i,
    {
        if str_eq(catalog[i].name.as_str(), name.as_str()) && str_eq(
            catalog[i].rarity.as_str(),
            rarity.as_str(),
        ) {
            proof {
                lemma_first_where_found(catalog@.len() as int, pred, i as int);
            }
            return Some(i);
        }
        i = i + 1;
    }
    None
}

/// Index of the first boost for the driver with this name and rarity.
pub fn find_driver_boost(boosts: &[DriverBoost], name: &String, rarity: &String) -> (r: Option<usize>)
    ensures
        match first_driver_boost(boosts@, name@, rarity@) {
            Some(i) => 0 <= i < boosts@.len() && r == Some(i as usize),
            None => r is None,
        },
{
    let ghost pred = |i: int| boosts@[i].driver_name@ == name@ && boosts@[i].rarity@ == rarity@;
    let mut i: usize = 0;
    while i < boosts.len()
        invariant
            0 <= i <= boosts@.len(),
            pred == (|i: int| boosts@[i].driver_name@ == name@ && boosts@[i].rarity@ == rarity@),
            forall|j: int| 0 <= j < i ==> !#[trigger] pred(j),
        decreases boosts@.len() - i,
    {
        if str_eq(boosts[i].driver_name.as_str(), name.as_str()) && str_eq(
            boosts[i].rarity.as_str(),
            rarity.as_str(),
        ) {
            proof {
                lemma_first_where_found(boosts@.len() as int, pred, i as int);
            }
            return Some(i);
        }
        i = i + 1;
    }
    None
}

/// Driver stats within ±1 000 000, boosted by at most ±1000 %, stay within
/// ±12 000 000.
pub proof fn lemma_driver_boost_within(s: DriverStats, pct: int)
    requires
        driver_stats_within(s, 1_000_000),
        -1000 <= pct <= 1000,
    ensures
        s.can_boost(pct),
        driver_stats_within(s.boosted_spec(pct), 12_000_000),
        driver_stats_within(s, 12_000_000),
{
    lemma_boost_within(s.overtaking as int, pct);
    lemma_boost_within(s.defending as int, pct);
    lemma_boost_within(s.qualifying as int, pct);
    lemma_boost_within(s.race_start as int, pct);
    lemma_boost_within(s.tyre_management as int, pct);
}

/// The catalog entry of an owned driver and its effective stats.
/// Boosting the stats of an owned driver at its level by the first boost
/// for it stays within `i32` (nothing is boosted when the catalog lacks the
/// driver or the level, or no boost names it).
#[verifier::opaque]
pub open spec fn driver_boost_fits(
    catalog: Seq<OwnedDriverDefinition>,
    boosts: Seq<DriverBoost>,
    item: DriverInventoryItem,
) -> bool {
    match first_driver_def(catalog, item.driver_name@, item.rarity@) {
        None => true,
        Some(d) => match driver_level_index(catalog[d].levels@, item.level) {
            None => true,
            Some(l) => match first_driver_boost(boosts, item.driver_name@, item.rarity@) {
                None => true,
                Some(b) => catalog[d].levels@[l].to_stats_spec().can_boost(boosts[b].percentage as int),
            },
        },
    }
}

/// Whether boosting `item` stays within `i32`.
pub fn driver_item_boost_fits(
    catalog: &[OwnedDriverDefinition],
    boosts: &[DriverBoost],
    item: &DriverInventoryItem,
) -> (r: bool)
    ensures
        r == driver_boost_fits(catalog@, boosts@, *item),
{
    reveal(driver_boost_fits);
    match find_driver_index(catalog, &item.driver_name, &item.rarity) {
        None => true,
        Some(d) => match catalog[d].stats_for_level(item.level) {
            None => true,
            Some(ls) => match find_driver_boost(boosts, &item.driver_name, &item.rarity) {
                None => true,
                Some(b) => ls.to_stats().boost_fits(boosts[b].percentage),
            },
        },
    }
}

pub fn resolve_driver_stats(
    catalog: &[OwnedDriverDefinition],
    boosts: &[DriverBoost],
    item: &DriverInventoryItem,
) -> (r: Option<(usize, DriverStats)>)
    requires
        driver_boost_fits(catalog@, boosts@, *item),
    ensures
        match driver_stats_spec(catalog@, boosts@, *item) {
            Some((d, s)) => r == Some((d as usize, s)) && 0 <= d < catalog@.len(),
            None => r is None,
        },
        driver_catalog_within(catalog@) && driver_boosts_within(boosts@) ==> (r matches Some((_, s))
            ==> driver_stats_within(s, 12_000_000)),
{
    let d = match find_driver_index(catalog, &item.driver_name, &item.rarity) {
        Some(d) => d,
        None => return None,
    };
    let ls = match catalog[d].stats_for_level(item.level) {
        Some(ls) => ls,
        None => return None,
    };
    let ghost l = driver_level_index(catalog@[d as int].levels@, item.level)->0;
    let s = ls.to_stats();
    proof {
        reveal(driver_boost_fits);
    }
    match find_driver_boost(boosts, &item.driver_name, &item.rarity) {
        Some(b) => {
            proof {
                if driver_catalog_within(catalog@) && driver_boosts_within(boosts@) {
                    assert(driver_stats_within(s, 1_000_000));
                    lemma_driver_boost_within(s, boosts@[b as int].percentage as int);
                }
            }
            Some((d, s.boosted(boosts[b].percentage)))
        },
        None => {
            proof {
                if driver_catalog_within(catalog@) && driver_boosts_within(boosts@) {
                    assert(driver_stats_within(s, 1_000_000));
                    lemma_driver_boost_within(s, 0);
                }
            }
            Some((d, s))
        },
    }
}


// ── Optimizer pools ───────────────────────────────────────────────────────────

/// The model of a part in an optimizer pool.
pub struct PoolEntryView {
    pub id: i32,
    pub part_name: Seq<char>,
    pub level: i32,
    pub cards_owned: i32,
    pub stats: Stats,
    pub css: Seq<char>,
}

/// The model of a resolved part.
pub open spec fn entry_view(rp: ResolvedPart) -> PoolEntryView {
    PoolEntryView {
        id: rp.item.id,
        part_name: rp.item.part_name@,
        level: rp.item.level,
        cards_owned: rp.item.cards_owned,
        stats: rp.stats,
        css: rp.rarity_css_class@,
    }
}

/// `entry_view` as a function value.
pub open spec fn entry_view_fn() -> spec_fn(ResolvedPart) -> PoolEntryView {
    |rp: ResolvedPart| entry_view(rp)
}

/// The models of a row of resolved parts.
pub open spec fn row_view(row: Seq<ResolvedPart>) -> Seq<PoolEntryView> {
    row.map_values(entry_view_fn())
}

/// The key pools are pruned by, on the models: total performance.
pub open spec fn entry_total_key() -> spec_fn(PoolEntryView) -> int {
    |e: PoolEntryView| e.stats.total_spec()
}

/// What an owned part contributes to the pool of category `cat`: its
/// effective stats and rarity class, when the catalog knows the part and its
/// level, the part is of category `cat` and its series is at most
/// `max_series`.
pub open spec fn pool_entry(
    catalog: Seq<OwnedPartDefinition>,
    boosts: Seq<Boost>,
    item: InventoryItem,
    cat: PartCategory,
    max_series: i32,
) -> Option<PoolEntryView> {
    match part_stats_spec(catalog, boosts, item) {
        None => None,
        Some((d, s)) => if catalog[d].series > max_series || catalog[d].category.rank() != cat.rank() {
            None
        } else {
            Some(
                PoolEntryView {
                    id: item.id,
                    part_name: item.part_name@,
                    level: item.level,
                    cards_owned: item.cards_owned,
                    stats: s,
                    css: part_rarity_css(catalog[d].rarity@),
                },
            )
        },
    }
}

/// The owned parts in the pool of category `cat`, in inventory order.
pub open spec fn pool_matches(
    catalog: Seq<OwnedPartDefinition>,
    boosts: Seq<Boost>,
    items: Seq<InventoryItem>,
    cat: PartCategory,
    max_series: i32,
) -> Seq<PoolEntryView>
    decreases items.len(),
{
    if items.len() == 0 {
        Seq::empty()
    } else {
        pool_matches(catalog, boosts, items.drop_last(), cat, max_series) + match pool_entry(
            catalog,
            boosts,
            items.last(),
            cat,
            max_series,
        ) {
            Some(e) => seq![e],
            None => Seq::empty(),
        }
    }
}

/// The stand-in for an empty category: `(no <category>)`, 1/1/1/1 and a
/// 1.00 s pit stop.
pub open spec fn placeholder(cat: PartCategory) -> PoolEntryView {
    PoolEntryView {
        id: 0,
        part_name: "(no "@ + cat.display_name_view() + ")"@,
        level: 0,
        cards_owned: 0,
        stats: Stats {
            speed: 1,
            cornering: 1,
            power_unit: 1,
            qualifying: 1,
            pit_stop_hundredths: 100,
            additional_stat_value: 0,
        },
        css: "secondary"@,
    }
}

/// The pool of category `cat`: the `POOL_CAP` matching parts with the
/// highest total performance, highest first (ties in inventory order), or
/// the stand-in alone when none matches.
pub open spec fn pool_row(
    catalog: Seq<OwnedPartDefinition>,
    boosts: Seq<Boost>,
    items: Seq<InventoryItem>,
    cat: PartCategory,
    max_series: i32,
) -> Seq<PoolEntryView> {
    let m = pool_matches(catalog, boosts, items, cat, max_series);
    if m.len() == 0 {
        seq![placeholder(cat)]
    } else {
        top_by(m, entry_total_key(), POOL_CAP as nat)
    }
}

/// Whether an owned part is a candidate for the pool of category `cat`:
/// the catalog knows it, its series is at most `max_series` and its
/// category is `cat`.
#[verifier::opaque]
pub open spec fn pool_candidate(
    catalog: Seq<OwnedPartDefinition>,
    item: InventoryItem,
    cat: PartCategory,
    max_series: i32,
) -> bool {
    match first_def(catalog, item.part_name@) {
        None => false,
        Some(d) => catalog[d].series <= max_series && catalog[d].category.rank() == cat.rank(),
    }
}

/// Every boost applied while the pools of `categories` are resolved stays
/// within `i32`.
pub open spec fn pool_boosts_fit(
    catalog: Seq<OwnedPartDefinition>,
    boosts: Seq<Boost>,
    items: Seq<InventoryItem>,
    categories: Seq<PartCategory>,
    max_series: i32,
) -> bool {
    forall|k: int, i: int|
        0 <= k < categories.len() && 0 <= i < items.len() && #[trigger] pool_candidate(
            catalog,
            items[i],
            categories[k],
            max_series,
        ) ==> boost_fits(catalog, boosts, items[i])
}

/// Whether boosting `item` stays within `i32`.
pub fn item_boost_fits(catalog: &[OwnedPartDefinition], boosts: &[Boost], item: &InventoryItem) -> (r: bool)
    ensures
        r == boost_fits(catalog@, boosts@, *item),
{
    reveal(boost_fits);
    match find_def(catalog, &item.part_name) {
        None => true,
        Some(d) => match catalog[d].stats_for_level(item.level) {
            None => true,
            Some(ls) => match find_boost(boosts, &item.part_name) {
                None => true,
                Some(b) => ls.to_stats().boost_fits(boosts[b].percentage),
            },
        },
    }
}

fn is_pool_candidate(catalog: &[OwnedPartDefinition], item: &InventoryItem, cat: PartCategory, max_series: i32) -> (r:
    bool)
    ensures
        r == pool_candidate(catalog@, *item, cat, max_series),
{
    reveal(pool_candidate);
    match find_def(catalog, &item.part_name) {
        Some(d) => catalog[d].series <= max_series && catalog[d].category.rank_of() == cat.rank_of(),
        None => false,
    }
}

fn candidate_anywhere(
    catalog: &[OwnedPartDefinition],
    item: &InventoryItem,
    categories: &[PartCategory],
    max_part_series: i32,
) -> (r: bool)
    ensures
        r == exists|k: int| 0 <= k < categories@.len() && #[trigger] pool_candidate(
            catalog@,
            *item,
            categories@[k],
            max_part_series,
        ),
{
    let mut k: usize = 0;
    while k < categories.len()
        invariant
            0 <= k <= categories@.len(),
            forall|m: int| 0 <= m < k ==> !#[trigger] pool_candidate(catalog@, *item, categories@[m], max_part_series),
        decreases categories@.len() - k,
    {
        if is_pool_candidate(catalog, item, categories[k], max_part_series) {
            return true;
        }
        k = k + 1;
    }
    false
}

/// Whether every boost applied while the pools of `categories` are resolved
/// stays within `i32`.
pub fn pool_boosts_in_range(
    catalog: &[OwnedPartDefinition],
    boosts: &[Boost],
    items: &[InventoryItem],
    categories: &[PartCategory],
    max_part_series: i32,
) -> (r: bool)
    ensures
        r == pool_boosts_fit(catalog@, boosts@, items@, categories@, max_part_series),
{
    let mut i: usize = 0;
    while i < items.len()
        invariant
            0 <= i <= items@.len(),
            forall|j: int|
                0 <= j < i ==> (exists|k: int| 0 <= k < categories@.len() && #[trigger] pool_candidate(
                    catalog@,
                    items@[j],
                    categories@[k],
                    max_part_series,
                )) ==> boost_fits(catalog@, boosts@, #[trigger] items@[j]),
        decreases items@.len() - i,
    {
        if !item_boost_fits(catalog, boosts, &items[i]) && candidate_anywhere(
            catalog,
            &items[i],
            categories,
            max_part_series,
        ) {
            return false;
        }
        i = i + 1;
    }
    assert forall|k: int, j: int|
        0 <= k < categories@.len() && 0 <= j < items@.len() && #[trigger] pool_candidate(
            catalog@,
            items@[j],
            categories@[k],
            max_part_series,
        ) implies boost_fits(catalog@, boosts@, items@[j]) by {
        assert(exists|k2: int| 0 <= k2 < categories@.len() && #[trigger] pool_candidate(
            catalog@,
            items@[j],
            categories@[k2],
            max_part_series,
        ));
    }
    true
}

#[verifier::rlimit(40)]
fn pool_for_category(
    catalog: &[OwnedPartDefinition],
    items: &[InventoryItem],
    boosts: &[Boost],
    cat: PartCategory,
    max_part_series: i32,
) -> (r: Vec<ResolvedPart>)
    requires
        forall|i: int|
            0 <= i < items@.len() && #[trigger] pool_candidate(catalog@, items@[i], cat, max_part_series)
                ==> boost_fits(catalog@, boosts@, items@[i]),
    ensures
        row_view(r@) == pool_row(catalog@, boosts@, items@, cat, max_part_series),
{
    let mut row: Vec<ResolvedPart> = Vec::new();
    let mut i: usize = 0;
    while i < items.len()
        invariant
            forall|i: int|
                0 <= i < items@.len() && #[trigger] pool_candidate(catalog@, items@[i], cat, max_part_series)
                    ==> boost_fits(catalog@, boosts@, items@[i]),
            0 <= i <= items@.len(),
            row_view(row@) == pool_matches(catalog@, boosts@, items@.take(i as int), cat, max_part_series),
        decreases items@.len() - i,
    {
        assert(items@.take(i as int + 1).drop_last() =~= items@.take(i as int));
        let ghost before = row_view(row@);
        let candidate = is_pool_candidate(catalog, &items[i], cat, max_part_series);
        proof {
            reveal(pool_candidate);
        }
        if candidate {
            match resolve_part_stats(catalog, boosts, &items[i]) {
                Some((d, s)) => {
                    let rp = ResolvedPart {
                        item: items[i].clone(),
                        stats: s,
                        rarity_css_class: catalog[d].rarity_css_class(),
                    };
                    row.push(rp);
                    assert(row_view(row@) =~= before.push(entry_view(rp)));
                },
                None => {
                    assert(row_view(row@) =~= before + Seq::<PoolEntryView>::empty());
                },
            }
        } else {
            assert(row_view(row@) =~= before + Seq::<PoolEntryView>::empty());
        }
        i = i + 1;
    }
    assert(items@.take(items@.len() as int) =~= items@);
    if row.len() == 0 {
        let mut name = string_of("(no ");
        push_str(&mut name, cat.display_name());
        push_str(&mut name, ")");
        let stand_in = ResolvedPart {
            item: InventoryItem { id: 0, part_name: name, level: 0, cards_owned: 0 },
            stats: Stats {
                speed: 1,
                cornering: 1,
                power_unit: 1,
                qualifying: 1,
                pit_stop_hundredths: 100,
                additional_stat_value: 0,
            },
            rarity_css_class: "secondary",
        };
        row.push(stand_in);
        assert(row_view(row@) =~= seq![placeholder(cat)]);
        return row;
    }
    let ghost full = row@;
    let kept = prune_category(row);
    proof {
        lemma_top_by_map(full, entry_view_fn(), entry_total_key(), part_total_key(), POOL_CAP as nat);
    }
    kept
}

/// The optimizer's part pools, one per category in order: the owned parts
/// of that category whose series is at most `max_part_series`, with their
/// effective stats, or a 1/1/1/1 stand-in when there are none.
pub fn resolve_parts(
    catalog: &[OwnedPartDefinition],
    items: &[InventoryItem],
    boosts: &[Boost],
    categories: &[PartCategory],
    max_part_series: i32,
) -> (r: Vec<Vec<ResolvedPart>>)
    requires
        pool_boosts_fit(catalog@, boosts@, items@, categories@, max_part_series),
    ensures
        r@.len() == categories@.len(),
        forall|k: int|
            0 <= k < categories@.len() ==> row_view(#[trigger] r@[k]@) == pool_row(
                catalog@,
                boosts@,
                items@,
                categories@[k],
                max_part_series,
            ),
{
    let mut out: Vec<Vec<ResolvedPart>> = Vec::new();
    let mut k: usize = 0;
    while k < categories.len()
        invariant
            pool_boosts_fit(catalog@, boosts@, items@, categories@, max_part_series),
            0 <= k <= categories@.len(),
            out@.len() == k,
            forall|j: int|
                0 <= j < k ==> row_view(#[trigger] out@[j]@) == pool_row(
                    catalog@,
                    boosts@,
                    items@,
                    categories@[j],
                    max_part_series,
                ),
        decreases categories@.len() - k,
    {
        assert forall|i: int|
            0 <= i < items@.len() && #[trigger] pool_candidate(catalog@, items@[i], categories@[k as int], max_part_series)
                implies boost_fits(catalog@, boosts@, items@[i]) by {}
        let row = pool_for_category(catalog, items, boosts, categories[k], max_part_series);
        out.push(row);
        k = k + 1;
    }
    out
}


/// The series of a catalog driver as a number; a series that does not parse
/// counts as `i32::MAX`.
pub open spec fn driver_series_value(series: Seq<char>) -> int {
    match parse_i32_spec(series) {
        Some(v) => v as int,
        None => i32::MAX as int,
    }
}

/// An owned driver with its effective stats, when the catalog knows it and
/// its level and its series is at most `max_series`.
pub open spec fn driver_pool_entry(
    catalog: Seq<OwnedDriverDefinition>,
    boosts: Seq<DriverBoost>,
    item: DriverInventoryItem,
    max_series: i32,
) -> Option<ResolvedDriver> {
    match driver_stats_spec(catalog, boosts, item) {
        None => None,
        Some((d, s)) => if driver_series_value(catalog[d].series@) > max_series {
            None
        } else {
            Some(ResolvedDriver { item, stats: s })
        },
    }
}

/// The owned drivers the optimizer may pick, in inventory order.
pub open spec fn driver_pool(
    catalog: Seq<OwnedDriverDefinition>,
    boosts: Seq<DriverBoost>,
    items: Seq<DriverInventoryItem>,
    max_series: i32,
) -> Seq<ResolvedDriver>
    decreases items.len(),
{
    if items.len() == 0 {
        Seq::empty()
    } else {
        driver_pool(catalog, boosts, items.drop_last(), max_series) + match driver_pool_entry(
            catalog,
            boosts,
            items.last(),
            max_series,
        ) {
            Some(e) => seq![e],
            None => Seq::empty(),
        }
    }
}

/// Whether an owned driver passes the series filter: the catalog knows it
/// and its series is at most `max_series`.
#[verifier::opaque]
pub open spec fn driver_candidate(catalog: Seq<OwnedDriverDefinition>, item: DriverInventoryItem, max_series: i32) -> bool {
    match first_driver_def(catalog, item.driver_name@, item.rarity@) {
        None => false,
        Some(d) => driver_series_value(catalog[d].series@) <= max_series,
    }
}

/// Every boost applied while the driver pool is resolved stays within `i32`.
pub open spec fn driver_pool_boosts_fit(
    catalog: Seq<OwnedDriverDefinition>,
    boosts: Seq<DriverBoost>,
    items: Seq<DriverInventoryItem>,
    max_series: i32,
) -> bool {
    forall|i: int|
        0 <= i < items.len() && #[trigger] driver_candidate(catalog, items[i], max_series) ==> driver_boost_fits(
            catalog,
            boosts,
            items[i],
        )
}

fn is_driver_candidate(catalog: &[OwnedDriverDefinition], item: &DriverInventoryItem, max_series: i32) -> (r: bool)
    ensures
        r == driver_candidate(catalog@, *item, max_series),
{
    reveal(driver_candidate);
    match find_driver_index(catalog, &item.driver_name, &item.rarity) {
        None => false,
        Some(d) => {
            let series = match parse_i32(catalog[d].series.as_str()) {
                Some(v) => v,
                None => i32::MAX,
            };
            series <= max_series
        },
    }
}

/// Whether every boost applied while the driver pool is resolved stays
/// within `i32`.
pub fn driver_pool_boosts_in_range(
    catalog: &[OwnedDriverDefinition],
    boosts: &[DriverBoost],
    items: &[DriverInventoryItem],
    max_series: i32,
) -> (r: bool)
    ensures
        r == driver_pool_boosts_fit(catalog@, boosts@, items@, max_series),
{
    let mut i: usize = 0;
    while i < items.len()
        invariant
            0 <= i <= items@.len(),
            forall|j: int|
                0 <= j < i && #[trigger] driver_candidate(catalog@, items@[j], max_series) ==> driver_boost_fits(
                    catalog@,
                    boosts@,
                    items@[j],
                ),
        decreases items@.len() - i,
    {
        if is_driver_candidate(catalog, &items[i], max_series) && !driver_item_boost_fits(catalog, boosts, &items[i]) {
            return false;
        }
        i = i + 1;
    }
    true
}

/// The owned drivers the optimizer may pick: those the catalog knows at
/// their level whose series is at most `max_driver_series`, with their
/// effective stats.
pub fn resolve_drivers(
    driver_items: &[DriverInventoryItem],
    drivers_catalog: &[OwnedDriverDefinition],
    driver_boosts: &[DriverBoost],
    max_driver_series: i32,
) -> (r: Vec<ResolvedDriver>)
    requires
        driver_pool_boosts_fit(drivers_catalog@, driver_boosts@, driver_items@, max_driver_series),
    ensures
        r@ == driver_pool(drivers_catalog@, driver_boosts@, driver_items@, max_driver_series),
{
    let mut out: Vec<ResolvedDriver> = Vec::new();
    let mut i: usize = 0;
    while i < driver_items.len()
        invariant
            driver_pool_boosts_fit(drivers_catalog@, driver_boosts@, driver_items@, max_driver_series),
            0 <= i <= driver_items@.len(),
            out@ == driver_pool(drivers_catalog@, driver_boosts@, driver_items@.take(i as int), max_driver_series),
        decreases driver_items@.len() - i,
    {
        assert(driver_items@.take(i as int + 1).drop_last() =~= driver_items@.take(i as int));
        let ghost before = out@;
        let candidate = is_driver_candidate(drivers_catalog, &driver_items[i], max_driver_series);
        proof {
            reveal(driver_candidate);
        }
        if candidate {
            match resolve_driver_stats(drivers_catalog, driver_boosts, &driver_items[i]) {
                Some((_, s)) => {
                    out.push(ResolvedDriver { item: driver_items[i].clone(), stats: s });
                },
                None => {
                    assert(out@ =~= before + Seq::<ResolvedDriver>::empty());
                },
            }
        } else {
            assert(out@ =~= before + Seq::<ResolvedDriver>::empty());
        }
        i = i + 1;
    }
    assert(driver_items@.take(driver_items@.len() as int) =~= driver_items@);
    out
}


// ── Inventory by category ─────────────────────────────────────────────────────

/// An owned part with its stats at its level, when the catalog knows it and
/// it is of category `cat`.
pub open spec fn category_entry(
    catalog: Seq<OwnedPartDefinition>,
    item: InventoryItem,
    cat: PartCategory,
) -> Option<(InventoryItem, OwnedLevelStats)> {
    match first_def(catalog, item.part_name@) {
        None => None,
        Some(d) => if catalog[d].category.rank() != cat.rank() {
            None
        } else {
            match first_level_index(catalog[d].levels@, item.level) {
                None => None,
                Some(l) => Some((item, catalog[d].levels@[l])),
            }
        },
    }
}

/// The owned parts of category `cat` with their level stats, in order.
pub open spec fn category_items(
    catalog: Seq<OwnedPartDefinition>,
    items: Seq<InventoryItem>,
    cat: PartCategory,
) -> Seq<(InventoryItem, OwnedLevelStats)>
    decreases items.len(),
{
    if items.len() == 0 {
        Seq::empty()
    } else {
        category_items(catalog, items.drop_last(), cat) + match category_entry(catalog, items.last(), cat) {
            Some(e) => seq![e],
            None => Seq::empty(),
        }
    }
}

fn category_entry_of(catalog: &[OwnedPartDefinition], item: &InventoryItem, cat: PartCategory) -> (r: Option<
    (InventoryItem, OwnedLevelStats),
>)
    ensures
        r == category_entry(catalog@, *item, cat),
{
    let d = match find_def(catalog, &item.part_name) {
        Some(d) => d,
        None => return None,
    };
    if catalog[d].category.rank_of() != cat.rank_of() {
        return None;
    }
    match catalog[d].stats_for_level(item.level) {
        Some(ls) => Some((item.clone(), *ls)),
        None => None,
    }
}

/// The owned parts grouped by category, in the order of `categories`, each
/// with its stats at its level; parts the catalog does not know, or whose
/// level it lacks, are left out.
pub fn inventory_by_category(
    items: &[InventoryItem],
    catalog: &[OwnedPartDefinition],
    categories: &[PartCategory],
) -> (r: Vec<(PartCategory, Vec<(InventoryItem, OwnedLevelStats)>)>)
    ensures
        r@.len() == categories@.len(),
        forall|k: int|
            0 <= k < r@.len() ==> (#[trigger] r@[k]).0 == categories@[k] && r@[k].1@ == category_items(
                catalog@,
                items@,
                categories@[k],
            ),
{
    let mut out: Vec<(PartCategory, Vec<(InventoryItem, OwnedLevelStats)>)> = Vec::new();
    let mut k: usize = 0;
    while k < categories.len()
        invariant
            0 <= k <= categories@.len(),
            out@.len() == k,
            forall|m: int|
                0 <= m < k ==> (#[trigger] out@[m]).0 == categories@[m] && out@[m].1@ == category_items(
                    catalog@,
                    items@,
                    categories@[m],
                ),
        decreases categories@.len() - k,
    {
        let cat = categories[k];
        let mut row: Vec<(InventoryItem, OwnedLevelStats)> = Vec::new();
        let mut i: usize = 0;
        while i < items.len()
            invariant
                0 <= i <= items@.len(),
                row@ == category_items(catalog@, items@.take(i as int), cat),
            decreases items@.len() - i,
        {
            assert(items@.take(i as int + 1).drop_last() =~= items@.take(i as int));
            let ghost before = row@;
            match category_entry_of(catalog, &items[i], cat) {
                Some(e) => row.push(e),
                None => {
                    assert(row@ =~= before + Seq::<(InventoryItem, OwnedLevelStats)>::empty());
                },
            }
            i = i + 1;
        }
        assert(items@.take(items@.len() as int) =~= items@);
        out.push((cat, row));
        k = k + 1;
    }
    out
}

} // verus!
