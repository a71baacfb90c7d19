//! Catalog queries: the parts, categories and drivers of a season, and
//! lookups by name.

use vstd::prelude::*;

use crate::find::{first_where, lemma_first_where_found, lemma_first_where_range};
use crate::models::driver::{DriverDefView, OwnedDriverDefinition, OwnedDriverLevelStats};
use crate::models::part::{OwnedLevelStats, OwnedPartDefinition, PartCategory, PartDefView};
use crate::text::str_eq;

verus! {

/// The views of a list of part definitions.
pub open spec fn def_views(v: Seq<OwnedPartDefinition>) -> Seq<PartDefView> {
    v.map_values(|d: OwnedPartDefinition| d@)
}

/// The views of a list of driver definitions.
pub open spec fn driver_def_views(v: Seq<OwnedDriverDefinition>) -> Seq<DriverDefView> {
    v.map_values(|d: OwnedDriverDefinition| d@)
}

/// The part definitions of `season` (and, when `cat` is given, of that
/// category), in catalog order.
pub open spec fn season_parts(defs: Seq<PartDefView>, season: Seq<char>, cat: Option<PartCategory>) -> Seq<
    PartDefView,
>
    decreases defs.len(),
{
    if defs.len() == 0 {
        Seq::empty()
    } else {
        let d = defs.last();
        season_parts(defs.drop_last(), season, cat) + if d.season == season && match cat {
            Some(c) => d.category.rank() == c.rank(),
            None => true,
        } {
            seq![d]
        } else {
            Seq::empty()
        }
    }
}

fn filter_parts(catalog: &[OwnedPartDefinition], season: &str, cat: Option<PartCategory>) -> (r: Vec<
    OwnedPartDefinition,
>)
    ensures
        def_views(r@) == season_parts(def_views(catalog@), season@, cat),
{
    let mut out: Vec<OwnedPartDefinition> = Vec::new();
    let mut i: usize = 0;
    while i < catalog.len()
        invariant
            0 <= i <= catalog@.len(),
            def_views(out@) == season_parts(def_views(catalog@.take(i as int)), season@, cat),
        decreases catalog@.len() - i,
    {
        let ghost before = def_views(out@);
        assert(def_views(catalog@.take(i as int + 1)).drop_last() =~= def_views(catalog@.take(i as int)));
        let keep = str_eq(catalog[i].season.as_str(), season) && match cat {
            Some(c) => catalog[i].category.rank_of() == c.rank_of(),
            None => true,
        };
        if keep {
            let d = catalog[i].clone();
            out.push(d);
            assert(def_views(out@) =~= before.push(catalog@[i as int]@));
        } else {
            assert(def_views(out@) =~= before + Seq::<PartDefView>::empty());
        }
        i = i + 1;
    }
    assert(catalog@.take(catalog@.len() as int) =~= catalog@);
    out
}

/// All parts of `season`, in catalog (sort) order.
pub fn catalog_for_season(catalog: &[OwnedPartDefinition], season: &str) -> (r: Vec<OwnedPartDefinition>)
    ensures
        def_views(r@) == season_parts(def_views(catalog@), season@, None),
{
    filter_parts(catalog, season, None)
}

/// The parts of `season` in `category`, in catalog order.
pub fn parts_by_category(catalog: &[OwnedPartDefinition], season: &str, category: PartCategory) -> (r: Vec<
    OwnedPartDefinition,
>)
    ensures
        def_views(r@) == season_parts(def_views(catalog@), season@, Some(category)),
{
    filter_parts(catalog, season, Some(category))
}

/// The first part of `season` named `name`.
pub fn find_part(catalog: &[OwnedPartDefinition], name: &str, season: &str) -> (r: Option<OwnedPartDefinition>)
    ensures
        match first_where(catalog@.len() as int, |i: int| catalog@[i].name@ == name@ && catalog@[i].season@ == season@) {
            Some(i) => r matches Some(d) && d@ == catalog@[i]@,
            None => r is None,
        },
{
    let ghost pred = |i: int| catalog@[i].name@ == name@ && catalog@[i].season@ == season@;
    let mut i: usize = 0;
    while i < catalog.len()
        invariant
            0 <= i <= catalog@.len(),
            pred == (|i: int| catalog@[i].name@ == name@ && catalog@[i].season@ == season@),
            forall|j: int| 0 <= j < i ==> !#[trigger] pred(j),
        decreases catalog@.len() - i,
    {
        if str_eq(catalog[i].name.as_str(), name) && str_eq(catalog[i].season.as_str(), season) {
            proof {
                lemma_first_where_found(catalog@.len() as int, pred, i as int);
            }
            return Some(catalog[i].clone());
        }
        i = i + 1;
    }
    proof {
        lemma_first_where_range(catalog@.len() as int, pred);
    }
    None
}

/// The ordered categories of `season`: those of its first entry, or none.
pub fn categories_for_season(season_categories: &[(String, Vec<PartCategory>)], season: &str) -> (r: Vec<
    PartCategory,
>)
    ensures
        match first_where(season_categories@.len() as int, |i: int| season_categories@[i].0@ == season@) {
            Some(i) => r@ == season_categories@[i].1@,
            None => r@.len() == 0,
        },
{
    let ghost pred = |i: int| season_categories@[i].0@ == season@;
    let mut i: usize = 0;
    while i < season_categories.len()
        invariant
            0 <= i <= season_categories@.len(),
            pred == (|i: int| season_categories@[i].0@ == season@),
            forall|j: int| 0 <= j < i ==> !#[trigger] pred(j),
        decreases season_categories@.len() - i,
    {
        if str_eq(season_categories[i].0.as_str(), season) {
            proof {
                lemma_first_where_found(season_categories@.len() as int, pred, i as int);
            }
            let cats = season_categories[i].1.clone();
            assert(cats@ =~= season_categories@[i as int].1@);
            return cats;
        }
        i = i + 1;
    }
    proof {
        lemma_first_where_range(season_categories@.len() as int, pred);
    }
    Vec::new()
}

/// The driver definitions of `season`, in catalog order.
pub open spec fn season_drivers(defs: Seq<DriverDefView>, season: Seq<char>) -> Seq<DriverDefView>
    decreases defs.len(),
{
    if defs.len() == 0 {
        Seq::empty()
    } else {
        season_drivers(defs.drop_last(), season) + if defs.last().season == season {
            seq![defs.last()]
        } else {
            Seq::empty()
        }
    }
}

/// All driver definitions of `season`, in catalog (sort) order.
pub fn drivers_catalog_for_season(drivers_catalog: &[OwnedDriverDefinition], season: &str) -> (r: Vec<
    OwnedDriverDefinition,
>)
    ensures
        driver_def_views(r@) == season_drivers(driver_def_views(drivers_catalog@), season@),
{
    let mut out: Vec<OwnedDriverDefinition> = Vec::new();
    let mut i: usize = 0;
    while i < drivers_catalog.len()
        invariant
            0 <= i <= drivers_catalog@.len(),
            driver_def_views(out@) == season_drivers(driver_def_views(drivers_catalog@.take(i as int)), season@),
        decreases drivers_catalog@.len() - i,
    {
        let ghost before = driver_def_views(out@);
        assert(driver_def_views(drivers_catalog@.take(i as int + 1)).drop_last() =~= driver_def_views(
            drivers_catalog@.take(i as int),
        ));
        if str_eq(drivers_catalog[i].season.as_str(), season) {
            let d = drivers_catalog[i].clone();
            out.push(d);
            assert(driver_def_views(out@) =~= before.push(drivers_catalog@[i as int]@));
        } else {
            assert(driver_def_views(out@) =~= before + Seq::<DriverDefView>::empty());
        }
        i = i + 1;
    }
    assert(drivers_catalog@.take(drivers_catalog@.len() as int) =~= drivers_catalog@);
    out
}

/// The first driver definition of `season` with this name and rarity.
pub fn find_driver_def(drivers_catalog: &[OwnedDriverDefinition], name: &str, rarity: &str, season: &str) -> (r:
    Option<OwnedDriverDefinition>)
    ensures
        match first_where(
            drivers_catalog@.len() as int,
            |i: int|
                drivers_catalog@[i].name@ == name@ && drivers_catalog@[i].rarity@ == rarity@
                    && drivers_catalog@[i].season@ == season@,
        ) {
            Some(i) => r matches Some(d) && d@ == drivers_catalog@[i]@,
            None => r is None,
        },
{
    let ghost pred = |i: int|
        drivers_catalog@[i].name@ == name@ && drivers_catalog@[i].rarity@ == rarity@
            && drivers_catalog@[i].season@ == season@;
    let mut i: usize = 0;
    while i < drivers_catalog.len()
        invariant
            0 <= i <= drivers_catalog@.len(),
            pred == (|i: int|
                drivers_catalog@[i].name@ == name@ && drivers_catalog@[i].rarity@ == rarity@
                    && drivers_catalog@[i].season@ == season@),
            forall|j: int| 0 <= j < i ==> !#[trigger] pred(j),
        decreases drivers_catalog@.len() - i,
    {
        let d = &drivers_catalog[i];
        if str_eq(d.name.as_str(), name) && str_eq(d.rarity.as_str(), rarity) && str_eq(
            d.season.as_str(),
            season,
        ) {
            proof {
                lemma_first_where_found(drivers_catalog@.len() as int, pred, i as int);
            }
            return Some(d.clone());
        }
        i = i + 1;
    }
    proof {
        lemma_first_where_range(drivers_catalog@.len() as int, pred);
    }
    None
}


// ── Season categories ─────────────────────────────────────────────────────────

/// The seasons of the rows, each once, in order of first appearance.
pub open spec fn seasons_of(rows: Seq<(Seq<char>, PartCategory)>) -> Seq<Seq<char>>
    decreases rows.len(),
{
    if rows.len() == 0 {
        Seq::empty()
    } else {
        let prev = seasons_of(rows.drop_last());
        if prev.contains(rows.last().0) {
            prev
        } else {
            prev.push(rows.last().0)
        }
    }
}

/// The number of rows of season `s` with the category of position `k`.
pub open spec fn rows_count(rows: Seq<(Seq<char>, PartCategory)>, s: Seq<char>, k: int) -> nat
    decreases rows.len(),
{
    if rows.len() == 0 {
        0
    } else {
        rows_count(rows.drop_last(), s, k) + if rows.last().0 == s && rows.last().1.rank() == k {
            1nat
        } else {
            0nat
        }
    }
}

/// The categories of season `s` whose position is below `k`, sorted, each as
/// often as it occurs.
pub open spec fn sorted_cats_below(rows: Seq<(Seq<char>, PartCategory)>, s: Seq<char>, k: int) -> Seq<
    PartCategory,
>
    decreases k,
{
    if k <= 0 {
        Seq::empty()
    } else {
        sorted_cats_below(rows, s, k - 1) + Seq::new(
            rows_count(rows, s, k - 1),
            |j: int| PartCategory::all_spec()[k - 1],
        )
    }
}

/// The categories of season `s`, sorted in the canonical order.
pub open spec fn sorted_cats(rows: Seq<(Seq<char>, PartCategory)>, s: Seq<char>) -> Seq<PartCategory> {
    sorted_cats_below(rows, s, 7)
}

/// The model of a row list.
pub open spec fn row_views(rows: Seq<(String, PartCategory)>) -> Seq<(Seq<char>, PartCategory)> {
    rows.map_values(|r: (String, PartCategory)| (r.0@, r.1))
}

fn count_rows(rows: &[(String, PartCategory)], s: &String, k: usize) -> (r: usize)
    requires
        k < 7,
    ensures
        r == rows_count(row_views(rows@), s@, k as int),
{
    let mut n: usize = 0;
    let mut i: usize = 0;
    while i < rows.len()
        invariant
            0 <= i <= rows@.len(),
            n == rows_count(row_views(rows@.take(i as int)), s@, k as int),
            n <= i,
        decreases rows@.len() - i,
    {
        assert(row_views(rows@.take(i as int + 1)).drop_last() =~= row_views(rows@.take(i as int)));
        if str_eq(rows[i].0.as_str(), s.as_str()) && rows[i].1.rank_of() == k {
            n = n + 1;
        }
        i = i + 1;
    }
    assert(rows@.take(rows@.len() as int) =~= rows@);
    n
}

fn seasons_contain(seasons: &Vec<String>, s: &String) -> (r: bool)
    ensures
        r == seasons@.map_values(|x: String| x@).contains(s@),
{
    let ghost sv = seasons@.map_values(|x: String| x@);
    let mut i: usize = 0;
    while i < seasons.len()
        invariant
            sv == seasons@.map_values(|x: String| x@),
            0 <= i <= seasons@.len(),
            forall|j: int| 0 <= j < i ==> sv[j] != s@,
        decreases seasons@.len() - i,
    {
        if str_eq(seasons[i].as_str(), s.as_str()) {
            assert(sv[i as int] == s@);
            return true;
        }
        i = i + 1;
    }
    false
}

/// Groups `(season, category)` rows by season: the seasons in order of first
/// appearance, each with its categories sorted in the canonical order.
pub fn group_season_categories(rows: &[(String, PartCategory)]) -> (r: Vec<(String, Vec<PartCategory>)>)
    ensures
        r@.map_values(|e: (String, Vec<PartCategory>)| e.0@) == seasons_of(row_views(rows@)),
        forall|i: int| 0 <= i < r@.len() ==> (#[trigger] r@[i]).1@ == sorted_cats(row_views(rows@), r@[i].0@),
{
    let mut seasons: Vec<String> = Vec::new();
    let mut i: usize = 0;
    while i < rows.len()
        invariant
            0 <= i <= rows@.len(),
            seasons@.map_values(|x: String| x@) == seasons_of(row_views(rows@.take(i as int))),
        decreases rows@.len() - i,
    {
        assert(row_views(rows@.take(i as int + 1)).drop_last() =~= row_views(rows@.take(i as int)));
        let ghost before = seasons@.map_values(|x: String| x@);
        if !seasons_contain(&seasons, &rows[i].0) {
            seasons.push(rows[i].0.clone());
            assert(seasons@.map_values(|x: String| x@) =~= before.push(rows@[i as int].0@));
        }
        i = i + 1;
    }
    assert(rows@.take(rows@.len() as int) =~= rows@);
    let all = PartCategory::all();
    let mut out: Vec<(String, Vec<PartCategory>)> = Vec::new();
    let mut j: usize = 0;
    while j < seasons.len()
        invariant
            all@ == PartCategory::all_spec(),
            0 <= j <= seasons@.len(),
            out@.len() == j,
            forall|m: int| 0 <= m < j ==> (#[trigger] out@[m]).0@ == seasons@[m]@,
            forall|m: int| 0 <= m < j ==> (#[trigger] out@[m]).1@ == sorted_cats(row_views(rows@), out@[m].0@),
        decreases seasons@.len() - j,
    {
        let s = &seasons[j];
        let mut cats: Vec<PartCategory> = Vec::new();
        let mut k: usize = 0;
        while k < 7
            invariant
                all@ == PartCategory::all_spec(),
                0 <= k <= 7,
                cats@ == sorted_cats_below(row_views(rows@), s@, k as int),
            decreases 7 - k,
        {
            let n = count_rows(rows, s, k);
            let ghost before = cats@;
            let mut c: usize = 0;
            while c < n
                invariant
                    all@ == PartCategory::all_spec(),
                    k < 7,
                    0 <= c <= n,
                    cats@ == before + Seq::new(c as nat, |x: int| PartCategory::all_spec()[k as int]),
                decreases n - c,
            {
                cats.push(all[k]);
                assert(before + Seq::new((c + 1) as nat, |x: int| PartCategory::all_spec()[k as int]) =~= (
                before + Seq::new(c as nat, |x: int| PartCategory::all_spec()[k as int])).push(all@[k as int]));
                c = c + 1;
            }
            assert(cats@ =~= sorted_cats_below(row_views(rows@), s@, k as int + 1));
            k = k + 1;
        }
        out.push((s.clone(), cats));
        j = j + 1;
    }
    assert(out@.map_values(|e: (String, Vec<PartCategory>)| e.0@) =~= seasons@.map_values(|x: String| x@));
    out
}

// ── Loading ───────────────────────────────────────────────────────────────────

/// A part row of the catalog table.
#[derive(Debug)]
pub struct PartRow {
    pub id: i32,
    pub name: String,
    pub season: String,
    pub category: PartCategory,
    pub series: i32,
    pub rarity: String,
    pub sort_order: i32,
    pub additional_stat_name: Option<String>,
}

/// The level stats of the part with id `part_id`.
#[derive(Debug)]
pub struct LevelRow {
    pub part_id: i32,
    pub stats: OwnedLevelStats,
}

/// The levels of part `id`, in row order.
pub open spec fn levels_of(rows: Seq<LevelRow>, id: i32) -> Seq<OwnedLevelStats>
    decreases rows.len(),
{
    if rows.len() == 0 {
        Seq::empty()
    } else {
        levels_of(rows.drop_last(), id) + if rows.last().part_id == id {
            seq![rows.last().stats]
        } else {
            Seq::empty()
        }
    }
}

fn collect_levels(level_rows: &[LevelRow], id: i32) -> (r: Vec<OwnedLevelStats>)
    ensures
        r@ == levels_of(level_rows@, id),
{
    let mut out: Vec<OwnedLevelStats> = Vec::new();
    let mut i: usize = 0;
    while i < level_rows.len()
        invariant
            0 <= i <= level_rows@.len(),
            out@ == levels_of(level_rows@.take(i as int), id),
        decreases level_rows@.len() - i,
    {
        assert(level_rows@.take(i as int + 1).drop_last() =~= level_rows@.take(i as int));
        if level_rows[i].part_id == id {
            out.push(level_rows[i].stats);
        } else {
            assert(out@ =~= out@ + Seq::<OwnedLevelStats>::empty());
        }
        i = i + 1;
    }
    assert(level_rows@.take(level_rows@.len() as int) =~= level_rows@);
    out
}

/// The catalog built from its rows: one definition per part row, in row
/// order, with the level rows of that part in their order.
pub fn assemble_catalog(part_rows: &[PartRow], level_rows: &[LevelRow]) -> (r: Vec<OwnedPartDefinition>)
    ensures
        r@.len() == part_rows@.len(),
        forall|i: int|
            0 <= i < r@.len() ==> {
                let d = #[trigger] r@[i]@;
                let p = part_rows@[i];
                &&& d.id == p.id && d.name == p.name@ && d.season == p.season@
                &&& d.category == p.category && d.series == p.series && d.rarity == p.rarity@
                &&& d.sort_order == p.sort_order
                &&& d.additional_stat_name == match p.additional_stat_name {
                    Some(n) => Some(n@),
                    None => None,
                }
                &&& d.levels == levels_of(level_rows@, p.id)
            },
{
    let mut out: Vec<OwnedPartDefinition> = Vec::new();
    let mut i: usize = 0;
    while i < part_rows.len()
        invariant
            0 <= i <= part_rows@.len(),
            out@.len() == i,
            forall|k: int|
                0 <= k < i ==> {
                    let d = #[trigger] out@[k]@;
                    let p = part_rows@[k];
                    &&& d.id == p.id && d.name == p.name@ && d.season == p.season@
                    &&& d.category == p.category && d.series == p.series && d.rarity == p.rarity@
                    &&& d.sort_order == p.sort_order
                    &&& d.additional_stat_name == match p.additional_stat_name {
                        Some(n) => Some(n@),
                        None => None,
                    }
                    &&& d.levels == levels_of(level_rows@, p.id)
                },
        decreases part_rows@.len() - i,
    {
        let p = &part_rows[i];
        let levels = collect_levels(level_rows, p.id);
        let additional_stat_name = match &p.additional_stat_name {
            Some(n) => Some(n.clone()),
            None => None,
        };
        out.push(
            OwnedPartDefinition {
                id: p.id,
                name: p.name.clone(),
                season: p.season.clone(),
                category: p.category,
                series: p.series,
                rarity: p.rarity.clone(),
                sort_order: p.sort_order,
                additional_stat_name,
                levels,
            },
        );
        i = i + 1;
    }
    out
}

/// A driver row of the driver catalog table.
#[derive(Debug)]
pub struct DriverRow {
    pub id: i32,
    pub name: String,
    pub season: String,
    pub rarity: String,
    pub series: String,
    pub sort_order: i32,
}

/// The level stats of the driver with id `driver_id`.
#[derive(Debug)]
pub struct DriverLevelRow {
    pub driver_id: i32,
    pub stats: OwnedDriverLevelStats,
}

/// The levels of driver `id`, in row order.
pub open spec fn driver_levels_of(rows: Seq<DriverLevelRow>, id: i32) -> Seq<OwnedDriverLevelStats>
    decreases rows.len(),
{
    if rows.len() == 0 {
        Seq::empty()
    } else {
        driver_levels_of(rows.drop_last(), id) + if rows.last().driver_id == id {
            seq![rows.last().stats]
        } else {
            Seq::empty()
        }
    }
}

fn collect_driver_levels(level_rows: &[DriverLevelRow], id: i32) -> (r: Vec<OwnedDriverLevelStats>)
    ensures
        r@ == driver_levels_of(level_rows@, id),
{
    let mut out: Vec<OwnedDriverLevelStats> = Vec::new();
    let mut i: usize = 0;
    while i < level_rows.len()
        invariant
            0 <= i <= level_rows@.len(),
            out@ == driver_levels_of(level_rows@.take(i as int), id),
        decreases level_rows@.len() - i,
    {
        assert(level_rows@.take(i as int + 1).drop_last() =~= level_rows@.take(i as int));
        if level_rows[i].driver_id == id {
            out.push(level_rows[i].stats);
        } else {
            assert(out@ =~= out@ + Seq::<OwnedDriverLevelStats>::empty());
        }
        i = i + 1;
    }
    assert(level_rows@.take(level_rows@.len() as int) =~= level_rows@);
    out
}

/// The driver catalog built from its rows: one definition per driver row,
/// in row order, with the level rows of that driver in their order.
pub fn assemble_drivers_catalog(driver_rows: &[DriverRow], level_rows: &[DriverLevelRow]) -> (r: Vec<
    OwnedDriverDefinition,
>)
    ensures
        r@.len() == driver_rows@.len(),
        forall|i: int|
            0 <= i < r@.len() ==> {
                let d = #[trigger] r@[i]@;
                let p = driver_rows@[i];
                &&& d.id == p.id && d.name == p.name@ && d.season == p.season@
                &&& d.rarity == p.rarity@ && d.series == p.series@ && d.sort_order == p.sort_order
                &&& d.levels == driver_levels_of(level_rows@, p.id)
            },
{
    let mut out: Vec<OwnedDriverDefinition> = Vec::new();
    let mut i: usize = 0;
    while i < driver_rows.len()
        invariant
            0 <= i <= driver_rows@.len(),
            out@.len() == i,
            forall|k: int|
                0 <= k < i ==> {
                    let d = #[trigger] out@[k]@;
                    let p = driver_rows@[k];
                    &&& d.id == p.id && d.name == p.name@ && d.season == p.season@
                    &&& d.rarity == p.rarity@ && d.series == p.series@ && d.sort_order == p.sort_order
                    &&& d.levels == driver_levels_of(level_rows@, p.id)
                },
        decreases driver_rows@.len() - i,
    {
        let p = &driver_rows[i];
        let levels = collect_driver_levels(level_rows, p.id);
        out.push(
            OwnedDriverDefinition {
                id: p.id,
                name: p.name.clone(),
                season: p.season.clone(),
                rarity: p.rarity.clone(),
                series: p.series.clone(),
                sort_order: p.sort_order,
                levels,
            },
        );
        i = i + 1;
    }
    out
}

} // verus!
