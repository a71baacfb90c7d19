//! Export and import of a season's inventory: the parts and drivers owned,
//! by name and level.

use vstd::prelude::*;

use crate::find::first_where;
use crate::models::driver::{DriverInventoryItem, OwnedDriverDefinition};
use crate::models::part::OwnedPartDefinition;
use crate::models::setup::InventoryItem;
use crate::text::{push_str, string_of};

verus! {

/// An exported inventory: a season and its owned parts and drivers.
#[derive(Debug)]
pub struct ExportData {
    pub season: String,
    pub parts: Vec<PartEntry>,
    pub drivers: Vec<DriverEntry>,
}

/// An exported part: its name and level.
#[derive(Debug)]
pub struct PartEntry {
    pub name: String,
    pub level: i32,
}

/// An exported driver: its name, rarity and level.
#[derive(Debug)]
pub struct DriverEntry {
    pub name: String,
    pub rarity: String,
    pub level: i32,
}

/// The import form: the pasted JSON of an export.
#[derive(Debug)]
pub struct ImportForm {
    pub json_data: String,
}

/// The export of a season's owned parts and drivers, in their order.
pub fn export_data(season: &str, parts: &[InventoryItem], drivers: &[DriverInventoryItem]) -> (r: ExportData)
    ensures
        r.season@ == season@,
        r.parts@.len() == parts@.len(),
        forall|i: int|
            0 <= i < parts@.len() ==> (#[trigger] r.parts@[i]).name@ == parts@[i].part_name@
                && r.parts@[i].level == parts@[i].level,
        r.drivers@.len() == drivers@.len(),
        forall|i: int|
            0 <= i < drivers@.len() ==> (#[trigger] r.drivers@[i]).name@ == drivers@[i].driver_name@
                && r.drivers@[i].rarity@ == drivers@[i].rarity@ && r.drivers@[i].level == drivers@[i].level,
{
    let mut part_entries: Vec<PartEntry> = Vec::new();
    let mut i: usize = 0;
    while i < parts.len()
        invariant
            0 <= i <= parts@.len(),
            part_entries@.len() == i,
            forall|k: int|
                0 <= k < i ==> (#[trigger] part_entries@[k]).name@ == parts@[k].part_name@
                    && part_entries@[k].level == parts@[k].level,
        decreases parts@.len() - i,
    {
        part_entries.push(PartEntry { name: parts[i].part_name.clone(), level: parts[i].level });
        i = i + 1;
    }
    let mut driver_entries: Vec<DriverEntry> = Vec::new();
    let mut j: usize = 0;
    while j < drivers.len()
        invariant
            0 <= j <= drivers@.len(),
            driver_entries@.len() == j,
            forall|k: int|
                0 <= k < j ==> (#[trigger] driver_entries@[k]).name@ == drivers@[k].driver_name@
                    && driver_entries@[k].rarity@ == drivers@[k].rarity@ && driver_entries@[k].level
                    == drivers@[k].level,
        decreases drivers@.len() - j,
    {
        driver_entries.push(
            DriverEntry {
                name: drivers[j].driver_name.clone(),
                rarity: drivers[j].rarity.clone(),
                level: drivers[j].level,
            },
        );
        j = j + 1;
    }
    ExportData { season: string_of(season), parts: part_entries, drivers: driver_entries }
}

/// The file name of a season's export.
pub fn export_filename(season: &str) -> (r: String)
    ensures
        r@ == "f1clash_inventory_"@ + season@ + ".json"@,
{
    let mut s = string_of("f1clash_inventory_");
    push_str(&mut s, season);
    push_str(&mut s, ".json");
    s
}

/// Whether an imported part is kept: a level of at least 1 and a part of
/// that name in the season's catalog.
pub open spec fn part_importable(catalog: Seq<OwnedPartDefinition>, season: Seq<char>, name: Seq<char>, level: i32) -> bool {
    level >= 1 && first_where(
        catalog.len() as int,
        |i: int| catalog[i].name@ == name && catalog[i].season@ == season,
    ) is Some
}

/// The imported parts that are kept, in order.
pub open spec fn importable_parts_spec(
    entries: Seq<PartEntry>,
    catalog: Seq<OwnedPartDefinition>,
    season: Seq<char>,
) -> Seq<(Seq<char>, i32)>
    decreases entries.len(),
{
    if entries.len() == 0 {
        Seq::empty()
    } else {
        let e = entries.last();
        importable_parts_spec(entries.drop_last(), catalog, season) + if part_importable(
            catalog,
            season,
            e.name@,
            e.level,
        ) {
            seq![(e.name@, e.level)]
        } else {
            Seq::empty()
        }
    }
}

/// The parts of an import that are stored: those with a level of at least 1
/// whose name the season's catalog knows.
pub fn importable_parts(entries: &[PartEntry], catalog: &[OwnedPartDefinition], season: &str) -> (r: Vec<
    PartEntry,
>)
    ensures
        r@.map_values(|e: PartEntry| (e.name@, e.level)) == importable_parts_spec(entries@, catalog@, season@),
{
    let mut out: Vec<PartEntry> = Vec::new();
    let mut i: usize = 0;
    while i < entries.len()
        invariant
            0 <= i <= entries@.len(),
            out@.map_values(|e: PartEntry| (e.name@, e.level)) == importable_parts_spec(
                entries@.take(i as int),
                catalog@,
                season@,
            ),
        decreases entries@.len() - i,
    {
        assert(entries@.take(i as int + 1).drop_last() =~= entries@.take(i as int));
        let ghost before = out@.map_values(|e: PartEntry| (e.name@, e.level));
        let e = &entries[i];
        let keep = e.level >= 1 && crate::catalog::find_part(catalog, e.name.as_str(), season).is_some();
        if keep {
            out.push(PartEntry { name: e.name.clone(), level: e.level });
            assert(out@.map_values(|x: PartEntry| (x.name@, x.level)) =~= before.push((e.name@, e.level)));
        } else {
            assert(out@.map_values(|x: PartEntry| (x.name@, x.level)) =~= before + Seq::<(Seq<char>, i32)>::empty());
        }
        i = i + 1;
    }
    assert(entries@.take(entries@.len() as int) =~= entries@);
    out
}

/// Whether an imported driver is kept: a level of at least 1 and a driver
/// of that name and rarity in the season's catalog.
pub open spec fn driver_importable(
    catalog: Seq<OwnedDriverDefinition>,
    season: Seq<char>,
    name: Seq<char>,
    rarity: Seq<char>,
    level: i32,
) -> bool {
    level >= 1 && first_where(
        catalog.len() as int,
        |i: int| catalog[i].name@ == name && catalog[i].rarity@ == rarity && catalog[i].season@ == season,
    ) is Some
}

/// The imported drivers that are kept, in order.
pub open spec fn importable_drivers_spec(
    entries: Seq<DriverEntry>,
    catalog: Seq<OwnedDriverDefinition>,
    season: Seq<char>,
) -> Seq<(Seq<char>, Seq<char>, i32)>
    decreases entries.len(),
{
    if entries.len() == 0 {
        Seq::empty()
    } else {
        let e = entries.last();
        importable_drivers_spec(entries.drop_last(), catalog, season) + if driver_importable(
            catalog,
            season,
            e.name@,
            e.rarity@,
            e.level,
        ) {
            seq![(e.name@, e.rarity@, e.level)]
        } else {
            Seq::empty()
        }
    }
}

/// The drivers of an import that are stored: those with a level of at least
/// 1 whose name and rarity the season's catalog knows.
pub fn importable_drivers(entries: &[DriverEntry], catalog: &[OwnedDriverDefinition], season: &str) -> (r: Vec<
    DriverEntry,
>)
    ensures
        r@.map_values(|e: DriverEntry| (e.name@, e.rarity@, e.level)) == importable_drivers_spec(
            entries@,
            catalog@,
            season@,
        ),
{
    let mut out: Vec<DriverEntry> = Vec::new();
    let mut i: usize = 0;
    while i < entries.len()
        invariant
            0 <= i <= entries@.len(),
            out@.map_values(|e: DriverEntry| (e.name@, e.rarity@, e.level)) == importable_drivers_spec(
                entries@.take(i as int),
                catalog@,
                season@,
            ),
        decreases entries@.len() - i,
    {
        assert(entries@.take(i as int + 1).drop_last() =~= entries@.take(i as int));
        let ghost before = out@.map_values(|e: DriverEntry| (e.name@, e.rarity@, e.level));
        let e = &entries[i];
        let keep = e.level >= 1 && crate::catalog::find_driver_def(
            catalog,
            e.name.as_str(),
            e.rarity.as_str(),
            season,
        ).is_some();
        if keep {
            out.push(DriverEntry { name: e.name.clone(), rarity: e.rarity.clone(), level: e.level });
            assert(out@.map_values(|x: DriverEntry| (x.name@, x.rarity@, x.level)) =~= before.push(
                (e.name@, e.rarity@, e.level),
            ));
        } else {
            assert(out@.map_values(|x: DriverEntry| (x.name@, x.rarity@, x.level)) =~= before
                + Seq::<(Seq<char>, Seq<char>, i32)>::empty());
        }
        i = i + 1;
    }
    assert(entries@.take(entries@.len() as int) =~= entries@);
    out
}

} // verus!
