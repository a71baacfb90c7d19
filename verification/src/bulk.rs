//! Bulk inventory forms: which submitted parts and drivers are stored, and
//! the size class of a bulk part save.

use vstd::prelude::*;

use crate::export::{DriverEntry, PartEntry};
use crate::find::{
    first_where, lemma_first_where_congruent, lemma_first_where_found, lemma_first_where_range,
};
use crate::models::driver::OwnedDriverDefinition;
use crate::models::part::OwnedPartDefinition;
use crate::text::{chars_of, is_prefix, parse_i32, parse_i32_spec, starts_with, string_from_chars};

verus! {

/// The level a form value asks for: the value as an integer, 0 when it does
/// not parse.
pub open spec fn form_level(value: Seq<char>) -> i32 {
    match parse_i32_spec(value) {
        Some(v) => v,
        None => 0,
    }
}

/// The part a bulk-form field stores: a field `part:<name>` with a level of
/// at least 1, for a part of that name in the season's catalog.
pub open spec fn bulk_part_spec(
    catalog: Seq<OwnedPartDefinition>,
    season: Seq<char>,
    key: Seq<char>,
    value: Seq<char>,
) -> Option<(Seq<char>, i32)> {
    if !is_prefix("part:"@, key) {
        None
    } else {
        if form_level(value) >= 1 && crate::export::part_importable(catalog, season, key.skip(5), form_level(value)) {
            Some((key.skip(5), form_level(value)))
        } else {
            None
        }
    }
}

/// The parts a bulk form stores, in field order.
pub open spec fn bulk_parts_spec(
    catalog: Seq<OwnedPartDefinition>,
    season: Seq<char>,
    form: Seq<(Seq<char>, Seq<char>)>,
) -> Seq<(Seq<char>, i32)>
    decreases form.len(),
{
    if form.len() == 0 {
        Seq::empty()
    } else {
        bulk_parts_spec(catalog, season, form.drop_last()) + match bulk_part_spec(
            catalog,
            season,
            form.last().0,
            form.last().1,
        ) {
            Some(e) => seq![e],
            None => Seq::empty(),
        }
    }
}

/// The model of a form's fields.
pub open spec fn form_views(form: Seq<(String, String)>) -> Seq<(Seq<char>, Seq<char>)> {
    form.map_values(|f: (String, String)| (f.0@, f.1@))
}

fn chars_after(v: &Vec<char>, from: usize) -> (r: Vec<char>)
    requires
        from <= v@.len(),
    ensures
        r@ == v@.skip(from as int),
{
    let mut out: Vec<char> = Vec::new();
    let mut m: usize = from;
    while m < v.len()
        invariant
            from <= m <= v@.len(),
            out@ == v@.subrange(from as int, m as int),
        decreases v@.len() - m,
    {
        out.push(v[m]);
        assert(v@.subrange(from as int, m + 1) =~= v@.subrange(from as int, m as int).push(v@[m as int]));
        m = m + 1;
    }
    assert(out@ =~= v@.skip(from as int));
    out
}

fn bulk_part(catalog: &[OwnedPartDefinition], season: &str, key: &String, value: &String) -> (r: Option<
    PartEntry,
>)
    ensures
        match bulk_part_spec(catalog@, season@, key@, value@) {
            Some((n, l)) => r matches Some(e) && e.name@ == n && e.level == l,
            None => r is None,
        },
{
    if !starts_with(key.as_str(), "part:") {
        return None;
    }
    proof {
        reveal_strlit("part:");
    }
    let cs = chars_of(key.as_str());
    let name_chars = chars_after(&cs, 5);
    let name = string_from_chars(&name_chars);
    let level = match parse_i32(value.as_str()) {
        Some(v) => v,
        None => 0,
    };
    proof {
        lemma_first_where_congruent(
            catalog@.len() as int,
            |i: int| catalog@[i].name@ == name@ && catalog@[i].season@ == season@,
            |i: int| catalog@[i].name@ == key@.skip(5) && catalog@[i].season@ == season@,
        );
    }
    if level >= 1 && crate::catalog::find_part(catalog, name.as_str(), season).is_some() {
        Some(PartEntry { name, level })
    } else {
        None
    }
}

/// The parts a bulk inventory form stores: its `part:<name>` fields with a
/// level of at least 1 for a part of the season's catalog, in field order.
pub fn bulk_part_entries(form: &[(String, String)], catalog: &[OwnedPartDefinition], season: &str) -> (r: Vec<
    PartEntry,
>)
    ensures
        r@.map_values(|e: PartEntry| (e.name@, e.level)) == bulk_parts_spec(catalog@, season@, form_views(form@)),
{
    let mut out: Vec<PartEntry> = Vec::new();
    let mut i: usize = 0;
    while i < form.len()
        invariant
            0 <= i <= form@.len(),
            out@.map_values(|e: PartEntry| (e.name@, e.level)) == bulk_parts_spec(
                catalog@,
                season@,
                form_views(form@.take(i as int)),
            ),
        decreases form@.len() - i,
    {
        assert(form_views(form@.take(i as int + 1)).drop_last() =~= form_views(form@.take(i as int)));
        let ghost before = out@.map_values(|e: PartEntry| (e.name@, e.level));
        match bulk_part(catalog, season, &form[i].0, &form[i].1) {
            Some(e) => {
                let ghost ev = (e.name@, e.level);
                out.push(e);
                assert(out@.map_values(|x: PartEntry| (x.name@, x.level)) =~= before.push(ev));
            },
            None => {
                assert(out@.map_values(|x: PartEntry| (x.name@, x.level)) =~= before + Seq::<(Seq<char>, i32)>::empty());
            },
        }
        i = i + 1;
    }
    assert(form@.take(form@.len() as int) =~= form@);
    out
}

/// The last position of `:` in `s`, if any.
pub open spec fn last_colon(s: Seq<char>) -> Option<int> {
    match first_where(s.len() as int, |j: int| s[s.len() - 1 - j] == ':') {
        Some(j) => Some(s.len() - 1 - j),
        None => None,
    }
}

/// The driver a bulk-form field stores: a field `driver:<name>:<rarity>`
/// (split at its last `:`) with a level of at least 1, for a driver of that
/// name and rarity in the season's catalog.
pub open spec fn bulk_driver_spec(
    catalog: Seq<OwnedDriverDefinition>,
    season: Seq<char>,
    key: Seq<char>,
    value: Seq<char>,
) -> Option<(Seq<char>, Seq<char>, i32)> {
    if !is_prefix("driver:"@, key) {
        None
    } else {
        match last_colon(key.skip(7)) {
            None => None,
            Some(c) => if crate::export::driver_importable(
                catalog,
                season,
                key.skip(7).take(c),
                key.skip(7).skip(c + 1),
                form_level(value),
            ) {
                Some((key.skip(7).take(c), key.skip(7).skip(c + 1), form_level(value)))
            } else {
                None
            },
        }
    }
}

/// The drivers a bulk form stores, in field order.
pub open spec fn bulk_drivers_spec(
    catalog: Seq<OwnedDriverDefinition>,
    season: Seq<char>,
    form: Seq<(Seq<char>, Seq<char>)>,
) -> Seq<(Seq<char>, Seq<char>, i32)>
    decreases form.len(),
{
    if form.len() == 0 {
        Seq::empty()
    } else {
        bulk_drivers_spec(catalog, season, form.drop_last()) + match bulk_driver_spec(
            catalog,
            season,
            form.last().0,
            form.last().1,
        ) {
            Some(e) => seq![e],
            None => Seq::empty(),
        }
    }
}

fn find_last_colon(v: &Vec<char>) -> (r: Option<usize>)
    ensures
        match last_colon(v@) {
            Some(c) => 0 <= c < v@.len() && r == Some(c as usize),
            None => r is None,
        },
{
    let ghost pred = |j: int| v@[v@.len() - 1 - j] == ':';
    let mut j: usize = 0;
    while j < v.len()
        invariant
            0 <= j <= v@.len(),
            pred == (|j: int| v@[v@.len() - 1 - j] == ':'),
            forall|m: int| 0 <= m < j ==> !#[trigger] pred(m),
        decreases v@.len() - j,
    {
        if v[v.len() - 1 - j] == ':' {
            proof {
                lemma_first_where_found(v@.len() as int, pred, j as int);
            }
            return Some(v.len() - 1 - j);
        }
        j = j + 1;
    }
    proof {
        lemma_first_where_range(v@.len() as int, pred);
    }
    None
}

#[verifier::rlimit(40)]
fn bulk_driver(catalog: &[OwnedDriverDefinition], season: &str, key: &String, value: &String) -> (r: Option<
    DriverEntry,
>)
    ensures
        match bulk_driver_spec(catalog@, season@, key@, value@) {
            Some((n, ra, l)) => r matches Some(e) && e.name@ == n && e.rarity@ == ra && e.level == l,
            None => r is None,
        },
{
    if !starts_with(key.as_str(), "driver:") {
        return None;
    }
    proof {
        reveal_strlit("driver:");
    }
    let cs = chars_of(key.as_str());
    let rest = chars_after(&cs, 7);
    let c = match find_last_colon(&rest) {
        Some(c) => c,
        None => return None,
    };
    let mut name_chars: Vec<char> = Vec::new();
    let mut k: usize = 0;
    while k < c
        invariant
            c < rest@.len(),
            0 <= k <= c,
            name_chars@ == rest@.take(k as int),
        decreases c - k,
    {
        name_chars.push(rest[k]);
        assert(rest@.take(k as int + 1) =~= rest@.take(k as int).push(rest@[k as int]));
        k = k + 1;
    }
    let after: usize = if c < rest.len() {
        c + 1
    } else {
        c
    };
    let rarity_chars = chars_after(&rest, after);
    let name = string_from_chars(&name_chars);
    let rarity = string_from_chars(&rarity_chars);
    let level = match parse_i32(value.as_str()) {
        Some(v) => v,
        None => 0,
    };
    assert(name@ == key@.skip(7).take(c as int));
    assert(rarity@ == key@.skip(7).skip(c + 1));
    proof {
        lemma_first_where_congruent(
            catalog@.len() as int,
            |i: int| catalog@[i].name@ == name@ && catalog@[i].rarity@ == rarity@ && catalog@[i].season@ == season@,
            |i: int|
                catalog@[i].name@ == key@.skip(7).take(c as int) && catalog@[i].rarity@ == key@.skip(
                    7,
                ).skip(c + 1) && catalog@[i].season@ == season@,
        );
    }
    if level >= 1 && crate::catalog::find_driver_def(catalog, name.as_str(), rarity.as_str(), season).is_some() {
        Some(DriverEntry { name, rarity, level })
    } else {
        None
    }
}

/// The drivers a bulk driver form stores: its `driver:<name>:<rarity>`
/// fields with a level of at least 1 for a driver of the season's catalog,
/// in field order.
pub fn bulk_driver_entries(form: &[(String, String)], catalog: &[OwnedDriverDefinition], season: &str) -> (r:
    Vec<DriverEntry>)
    ensures
        r@.map_values(|e: DriverEntry| (e.name@, e.rarity@, e.level)) == bulk_drivers_spec(
            catalog@,
            season@,
            form_views(form@),
        ),
{
    let mut out: Vec<DriverEntry> = Vec::new();
    let mut i: usize = 0;
    while i < form.len()
        invariant
            0 <= i <= form@.len(),
            out@.map_values(|e: DriverEntry| (e.name@, e.rarity@, e.level)) == bulk_drivers_spec(
                catalog@,
                season@,
                form_views(form@.take(i as int)),
            ),
        decreases form@.len() - i,
    {
        assert(form_views(form@.take(i as int + 1)).drop_last() =~= form_views(form@.take(i as int)));
        let ghost before = out@.map_values(|e: DriverEntry| (e.name@, e.rarity@, e.level));
        match bulk_driver(catalog, season, &form[i].0, &form[i].1) {
            Some(e) => {
                let ghost ev = (e.name@, e.rarity@, e.level);
                out.push(e);
                assert(out@.map_values(|x: DriverEntry| (x.name@, x.rarity@, x.level)) =~= before.push(ev));
            },
            None => {
                assert(out@.map_values(|x: DriverEntry| (x.name@, x.rarity@, x.level)) =~= before
                    + Seq::<(Seq<char>, Seq<char>, i32)>::empty());
            },
        }
        i = i + 1;
    }
    assert(form@.take(form@.len() as int) =~= form@);
    out
}

// ── Boost forms ───────────────────────────────────────────────────────────────

/// The part a field `part:<name>` names.
pub open spec fn part_key_spec(key: Seq<char>) -> Option<Seq<char>> {
    if is_prefix("part:"@, key) {
        Some(key.skip(5))
    } else {
        None
    }
}

/// The driver name and rarity a field `driver:<name>:<rarity>` names (split
/// at its last `:`).
pub open spec fn driver_key_spec(key: Seq<char>) -> Option<(Seq<char>, Seq<char>)> {
    if !is_prefix("driver:"@, key) {
        None
    } else {
        match last_colon(key.skip(7)) {
            None => None,
            Some(c) => Some((key.skip(7).take(c), key.skip(7).skip(c + 1))),
        }
    }
}

/// Whether the season's catalog has a part named `name`.
pub open spec fn part_known(catalog: Seq<OwnedPartDefinition>, season: Seq<char>, name: Seq<char>) -> bool {
    first_where(catalog.len() as int, |i: int| catalog[i].name@ == name && catalog[i].season@ == season) is Some
}

/// Whether the season's driver catalog has a driver of this name and rarity.
pub open spec fn driver_known(
    catalog: Seq<OwnedDriverDefinition>,
    season: Seq<char>,
    name: Seq<char>,
    rarity: Seq<char>,
) -> bool {
    first_where(
        catalog.len() as int,
        |i: int| catalog[i].name@ == name && catalog[i].rarity@ == rarity && catalog[i].season@ == season,
    ) is Some
}

/// The part boost a boosts-form field stores: a non-zero percentage (a value
/// that does not parse counts as 0) on a field `part:<name>` for a part of
/// the season's catalog.
pub open spec fn part_boost_spec(
    catalog: Seq<OwnedPartDefinition>,
    season: Seq<char>,
    key: Seq<char>,
    value: Seq<char>,
) -> Option<(Seq<char>, i32)> {
    match part_key_spec(key) {
        None => None,
        Some(n) => if form_level(value) != 0 && part_known(catalog, season, n) {
            Some((n, form_level(value)))
        } else {
            None
        },
    }
}

/// The driver boost a boosts-form field stores: a non-zero percentage on a
/// field `driver:<name>:<rarity>` for a driver of the season's catalog.
pub open spec fn driver_boost_spec(
    catalog: Seq<OwnedDriverDefinition>,
    season: Seq<char>,
    key: Seq<char>,
    value: Seq<char>,
) -> Option<(Seq<char>, Seq<char>, i32)> {
    match driver_key_spec(key) {
        None => None,
        Some((n, r)) => if form_level(value) != 0 && driver_known(catalog, season, n, r) {
            Some((n, r, form_level(value)))
        } else {
            None
        },
    }
}

/// The part boosts a boosts form stores, in field order.
pub open spec fn part_boosts_spec(
    catalog: Seq<OwnedPartDefinition>,
    season: Seq<char>,
    form: Seq<(Seq<char>, Seq<char>)>,
) -> Seq<(Seq<char>, i32)>
    decreases form.len(),
{
    if form.len() == 0 {
        Seq::empty()
    } else {
        part_boosts_spec(catalog, season, form.drop_last()) + match part_boost_spec(
            catalog,
            season,
            form.last().0,
            form.last().1,
        ) {
            Some(e) => seq![e],
            None => Seq::empty(),
        }
    }
}

/// The driver boosts a boosts form stores, in field order.
pub open spec fn driver_boosts_spec(
    catalog: Seq<OwnedDriverDefinition>,
    season: Seq<char>,
    form: Seq<(Seq<char>, Seq<char>)>,
) -> Seq<(Seq<char>, Seq<char>, i32)>
    decreases form.len(),
{
    if form.len() == 0 {
        Seq::empty()
    } else {
        driver_boosts_spec(catalog, season, form.drop_last()) + match driver_boost_spec(
            catalog,
            season,
            form.last().0,
            form.last().1,
        ) {
            Some(e) => seq![e],
            None => Seq::empty(),
        }
    }
}

fn part_key(key: &String) -> (r: Option<String>)
    ensures
        match part_key_spec(key@) {
            Some(n) => r matches Some(x) && x@ == n,
            None => r is None,
        },
{
    if !starts_with(key.as_str(), "part:") {
        return None;
    }
    proof {
        reveal_strlit("part:");
    }
    let cs = chars_of(key.as_str());
    let name_chars = chars_after(&cs, 5);
    Some(string_from_chars(&name_chars))
}

fn driver_key(key: &String) -> (r: Option<(String, String)>)
    ensures
        match driver_key_spec(key@) {
            Some((n, ra)) => r matches Some(x) && x.0@ == n && x.1@ == ra,
            None => r is None,
        },
{
    if !starts_with(key.as_str(), "driver:") {
        return None;
    }
    proof {
        reveal_strlit("driver:");
    }
    let cs = chars_of(key.as_str());
    let rest = chars_after(&cs, 7);
    let c = match find_last_colon(&rest) {
        Some(c) => c,
        None => return None,
    };
    let mut name_chars: Vec<char> = Vec::new();
    let mut k: usize = 0;
    while k < c
        invariant
            c < rest@.len(),
            0 <= k <= c,
            name_chars@ == rest@.take(k as int),
        decreases c - k,
    {
        name_chars.push(rest[k]);
        assert(rest@.take(k as int + 1) =~= rest@.take(k as int).push(rest@[k as int]));
        k = k + 1;
    }
    let after: usize = if c < rest.len() {
        c + 1
    } else {
        c
    };
    let rarity_chars = chars_after(&rest, after);
    let name = string_from_chars(&name_chars);
    let rarity = string_from_chars(&rarity_chars);
    assert(name@ == key@.skip(7).take(c as int));
    assert(rarity@ == key@.skip(7).skip(c + 1));
    Some((name, rarity))
}

fn part_boost(catalog: &[OwnedPartDefinition], season: &str, key: &String, value: &String) -> (r: Option<(String, i32)>)
    ensures
        match part_boost_spec(catalog@, season@, key@, value@) {
            Some((n, p)) => r matches Some(e) && e.0@ == n && e.1 == p,
            None => r is None,
        },
{
    let name = match part_key(key) {
        Some(n) => n,
        None => return None,
    };
    let pct = match parse_i32(value.as_str()) {
        Some(v) => v,
        None => 0,
    };
    if pct != 0 && crate::catalog::find_part(catalog, name.as_str(), season).is_some() {
        Some((name, pct))
    } else {
        None
    }
}

fn driver_boost(catalog: &[OwnedDriverDefinition], season: &str, key: &String, value: &String) -> (r: Option<
    (String, String, i32),
>)
    ensures
        match driver_boost_spec(catalog@, season@, key@, value@) {
            Some((n, ra, p)) => r matches Some(e) && e.0@ == n && e.1@ == ra && e.2 == p,
            None => r is None,
        },
{
    let (name, rarity) = match driver_key(key) {
        Some(x) => x,
        None => return None,
    };
    let pct = match parse_i32(value.as_str()) {
        Some(v) => v,
        None => 0,
    };
    if pct != 0 && crate::catalog::find_driver_def(catalog, name.as_str(), rarity.as_str(), season).is_some() {
        Some((name, rarity, pct))
    } else {
        None
    }
}

/// The boosts a boosts form stores, in field order: the part boosts of its
/// `part:<name>` fields and the driver boosts of its
/// `driver:<name>:<rarity>` fields, each with a non-zero percentage for an
/// entry of the season's catalogs.
#[verifier::rlimit(40)]
pub fn boost_form_entries(
    form: &[(String, String)],
    catalog: &[OwnedPartDefinition],
    drivers_catalog: &[OwnedDriverDefinition],
    season: &str,
) -> (r: (Vec<(String, i32)>, Vec<(String, String, i32)>))
    ensures
        r.0@.map_values(|e: (String, i32)| (e.0@, e.1)) == part_boosts_spec(catalog@, season@, form_views(form@)),
        r.1@.map_values(|e: (String, String, i32)| (e.0@, e.1@, e.2)) == driver_boosts_spec(
            drivers_catalog@,
            season@,
            form_views(form@),
        ),
{
    let mut parts: Vec<(String, i32)> = Vec::new();
    let mut drivers: Vec<(String, String, i32)> = Vec::new();
    let mut i: usize = 0;
    while i < form.len()
        invariant
            0 <= i <= form@.len(),
            parts@.map_values(|e: (String, i32)| (e.0@, e.1)) == part_boosts_spec(
                catalog@,
                season@,
                form_views(form@.take(i as int)),
            ),
            drivers@.map_values(|e: (String, String, i32)| (e.0@, e.1@, e.2)) == driver_boosts_spec(
                drivers_catalog@,
                season@,
                form_views(form@.take(i as int)),
            ),
        decreases form@.len() - i,
    {
        assert(form_views(form@.take(i as int + 1)).drop_last() =~= form_views(form@.take(i as int)));
        let ghost pb = parts@.map_values(|e: (String, i32)| (e.0@, e.1));
        let ghost db = drivers@.map_values(|e: (String, String, i32)| (e.0@, e.1@, e.2));
        match part_boost(catalog, season, &form[i].0, &form[i].1) {
            Some(e) => {
                let ghost ev = (e.0@, e.1);
                parts.push(e);
                assert(parts@.map_values(|x: (String, i32)| (x.0@, x.1)) =~= pb.push(ev));
            },
            None => {
                assert(parts@.map_values(|x: (String, i32)| (x.0@, x.1)) =~= pb + Seq::<(Seq<char>, i32)>::empty());
            },
        }
        match driver_boost(drivers_catalog, season, &form[i].0, &form[i].1) {
            Some(e) => {
                let ghost ev = (e.0@, e.1@, e.2);
                drivers.push(e);
                assert(drivers@.map_values(|x: (String, String, i32)| (x.0@, x.1@, x.2)) =~= db.push(ev));
            },
            None => {
                assert(drivers@.map_values(|x: (String, String, i32)| (x.0@, x.1@, x.2)) =~= db
                    + Seq::<(Seq<char>, Seq<char>, i32)>::empty());
            },
        }
        i = i + 1;
    }
    assert(form@.take(form@.len() as int) =~= form@);
    (parts, drivers)
}

/// The number of `part:` fields of a form.
pub open spec fn part_field_count(form: Seq<(Seq<char>, Seq<char>)>) -> nat
    decreases form.len(),
{
    if form.len() == 0 {
        0
    } else {
        part_field_count(form.drop_last()) + if is_prefix("part:"@, form.last().0) {
            1nat
        } else {
            0nat
        }
    }
}

/// The size class of a count of parts: `0`, `1-7`, `8-14` or `15+`.
pub open spec fn count_bucket_spec(n: int) -> Seq<char> {
    if n == 0 {
        "0"@
    } else if n <= 7 {
        "1-7"@
    } else if n <= 14 {
        "8-14"@
    } else {
        "15+"@
    }
}

/// The size class of a bulk part save, by its number of `part:` fields.
pub fn parts_count_bucket(form: &[(String, String)]) -> (r: &'static str)
    ensures
        r@ == count_bucket_spec(part_field_count(form_views(form@)) as int),
{
    let mut n: usize = 0;
    let mut i: usize = 0;
    while i < form.len()
        invariant
            0 <= i <= form@.len(),
            n == part_field_count(form_views(form@.take(i as int))),
            n <= i,
        decreases form@.len() - i,
    {
        assert(form_views(form@.take(i as int + 1)).drop_last() =~= form_views(form@.take(i as int)));
        if starts_with(form[i].0.as_str(), "part:") {
            n = n + 1;
        }
        i = i + 1;
    }
    assert(form@.take(form@.len() as int) =~= form@);
    if n == 0 {
        "0"
    } else if n <= 7 {
        "1-7"
    } else if n <= 14 {
        "8-14"
    } else {
        "15+"
    }
}

} // verus!
