//! The total stats of a saved setup: its assigned parts (boosts applied),
//! the default stats for each empty part slot, and its drivers.

use vstd::prelude::*;

use crate::models::driver::{DriverBoost, DriverInventoryItem, DriverStats, OwnedDriverDefinition};
use crate::drivers_data::DriverRarity;
use crate::find::{first_where, lemma_first_where_found, lemma_first_where_range};
use crate::models::part::{part_rarity_css, OwnedPartDefinition, PartCategory, Stats};
use crate::models::setup::{Boost, InventoryItem, Setup};
use crate::optimizer_core::stats_within;
use crate::resolve::{
    boosts_within, catalog_within, driver_boosts_within, driver_catalog_within, driver_stats_spec,
    driver_stats_within, find_boost, find_def, first_boost, first_def, first_driver_boost,
    first_driver_def, part_stats_spec, resolve_driver_stats, resolve_part_stats, boost_fits,
};
use crate::text::string_of;

verus! {

/// The score of a setup: the parts' total performance plus the drivers'
/// total.
pub fn setup_score(parts: &Stats, drivers: &DriverStats) -> (r: i64)
    ensures
        r == parts.total_spec() + drivers.total_spec(),
{
    parts.total_wide() + (drivers.overtaking as i64 + drivers.defending as i64 + drivers.qualifying as i64
        + drivers.race_start as i64 + drivers.tyre_management as i64)
}

/// The part slots of a setup: engine, front wing, rear wing, suspension,
/// brakes, gearbox, battery.
pub open spec fn part_slots(setup: Setup) -> Seq<Option<i32>> {
    seq![
        setup.engine_id,
        setup.front_wing_id,
        setup.rear_wing_id,
        setup.suspension_id,
        setup.brakes_id,
        setup.gearbox_id,
        setup.battery_id,
    ]
}

/// The ids held by `slots`, in slot order.
pub open spec fn assigned_ids(slots: Seq<Option<i32>>) -> Seq<i32>
    decreases slots.len(),
{
    if slots.len() == 0 {
        Seq::empty()
    } else {
        assigned_ids(slots.drop_last()) + match slots.last() {
            Some(id) => seq![id],
            None => Seq::empty(),
        }
    }
}

/// The number of empty slots.
pub open spec fn empty_count(slots: Seq<Option<i32>>) -> int
    decreases slots.len(),
{
    if slots.len() == 0 {
        0
    } else {
        empty_count(slots.drop_last()) + if slots.last() is None {
            1int
        } else {
            0int
        }
    }
}

/// The ids held by `slots`, in slot order.
pub fn ids_of(slots: &[Option<i32>]) -> (r: Vec<i32>)
    ensures
        r@ == assigned_ids(slots@),
{
    let mut out: Vec<i32> = Vec::new();
    let mut i: usize = 0;
    while i < slots.len()
        invariant
            0 <= i <= slots@.len(),
            out@ == assigned_ids(slots@.take(i as int)),
        decreases slots@.len() - i,
    {
        assert(slots@.take(i as int + 1).drop_last() =~= slots@.take(i as int));
        match slots[i] {
            Some(id) => out.push(id),
            None => {
                assert(out@ =~= out@ + Seq::<i32>::empty());
            },
        }
        i = i + 1;
    }
    assert(slots@.take(slots@.len() as int) =~= slots@);
    out
}

/// The part ids assigned to a setup, in slot order.
pub fn setup_part_ids(setup: &Setup) -> (r: Vec<i32>)
    ensures
        r@ == assigned_ids(part_slots(*setup)),
{
    let slots = [
        setup.engine_id,
        setup.front_wing_id,
        setup.rear_wing_id,
        setup.suspension_id,
        setup.brakes_id,
        setup.gearbox_id,
        setup.battery_id,
    ];
    assert(slots@ =~= part_slots(*setup));
    ids_of(&slots)
}

/// The driver ids assigned to a setup, first driver first.
pub fn setup_driver_ids(setup: &Setup) -> (r: Vec<i32>)
    ensures
        r@ == assigned_ids(seq![setup.driver1_id, setup.driver2_id]),
{
    let slots = [setup.driver1_id, setup.driver2_id];
    assert(slots@ =~= seq![setup.driver1_id, setup.driver2_id]);
    ids_of(&slots)
}

/// The stats of a slot with no assigned part: 1/1/1/1 and a 1.00 s pit stop.
pub open spec fn default_part_stats_spec() -> Stats {
    Stats {
        speed: 1,
        cornering: 1,
        power_unit: 1,
        qualifying: 1,
        pit_stop_hundredths: 100,
        additional_stat_value: 0,
    }
}

/// The stats of a slot with no assigned part: 1/1/1/1 and a 1.00 s pit stop.
pub fn default_part_stats() -> (r: Stats)
    ensures
        r == default_part_stats_spec(),
{
    Stats {
        speed: 1,
        cornering: 1,
        power_unit: 1,
        qualifying: 1,
        pit_stop_hundredths: 100,
        additional_stat_value: 0,
    }
}

/// The sum of the effective stats of the items the catalog resolves, in order.
pub open spec fn parts_sum(catalog: Seq<OwnedPartDefinition>, boosts: Seq<Boost>, items: Seq<InventoryItem>) -> Stats
    decreases items.len(),
{
    if items.len() == 0 {
        Stats::zero()
    } else {
        let acc = parts_sum(catalog, boosts, items.drop_last());
        match part_stats_spec(catalog, boosts, items.last()) {
            Some((_, s)) => acc.add_spec(s),
            None => acc,
        }
    }
}

/// `acc` plus `n` times the default slot stats.
pub open spec fn add_defaults(acc: Stats, n: nat) -> Stats
    decreases n,
{
    if n == 0 {
        acc
    } else {
        add_defaults(acc, (n - 1) as nat).add_spec(default_part_stats_spec())
    }
}

/// The part stats of a setup: the effective stats of its assigned parts
/// (`items`, the owned parts behind its slots) plus the default stats once
/// per empty slot.
pub open spec fn setup_part_stats(
    setup: Setup,
    items: Seq<InventoryItem>,
    catalog: Seq<OwnedPartDefinition>,
    boosts: Seq<Boost>,
) -> Stats {
    add_defaults(parts_sum(catalog, boosts, items), empty_count(part_slots(setup)) as nat)
}

/// A setup with no part assigned counts the default stats seven times:
/// 7/7/7/7 and a 7.00 s pit stop.
pub proof fn law_empty_setup_gets_defaults(setup: Setup, catalog: Seq<OwnedPartDefinition>, boosts: Seq<Boost>)
    requires
        setup.engine_id is None,
        setup.front_wing_id is None,
        setup.rear_wing_id is None,
        setup.suspension_id is None,
        setup.brakes_id is None,
        setup.gearbox_id is None,
        setup.battery_id is None,
    ensures
        setup_part_stats(setup, Seq::empty(), catalog, boosts) == (Stats {
            speed: 7,
            cornering: 7,
            power_unit: 7,
            qualifying: 7,
            pit_stop_hundredths: 700,
            additional_stat_value: 0,
        }),
{
    let slots = part_slots(setup);
    assert(empty_count(slots) == 7) by {
        reveal_with_fuel(empty_count, 8);
        assert(slots.drop_last().drop_last().drop_last().drop_last().drop_last().drop_last().drop_last()
            =~= Seq::<Option<i32>>::empty());
    }
    reveal_with_fuel(add_defaults, 8);
}

/// Summing the effective stats of `items` stays within `i32` at every step:
/// each boost fits, and so does each partial sum.
pub open spec fn parts_sum_fits(catalog: Seq<OwnedPartDefinition>, boosts: Seq<Boost>, items: Seq<InventoryItem>) -> bool
    decreases items.len(),
{
    if items.len() == 0 {
        true
    } else {
        &&& parts_sum_fits(catalog, boosts, items.drop_last())
        &&& boost_fits(catalog, boosts, items.last())
        &&& match part_stats_spec(catalog, boosts, items.last()) {
            Some((_, s)) => parts_sum(catalog, boosts, items.drop_last()).can_add(s),
            None => true,
        }
    }
}

/// Adding the default stats `n` times to `acc` stays within `i32`.
pub open spec fn defaults_fit(acc: Stats, n: nat) -> bool
    decreases n,
{
    n == 0 || (defaults_fit(acc, (n - 1) as nat) && add_defaults(acc, (n - 1) as nat).can_add(
        default_part_stats_spec(),
    ))
}

/// Summing a setup's part stats stays within `i32`.
pub open spec fn setup_parts_fit(
    setup: Setup,
    items: Seq<InventoryItem>,
    catalog: Seq<OwnedPartDefinition>,
    boosts: Seq<Boost>,
) -> bool {
    parts_sum_fits(catalog, boosts, items) && defaults_fit(
        parts_sum(catalog, boosts, items),
        empty_count(part_slots(setup)) as nat,
    )
}

pub proof fn lemma_sum_fits_prefix(catalog: Seq<OwnedPartDefinition>, boosts: Seq<Boost>, items: Seq<InventoryItem>, n: int)
    requires
        parts_sum_fits(catalog, boosts, items),
        0 <= n <= items.len(),
    ensures
        parts_sum_fits(catalog, boosts, items.take(n)),
    decreases items.len() - n,
{
    if n == items.len() {
        assert(items.take(n) =~= items);
    } else {
        lemma_sum_fits_prefix(catalog, boosts, items, n + 1);
        assert(items.take(n + 1).drop_last() =~= items.take(n));
    }
}

proof fn lemma_defaults_prefix(acc: Stats, n: nat, m: nat)
    requires
        defaults_fit(acc, n),
        m <= n,
    ensures
        defaults_fit(acc, m),
    decreases n,
{
    if m < n {
        lemma_defaults_prefix(acc, (n - 1) as nat, m);
    }
}

/// The number of empty part slots of a setup.
fn empty_part_slots(setup: &Setup) -> (r: usize)
    ensures
        r == empty_count(part_slots(*setup)),
        r <= 7,
{
    let setup_slots = [
        setup.engine_id,
        setup.front_wing_id,
        setup.rear_wing_id,
        setup.suspension_id,
        setup.brakes_id,
        setup.gearbox_id,
        setup.battery_id,
    ];
    assert(setup_slots@ =~= part_slots(*setup));
    let mut default_count: usize = 0;
    let mut k: usize = 0;
    while k < 7
        invariant
            setup_slots@ == part_slots(*setup),
            0 <= k <= 7,
            default_count == empty_count(setup_slots@.take(k as int)),
            default_count <= k,
        decreases 7 - k,
    {
        assert(setup_slots@.take(k as int + 1).drop_last() =~= setup_slots@.take(k as int));
        if setup_slots[k].is_none() {
            default_count = default_count + 1;
        }
        k = k + 1;
    }
    assert(setup_slots@.take(7) =~= setup_slots@);
    default_count
}

/// Sums the stats of a setup's parts, as `compute_part_stats` does, or
/// `None` when a boost or a sum leaves `i32`.
pub fn try_part_stats(
    setup: &Setup,
    items: &[InventoryItem],
    catalog: &[OwnedPartDefinition],
    boosts: &[Boost],
) -> (r: Option<Stats>)
    ensures
        match r {
            Some(s) => setup_parts_fit(*setup, items@, catalog@, boosts@) && s == setup_part_stats(
                *setup,
                items@,
                catalog@,
                boosts@,
            ),
            None => !setup_parts_fit(*setup, items@, catalog@, boosts@),
        },
{
    let mut stats = Stats::default();
    let mut i: usize = 0;
    while i < items.len()
        invariant
            0 <= i <= items@.len(),
            parts_sum_fits(catalog@, boosts@, items@.take(i as int)),
            stats == parts_sum(catalog@, boosts@, items@.take(i as int)),
        decreases items@.len() - i,
    {
        let ghost pre = items@.take(i as int);
        let ghost next = items@.take(i as int + 1);
        assert(next.drop_last() =~= pre);
        assert(next.last() == items@[i as int]);
        if !crate::resolve::item_boost_fits(catalog, boosts, &items[i]) {
            proof {
                if parts_sum_fits(catalog@, boosts@, items@) {
                    lemma_sum_fits_prefix(catalog@, boosts@, items@, i as int + 1);
                }
            }
            return None;
        }
        match resolve_part_stats(catalog, boosts, &items[i]) {
            Some((_, ps)) => match stats.checked_add(&ps) {
                Some(t) => {
                    stats = t;
                },
                None => {
                    proof {
                        if parts_sum_fits(catalog@, boosts@, items@) {
                            lemma_sum_fits_prefix(catalog@, boosts@, items@, i as int + 1);
                        }
                    }
                    return None;
                },
            },
            None => {},
        }
        i = i + 1;
    }
    assert(items@.take(items@.len() as int) =~= items@);
    let default_count = empty_part_slots(setup);
    let ghost base = stats;
    let mut j: usize = 0;
    while j < default_count
        invariant
            default_count <= 7,
            default_count == empty_count(part_slots(*setup)),
            base == parts_sum(catalog@, boosts@, items@),
            0 <= j <= default_count,
            defaults_fit(base, j as nat),
            stats == add_defaults(base, j as nat),
        decreases default_count - j,
    {
        match stats.checked_add(&default_part_stats()) {
            Some(t) => {
                stats = t;
            },
            None => {
                proof {
                    if defaults_fit(base, default_count as nat) {
                        lemma_defaults_prefix(base, default_count as nat, (j + 1) as nat);
                    }
                }
                return None;
            },
        }
        j = j + 1;
    }
    Some(stats)
}

/// Sums the stats of a setup's parts: `items` are the owned parts assigned
/// to its slots; each empty slot contributes the default 1/1/1/1 + 1.00 s.
pub fn compute_part_stats(
    setup: &Setup,
    items: &[InventoryItem],
    catalog: &[OwnedPartDefinition],
    boosts: &[Boost],
) -> (r: Stats)
    requires
        setup_parts_fit(*setup, items@, catalog@, boosts@),
    ensures
        r == setup_part_stats(*setup, items@, catalog@, boosts@),
{
    match try_part_stats(setup, items, catalog, boosts) {
        Some(s) => s,
        None => Stats::default(),
    }
}

/// The sum of the effective stats of the drivers the catalog resolves.
pub open spec fn drivers_sum(
    catalog: Seq<OwnedDriverDefinition>,
    boosts: Seq<DriverBoost>,
    items: Seq<DriverInventoryItem>,
) -> DriverStats
    decreases items.len(),
{
    if items.len() == 0 {
        DriverStats::zero()
    } else {
        let acc = drivers_sum(catalog, boosts, items.drop_last());
        match driver_stats_spec(catalog, boosts, items.last()) {
            Some((_, s)) => acc.add_spec(s),
            None => acc,
        }
    }
}

/// The driver stats of a setup: zero when it has no driver, otherwise the
/// sum of the effective stats of `items`, the owned drivers behind its slots.
pub open spec fn setup_driver_stats(
    setup: Setup,
    items: Seq<DriverInventoryItem>,
    catalog: Seq<OwnedDriverDefinition>,
    boosts: Seq<DriverBoost>,
) -> DriverStats {
    if setup.driver1_id is None && setup.driver2_id is None {
        DriverStats::zero()
    } else {
        drivers_sum(catalog, boosts, items)
    }
}

/// Summing the effective stats of the drivers `items` stays within `i32`
/// at every step: each boost fits, and so does each partial sum.
pub open spec fn drivers_sum_fits(
    catalog: Seq<OwnedDriverDefinition>,
    boosts: Seq<DriverBoost>,
    items: Seq<DriverInventoryItem>,
) -> bool
    decreases items.len(),
{
    if items.len() == 0 {
        true
    } else {
        &&& drivers_sum_fits(catalog, boosts, items.drop_last())
        &&& crate::resolve::driver_boost_fits(catalog, boosts, items.last())
        &&& match driver_stats_spec(catalog, boosts, items.last()) {
            Some((_, s)) => drivers_sum(catalog, boosts, items.drop_last()).can_add(s),
            None => true,
        }
    }
}

/// Summing a setup's driver stats stays within `i32` (nothing is summed
/// when it has no driver).
pub open spec fn setup_drivers_fit(
    setup: Setup,
    items: Seq<DriverInventoryItem>,
    catalog: Seq<OwnedDriverDefinition>,
    boosts: Seq<DriverBoost>,
) -> bool {
    (setup.driver1_id is None && setup.driver2_id is None) || drivers_sum_fits(catalog, boosts, items)
}

pub proof fn lemma_driver_fits_prefix(
    catalog: Seq<OwnedDriverDefinition>,
    boosts: Seq<DriverBoost>,
    items: Seq<DriverInventoryItem>,
    n: int,
)
    requires
        drivers_sum_fits(catalog, boosts, items),
        0 <= n <= items.len(),
    ensures
        drivers_sum_fits(catalog, boosts, items.take(n)),
    decreases items.len() - n,
{
    if n == items.len() {
        assert(items.take(n) =~= items);
    } else {
        lemma_driver_fits_prefix(catalog, boosts, items, n + 1);
        assert(items.take(n + 1).drop_last() =~= items.take(n));
    }
}

/// Sums the stats of a setup's drivers, as `compute_driver_stats` does, or
/// `None` when a boost or a sum leaves `i32`.
pub fn try_driver_stats(
    setup: &Setup,
    items: &[DriverInventoryItem],
    catalog: &[OwnedDriverDefinition],
    boosts: &[DriverBoost],
) -> (r: Option<DriverStats>)
    ensures
        match r {
            Some(s) => setup_drivers_fit(*setup, items@, catalog@, boosts@) && s == setup_driver_stats(
                *setup,
                items@,
                catalog@,
                boosts@,
            ),
            None => !setup_drivers_fit(*setup, items@, catalog@, boosts@),
        },
{
    if setup.driver1_id.is_none() && setup.driver2_id.is_none() {
        return Some(DriverStats::default());
    }
    let mut stats = DriverStats::default();
    let mut i: usize = 0;
    while i < items.len()
        invariant
            !(setup.driver1_id is None && setup.driver2_id is None),
            0 <= i <= items@.len(),
            drivers_sum_fits(catalog@, boosts@, items@.take(i as int)),
            stats == drivers_sum(catalog@, boosts@, items@.take(i as int)),
        decreases items@.len() - i,
    {
        let ghost pre = items@.take(i as int);
        let ghost next = items@.take(i as int + 1);
        assert(next.drop_last() =~= pre);
        assert(next.last() == items@[i as int]);
        if !crate::resolve::driver_item_boost_fits(catalog, boosts, &items[i]) {
            proof {
                if drivers_sum_fits(catalog@, boosts@, items@) {
                    lemma_driver_fits_prefix(catalog@, boosts@, items@, i as int + 1);
                }
            }
            return None;
        }
        match resolve_driver_stats(catalog, boosts, &items[i]) {
            Some((_, ds)) => match stats.checked_add(&ds) {
                Some(t) => {
                    stats = t;
                },
                None => {
                    proof {
                        if drivers_sum_fits(catalog@, boosts@, items@) {
                            lemma_driver_fits_prefix(catalog@, boosts@, items@, i as int + 1);
                        }
                    }
                    return None;
                },
            },
            None => {},
        }
        i = i + 1;
    }
    assert(items@.take(items@.len() as int) =~= items@);
    Some(stats)
}

/// Sums the stats of a setup's drivers: `items` are the owned drivers
/// assigned to its slots.
pub fn compute_driver_stats(
    setup: &Setup,
    items: &[DriverInventoryItem],
    catalog: &[OwnedDriverDefinition],
    boosts: &[DriverBoost],
) -> (r: DriverStats)
    requires
        setup_drivers_fit(*setup, items@, catalog@, boosts@),
    ensures
        r == setup_driver_stats(*setup, items@, catalog@, boosts@),
{
    match try_driver_stats(setup, items, catalog, boosts) {
        Some(s) => s,
        None => DriverStats::default(),
    }
}


// ── Setup page ────────────────────────────────────────────────────────────────

/// The part stats of a setup without boosts: its assigned parts at their
/// levels plus the default stats once per empty slot.
pub fn base_part_stats(setup: &Setup, items: &[InventoryItem], catalog: &[OwnedPartDefinition]) -> (r: Stats)
    requires
        setup_parts_fit(*setup, items@, catalog@, Seq::empty()),
    ensures
        r == setup_part_stats(*setup, items@, catalog@, Seq::empty()),
{
    let no_boosts: Vec<Boost> = Vec::new();
    assert(no_boosts@ =~= Seq::<Boost>::empty());
    compute_part_stats(setup, items, catalog, no_boosts.as_slice())
}

/// The slot of a setup that holds parts of category `cat`.
pub open spec fn slot_for_spec(setup: Setup, cat: PartCategory) -> Option<i32> {
    match cat {
        PartCategory::Engine => setup.engine_id,
        PartCategory::FrontWing => setup.front_wing_id,
        PartCategory::RearWing => setup.rear_wing_id,
        PartCategory::Suspension => setup.suspension_id,
        PartCategory::Brakes => setup.brakes_id,
        PartCategory::Gearbox => setup.gearbox_id,
        PartCategory::Battery => setup.battery_id,
    }
}

/// The slot of a setup that holds parts of category `cat`.
pub fn slot_for(setup: &Setup, cat: PartCategory) -> (r: Option<i32>)
    ensures
        r == slot_for_spec(*setup, cat),
{
    match cat {
        PartCategory::Engine => setup.engine_id,
        PartCategory::FrontWing => setup.front_wing_id,
        PartCategory::RearWing => setup.rear_wing_id,
        PartCategory::Suspension => setup.suspension_id,
        PartCategory::Brakes => setup.brakes_id,
        PartCategory::Gearbox => setup.gearbox_id,
        PartCategory::Battery => setup.battery_id,
    }
}

/// One row of a setup's parts table.
#[derive(Debug)]
pub struct SlotDisplay {
    pub category_name: &'static str,
    /// The part's name, or `Default` for an empty slot.
    pub part_name: String,
    pub level: Option<i32>,
    pub rarity_class: &'static str,
    pub boost_pct: Option<i32>,
}

/// The model of a parts-table row.
pub struct SlotView {
    pub category_name: Seq<char>,
    pub part_name: Seq<char>,
    pub level: Option<i32>,
    pub rarity_class: Seq<char>,
    pub boost_pct: Option<i32>,
}

/// The model of a parts-table row.
pub open spec fn slot_view(d: SlotDisplay) -> SlotView {
    SlotView {
        category_name: d.category_name@,
        part_name: d.part_name@,
        level: d.level,
        rarity_class: d.rarity_class@,
        boost_pct: d.boost_pct,
    }
}

/// The parts-table row of category `cat`: the owned part in its slot, with
/// the class of its rarity (empty when the catalog lacks it) and its boost;
/// `Default` when the slot is empty or its part is not among `items`.
pub open spec fn slot_row_spec(
    setup: Setup,
    cat: PartCategory,
    items: Seq<InventoryItem>,
    catalog: Seq<OwnedPartDefinition>,
    boosts: Seq<Boost>,
) -> SlotView {
    let default = SlotView {
        category_name: cat.display_name_view(),
        part_name: "Default"@,
        level: None,
        rarity_class: ""@,
        boost_pct: None,
    };
    match slot_for_spec(setup, cat) {
        None => default,
        Some(id) => match first_where(items.len() as int, |i: int| items[i].id == id) {
            None => default,
            Some(k) => SlotView {
                category_name: cat.display_name_view(),
                part_name: items[k].part_name@,
                level: Some(items[k].level),
                rarity_class: match first_def(catalog, items[k].part_name@) {
                    Some(d) => part_rarity_css(catalog[d].rarity@),
                    None => ""@,
                },
                boost_pct: match first_boost(boosts, items[k].part_name@) {
                    Some(b) => Some(boosts[b].percentage),
                    None => None,
                },
            },
        },
    }
}

fn item_with_id(items: &[InventoryItem], id: i32) -> (r: Option<usize>)
    ensures
        match first_where(items@.len() as int, |i: int| items@[i].id == id) {
            Some(k) => 0 <= k < items@.len() && r == Some(k as usize),
            None => r is None,
        },
{
    let ghost pred = |i: int| items@[i].id == id;
    let mut i: usize = 0;
    while i < items.len()
        invariant
            0 <= i <= items@.len(),
            pred == (|i: int| items@[i].id == id),
            forall|j: int| 0 <= j < i ==> !#[trigger] pred(j),
        decreases items@.len() - i,
    {
        if items[i].id == id {
            proof {
                lemma_first_where_found(items@.len() as int, pred, i as int);
            }
            return Some(i);
        }
        i = i + 1;
    }
    None
}

fn slot_row(
    setup: &Setup,
    cat: PartCategory,
    items: &[InventoryItem],
    catalog: &[OwnedPartDefinition],
    boosts: &[Boost],
) -> (r: SlotDisplay)
    ensures
        slot_view(r) == slot_row_spec(*setup, cat, items@, catalog@, boosts@),
{
    let default = SlotDisplay {
        category_name: cat.display_name(),
        part_name: string_of("Default"),
        level: None,
        rarity_class: "",
        boost_pct: None,
    };
    let id = match slot_for(setup, cat) {
        None => return default,
        Some(id) => id,
    };
    let k = match item_with_id(items, id) {
        None => return default,
        Some(k) => k,
    };
    let item = &items[k];
    let rarity_class = match find_def(catalog, &item.part_name) {
        Some(d) => catalog[d].rarity_css_class(),
        None => "",
    };
    let boost_pct = match find_boost(boosts, &item.part_name) {
        Some(b) => Some(boosts[b].percentage),
        None => None,
    };
    SlotDisplay {
        category_name: cat.display_name(),
        part_name: item.part_name.clone(),
        level: Some(item.level),
        rarity_class,
        boost_pct,
    }
}

/// The rows of a setup's parts table, one per category in order.
pub fn setup_slot_display(
    setup: &Setup,
    categories: &[PartCategory],
    items: &[InventoryItem],
    catalog: &[OwnedPartDefinition],
    boosts: &[Boost],
) -> (r: Vec<SlotDisplay>)
    ensures
        r@.len() == categories@.len(),
        forall|k: int|
            0 <= k < r@.len() ==> slot_view(#[trigger] r@[k]) == slot_row_spec(
                *setup,
                categories@[k],
                items@,
                catalog@,
                boosts@,
            ),
{
    let mut out: Vec<SlotDisplay> = Vec::new();
    let mut k: usize = 0;
    while k < categories.len()
        invariant
            0 <= k <= categories@.len(),
            out@.len() == k,
            forall|m: int|
                0 <= m < k ==> slot_view(#[trigger] out@[m]) == slot_row_spec(
                    *setup,
                    categories@[m],
                    items@,
                    catalog@,
                    boosts@,
                ),
        decreases categories@.len() - k,
    {
        out.push(slot_row(setup, categories[k], items, catalog, boosts));
        k = k + 1;
    }
    out
}

/// One driver of a setup's drivers table: name, rarity class, stats before
/// and after its boost, and the boost.
#[derive(Debug)]
pub struct DriverSlotDisplay {
    pub name: String,
    pub rarity_class: &'static str,
    pub base: DriverStats,
    pub boosted: DriverStats,
    pub boost_pct: Option<i32>,
}

/// The drivers-table entry of driver slot `slot_id`, when the owned driver
/// is among `items` and the catalog knows it and its level.
pub open spec fn driver_slot_spec(
    slot_id: i32,
    items: Seq<DriverInventoryItem>,
    catalog: Seq<OwnedDriverDefinition>,
    boosts: Seq<DriverBoost>,
) -> Option<(Seq<char>, Seq<char>, DriverStats, DriverStats, Option<i32>)> {
    match first_where(items.len() as int, |i: int| items[i].id == slot_id) {
        None => None,
        Some(k) => {
            let item = items[k];
            match first_driver_def(catalog, item.driver_name@, item.rarity@) {
                None => None,
                Some(d) => match crate::resolve::driver_level_index(catalog[d].levels@, item.level) {
                    None => None,
                    Some(l) => {
                        let base = catalog[d].levels@[l].to_stats_spec();
                        let pct = match first_driver_boost(boosts, item.driver_name@, item.rarity@) {
                            Some(b) => Some(boosts[b].percentage),
                            None => None,
                        };
                        Some(
                            (
                                item.driver_name@,
                                match DriverRarity::from_db_spec(item.rarity@) {
                                    Some(r) => r.css_class_view(),
                                    None => ""@,
                                },
                                base,
                                match pct {
                                    Some(p) => base.boosted_spec(p as int),
                                    None => base,
                                },
                                pct,
                            ),
                        )
                    },
                },
            }
        },
    }
}

/// The model of a drivers-table entry.
pub open spec fn driver_slot_view(d: DriverSlotDisplay) -> (
    Seq<char>,
    Seq<char>,
    DriverStats,
    DriverStats,
    Option<i32>,
) {
    (d.name@, d.rarity_class@, d.base, d.boosted, d.boost_pct)
}

fn driver_item_with_id(items: &[DriverInventoryItem], id: i32) -> (r: Option<usize>)
    ensures
        match first_where(items@.len() as int, |i: int| items@[i].id == id) {
            Some(k) => 0 <= k < items@.len() && r == Some(k as usize),
            None => r is None,
        },
{
    let ghost pred = |i: int| items@[i].id == id;
    let mut i: usize = 0;
    while i < items.len()
        invariant
            0 <= i <= items@.len(),
            pred == (|i: int| items@[i].id == id),
            forall|j: int| 0 <= j < i ==> !#[trigger] pred(j),
        decreases items@.len() - i,
    {
        if items[i].id == id {
            proof {
                lemma_first_where_found(items@.len() as int, pred, i as int);
            }
            return Some(i);
        }
        i = i + 1;
    }
    None
}

/// Boosting the driver in slot `slot_id` stays within `i32`.
pub open spec fn driver_slot_fits(
    slot_id: i32,
    items: Seq<DriverInventoryItem>,
    catalog: Seq<OwnedDriverDefinition>,
    boosts: Seq<DriverBoost>,
) -> bool {
    match first_where(items.len() as int, |i: int| items[i].id == slot_id) {
        None => true,
        Some(k) => crate::resolve::driver_boost_fits(catalog, boosts, items[k]),
    }
}

fn driver_slot_in_range(
    slot_id: i32,
    items: &[DriverInventoryItem],
    catalog: &[OwnedDriverDefinition],
    boosts: &[DriverBoost],
) -> (r: bool)
    ensures
        r == driver_slot_fits(slot_id, items@, catalog@, boosts@),
{
    match driver_item_with_id(items, slot_id) {
        None => true,
        Some(k) => crate::resolve::driver_item_boost_fits(catalog, boosts, &items[k]),
    }
}

/// Whether boosting the drivers in a setup's slots stays within `i32`.
pub fn driver_slots_in_range(
    setup: &Setup,
    items: &[DriverInventoryItem],
    catalog: &[OwnedDriverDefinition],
    boosts: &[DriverBoost],
) -> (r: bool)
    ensures
        r == ((setup.driver1_id matches Some(id) ==> driver_slot_fits(id, items@, catalog@, boosts@)) && (
        setup.driver2_id matches Some(id) ==> driver_slot_fits(id, items@, catalog@, boosts@))),
{
    let a = match setup.driver1_id {
        Some(id) => driver_slot_in_range(id, items, catalog, boosts),
        None => true,
    };
    let b = match setup.driver2_id {
        Some(id) => driver_slot_in_range(id, items, catalog, boosts),
        None => true,
    };
    a && b
}

fn driver_slot(
    slot_id: i32,
    items: &[DriverInventoryItem],
    catalog: &[OwnedDriverDefinition],
    boosts: &[DriverBoost],
) -> (r: Option<DriverSlotDisplay>)
    requires
        driver_slot_fits(slot_id, items@, catalog@, boosts@),
    ensures
        match driver_slot_spec(slot_id, items@, catalog@, boosts@) {
            Some(v) => r matches Some(d) && driver_slot_view(d) == v,
            None => r is None,
        },
{
    let k = match driver_item_with_id(items, slot_id) {
        None => return None,
        Some(k) => k,
    };
    let item = &items[k];
    let d = match crate::resolve::find_driver_index(catalog, &item.driver_name, &item.rarity) {
        None => return None,
        Some(d) => d,
    };
    let ls = match catalog[d].stats_for_level(item.level) {
        None => return None,
        Some(ls) => ls,
    };
    let base = ls.to_stats();
    let boost_pct = match crate::resolve::find_driver_boost(boosts, &item.driver_name, &item.rarity) {
        Some(b) => Some(boosts[b].percentage),
        None => None,
    };
    proof {
        reveal(crate::resolve::driver_boost_fits);
    }
    let boosted = match boost_pct {
        Some(p) => base.boosted(p),
        None => base,
    };
    let rarity_class = match DriverRarity::from_db(item.rarity.as_str()) {
        Some(r) => r.css_class(),
        None => "",
    };
    Some(DriverSlotDisplay { name: item.driver_name.clone(), rarity_class, base, boosted, boost_pct })
}

/// The entries of a setup's drivers table: driver 1 first, then driver 2,
/// skipping empty slots and drivers that do not resolve.
pub fn driver_slot_display(
    setup: &Setup,
    items: &[DriverInventoryItem],
    catalog: &[OwnedDriverDefinition],
    boosts: &[DriverBoost],
) -> (r: Vec<DriverSlotDisplay>)
    requires
        setup.driver1_id matches Some(id) ==> driver_slot_fits(id, items@, catalog@, boosts@),
        setup.driver2_id matches Some(id) ==> driver_slot_fits(id, items@, catalog@, boosts@),
    ensures
        r@.map_values(|d: DriverSlotDisplay| driver_slot_view(d)) == ({
            let one = |s: Option<i32>|
                match s {
                    None => Seq::<(Seq<char>, Seq<char>, DriverStats, DriverStats, Option<i32>)>::empty(),
                    Some(id) => match driver_slot_spec(id, items@, catalog@, boosts@) {
                        Some(v) => seq![v],
                        None => Seq::empty(),
                    },
                };
            one(setup.driver1_id) + one(setup.driver2_id)
        }),
{
    let mut out: Vec<DriverSlotDisplay> = Vec::new();
    match setup.driver1_id {
        Some(id) => match driver_slot(id, items, catalog, boosts) {
            Some(d) => out.push(d),
            None => {},
        },
        None => {},
    }
    let ghost first = out@.map_values(|d: DriverSlotDisplay| driver_slot_view(d));
    match setup.driver2_id {
        Some(id) => match driver_slot(id, items, catalog, boosts) {
            Some(d) => out.push(d),
            None => {},
        },
        None => {},
    }
    assert(out@.map_values(|d: DriverSlotDisplay| driver_slot_view(d)) =~= ({
        let one = |s: Option<i32>|
            match s {
                None => Seq::<(Seq<char>, Seq<char>, DriverStats, DriverStats, Option<i32>)>::empty(),
                Some(id) => match driver_slot_spec(id, items@, catalog@, boosts@) {
                    Some(v) => seq![v],
                    None => Seq::empty(),
                },
            };
        one(setup.driver1_id) + one(setup.driver2_id)
    }));
    out
}


// ── Setups list ───────────────────────────────────────────────────────────────

/// The unboosted stats of the owned part in a slot, when the slot holds an
/// id of `inv` that the catalog resolves.
pub open spec fn slot_base_stats(
    inv: Seq<InventoryItem>,
    catalog: Seq<OwnedPartDefinition>,
    slot: Option<i32>,
) -> Option<Stats> {
    match slot {
        None => None,
        Some(id) => match first_where(inv.len() as int, |i: int| inv[i].id == id) {
            None => None,
            Some(k) => match part_stats_spec(catalog, Seq::empty(), inv[k]) {
                Some((_, st)) => Some(st),
                None => None,
            },
        },
    }
}

/// The sum of the unboosted stats of the parts in the slots, in slot order.
pub open spec fn slots_base_sum(
    slots: Seq<Option<i32>>,
    inv: Seq<InventoryItem>,
    catalog: Seq<OwnedPartDefinition>,
) -> Stats
    decreases slots.len(),
{
    if slots.len() == 0 {
        Stats::zero()
    } else {
        let acc = slots_base_sum(slots.drop_last(), inv, catalog);
        match slot_base_stats(inv, catalog, slots.last()) {
            Some(st) => acc.add_spec(st),
            None => acc,
        }
    }
}

/// The unboosted total of a driver slot's owned driver, when it resolves.
pub open spec fn slot_driver_total(
    inv: Seq<DriverInventoryItem>,
    catalog: Seq<OwnedDriverDefinition>,
    slot: Option<i32>,
) -> int {
    match slot {
        None => 0,
        Some(id) => match first_where(inv.len() as int, |i: int| inv[i].id == id) {
            None => 0,
            Some(k) => match driver_stats_spec(catalog, Seq::empty(), inv[k]) {
                Some((_, st)) => st.total_spec(),
                None => 0,
            },
        },
    }
}

/// A setup's totals without boosts: the total performance of its parts
/// (defaults for empty slots) and the total of its drivers, looked up by id
/// in the whole inventory.
pub open spec fn base_totals_spec(
    setup: Setup,
    inv: Seq<InventoryItem>,
    drv: Seq<DriverInventoryItem>,
    catalog: Seq<OwnedPartDefinition>,
    drivers_catalog: Seq<OwnedDriverDefinition>,
) -> (int, int) {
    (
        add_defaults(
            slots_base_sum(part_slots(setup), inv, catalog),
            empty_count(part_slots(setup)) as nat,
        ).total_spec(),
        slot_driver_total(drv, drivers_catalog, setup.driver1_id) + slot_driver_total(
            drv,
            drivers_catalog,
            setup.driver2_id,
        ),
    )
}

fn slot_base(
    inv: &[InventoryItem],
    catalog: &[OwnedPartDefinition],
    slot: Option<i32>,
) -> (r: Option<Stats>)
    ensures
        r == slot_base_stats(inv@, catalog@, slot),
{
    let id = match slot {
        None => return None,
        Some(id) => id,
    };
    let k = match item_with_id(inv, id) {
        None => return None,
        Some(k) => k,
    };
    let no_boosts: Vec<Boost> = Vec::new();
    assert(no_boosts@ =~= Seq::<Boost>::empty());
    proof {
        reveal(crate::resolve::boost_fits);
        assert(first_boost(no_boosts@, inv@[k as int].part_name@) is None);
    }
    match resolve_part_stats(catalog, no_boosts.as_slice(), &inv[k]) {
        Some((_, st)) => Some(st),
        None => None,
    }
}

/// The unboosted total of a driver slot, or `None` when it leaves `i32`.
fn driver_base_total(
    inv: &[DriverInventoryItem],
    catalog: &[OwnedDriverDefinition],
    slot: Option<i32>,
) -> (r: Option<i32>)
    ensures
        match r {
            Some(t) => t == slot_driver_total(inv@, catalog@, slot),
            None => !crate::models::part::fits_i32(slot_driver_total(inv@, catalog@, slot)),
        },
{
    let id = match slot {
        None => return Some(0),
        Some(id) => id,
    };
    let k = match driver_item_with_id(inv, id) {
        None => return Some(0),
        Some(k) => k,
    };
    let no_boosts: Vec<DriverBoost> = Vec::new();
    assert(no_boosts@ =~= Seq::<DriverBoost>::empty());
    proof {
        reveal(crate::resolve::driver_boost_fits);
        assert(first_driver_boost(no_boosts@, inv@[k as int].driver_name@, inv@[k as int].rarity@) is None);
    }
    match resolve_driver_stats(catalog, no_boosts.as_slice(), &inv[k]) {
        Some((_, st)) => {
            let t: i64 = st.overtaking as i64 + st.defending as i64 + st.qualifying as i64 + st.race_start as i64
                + st.tyre_management as i64;
            if -2147483648i64 <= t && t <= 2147483647i64 {
                Some(t as i32)
            } else {
                None
            }
        },
        None => Some(0),
    }
}

/// Summing the unboosted stats of the parts in the slots stays within
/// `i32` at every step.
pub open spec fn slots_base_fits(slots: Seq<Option<i32>>, inv: Seq<InventoryItem>, catalog: Seq<OwnedPartDefinition>) -> bool
    decreases slots.len(),
{
    slots.len() == 0 || (slots_base_fits(slots.drop_last(), inv, catalog) && match slot_base_stats(
        inv,
        catalog,
        slots.last(),
    ) {
        Some(st) => slots_base_sum(slots.drop_last(), inv, catalog).can_add(st),
        None => true,
    })
}

/// Computing a setup's unboosted totals stays within `i32`: the slot sums,
/// the defaults, the parts' total performance, each driver's total and
/// their sum.
pub open spec fn base_totals_fit(
    setup: Setup,
    inv: Seq<InventoryItem>,
    drv: Seq<DriverInventoryItem>,
    catalog: Seq<OwnedPartDefinition>,
    drivers_catalog: Seq<OwnedDriverDefinition>,
) -> bool {
    let slots = part_slots(setup);
    let sum = slots_base_sum(slots, inv, catalog);
    let d1 = slot_driver_total(drv, drivers_catalog, setup.driver1_id);
    let d2 = slot_driver_total(drv, drivers_catalog, setup.driver2_id);
    &&& slots_base_fits(slots, inv, catalog)
    &&& defaults_fit(sum, empty_count(slots) as nat)
    &&& crate::models::part::fits_i32(add_defaults(sum, empty_count(slots) as nat).total_spec())
    &&& crate::models::part::fits_i32(d1)
    &&& crate::models::part::fits_i32(d2)
    &&& crate::models::part::fits_i32(d1 + d2)
}

proof fn lemma_slots_fits_prefix(slots: Seq<Option<i32>>, inv: Seq<InventoryItem>, catalog: Seq<OwnedPartDefinition>, n: int)
    requires
        slots_base_fits(slots, inv, catalog),
        0 <= n <= slots.len(),
    ensures
        slots_base_fits(slots.take(n), inv, catalog),
    decreases slots.len() - n,
{
    if n == slots.len() {
        assert(slots.take(n) =~= slots);
    } else {
        lemma_slots_fits_prefix(slots, inv, catalog, n + 1);
        assert(slots.take(n + 1).drop_last() =~= slots.take(n));
    }
}

/// A setup's totals without boosts, as `base_totals` computes them, or
/// `None` when a sum or a total leaves `i32`.
pub fn try_base_totals(
    setup: &Setup,
    inv: &[InventoryItem],
    drv: &[DriverInventoryItem],
    catalog: &[OwnedPartDefinition],
    drivers_catalog: &[OwnedDriverDefinition],
) -> (r: Option<(i32, i32)>)
    ensures
        match r {
            Some(t) => base_totals_fit(*setup, inv@, drv@, catalog@, drivers_catalog@) && t.0
                == base_totals_spec(*setup, inv@, drv@, catalog@, drivers_catalog@).0 && t.1 == base_totals_spec(
                *setup,
                inv@,
                drv@,
                catalog@,
                drivers_catalog@,
            ).1,
            None => !base_totals_fit(*setup, inv@, drv@, catalog@, drivers_catalog@),
        },
{
    let slots = [
        setup.engine_id,
        setup.front_wing_id,
        setup.rear_wing_id,
        setup.suspension_id,
        setup.brakes_id,
        setup.gearbox_id,
        setup.battery_id,
    ];
    assert(slots@ =~= part_slots(*setup));
    let mut base = Stats::default();
    let mut default_count: usize = 0;
    let mut k: usize = 0;
    while k < 7
        invariant
            slots@ == part_slots(*setup),
            0 <= k <= 7,
            slots_base_fits(slots@.take(k as int), inv@, catalog@),
            base == slots_base_sum(slots@.take(k as int), inv@, catalog@),
            default_count == empty_count(slots@.take(k as int)),
            default_count <= k,
        decreases 7 - k,
    {
        assert(slots@.take(k as int + 1).drop_last() =~= slots@.take(k as int));
        assert(slots@.take(k as int + 1).last() == slots@[k as int]);
        match slot_base(inv, catalog, slots[k]) {
            Some(st) => match base.checked_add(&st) {
                Some(t) => {
                    base = t;
                },
                None => {
                    proof {
                        if slots_base_fits(slots@, inv@, catalog@) {
                            lemma_slots_fits_prefix(slots@, inv@, catalog@, k as int + 1);
                        }
                    }
                    return None;
                },
            },
            None => {},
        }
        if slots[k].is_none() {
            default_count = default_count + 1;
        }
        k = k + 1;
    }
    assert(slots@.take(7) =~= slots@);
    let ghost sum = base;
    let mut j: usize = 0;
    while j < default_count
        invariant
            default_count <= 7,
            default_count == empty_count(part_slots(*setup)),
            sum == slots_base_sum(part_slots(*setup), inv@, catalog@),
            0 <= j <= default_count,
            defaults_fit(sum, j as nat),
            base == add_defaults(sum, j as nat),
        decreases default_count - j,
    {
        match base.checked_add(&default_part_stats()) {
            Some(t) => {
                base = t;
            },
            None => {
                proof {
                    if defaults_fit(sum, default_count as nat) {
                        lemma_defaults_prefix(sum, default_count as nat, (j + 1) as nat);
                    }
                }
                return None;
            },
        }
        j = j + 1;
    }
    let total = base.total_wide();
    if !(-2147483648i64 <= total && total <= 2147483647i64) {
        return None;
    }
    let d1 = match driver_base_total(drv, drivers_catalog, setup.driver1_id) {
        Some(t) => t,
        None => return None,
    };
    let d2 = match driver_base_total(drv, drivers_catalog, setup.driver2_id) {
        Some(t) => t,
        None => return None,
    };
    let both: i64 = d1 as i64 + d2 as i64;
    if !(-2147483648i64 <= both && both <= 2147483647i64) {
        return None;
    }
    Some((total as i32, both as i32))
}

/// A setup's totals without boosts, for the setups list: its parts' total
/// performance (with the default stats for empty slots) and its drivers'
/// total, the owned parts and drivers looked up by id in the inventory.
pub fn base_totals(
    setup: &Setup,
    inv: &[InventoryItem],
    drv: &[DriverInventoryItem],
    catalog: &[OwnedPartDefinition],
    drivers_catalog: &[OwnedDriverDefinition],
) -> (r: (i32, i32))
    requires
        base_totals_fit(*setup, inv@, drv@, catalog@, drivers_catalog@),
    ensures
        r.0 == base_totals_spec(*setup, inv@, drv@, catalog@, drivers_catalog@).0,
        r.1 == base_totals_spec(*setup, inv@, drv@, catalog@, drivers_catalog@).1,
{
    match try_base_totals(setup, inv, drv, catalog, drivers_catalog) {
        Some(t) => t,
        None => (0, 0),
    }
}

} // verus!
