//! Shared setups: the frozen snapshot of a setup's parts and drivers, its
//! content hash (so that identical shares reuse one link) and the short
//! link hash.
//!
//! Pit stop times are held in hundredths of a second.

use vstd::prelude::*;

use vstd::string::StringSliceAdditionalSpecFns;

use crate::find::{
    first_where, lemma_first_where_congruent, lemma_first_where_found, lemma_first_where_range,
};
use crate::models::driver::{DriverBoost, DriverInventoryItem, DriverStats, OwnedDriverDefinition};
use crate::models::part::{OwnedPartDefinition, PartCategory, Stats};
use crate::models::setup::{Boost, InventoryItem};
use crate::resolve::{
    boosts_within, catalog_within, driver_boosts_within, driver_catalog_within, driver_stats_spec,
    driver_stats_within, part_stats_spec, resolve_driver_stats, resolve_part_stats,
};
use crate::optimizer_core::stats_within;
use crate::session::{hex_encode, hex_lower, sha256, sha256_digest};
use crate::setup_stats::{assigned_ids, drivers_sum, ids_of, lemma_sum_fits_prefix, parts_sum, parts_sum_fits};
use crate::text::{
    chars_of, lemma_seq_lt_asymmetric, lemma_seq_lt_total, lemma_seq_lt_transitive, push_char, seq_lt, starts_with, str_eq,
    str_lt, string_of,
};

verus! {

/// One part of a shared setup, as it was when shared (boosts applied).
#[derive(Debug)]
pub struct PartSnapshot {
    pub category: String,
    pub part_name: String,
    pub level: i32,
    pub rarity: String,
    pub speed: i32,
    pub cornering: i32,
    pub power_unit: i32,
    pub qualifying: i32,
    pub pit_stop_hundredths: i32,
    pub total: i32,
}

/// One driver of a shared setup, as it was when shared (boosts applied).
#[derive(Debug)]
pub struct DriverSnapshot {
    pub driver_name: String,
    pub rarity: String,
    pub level: i32,
    pub overtaking: i32,
    pub defending: i32,
    pub qualifying: i32,
    pub race_start: i32,
    pub tyre_management: i32,
    pub total: i32,
}

/// The mathematical model of a part snapshot.
pub struct PartSnapView {
    pub category: Seq<char>,
    pub part_name: Seq<char>,
    pub level: i32,
    pub rarity: Seq<char>,
    pub speed: i32,
    pub cornering: i32,
    pub power_unit: i32,
    pub qualifying: i32,
    pub pit_stop_hundredths: i32,
    pub total: i32,
}

/// The mathematical model of a driver snapshot.
pub struct DriverSnapView {
    pub driver_name: Seq<char>,
    pub rarity: Seq<char>,
    pub level: i32,
    pub overtaking: i32,
    pub defending: i32,
    pub qualifying: i32,
    pub race_start: i32,
    pub tyre_management: i32,
    pub total: i32,
}

impl View for PartSnapshot {
    type V = PartSnapView;

    open spec fn view(&self) -> PartSnapView {
        PartSnapView {
            category: self.category@,
            part_name: self.part_name@,
            level: self.level,
            rarity: self.rarity@,
            speed: self.speed,
            cornering: self.cornering,
            power_unit: self.power_unit,
            qualifying: self.qualifying,
            pit_stop_hundredths: self.pit_stop_hundredths,
            total: self.total,
        }
    }
}

impl View for DriverSnapshot {
    type V = DriverSnapView;

    open spec fn view(&self) -> DriverSnapView {
        DriverSnapView {
            driver_name: self.driver_name@,
            rarity: self.rarity@,
            level: self.level,
            overtaking: self.overtaking,
            defending: self.defending,
            qualifying: self.qualifying,
            race_start: self.race_start,
            tyre_management: self.tyre_management,
            total: self.total,
        }
    }
}

impl Clone for PartSnapshot {
    fn clone(&self) -> (r: Self)
        ensures
            r@ == self@,
    {
        PartSnapshot {
            category: self.category.clone(),
            part_name: self.part_name.clone(),
            level: self.level,
            rarity: self.rarity.clone(),
            speed: self.speed,
            cornering: self.cornering,
            power_unit: self.power_unit,
            qualifying: self.qualifying,
            pit_stop_hundredths: self.pit_stop_hundredths,
            total: self.total,
        }
    }
}

impl Clone for DriverSnapshot {
    fn clone(&self) -> (r: Self)
        ensures
            r@ == self@,
    {
        DriverSnapshot {
            driver_name: self.driver_name.clone(),
            rarity: self.rarity.clone(),
            level: self.level,
            overtaking: self.overtaking,
            defending: self.defending,
            qualifying: self.qualifying,
            race_start: self.race_start,
            tyre_management: self.tyre_management,
            total: self.total,
        }
    }
}

/// The views of a list of part snapshots.
pub open spec fn part_views(v: Seq<PartSnapshot>) -> Seq<PartSnapView> {
    v.map_values(|p: PartSnapshot| p@)
}

/// The views of a list of driver snapshots.
pub open spec fn driver_views(v: Seq<DriverSnapshot>) -> Seq<DriverSnapView> {
    v.map_values(|d: DriverSnapshot| d@)
}

// ── Canonical category order ─────────────────────────────────────────────────

/// Number of part categories.
pub open spec fn num_categories() -> int {
    PartCategory::all_spec().len() as int
}

/// Position in the canonical order of the category displayed as `name`, or
/// the number of categories when no category is displayed so.
pub open spec fn category_key(name: Seq<char>) -> int {
    match first_where(num_categories(), |i: int| PartCategory::all_spec()[i].display_name_view() == name) {
        Some(i) => i,
        None => num_categories(),
    }
}

/// The snapshots whose category has position `k`, in their order.
pub open spec fn with_key(ps: Seq<PartSnapView>, k: int) -> Seq<PartSnapView>
    decreases ps.len(),
{
    if ps.len() == 0 {
        Seq::empty()
    } else {
        with_key(ps.drop_last(), k) + if category_key(ps.last().category) == k {
            seq![ps.last()]
        } else {
            Seq::empty()
        }
    }
}

/// The snapshots whose category has a position below `k`, by position and
/// then in their order.
pub open spec fn keys_below(ps: Seq<PartSnapView>, k: int) -> Seq<PartSnapView>
    decreases k,
{
    if k <= 0 {
        Seq::empty()
    } else {
        keys_below(ps, k - 1) + with_key(ps, k - 1)
    }
}

/// The snapshots stably sorted by the canonical position of their category,
/// unknown categories last.
pub open spec fn in_category_order(ps: Seq<PartSnapView>) -> Seq<PartSnapView> {
    keys_below(ps, num_categories() + 1)
}

proof fn lemma_with_key_all(ps: Seq<PartSnapView>, k: int)
    ensures
        forall|i: int| 0 <= i < with_key(ps, k).len() ==> category_key(#[trigger] with_key(ps, k)[i].category) == k,
    decreases ps.len(),
{
    if ps.len() > 0 {
        lemma_with_key_all(ps.drop_last(), k);
        let a = with_key(ps.drop_last(), k);
        assert forall|i: int| 0 <= i < with_key(ps, k).len() implies category_key(
            #[trigger] with_key(ps, k)[i].category,
        ) == k by {
            if i < a.len() {
                assert(with_key(ps, k)[i] == a[i]);
            }
        }
    }
}

proof fn lemma_keys_below_sorted(ps: Seq<PartSnapView>, k: int)
    ensures
        forall|i: int| 0 <= i < keys_below(ps, k).len() ==> category_key(#[trigger] keys_below(ps, k)[i].category) < k,
        forall|i: int, j: int|
            0 <= i < j < keys_below(ps, k).len() ==> category_key(#[trigger] keys_below(ps, k)[i].category)
                <= category_key(#[trigger] keys_below(ps, k)[j].category),
    decreases k,
{
    if k > 0 {
        lemma_keys_below_sorted(ps, k - 1);
        lemma_with_key_all(ps, k - 1);
        let a = keys_below(ps, k - 1);
        let b = with_key(ps, k - 1);
        let c = keys_below(ps, k);
        assert(c == a + b);
        assert forall|i: int| 0 <= i < c.len() implies category_key(#[trigger] c[i].category) < k by {
            if i < a.len() {
                assert(c[i] == a[i]);
            } else {
                assert(c[i] == b[i - a.len()]);
            }
        }
        assert forall|i: int, j: int| 0 <= i < j < c.len() implies category_key(#[trigger] c[i].category)
            <= category_key(#[trigger] c[j].category) by {
            if j < a.len() {
                assert(c[i] == a[i] && c[j] == a[j]);
            } else if i < a.len() {
                assert(c[i] == a[i] && c[j] == b[j - a.len()]);
            } else {
                assert(c[i] == b[i - a.len()] && c[j] == b[j - a.len()]);
            }
        }
    }
}

/// In canonical category order the positions of the categories never
/// decrease (parts of unknown categories come last).
pub proof fn law_category_order_sorted(ps: Seq<PartSnapView>)
    ensures
        forall|i: int, j: int|
            0 <= i < j < in_category_order(ps).len() ==> category_key(#[trigger] in_category_order(ps)[i].category)
                <= category_key(#[trigger] in_category_order(ps)[j].category),
{
    lemma_keys_below_sorted(ps, num_categories() + 1);
}

/// Canonical position of the category displayed as `name`.
pub fn category_position(name: &String) -> (r: usize)
    ensures
        r == category_key(name@),
{
    let all = PartCategory::all();
    let ghost pred = |i: int| PartCategory::all_spec()[i].display_name_view() == name@;
    let mut i: usize = 0;
    while i < all.len()
        invariant
            all@ == PartCategory::all_spec(),
            0 <= i <= all@.len(),
            pred == (|i: int| PartCategory::all_spec()[i].display_name_view() == name@),
            forall|j: int| 0 <= j < i ==> !#[trigger] pred(j),
        decreases all@.len() - i,
    {
        if str_eq(all[i].display_name(), name.as_str()) {
            proof {
                lemma_first_where_found(num_categories(), pred, i as int);
            }
            return i;
        }
        i = i + 1;
    }
    proof {
        lemma_first_where_range(num_categories(), pred);
    }
    i
}

/// The snapshots sorted by the canonical order of their category (a stable
/// sort; snapshots of unknown categories come last).
pub fn sort_by_category(parts: &[PartSnapshot]) -> (r: Vec<PartSnapshot>)
    ensures
        part_views(r@) == in_category_order(part_views(parts@)),
{
    let ghost ps = part_views(parts@);
    let mut keys: Vec<usize> = Vec::new();
    let mut i: usize = 0;
    while i < parts.len()
        invariant
            0 <= i <= parts@.len(),
            keys@.len() == i,
            forall|j: int| 0 <= j < i ==> #[trigger] keys@[j] == category_key(parts@[j].category@),
        decreases parts@.len() - i,
    {
        keys.push(category_position(&parts[i].category));
        i = i + 1;
    }
    let n = PartCategory::all().len();
    let mut out: Vec<PartSnapshot> = Vec::new();
    let mut k: usize = 0;
    while k <= n
        invariant
            n == num_categories(),
            0 <= k <= n + 1,
            keys@.len() == parts@.len(),
            ps == part_views(parts@),
            forall|j: int| 0 <= j < parts@.len() ==> #[trigger] keys@[j] == category_key(parts@[j].category@),
            part_views(out@) == keys_below(ps, k as int),
        decreases n + 1 - k,
    {
        let mut i: usize = 0;
        while i < parts.len()
            invariant
                n == num_categories(),
                0 <= k <= n,
                0 <= i <= parts@.len(),
                keys@.len() == parts@.len(),
                ps == part_views(parts@),
                forall|j: int| 0 <= j < parts@.len() ==> #[trigger] keys@[j] == category_key(parts@[j].category@),
                part_views(out@) == keys_below(ps, k as int) + with_key(ps.take(i as int), k as int),
            decreases parts@.len() - i,
        {
            let ghost before = part_views(out@);
            let ghost t = ps.take(i as int + 1);
            assert(t.drop_last() =~= ps.take(i as int));
            assert(t.last() == parts@[i as int]@);
            if keys[i] == k {
                out.push(parts[i].clone());
                assert(part_views(out@) =~= before.push(parts@[i as int]@));
            } else {
                assert(part_views(out@) =~= before);
            }
            i = i + 1;
        }
        assert(ps.take(parts@.len() as int) =~= ps);
        k = k + 1;
    }
    out
}


// ── Share form ────────────────────────────────────────────────────────────────

/// The share form: a name, the chosen part and driver slots, and the part
/// priorities.
#[derive(Debug)]
pub struct ShareForm {
    pub name: String,
    pub brakes_id: Option<i32>,
    pub gearbox_id: Option<i32>,
    pub rear_wing_id: Option<i32>,
    pub front_wing_id: Option<i32>,
    pub suspension_id: Option<i32>,
    pub engine_id: Option<i32>,
    pub battery_id: Option<i32>,
    pub driver1_id: Option<i32>,
    pub driver2_id: Option<i32>,
    pub speed: bool,
    pub cornering: bool,
    pub power_unit: bool,
    pub qualifying: bool,
}

/// The part slots of a share form, in the order engine, front wing, rear
/// wing, suspension, brakes, gearbox, battery.
pub open spec fn form_part_slots(form: ShareForm) -> Seq<Option<i32>> {
    seq![
        form.engine_id,
        form.front_wing_id,
        form.rear_wing_id,
        form.suspension_id,
        form.brakes_id,
        form.gearbox_id,
        form.battery_id,
    ]
}

/// The part ids chosen in a share form, in slot order.
pub fn share_part_ids(form: &ShareForm) -> (r: Vec<i32>)
    ensures
        r@ == assigned_ids(form_part_slots(*form)),
{
    let slots = [
        form.engine_id,
        form.front_wing_id,
        form.rear_wing_id,
        form.suspension_id,
        form.brakes_id,
        form.gearbox_id,
        form.battery_id,
    ];
    assert(slots@ =~= form_part_slots(*form));
    ids_of(&slots)
}

/// The driver ids chosen in a share form, first driver first.
pub fn share_driver_ids(form: &ShareForm) -> (r: Vec<i32>)
    ensures
        r@ == assigned_ids(seq![form.driver1_id, form.driver2_id]),
{
    let slots = [form.driver1_id, form.driver2_id];
    assert(slots@ =~= seq![form.driver1_id, form.driver2_id]);
    ids_of(&slots)
}

/// Where the shared page links back to: the setups list when the share was
/// made from a setup page, the optimizer otherwise.
pub open spec fn back_href_spec(path: Seq<char>) -> Seq<char> {
    if crate::text::is_prefix("/setup"@, path) {
        "/setups"@
    } else {
        "/optimizer"@
    }
}

/// Where the shared page links back to, from the path the share came from.
pub fn back_href(path: &str) -> (r: &'static str)
    ensures
        r@ == back_href_spec(path@),
{
    if starts_with(path, "/setup") {
        "/setups"
    } else {
        "/optimizer"
    }
}

// ── Snapshots ─────────────────────────────────────────────────────────────────

/// The snapshot of an owned part: its category, name, level and rarity and
/// its effective stats; `None` when the catalog does not resolve it.
pub open spec fn part_snapshot_spec(
    catalog: Seq<OwnedPartDefinition>,
    boosts: Seq<Boost>,
    item: InventoryItem,
) -> Option<PartSnapView> {
    match part_stats_spec(catalog, boosts, item) {
        None => None,
        Some((d, s)) => Some(
            PartSnapView {
                category: catalog[d].category.display_name_view(),
                part_name: item.part_name@,
                level: item.level,
                rarity: catalog[d].rarity@,
                speed: s.speed,
                cornering: s.cornering,
                power_unit: s.power_unit,
                qualifying: s.qualifying,
                pit_stop_hundredths: s.pit_stop_hundredths,
                total: s.total_spec() as i32,
            },
        ),
    }
}

/// The snapshots of the owned parts the catalog resolves, in order.
pub open spec fn parts_snapshot_spec(
    catalog: Seq<OwnedPartDefinition>,
    boosts: Seq<Boost>,
    items: Seq<InventoryItem>,
) -> Seq<PartSnapView>
    decreases items.len(),
{
    if items.len() == 0 {
        Seq::empty()
    } else {
        parts_snapshot_spec(catalog, boosts, items.drop_last()) + match part_snapshot_spec(
            catalog,
            boosts,
            items.last(),
        ) {
            Some(v) => seq![v],
            None => Seq::empty(),
        }
    }
}

/// The total performance of an owned part's effective stats fits in `i32`
/// (there is nothing to total when the catalog does not resolve it).
pub open spec fn snapshot_total_fits(catalog: Seq<OwnedPartDefinition>, boosts: Seq<Boost>, item: InventoryItem) -> bool {
    match part_stats_spec(catalog, boosts, item) {
        Some((_, s)) => crate::models::part::fits_i32(s.total_spec()),
        None => true,
    }
}

/// Building the parts snapshot stays within `i32`: every boost, every
/// partial sum and every part's total.
pub open spec fn parts_snapshot_fits(catalog: Seq<OwnedPartDefinition>, boosts: Seq<Boost>, items: Seq<InventoryItem>) -> bool {
    &&& parts_sum_fits(catalog, boosts, items)
    &&& forall|i: int| 0 <= i < items.len() ==> snapshot_total_fits(catalog, boosts, #[trigger] items[i])
}

fn part_snapshot(catalog: &[OwnedPartDefinition], boosts: &[Boost], item: &InventoryItem) -> (r: Option<
    (PartSnapshot, Stats),
>)
    requires
        crate::resolve::boost_fits(catalog@, boosts@, *item),
        snapshot_total_fits(catalog@, boosts@, *item),
    ensures
        match part_snapshot_spec(catalog@, boosts@, *item) {
            Some(v) => r matches Some((snap, s)) && snap@ == v && (part_stats_spec(
                catalog@,
                boosts@,
                *item,
            ) matches Some((_, t)) && t == s),
            None => r is None && part_stats_spec(catalog@, boosts@, *item) is None,
        },
{
    match resolve_part_stats(catalog, boosts, item) {
        Some((d, s)) => {
            let snap = PartSnapshot {
                category: string_of(catalog[d].category.display_name()),
                part_name: item.part_name.clone(),
                level: item.level,
                rarity: catalog[d].rarity.clone(),
                speed: s.speed,
                cornering: s.cornering,
                power_unit: s.power_unit,
                qualifying: s.qualifying,
                pit_stop_hundredths: s.pit_stop_hundredths,
                total: s.total_performance(),
            };
            Some((snap, s))
        },
        None => None,
    }
}

/// The snapshots of the shared parts and the sum of their effective stats,
/// as `build_parts_snapshot` makes them, or `None` when a boost, a sum or a
/// part's total leaves `i32`.
#[verifier::rlimit(30)]
pub fn try_parts_snapshot(
    items: &[InventoryItem],
    catalog: &[OwnedPartDefinition],
    boosts: &[Boost],
) -> (r: Option<(Vec<PartSnapshot>, Stats)>)
    ensures
        match r {
            Some(v) => parts_snapshot_fits(catalog@, boosts@, items@) && part_views(v.0@) == parts_snapshot_spec(
                catalog@,
                boosts@,
                items@,
            ) && v.1 == parts_sum(catalog@, boosts@, items@),
            None => !parts_snapshot_fits(catalog@, boosts@, items@),
        },
{
    let mut snaps: Vec<PartSnapshot> = Vec::new();
    let mut total = Stats::default();
    let mut i: usize = 0;
    while i < items.len()
        invariant
            0 <= i <= items@.len(),
            parts_sum_fits(catalog@, boosts@, items@.take(i as int)),
            forall|j: int| 0 <= j < i ==> snapshot_total_fits(catalog@, boosts@, #[trigger] items@[j]),
            part_views(snaps@) == parts_snapshot_spec(catalog@, boosts@, items@.take(i as int)),
            total == parts_sum(catalog@, boosts@, items@.take(i as int)),
        decreases items@.len() - i,
    {
        let ghost pre = items@.take(i as int);
        let ghost next = items@.take(i as int + 1);
        assert(next.drop_last() =~= pre);
        assert(next.last() == items@[i as int]);
        let ghost before = part_views(snaps@);
        if !crate::resolve::item_boost_fits(catalog, boosts, &items[i]) {
            proof {
                if parts_sum_fits(catalog@, boosts@, items@) {
                    lemma_sum_fits_prefix(catalog@, boosts@, items@, i as int + 1);
                }
            }
            return None;
        }
        let fits_total = match resolve_part_stats(catalog, boosts, &items[i]) {
            Some((_, s)) => {
                let t = s.total_wide();
                -2147483648i64 <= t && t <= 2147483647i64
            },
            None => true,
        };
        if !fits_total {
            assert(!snapshot_total_fits(catalog@, boosts@, items@[i as int]));
            return None;
        }
        match part_snapshot(catalog, boosts, &items[i]) {
            Some((snap, s)) => match total.checked_add(&s) {
                Some(t) => {
                    total = t;
                    let ghost sv = snap@;
                    snaps.push(snap);
                    assert(part_views(snaps@) =~= before.push(sv));
                },
                None => {
                    proof {
                        if parts_sum_fits(catalog@, boosts@, items@) {
                            lemma_sum_fits_prefix(catalog@, boosts@, items@, i as int + 1);
                        }
                    }
                    return None;
                },
            },
            None => {
                assert(part_views(snaps@) =~= before + Seq::<PartSnapView>::empty());
            },
        }
        i = i + 1;
    }
    assert(items@.take(items@.len() as int) =~= items@);
    Some((snaps, total))
}

/// The snapshots of the shared parts (`items`, the owned parts chosen in the
/// form) and the sum of their effective stats.
pub fn build_parts_snapshot(
    items: &[InventoryItem],
    catalog: &[OwnedPartDefinition],
    boosts: &[Boost],
) -> (r: (Vec<PartSnapshot>, Stats))
    requires
        parts_snapshot_fits(catalog@, boosts@, items@),
    ensures
        part_views(r.0@) == parts_snapshot_spec(catalog@, boosts@, items@),
        r.1 == parts_sum(catalog@, boosts@, items@),
{
    match try_parts_snapshot(items, catalog, boosts) {
        Some(v) => v,
        None => (Vec::new(), Stats::default()),
    }
}

/// The snapshot of an owned driver: its name, rarity and level and its
/// effective stats; `None` when the catalog does not resolve it.
pub open spec fn driver_snapshot_spec(
    catalog: Seq<OwnedDriverDefinition>,
    boosts: Seq<DriverBoost>,
    item: DriverInventoryItem,
) -> Option<DriverSnapView> {
    match driver_stats_spec(catalog, boosts, item) {
        None => None,
        Some((_, s)) => Some(
            DriverSnapView {
                driver_name: item.driver_name@,
                rarity: item.rarity@,
                level: item.level,
                overtaking: s.overtaking,
                defending: s.defending,
                qualifying: s.qualifying,
                race_start: s.race_start,
                tyre_management: s.tyre_management,
                total: s.total_spec() as i32,
            },
        ),
    }
}

/// The snapshots of the owned drivers the catalog resolves, in order.
pub open spec fn drivers_snapshot_spec(
    catalog: Seq<OwnedDriverDefinition>,
    boosts: Seq<DriverBoost>,
    items: Seq<DriverInventoryItem>,
) -> Seq<DriverSnapView>
    decreases items.len(),
{
    if items.len() == 0 {
        Seq::empty()
    } else {
        drivers_snapshot_spec(catalog, boosts, items.drop_last()) + match driver_snapshot_spec(
            catalog,
            boosts,
            items.last(),
        ) {
            Some(v) => seq![v],
            None => Seq::empty(),
        }
    }
}

/// The total of an owned driver's effective stats fits in `i32` (there is
/// nothing to total when the catalog does not resolve it).
pub open spec fn driver_total_fits(
    catalog: Seq<OwnedDriverDefinition>,
    boosts: Seq<DriverBoost>,
    item: DriverInventoryItem,
) -> bool {
    match driver_stats_spec(catalog, boosts, item) {
        Some((_, s)) => crate::models::part::fits_i32(s.total_spec()),
        None => true,
    }
}

/// Building the drivers snapshot stays within `i32`: every boost, every
/// partial sum and every driver's total.
pub open spec fn drivers_snapshot_fits(
    catalog: Seq<OwnedDriverDefinition>,
    boosts: Seq<DriverBoost>,
    items: Seq<DriverInventoryItem>,
) -> bool {
    &&& crate::setup_stats::drivers_sum_fits(catalog, boosts, items)
    &&& forall|i: int| 0 <= i < items.len() ==> driver_total_fits(catalog, boosts, #[trigger] items[i])
}

/// The snapshots of the shared drivers and the sum of their effective
/// stats, as `build_drivers_snapshot` makes them, or `None` when a boost, a
/// sum or a driver's total leaves `i32`.
#[verifier::rlimit(30)]
pub fn try_drivers_snapshot(
    items: &[DriverInventoryItem],
    catalog: &[OwnedDriverDefinition],
    boosts: &[DriverBoost],
) -> (r: Option<(Vec<DriverSnapshot>, DriverStats)>)
    ensures
        match r {
            Some(v) => drivers_snapshot_fits(catalog@, boosts@, items@) && driver_views(v.0@)
                == drivers_snapshot_spec(catalog@, boosts@, items@) && v.1 == drivers_sum(catalog@, boosts@, items@),
            None => !drivers_snapshot_fits(catalog@, boosts@, items@),
        },
{
    let mut snaps: Vec<DriverSnapshot> = Vec::new();
    let mut total = DriverStats::default();
    let mut i: usize = 0;
    while i < items.len()
        invariant
            0 <= i <= items@.len(),
            crate::setup_stats::drivers_sum_fits(catalog@, boosts@, items@.take(i as int)),
            forall|j: int| 0 <= j < i ==> driver_total_fits(catalog@, boosts@, #[trigger] items@[j]),
            driver_views(snaps@) == drivers_snapshot_spec(catalog@, boosts@, items@.take(i as int)),
            total == drivers_sum(catalog@, boosts@, items@.take(i as int)),
        decreases items@.len() - i,
    {
        let ghost pre = items@.take(i as int);
        let ghost next = items@.take(i as int + 1);
        assert(next.drop_last() =~= pre);
        assert(next.last() == items@[i as int]);
        let ghost before = driver_views(snaps@);
        if !crate::resolve::driver_item_boost_fits(catalog, boosts, &items[i]) {
            proof {
                if crate::setup_stats::drivers_sum_fits(catalog@, boosts@, items@) {
                    crate::setup_stats::lemma_driver_fits_prefix(catalog@, boosts@, items@, i as int + 1);
                }
            }
            return None;
        }
        match resolve_driver_stats(catalog, boosts, &items[i]) {
            Some((_, s)) => {
                let t: i64 = s.overtaking as i64 + s.defending as i64 + s.qualifying as i64 + s.race_start as i64
                    + s.tyre_management as i64;
                if !(-2147483648i64 <= t && t <= 2147483647i64) {
                    assert(!driver_total_fits(catalog@, boosts@, items@[i as int]));
                    return None;
                }
                match total.checked_add(&s) {
                    Some(sum) => {
                        total = sum;
                    },
                    None => {
                        proof {
                            if crate::setup_stats::drivers_sum_fits(catalog@, boosts@, items@) {
                                crate::setup_stats::lemma_driver_fits_prefix(catalog@, boosts@, items@, i as int + 1);
                            }
                        }
                        return None;
                    },
                }
                let snap = DriverSnapshot {
                    driver_name: items[i].driver_name.clone(),
                    rarity: items[i].rarity.clone(),
                    level: items[i].level,
                    overtaking: s.overtaking,
                    defending: s.defending,
                    qualifying: s.qualifying,
                    race_start: s.race_start,
                    tyre_management: s.tyre_management,
                    total: s.total(),
                };
                snaps.push(snap);
                assert(driver_views(snaps@) =~= before.push(snap@));
            },
            None => {
                assert(driver_views(snaps@) =~= before + Seq::<DriverSnapView>::empty());
            },
        }
        i = i + 1;
    }
    assert(items@.take(items@.len() as int) =~= items@);
    Some((snaps, total))
}

/// The snapshots of the shared drivers (`items`, the owned drivers chosen in
/// the form) and the sum of their effective stats.
pub fn build_drivers_snapshot(
    items: &[DriverInventoryItem],
    catalog: &[OwnedDriverDefinition],
    boosts: &[DriverBoost],
) -> (r: (Vec<DriverSnapshot>, DriverStats))
    requires
        drivers_snapshot_fits(catalog@, boosts@, items@),
    ensures
        driver_views(r.0@) == drivers_snapshot_spec(catalog@, boosts@, items@),
        r.1 == drivers_sum(catalog@, boosts@, items@),
{
    match try_drivers_snapshot(items, catalog, boosts) {
        Some(v) => v,
        None => (Vec::new(), DriverStats::default()),
    }
}


// ── Ordering by name ──────────────────────────────────────────────────────────

/// Where a name goes among sorted names: before the first that sorts
/// strictly after it, so that equal names keep their order.
pub open spec fn name_insert_pos(names: Seq<Seq<char>>, k: Seq<char>) -> int {
    match first_where(names.len() as int, |j: int| seq_lt(k, names[j])) {
        Some(j) => j,
        None => names.len() as int,
    }
}

/// The part snapshots stably sorted by part name (`sort_by` on the names).
pub open spec fn parts_by_name(s: Seq<PartSnapView>) -> Seq<PartSnapView>
    decreases s.len(),
{
    if s.len() == 0 {
        Seq::empty()
    } else {
        let sorted = parts_by_name(s.drop_last());
        let p = name_insert_pos(sorted.map_values(|x: PartSnapView| x.part_name), s.last().part_name);
        sorted.take(p).push(s.last()) + sorted.skip(p)
    }
}

/// The driver snapshots stably sorted by driver name.
pub open spec fn drivers_by_name(s: Seq<DriverSnapView>) -> Seq<DriverSnapView>
    decreases s.len(),
{
    if s.len() == 0 {
        Seq::empty()
    } else {
        let sorted = drivers_by_name(s.drop_last());
        let p = name_insert_pos(
            sorted.map_values(|x: DriverSnapView| x.driver_name),
            s.last().driver_name,
        );
        sorted.take(p).push(s.last()) + sorted.skip(p)
    }
}

fn part_name_pos(sorted: &Vec<PartSnapshot>, name: &String) -> (r: usize)
    ensures
        r as int == match first_where(sorted@.len() as int, |j: int| seq_lt(name@, sorted@[j].part_name@)) {
            Some(j) => j,
            None => sorted@.len() as int,
        },
        r <= sorted@.len(),
{
    let ghost pred = |j: int| seq_lt(name@, sorted@[j].part_name@);
    let mut j: usize = 0;
    while j < sorted.len()
        invariant
            0 <= j <= sorted@.len(),
            pred == (|j: int| seq_lt(name@, sorted@[j].part_name@)),
            forall|m: int| 0 <= m < j ==> !#[trigger] pred(m),
        decreases sorted@.len() - j,
    {
        if str_lt(name.as_str(), sorted[j].part_name.as_str()) {
            proof {
                lemma_first_where_found(sorted@.len() as int, pred, j as int);
            }
            return j;
        }
        j = j + 1;
    }
    proof {
        lemma_first_where_range(sorted@.len() as int, pred);
    }
    j
}

fn insert_part_by_name(out: &mut Vec<PartSnapshot>, x: PartSnapshot)
    ensures
        part_views(final(out)@) == ({
            let sorted = part_views(old(out)@);
            let p = name_insert_pos(sorted.map_values(|v: PartSnapView| v.part_name), x@.part_name);
            sorted.take(p).push(x@) + sorted.skip(p)
        }),
{
    let ghost sorted = part_views(out@);
    let ghost names = sorted.map_values(|v: PartSnapView| v.part_name);
    let ghost old_out = out@;
    let ghost xv = x@;
    let j = part_name_pos(out, &x.part_name);
    proof {
        lemma_first_where_congruent(
            old_out.len() as int,
            |k: int| seq_lt(xv.part_name, old_out[k].part_name@),
            |k: int| seq_lt(xv.part_name, names[k]),
        );
    }
    assert(j as int == name_insert_pos(names, xv.part_name));
    out.insert(j, x);
    assert(part_views(out@) =~= sorted.take(j as int).push(xv) + sorted.skip(j as int));
}

/// Sorts part snapshots by part name, keeping the order of equal names.
pub fn sort_parts_by_name(v: &[PartSnapshot]) -> (r: Vec<PartSnapshot>)
    ensures
        part_views(r@) == parts_by_name(part_views(v@)),
{
    let mut out: Vec<PartSnapshot> = Vec::new();
    let mut i: usize = 0;
    while i < v.len()
        invariant
            0 <= i <= v@.len(),
            part_views(out@) == parts_by_name(part_views(v@.take(i as int))),
        decreases v@.len() - i,
    {
        let ghost s = part_views(v@.take(i as int + 1));
        assert(s.drop_last() =~= part_views(v@.take(i as int)));
        assert(s.last() == v@[i as int]@);
        insert_part_by_name(&mut out, v[i].clone());
        i = i + 1;
    }
    assert(v@.take(v@.len() as int) =~= v@);
    out
}

fn driver_name_pos(sorted: &Vec<DriverSnapshot>, name: &String) -> (r: usize)
    ensures
        r as int == match first_where(sorted@.len() as int, |j: int| seq_lt(name@, sorted@[j].driver_name@)) {
            Some(j) => j,
            None => sorted@.len() as int,
        },
        r <= sorted@.len(),
{
    let ghost pred = |j: int| seq_lt(name@, sorted@[j].driver_name@);
    let mut j: usize = 0;
    while j < sorted.len()
        invariant
            0 <= j <= sorted@.len(),
            pred == (|j: int| seq_lt(name@, sorted@[j].driver_name@)),
            forall|m: int| 0 <= m < j ==> !#[trigger] pred(m),
        decreases sorted@.len() - j,
    {
        if str_lt(name.as_str(), sorted[j].driver_name.as_str()) {
            proof {
                lemma_first_where_found(sorted@.len() as int, pred, j as int);
            }
            return j;
        }
        j = j + 1;
    }
    proof {
        lemma_first_where_range(sorted@.len() as int, pred);
    }
    j
}

fn insert_driver_by_name(out: &mut Vec<DriverSnapshot>, x: DriverSnapshot)
    ensures
        driver_views(final(out)@) == ({
            let sorted = driver_views(old(out)@);
            let p = name_insert_pos(sorted.map_values(|v: DriverSnapView| v.driver_name), x@.driver_name);
            sorted.take(p).push(x@) + sorted.skip(p)
        }),
{
    let ghost sorted = driver_views(out@);
    let ghost names = sorted.map_values(|v: DriverSnapView| v.driver_name);
    let ghost old_out = out@;
    let ghost xv = x@;
    let j = driver_name_pos(out, &x.driver_name);
    proof {
        lemma_first_where_congruent(
            old_out.len() as int,
            |k: int| seq_lt(xv.driver_name, old_out[k].driver_name@),
            |k: int| seq_lt(xv.driver_name, names[k]),
        );
    }
    assert(j as int == name_insert_pos(names, xv.driver_name));
    out.insert(j, x);
    assert(driver_views(out@) =~= sorted.take(j as int).push(xv) + sorted.skip(j as int));
}

/// Sorts driver snapshots by driver name, keeping the order of equal names.
pub fn sort_drivers_by_name(v: &[DriverSnapshot]) -> (r: Vec<DriverSnapshot>)
    ensures
        driver_views(r@) == drivers_by_name(driver_views(v@)),
{
    let mut out: Vec<DriverSnapshot> = Vec::new();
    let mut i: usize = 0;
    while i < v.len()
        invariant
            0 <= i <= v@.len(),
            driver_views(out@) == drivers_by_name(driver_views(v@.take(i as int))),
        decreases v@.len() - i,
    {
        let ghost s = driver_views(v@.take(i as int + 1));
        assert(s.drop_last() =~= driver_views(v@.take(i as int)));
        assert(s.last() == v@[i as int]@);
        insert_driver_by_name(&mut out, v[i].clone());
        i = i + 1;
    }
    assert(v@.take(v@.len() as int) =~= v@);
    out
}


/// Names in order: none sorts strictly before a name in front of it.
pub open spec fn names_ordered(names: Seq<Seq<char>>) -> bool {
    forall|i: int, j: int| 0 <= i < j < names.len() ==> !seq_lt(#[trigger] names[j], #[trigger] names[i])
}

/// Inserting a name at its place keeps names in order.
proof fn lemma_name_insert_ordered(names: Seq<Seq<char>>, k: Seq<char>)
    requires
        names_ordered(names),
    ensures
        0 <= name_insert_pos(names, k) <= names.len(),
        names_ordered(
            names.take(name_insert_pos(names, k)).push(k) + names.skip(name_insert_pos(names, k)),
        ),
{
    let pred = |j: int| seq_lt(k, names[j]);
    lemma_first_where_range(names.len() as int, pred);
    let p = name_insert_pos(names, k);
    let r = names.take(p).push(k) + names.skip(p);
    assert(r.len() == names.len() + 1);
    assert forall|i: int| 0 <= i < r.len() implies #[trigger] r[i] == if i < p {
        names[i]
    } else if i == p {
        k
    } else {
        names[i - 1]
    } by {}
    assert forall|i: int, j: int| 0 <= i < j < r.len() implies !seq_lt(#[trigger] r[j], #[trigger] r[i]) by {
        if j < p {
            assert(!seq_lt(names[j], names[i]));
        } else if j == p {
            assert(!pred(i));
        } else if i < p {
            assert(!seq_lt(names[j - 1], names[i]));
        } else if i == p {
            assert(pred(p));
            if j - 1 == p {
                lemma_seq_lt_asymmetric(k, names[p]);
            } else {
                assert(!seq_lt(names[j - 1], names[p]));
                if seq_lt(names[j - 1], k) {
                    lemma_seq_lt_transitive(names[j - 1], k, names[p]);
                }
            }
        } else {
            assert(!seq_lt(names[j - 1], names[i - 1]));
        }
    }
}

/// Putting `x` anywhere into a sequence adds it to the sequence's multiset.
proof fn lemma_insert_keeps_multiset<A>(sorted: Seq<A>, prefix: Seq<A>, x: A, p: int)
    requires
        0 <= p <= sorted.len(),
        sorted.to_multiset() == prefix.to_multiset(),
    ensures
        (sorted.take(p).push(x) + sorted.skip(p)).to_multiset() == prefix.push(x).to_multiset(),
{
    let a = sorted.take(p);
    let b = sorted.skip(p);
    vstd::seq_lib::lemma_multiset_commutative(a.push(x), b);
    vstd::seq_lib::lemma_multiset_commutative(a, b);
    vstd::seq_lib::to_multiset_build(a, x);
    vstd::seq_lib::to_multiset_build(prefix, x);
    assert(a + b =~= sorted);
    broadcast use vstd::multiset::group_multiset_axioms;

    assert((a.push(x) + b).to_multiset() =~= prefix.push(x).to_multiset());
}

/// Sorting part snapshots by name puts them in name order and keeps every
/// snapshot: the result holds the same snapshots as the input.
#[verifier::rlimit(30)]
pub proof fn law_parts_sorted_by_name(s: Seq<PartSnapView>)
    ensures
        names_ordered(parts_by_name(s).map_values(|x: PartSnapView| x.part_name)),
        parts_by_name(s).to_multiset() == s.to_multiset(),
    decreases s.len(),
{
    if s.len() == 0 {
        assert(parts_by_name(s) =~= s);
        assert(parts_by_name(s).map_values(|x: PartSnapView| x.part_name) =~= Seq::<Seq<char>>::empty());
    } else {
        law_parts_sorted_by_name(s.drop_last());
        let sorted = parts_by_name(s.drop_last());
        let names = sorted.map_values(|x: PartSnapView| x.part_name);
        let x = s.last();
        let p = name_insert_pos(names, x.part_name);
        lemma_name_insert_ordered(names, x.part_name);
        let res = sorted.take(p).push(x) + sorted.skip(p);
        assert(res.map_values(|y: PartSnapView| y.part_name) =~= names.take(p).push(x.part_name) + names.skip(p));
        lemma_insert_keeps_multiset(sorted, s.drop_last(), x, p);
        assert(s.drop_last().push(x) =~= s);
    }
}

proof fn lemma_drivers_sort_step(s: Seq<DriverSnapView>)
    requires
        s.len() > 0,
        names_ordered(drivers_by_name(s.drop_last()).map_values(|x: DriverSnapView| x.driver_name)),
        drivers_by_name(s.drop_last()).to_multiset() == s.drop_last().to_multiset(),
    ensures
        names_ordered(drivers_by_name(s).map_values(|x: DriverSnapView| x.driver_name)),
        drivers_by_name(s).to_multiset() == s.to_multiset(),
{
    let sorted = drivers_by_name(s.drop_last());
    let names = sorted.map_values(|x: DriverSnapView| x.driver_name);
    let x = s.last();
    let p = name_insert_pos(names, x.driver_name);
    lemma_name_insert_ordered(names, x.driver_name);
    let res = sorted.take(p).push(x) + sorted.skip(p);
    assert(drivers_by_name(s) == res);
    assert(res.map_values(|y: DriverSnapView| y.driver_name) =~= names.take(p).push(x.driver_name) + names.skip(p));
    lemma_insert_keeps_multiset(sorted, s.drop_last(), x, p);
    assert(s.drop_last().push(x) =~= s);
}

/// Sorting driver snapshots by name puts them in name order and keeps every
/// snapshot: the result holds the same snapshots as the input.
pub proof fn law_drivers_sorted_by_name(s: Seq<DriverSnapView>)
    ensures
        names_ordered(drivers_by_name(s).map_values(|x: DriverSnapView| x.driver_name)),
        drivers_by_name(s).to_multiset() == s.to_multiset(),
    decreases s.len(),
{
    if s.len() == 0 {
        assert(drivers_by_name(s) =~= s);
        assert(drivers_by_name(s).map_values(|x: DriverSnapView| x.driver_name) =~= Seq::<Seq<char>>::empty());
    } else {
        law_drivers_sorted_by_name(s.drop_last());
        lemma_drivers_sort_step(s);
    }
}

// ── Order independence ────────────────────────────────────────────────────────

/// No two entries share a key.
pub open spec fn keys_distinct<A>(s: Seq<A>, key: spec_fn(A) -> Seq<char>) -> bool {
    forall|i: int, j: int| 0 <= i < j < s.len() ==> key(#[trigger] s[i]) != key(#[trigger] s[j])
}

/// Each key sorts strictly before the keys after it.
pub open spec fn keys_increasing<A>(s: Seq<A>, key: spec_fn(A) -> Seq<char>) -> bool {
    forall|i: int, j: int| 0 <= i < j < s.len() ==> seq_lt(key(#[trigger] s[i]), key(#[trigger] s[j]))
}

proof fn lemma_count_at_most_one<A>(s: Seq<A>, key: spec_fn(A) -> Seq<char>, e: A)
    requires
        keys_distinct(s, key),
    ensures
        s.to_multiset().count(e) <= 1,
    decreases s.len(),
{
    broadcast use vstd::multiset::group_multiset_axioms;

    if s.len() == 0 {
        vstd::seq_lib::to_multiset_len(s);
    } else {
        let d = s.drop_last();
        let x = s.last();
        assert(keys_distinct(d, key)) by {
            assert forall|i: int, j: int| 0 <= i < j < d.len() implies key(#[trigger] d[i]) != key(#[trigger] d[j]) by {
                assert(d[i] == s[i] && d[j] == s[j]);
            }
        }
        lemma_count_at_most_one(d, key, e);
        vstd::seq_lib::to_multiset_build(d, x);
        assert(d.push(x) =~= s);
        if e == x {
            vstd::seq_lib::to_multiset_contains(d, x);
            if d.contains(x) {
                let k = choose|k: int| 0 <= k < d.len() && d[k] == x;
                assert(s[k] == x && s[s.len() - 1] == x);
                assert(key(s[k]) != key(s[s.len() - 1]));
            }
        }
    }
}

proof fn lemma_distinct_transfer<A>(s: Seq<A>, t: Seq<A>, key: spec_fn(A) -> Seq<char>)
    requires
        s.to_multiset() == t.to_multiset(),
        keys_distinct(s, key),
    ensures
        keys_distinct(t, key),
{
    broadcast use vstd::multiset::group_multiset_axioms;

    assert forall|i: int, j: int| 0 <= i < j < t.len() implies key(#[trigger] t[i]) != key(#[trigger] t[j]) by {
        if key(t[i]) == key(t[j]) {
            vstd::seq_lib::to_multiset_contains(t, t[i]);
            vstd::seq_lib::to_multiset_contains(t, t[j]);
            assert(t.contains(t[i]) && t.contains(t[j]));
            if t[i] == t[j] {
                lemma_count_at_most_one(s, key, t[i]);
                vstd::seq_lib::to_multiset_remove(t, j);
                let r = t.remove(j);
                assert(r[i] == t[i]);
                vstd::seq_lib::to_multiset_contains(r, t[i]);
                assert(r.contains(t[i]));
            } else {
                vstd::seq_lib::to_multiset_contains(s, t[i]);
                vstd::seq_lib::to_multiset_contains(s, t[j]);
                let p = choose|p: int| 0 <= p < s.len() && s[p] == t[i];
                let q = choose|q: int| 0 <= q < s.len() && s[q] == t[j];
                if p < q {
                    assert(key(s[p]) != key(s[q]));
                } else {
                    assert(p != q);
                    assert(key(s[q]) != key(s[p]));
                }
            }
        }
    }
}

proof fn lemma_increasing_unique<A>(x: Seq<A>, y: Seq<A>, key: spec_fn(A) -> Seq<char>)
    requires
        keys_increasing(x, key),
        keys_increasing(y, key),
        x.to_multiset() == y.to_multiset(),
    ensures
        x == y,
    decreases x.len(),
{
    broadcast use vstd::multiset::group_multiset_axioms;

    vstd::seq_lib::to_multiset_len(x);
    vstd::seq_lib::to_multiset_len(y);
    if x.len() == 0 {
        assert(x =~= y);
    } else {
        vstd::seq_lib::to_multiset_contains(x, x[0]);
        vstd::seq_lib::to_multiset_contains(y, y[0]);
        assert(x.contains(x[0]) && y.contains(y[0]));
        vstd::seq_lib::to_multiset_contains(x, y[0]);
        vstd::seq_lib::to_multiset_contains(y, x[0]);
        assert(x.contains(y[0]) && y.contains(x[0]));
        let k = choose|k: int| 0 <= k < y.len() && y[k] == x[0];
        let m = choose|m: int| 0 <= m < x.len() && x[m] == y[0];
        if k > 0 {
            assert(seq_lt(key(y[0]), key(y[k])));
            if m > 0 {
                assert(seq_lt(key(x[0]), key(x[m])));
                lemma_seq_lt_asymmetric(key(x[0]), key(y[0]));
            } else {
                lemma_seq_lt_asymmetric(key(y[0]), key(y[0]));
            }
        }
        assert(x[0] == y[0]);
        let xd = x.drop_first();
        let yd = y.drop_first();
        vstd::seq_lib::to_multiset_remove(x, 0);
        vstd::seq_lib::to_multiset_remove(y, 0);
        assert(x.remove(0) =~= xd);
        assert(y.remove(0) =~= yd);
        assert(keys_increasing(xd, key)) by {
            assert forall|i: int, j: int| 0 <= i < j < xd.len() implies seq_lt(key(#[trigger] xd[i]), key(#[trigger] xd[j])) by {
                assert(xd[i] == x[i + 1] && xd[j] == x[j + 1]);
            }
        }
        assert(keys_increasing(yd, key)) by {
            assert forall|i: int, j: int| 0 <= i < j < yd.len() implies seq_lt(key(#[trigger] yd[i]), key(#[trigger] yd[j])) by {
                assert(yd[i] == y[i + 1] && yd[j] == y[j + 1]);
            }
        }
        lemma_increasing_unique(xd, yd, key);
        assert(x =~= y) by {
            assert forall|i: int| 0 <= i < x.len() implies x[i] == y[i] by {
                if i > 0 {
                    assert(x[i] == xd[i - 1] && y[i] == yd[i - 1]);
                }
            }
        }
    }
}

proof fn lemma_ordered_distinct_increasing<A>(s: Seq<A>, key: spec_fn(A) -> Seq<char>)
    requires
        names_ordered(s.map_values(key)),
        keys_distinct(s, key),
    ensures
        keys_increasing(s, key),
{
    let names = s.map_values(key);
    assert forall|i: int, j: int| 0 <= i < j < s.len() implies seq_lt(key(#[trigger] s[i]), key(#[trigger] s[j])) by {
        assert(names[i] == key(s[i]) && names[j] == key(s[j]));
        assert(!seq_lt(names[j], names[i]));
        lemma_seq_lt_total(key(s[i]), key(s[j]));
    }
}

/// The parts of a share, listed in any order, give the same sorted snapshot
/// (and so the same content hash) when no two share a part name.
pub proof fn law_part_order_irrelevant(a: Seq<PartSnapView>, b: Seq<PartSnapView>)
    requires
        a.to_multiset() == b.to_multiset(),
        keys_distinct(a, |x: PartSnapView| x.part_name),
    ensures
        parts_by_name(a) == parts_by_name(b),
{
    let key = |x: PartSnapView| x.part_name;
    law_parts_sorted_by_name(a);
    law_parts_sorted_by_name(b);
    let sa = parts_by_name(a);
    let sb = parts_by_name(b);
    lemma_distinct_transfer(a, sa, key);
    lemma_distinct_transfer(a, b, key);
    lemma_distinct_transfer(b, sb, key);
    assert(sa.map_values(key) =~= sa.map_values(|x: PartSnapView| x.part_name));
    assert(sb.map_values(key) =~= sb.map_values(|x: PartSnapView| x.part_name));
    lemma_ordered_distinct_increasing(sa, key);
    lemma_ordered_distinct_increasing(sb, key);
    lemma_increasing_unique(sa, sb, key);
}

/// The drivers of a share, listed in any order, give the same sorted
/// snapshot when no two share a driver name.
pub proof fn law_driver_order_irrelevant(a: Seq<DriverSnapView>, b: Seq<DriverSnapView>)
    requires
        a.to_multiset() == b.to_multiset(),
        keys_distinct(a, |x: DriverSnapView| x.driver_name),
    ensures
        drivers_by_name(a) == drivers_by_name(b),
{
    let key = |x: DriverSnapView| x.driver_name;
    law_drivers_sorted_by_name(a);
    law_drivers_sorted_by_name(b);
    let sa = drivers_by_name(a);
    let sb = drivers_by_name(b);
    lemma_distinct_transfer(a, sa, key);
    lemma_distinct_transfer(a, b, key);
    lemma_distinct_transfer(b, sb, key);
    assert(sa.map_values(key) =~= sa.map_values(|x: DriverSnapView| x.driver_name));
    assert(sb.map_values(key) =~= sb.map_values(|x: DriverSnapView| x.driver_name));
    lemma_ordered_distinct_increasing(sa, key);
    lemma_ordered_distinct_increasing(sb, key);
    lemma_increasing_unique(sa, sb, key);
}

// ── Hashes ────────────────────────────────────────────────────────────────────

/// The bytes the content hash covers: the setup name, the season, the
/// priorities and the two snapshots, each as serialized text.
pub open spec fn content_bytes(
    name: Seq<u8>,
    season: Seq<u8>,
    priorities_json: Seq<u8>,
    parts_json: Seq<u8>,
    drivers_json: Seq<u8>,
) -> Seq<u8> {
    name + season + priorities_json + parts_json + drivers_json
}

/// The hashed bytes hold every input whole and in order (name, season,
/// priorities, parts snapshot, drivers snapshot): their length is the sum of the inputs'
/// lengths, and two calls that differ in any one input give different
/// bytes, so changing the drivers (or anything else) changes what is hashed.
pub proof fn law_content_covers_every_input(
    name: Seq<u8>,
    season: Seq<u8>,
    priorities_json: Seq<u8>,
    parts_json: Seq<u8>,
    drivers_json: Seq<u8>,
    other: Seq<u8>,
)
    ensures
        content_bytes(name, season, priorities_json, parts_json, drivers_json).len() == name.len() + season.len()
            + priorities_json.len() + parts_json.len() + drivers_json.len(),
        content_bytes(name, season, priorities_json, parts_json, drivers_json).take(name.len() as int) == name,
        content_bytes(name, season, priorities_json, parts_json, drivers_json).subrange(
            name.len() as int,
            (name.len() + season.len()) as int,
        ) == season,
        content_bytes(name, season, priorities_json, parts_json, drivers_json).subrange(
            (name.len() + season.len()) as int,
            (name.len() + season.len() + priorities_json.len()) as int,
        ) == priorities_json,
        content_bytes(name, season, priorities_json, parts_json, drivers_json).subrange(
            (name.len() + season.len() + priorities_json.len()) as int,
            (name.len() + season.len() + priorities_json.len() + parts_json.len()) as int,
        ) == parts_json,
        content_bytes(name, season, priorities_json, parts_json, drivers_json).skip(
            (name.len() + season.len() + priorities_json.len() + parts_json.len()) as int,
        ) == drivers_json,
        other != drivers_json ==> content_bytes(name, season, priorities_json, parts_json, other) != content_bytes(
            name,
            season,
            priorities_json,
            parts_json,
            drivers_json,
        ),
        other != parts_json ==> content_bytes(name, season, priorities_json, other, drivers_json) != content_bytes(
            name,
            season,
            priorities_json,
            parts_json,
            drivers_json,
        ),
        other != priorities_json ==> content_bytes(name, season, other, parts_json, drivers_json) != content_bytes(
            name,
            season,
            priorities_json,
            parts_json,
            drivers_json,
        ),
        other != season ==> content_bytes(name, other, priorities_json, parts_json, drivers_json) != content_bytes(
            name,
            season,
            priorities_json,
            parts_json,
            drivers_json,
        ),
        other != name ==> content_bytes(other, season, priorities_json, parts_json, drivers_json) != content_bytes(
            name,
            season,
            priorities_json,
            parts_json,
            drivers_json,
        ),
{
    let b = content_bytes(name, season, priorities_json, parts_json, drivers_json);
    let hd = name + season + priorities_json + parts_json;
    assert(b.take(name.len() as int) =~= name);
    assert(b.subrange(name.len() as int, (name.len() + season.len()) as int) =~= season);
    assert(b.subrange((name.len() + season.len()) as int, (name.len() + season.len() + priorities_json.len()) as int)
        =~= priorities_json);
    assert(b.subrange(
        (name.len() + season.len() + priorities_json.len()) as int,
        (name.len() + season.len() + priorities_json.len() + parts_json.len()) as int,
    ) =~= parts_json);
    assert(b.skip(hd.len() as int) =~= drivers_json);
    lemma_prefix_cancel(hd, other, drivers_json);
    lemma_position_parts(name, season, priorities_json, parts_json, drivers_json, other);
    lemma_position_priorities(name, season, priorities_json, parts_json, drivers_json, other);
    lemma_position_season(name, season, priorities_json, parts_json, drivers_json, other);
    lemma_position_name(name, season, priorities_json, parts_json, drivers_json, other);
}

proof fn lemma_position_parts(n: Seq<u8>, s: Seq<u8>, p: Seq<u8>, pa: Seq<u8>, d: Seq<u8>, o: Seq<u8>)
    ensures
        o != pa ==> content_bytes(n, s, p, o, d) != content_bytes(n, s, p, pa, d),
{
    lemma_mid_cancel(n + s + p, o, pa, d);
}

proof fn lemma_position_priorities(n: Seq<u8>, s: Seq<u8>, p: Seq<u8>, pa: Seq<u8>, d: Seq<u8>, o: Seq<u8>)
    ensures
        o != p ==> content_bytes(n, s, o, pa, d) != content_bytes(n, s, p, pa, d),
{
    lemma_mid_cancel(n + s, o, p, pa + d);
    assert(content_bytes(n, s, o, pa, d) =~= (n + s) + o + (pa + d));
    assert(content_bytes(n, s, p, pa, d) =~= (n + s) + p + (pa + d));
}

proof fn lemma_position_season(n: Seq<u8>, s: Seq<u8>, p: Seq<u8>, pa: Seq<u8>, d: Seq<u8>, o: Seq<u8>)
    ensures
        o != s ==> content_bytes(n, o, p, pa, d) != content_bytes(n, s, p, pa, d),
{
    lemma_mid_cancel(n, o, s, p + pa + d);
    assert(content_bytes(n, o, p, pa, d) =~= n + o + (p + pa + d));
    assert(content_bytes(n, s, p, pa, d) =~= n + s + (p + pa + d));
}

proof fn lemma_position_name(n: Seq<u8>, s: Seq<u8>, p: Seq<u8>, pa: Seq<u8>, d: Seq<u8>, o: Seq<u8>)
    ensures
        o != n ==> content_bytes(o, s, p, pa, d) != content_bytes(n, s, p, pa, d),
{
    lemma_mid_cancel(Seq::empty(), o, n, s + p + pa + d);
    assert(content_bytes(o, s, p, pa, d) =~= Seq::<u8>::empty() + o + (s + p + pa + d));
    assert(content_bytes(n, s, p, pa, d) =~= Seq::<u8>::empty() + n + (s + p + pa + d));
}

proof fn lemma_prefix_cancel(head: Seq<u8>, x: Seq<u8>, y: Seq<u8>)
    ensures
        x != y ==> head + x != head + y,
{
    if x != y && head + x == head + y {
        assert((head + x).skip(head.len() as int) =~= x);
        assert((head + y).skip(head.len() as int) =~= y);
    }
}

proof fn lemma_mid_cancel(head: Seq<u8>, x: Seq<u8>, y: Seq<u8>, tail: Seq<u8>)
    ensures
        x != y ==> head + x + tail != head + y + tail,
{
    if x != y && head + x + tail == head + y + tail {
        let a = head + x + tail;
        let b = head + y + tail;
        assert(a.len() == head.len() + x.len() + tail.len());
        assert(b.len() == head.len() + y.len() + tail.len());
        assert(x.len() == y.len());
        assert(a.subrange(head.len() as int, (head.len() + x.len()) as int) =~= x);
        assert(b.subrange(head.len() as int, (head.len() + y.len()) as int) =~= y);
    }
}

fn append_bytes(out: &mut Vec<u8>, bytes: &[u8])
    ensures
        final(out)@ == old(out)@ + bytes@,
{
    let mut i: usize = 0;
    while i < bytes.len()
        invariant
            0 <= i <= bytes@.len(),
            out@ == old(out)@ + bytes@.take(i as int),
        decreases bytes@.len() - i,
    {
        out.push(bytes[i]);
        assert(bytes@.take(i as int + 1) =~= bytes@.take(i as int).push(bytes@[i as int]));
        i = i + 1;
    }
    assert(bytes@.take(bytes@.len() as int) =~= bytes@);
}

/// The stored share with content hash `content`, if any: the link hash of
/// the first row that has it. Rows are (content hash, link hash).
pub open spec fn stored_link(rows: Seq<(Seq<char>, Seq<char>)>, content: Seq<char>) -> Option<Seq<char>> {
    match first_where(rows.len() as int, has_content(rows, content)) {
        Some(i) => Some(rows[i].1),
        None => None,
    }
}

/// Whether row `i` has the content hash `content`.
pub open spec fn has_content(rows: Seq<(Seq<char>, Seq<char>)>, content: Seq<char>) -> spec_fn(int) -> bool {
    |i: int| rows[i].0 == content
}

/// Sharing content with hash `content`: an existing row's link is reused and
/// the rows stay as they are; otherwise a row with the fresh link `fresh` is
/// added. The rows afterwards and the link handed out.
pub open spec fn share_step(
    rows: Seq<(Seq<char>, Seq<char>)>,
    content: Seq<char>,
    fresh: Seq<char>,
) -> (Seq<(Seq<char>, Seq<char>)>, Seq<char>) {
    match stored_link(rows, content) {
        Some(h) => (rows, h),
        None => (rows.push((content, fresh)), fresh),
    }
}

/// The link a share request hands out, and whether a row must be added:
/// the link stored for the same content when there is one (`existing`),
/// else the fresh link, to be inserted.
pub fn reuse_or_insert(existing: Option<String>, fresh: String) -> (r: (String, bool))
    ensures
        match existing {
            Some(h) => r.0@ == h@ && !r.1,
            None => r.0@ == fresh@ && r.1,
        },
{
    match existing {
        Some(h) => (h, false),
        None => (fresh, true),
    }
}

/// Sharing unchanged content again reuses the link: the second request
/// hands out the link of the first and adds no row, whatever fresh link it
/// was offered.
pub proof fn law_reshare_reuses_link(
    rows: Seq<(Seq<char>, Seq<char>)>,
    content: Seq<char>,
    fresh1: Seq<char>,
    fresh2: Seq<char>,
)
    ensures
        share_step(share_step(rows, content, fresh1).0, content, fresh2).0 == share_step(rows, content, fresh1).0,
        share_step(share_step(rows, content, fresh1).0, content, fresh2).1 == share_step(rows, content, fresh1).1,
{
    let p1 = has_content(rows, content);
    lemma_first_where_range(rows.len() as int, p1);
    if stored_link(rows, content) is None {
        let r1 = rows.push((content, fresh1));
        let p2 = has_content(r1, content);
        assert forall|i: int| 0 <= i < rows.len() implies !#[trigger] p2(i) by {
            assert(r1[i] == rows[i]);
            assert(!p1(i));
        }
        assert(p2(rows.len() as int));
        lemma_first_where_found(r1.len() as int, p2, rows.len() as int);
    }
}

/// The content hash of a share, so that identical shares reuse one link: the
/// lower-case hex SHA-256 of the name, the season, the priorities JSON and
/// the parts and drivers snapshot JSON (snapshots sorted by name), one after
/// the other.
pub fn content_hash(
    name: &str,
    season: &str,
    priorities_json: &str,
    parts_json: &str,
    drivers_json: &str,
) -> (r: String)
    ensures
        r@ == hex_lower(
            sha256_digest(
                content_bytes(
                    name.spec_bytes(),
                    season.spec_bytes(),
                    priorities_json.spec_bytes(),
                    parts_json.spec_bytes(),
                    drivers_json.spec_bytes(),
                ),
            ),
        ),
{
    let mut bytes: Vec<u8> = Vec::new();
    append_bytes(&mut bytes, name.as_bytes());
    append_bytes(&mut bytes, season.as_bytes());
    append_bytes(&mut bytes, priorities_json.as_bytes());
    append_bytes(&mut bytes, parts_json.as_bytes());
    append_bytes(&mut bytes, drivers_json.as_bytes());
    assert(bytes@ =~= content_bytes(
        name.spec_bytes(),
        season.spec_bytes(),
        priorities_json.spec_bytes(),
        parts_json.spec_bytes(),
        drivers_json.spec_bytes(),
    ));
    let digest = sha256(bytes.as_slice());
    hex_encode(digest.as_slice())
}

/// The characters of a share hash: letters and digits without the easily
/// confused `I`, `O`, `i`, `l`, `o`, `0` and `1`.
pub open spec fn share_charset() -> Seq<char> {
    "ABCDEFGHJKLMNPQRSTUVWXYZabcdefghjkmnpqrstuvwxyz23456789"@
}

/// The charset index of the `i`-th character of the hash of `seed`.
pub open spec fn share_hash_index(seed: u64, i: int) -> int {
    (seed.wrapping_mul(6364136223846793005u64).wrapping_add((i * 1442695040888963407) as u64) as int)
        % 55
}

/// The 8-character share hash derived from `seed`.
pub open spec fn share_hash_spec(seed: u64) -> Seq<char> {
    Seq::new(8, |i: int| share_charset()[share_hash_index(seed, i)])
}

/// The 8-character share hash derived from `seed` (the sub-second
/// nanoseconds of the clock); the caller retries with a new seed when the
/// hash is taken.
pub fn share_hash_from_seed(seed: u64) -> (r: String)
    ensures
        r@ == share_hash_spec(seed),
{
    let charset = chars_of("ABCDEFGHJKLMNPQRSTUVWXYZabcdefghjkmnpqrstuvwxyz23456789");
    proof {
        reveal_strlit("ABCDEFGHJKLMNPQRSTUVWXYZabcdefghjkmnpqrstuvwxyz23456789");
    }
    assert(charset@.len() == 55);
    let mut out = String::new();
    let mut i: u64 = 0;
    while i < 8
        invariant
            charset@ == share_charset(),
            charset@.len() == 55,
            0 <= i <= 8,
            out@ == share_hash_spec(seed).take(i as int),
        decreases 8 - i,
    {
        let step: u64 = i * 1442695040888963407u64;
        let idx = seed.wrapping_mul(6364136223846793005u64).wrapping_add(step) % 55;
        assert(idx == share_hash_index(seed, i as int));
        push_char(&mut out, charset[idx as usize]);
        assert(share_hash_spec(seed).take(i as int + 1) =~= share_hash_spec(seed).take(i as int).push(
            charset@[idx as int],
        ));
        i = i + 1;
    }
    assert(share_hash_spec(seed).take(8) =~= share_hash_spec(seed));
    out
}

/// A share hash has 8 characters, each from the share charset.
pub proof fn law_share_hash_shape(seed: u64)
    ensures
        share_hash_spec(seed).len() == 8,
        forall|i: int| 0 <= i < 8 ==> share_charset().contains(#[trigger] share_hash_spec(seed)[i]),
{
    reveal_strlit("ABCDEFGHJKLMNPQRSTUVWXYZabcdefghjkmnpqrstuvwxyz23456789");
    assert forall|i: int| 0 <= i < 8 implies share_charset().contains(#[trigger] share_hash_spec(seed)[i]) by {
        let k = share_hash_index(seed, i);
        assert(0 <= k < 55);
        assert(share_charset()[k] == share_hash_spec(seed)[i]);
    }
}


// ── Shared page ───────────────────────────────────────────────────────────────

/// The priority line of a shared page: the selected priorities joined by
/// `, `, or `Total performance` when none is selected.
pub open spec fn share_priority_label_spec(p: crate::data::StatPriorities) -> Seq<char> {
    if p.label_views().len() == 0 {
        "Total performance"@
    } else {
        crate::text::join_spec(p.label_views(), ", "@)
    }
}

/// The priority line of a shared page.
pub fn share_priority_label(priorities: &crate::data::StatPriorities) -> (r: String)
    ensures
        r@ == share_priority_label_spec(*priorities),
{
    let labels = priorities.labels();
    if labels.len() == 0 {
        assert(labels@.map_values(|s: &'static str| s@).len() == 0);
        string_of("Total performance")
    } else {
        crate::text::join(&labels, ", ")
    }
}

/// The level at which the viewer owns the shared part named `name` (their
/// first item of that name), if they own it.
pub open spec fn viewer_level_spec(viewer: Seq<InventoryItem>, name: Seq<char>) -> Option<i32> {
    match first_where(viewer.len() as int, |i: int| viewer[i].part_name@ == name) {
        Some(i) => Some(viewer[i].level),
        None => None,
    }
}

fn viewer_level(viewer: &[InventoryItem], name: &String) -> (r: Option<i32>)
    ensures
        r == viewer_level_spec(viewer@, name@),
{
    let ghost pred = |i: int| viewer@[i].part_name@ == name@;
    let mut i: usize = 0;
    while i < viewer.len()
        invariant
            0 <= i <= viewer@.len(),
            pred == (|i: int| viewer@[i].part_name@ == name@),
            forall|j: int| 0 <= j < i ==> !#[trigger] pred(j),
        decreases viewer@.len() - i,
    {
        if str_eq(viewer[i].part_name.as_str(), name.as_str()) {
            proof {
                lemma_first_where_found(viewer@.len() as int, pred, i as int);
            }
            return Some(viewer[i].level);
        }
        i = i + 1;
    }
    proof {
        lemma_first_where_range(viewer@.len() as int, pred);
    }
    None
}

/// For each shared part, the level at which the viewer owns it, if any.
pub fn viewer_levels(parts: &[PartSnapshot], viewer: &[InventoryItem]) -> (r: Vec<Option<i32>>)
    ensures
        r@.len() == parts@.len(),
        forall|k: int| 0 <= k < parts@.len() ==> #[trigger] r@[k] == viewer_level_spec(viewer@, parts@[k].part_name@),
{
    let mut out: Vec<Option<i32>> = Vec::new();
    let mut k: usize = 0;
    while k < parts.len()
        invariant
            0 <= k <= parts@.len(),
            out@.len() == k,
            forall|m: int| 0 <= m < k ==> #[trigger] out@[m] == viewer_level_spec(viewer@, parts@[m].part_name@),
        decreases parts@.len() - k,
    {
        let found = viewer_level(viewer, &parts[k].part_name);
        out.push(found);
        k = k + 1;
    }
    out
}

} // verus!
