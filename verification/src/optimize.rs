//! Optimizer runs: a custom run over the player's part pools and drivers,
//! and the six preset part-priority runs (parts only).

use vstd::prelude::*;

use crate::data::StatPriorities;
use crate::models::driver::DriverStats;
use crate::models::part::PartCategory;
use crate::optimizer_core::{
    all_categories_filled, all_combos_fit, build_driver_pairs, combo_count, driver_pairs_spec, driver_table,
    is_best_combo, is_best_pair, lemma_selected_driver_sum, lemma_table_fits, law_pairs_well_formed,
    pair_ok, pair_stats, pairs_from, reports, run_brute_force, stats_table, stats_within, table_within,
    DriverPair, DriverPriorities, OptimizeResult, ResolvedDriver, ResolvedPart,
};
use crate::resolve::driver_stats_within;

verus! {

proof fn lemma_pair_ok(rd: Seq<DriverStats>, pair: DriverPair, dp: DriverPriorities)
    requires
        pair.0 is Some ==> pair.0->0 < rd.len(),
        pair.1 is Some ==> pair.1->0 < rd.len(),
        forall|i: int| 0 <= i < rd.len() ==> driver_stats_within(#[trigger] rd[i], 12_000_000),
    ensures
        pair_ok(rd, pair, dp),
{
    if pair.0 is Some {
        assert(driver_stats_within(rd[pair.0->0 as int], 12_000_000));
    }
    if pair.1 is Some {
        assert(driver_stats_within(rd[pair.1->0 as int], 12_000_000));
    }
    lemma_selected_driver_sum(pair_stats(rd, pair), dp);
}

/// Every pair the optimizer considers for `rd` names resolved drivers and
/// sums and scores without overflow, when each driver's stats lie within
/// ±12 000 000.
proof fn lemma_pairs_ok(rd: Seq<ResolvedDriver>, dp: DriverPriorities)
    requires
        rd.len() <= usize::MAX,
        forall|i: int| 0 <= i < rd.len() ==> driver_stats_within(#[trigger] rd[i].stats, 12_000_000),
    ensures
        forall|j: int|
            0 <= j < driver_pairs_spec(rd.len() as int).len() ==> pair_ok(
                driver_table(rd),
                #[trigger] driver_pairs_spec(rd.len() as int)[j],
                dp,
            ),
{
    let n = rd.len() as int;
    let t = driver_table(rd);
    let pairs = driver_pairs_spec(n);
    law_pairs_well_formed(0, n);
    assert forall|i: int| 0 <= i < t.len() implies driver_stats_within(#[trigger] t[i], 12_000_000) by {
        assert(t[i] == rd[i].stats);
    }
    assert forall|j: int| 0 <= j < pairs.len() implies pair_ok(t, #[trigger] pairs[j], dp) by {
        if j > 0 {
            assert(pairs[j] == pairs_from(0, n)[j - 1]);
        }
        lemma_pair_ok(t, pairs[j], dp);
    }
}

/// Runs the optimizer over the part pools and every pair of the resolved
/// drivers (no driver, each driver alone, each pair of distinct drivers).
/// `None` when some category has no part; otherwise the result of
/// `run_brute_force` for those pairs.
pub fn optimize(
    parts_per_cat: &[Vec<ResolvedPart>],
    categories: &[PartCategory],
    resolved_drivers: &[ResolvedDriver],
    part_priorities: &StatPriorities,
    driver_priorities: &DriverPriorities,
) -> (r: Option<OptimizeResult>)
    requires
        parts_per_cat@.len() == categories@.len(),
        all_combos_fit(stats_table(parts_per_cat@), *part_priorities),
        combo_count(parts_per_cat@) <= usize::MAX,
        forall|j: int|
            0 <= j < driver_pairs_spec(resolved_drivers@.len() as int).len() ==> pair_ok(
                driver_table(resolved_drivers@),
                #[trigger] driver_pairs_spec(resolved_drivers@.len() as int)[j],
                *driver_priorities,
            ),
    ensures
        r is None <==> !all_categories_filled(parts_per_cat@),
        r matches Some(res) ==> exists|c: Seq<usize>, j: int|
            is_best_combo(stats_table(parts_per_cat@), c, *part_priorities) && is_best_pair(
                driver_table(resolved_drivers@),
                driver_pairs_spec(resolved_drivers@.len() as int),
                j,
                *driver_priorities,
            ) && reports(
                res,
                parts_per_cat@,
                categories@,
                resolved_drivers@,
                driver_pairs_spec(resolved_drivers@.len() as int),
                c,
                j,
            ),
{
    let pairs = build_driver_pairs(resolved_drivers);
    let driver_count = resolved_drivers.len();
    proof {
        assert(driver_count == resolved_drivers@.len());
    }
    run_brute_force(
        parts_per_cat,
        categories,
        pairs.as_slice(),
        resolved_drivers,
        part_priorities,
        driver_priorities,
    )
}

proof fn lemma_combo_nonneg(ppc: Seq<Vec<ResolvedPart>>)
    ensures
        combo_count(ppc) >= 0,
    decreases ppc.len(),
{
    if ppc.len() > 0 {
        lemma_combo_nonneg(ppc.drop_last());
        let a = combo_count(ppc.drop_last());
        let b = ppc.last()@.len() as int;
        assert(a * b >= 0) by (nonlinear_arith)
            requires
                a >= 0,
                b >= 0,
        ;
    }
}

proof fn lemma_combo_zero(ppc: Seq<Vec<ResolvedPart>>, k: int)
    requires
        0 <= k < ppc.len(),
        ppc[k]@.len() == 0,
    ensures
        combo_count(ppc) == 0,
    decreases ppc.len(),
{
    let a = combo_count(ppc.drop_last());
    let b = ppc.last()@.len() as int;
    if k < ppc.len() - 1 {
        assert(ppc.drop_last()[k] == ppc[k]);
        lemma_combo_zero(ppc.drop_last(), k);
        assert(a * b == 0) by (nonlinear_arith)
            requires
                a == 0,
        ;
    } else {
        assert(ppc.last() == ppc[k]);
        assert(a * b == 0) by (nonlinear_arith)
            requires
                b == 0,
        ;
    }
}

proof fn lemma_combo_prefix(ppc: Seq<Vec<ResolvedPart>>, n: int)
    requires
        0 <= n <= ppc.len(),
        forall|k: int| 0 <= k < ppc.len() ==> (#[trigger] ppc[k])@.len() >= 1,
    ensures
        combo_count(ppc.take(n)) <= combo_count(ppc),
    decreases ppc.len(),
{
    if n == ppc.len() {
        assert(ppc.take(n) =~= ppc);
    } else {
        assert(ppc.drop_last().take(n) =~= ppc.take(n));
        lemma_combo_prefix(ppc.drop_last(), n);
        lemma_combo_nonneg(ppc.drop_last());
        let a = combo_count(ppc.drop_last());
        let b = ppc.last()@.len() as int;
        assert(ppc.last() == ppc[ppc.len() - 1]);
        assert(a * b >= a) by (nonlinear_arith)
            requires
                a >= 0,
                b >= 1,
        ;
    }
}

/// Whether the number of part combinations, the product of the category
/// sizes, fits in `usize` (the count the optimizer walks through).
pub fn combos_fit(parts_per_cat: &[Vec<ResolvedPart>]) -> (r: bool)
    ensures
        r == (combo_count(parts_per_cat@) <= usize::MAX),
{
    let ghost ppc = parts_per_cat@;
    let mut k: usize = 0;
    while k < parts_per_cat.len()
        invariant
            ppc == parts_per_cat@,
            0 <= k <= ppc.len(),
            forall|j: int| 0 <= j < k ==> (#[trigger] ppc[j])@.len() >= 1,
        decreases ppc.len() - k,
    {
        if parts_per_cat[k].len() == 0 {
            proof {
                lemma_combo_zero(ppc, k as int);
            }
            return true;
        }
        k = k + 1;
    }
    let mut prod: usize = 1;
    let mut i: usize = 0;
    assert(ppc.take(0) =~= Seq::<Vec<ResolvedPart>>::empty());
    while i < parts_per_cat.len()
        invariant
            ppc == parts_per_cat@,
            0 <= i <= ppc.len(),
            forall|j: int| 0 <= j < ppc.len() ==> (#[trigger] ppc[j])@.len() >= 1,
            prod as int == combo_count(ppc.take(i as int)),
        decreases ppc.len() - i,
    {
        assert(ppc.take(i as int + 1).drop_last() =~= ppc.take(i as int));
        assert(ppc.take(i as int + 1).last() == ppc[i as int]);
        match prod.checked_mul(parts_per_cat[i].len()) {
            None => {
                proof {
                    lemma_combo_prefix(ppc, i as int + 1);
                }
                return false;
            },
            Some(p) => {
                prod = p;
            },
        }
        i = i + 1;
    }
    assert(ppc.take(ppc.len() as int) =~= ppc);
    true
}

/// A check that rules out overflow in the optimizer: at most 16 categories,
/// every pooled stat within ±12 000 000. When it holds no combination
/// overflows, whatever the priorities.
pub fn pools_in_range(parts_per_cat: &[Vec<ResolvedPart>]) -> (r: bool)
    ensures
        r ==> forall|p: StatPriorities| #[trigger] all_combos_fit(stats_table(parts_per_cat@), p),
{
    if parts_per_cat.len() > 16 {
        return false;
    }
    let ghost t = stats_table(parts_per_cat@);
    let mut k: usize = 0;
    while k < parts_per_cat.len()
        invariant
            t == stats_table(parts_per_cat@),
            0 <= k <= parts_per_cat@.len(),
            forall|m: int, i: int| 0 <= m < k && 0 <= i < t[m].len() ==> stats_within(#[trigger] t[m][i], 12_000_000),
        decreases parts_per_cat@.len() - k,
    {
        let row = &parts_per_cat[k];
        let mut i: usize = 0;
        while i < row.len()
            invariant
                t == stats_table(parts_per_cat@),
                0 <= k < parts_per_cat@.len(),
                row@ == parts_per_cat@[k as int]@,
                0 <= i <= row@.len(),
                forall|m: int, j: int| 0 <= m < k && 0 <= j < t[m].len() ==> stats_within(#[trigger] t[m][j], 12_000_000),
                forall|j: int| 0 <= j < i ==> stats_within(#[trigger] t[k as int][j], 12_000_000),
            decreases row@.len() - i,
        {
            let st = row[i].stats;
            assert(t[k as int][i as int] == st);
            let b: i32 = 12_000_000;
            if !(-b <= st.speed && st.speed <= b && -b <= st.cornering && st.cornering <= b && -b <= st.power_unit
                && st.power_unit <= b && -b <= st.qualifying && st.qualifying <= b && -b <= st.pit_stop_hundredths
                && st.pit_stop_hundredths <= b && -b <= st.additional_stat_value && st.additional_stat_value <= b) {
                return false;
            }
            i = i + 1;
        }
        assert forall|m: int, j: int| 0 <= m < k + 1 && 0 <= j < t[m].len() implies stats_within(
            #[trigger] t[m][j],
            12_000_000,
        ) by {
            if m == k {
                assert(t[m].len() == row@.len());
            }
        }
        k = k + 1;
    }
    proof {
        assert(table_within(t, 12_000_000));
        assert(t.len() * 12_000_000 <= 200_000_000) by (nonlinear_arith)
            requires
                t.len() <= 16,
        ;
        assert forall|p: StatPriorities| #[trigger] all_combos_fit(t, p) by {
            lemma_table_fits(t, p, 12_000_000);
        }
    }
    true
}

/// A check that rules out overflow in the driver scores: every resolved
/// driver's stats within ±12 000 000. When it holds every pair the
/// optimizer considers sums and scores within `i32`, whatever the
/// priorities.
pub fn drivers_in_range(resolved_drivers: &[ResolvedDriver]) -> (r: bool)
    ensures
        r ==> forall|dp: DriverPriorities, j: int|
            0 <= j < driver_pairs_spec(resolved_drivers@.len() as int).len() ==> #[trigger] pair_ok(
                driver_table(resolved_drivers@),
                driver_pairs_spec(resolved_drivers@.len() as int)[j],
                dp,
            ),
{
    let mut i: usize = 0;
    while i < resolved_drivers.len()
        invariant
            0 <= i <= resolved_drivers@.len(),
            forall|m: int| 0 <= m < i ==> driver_stats_within(#[trigger] resolved_drivers@[m].stats, 12_000_000),
        decreases resolved_drivers@.len() - i,
    {
        let s = resolved_drivers[i].stats;
        let b: i32 = 12_000_000;
        if !(-b <= s.overtaking && s.overtaking <= b && -b <= s.defending && s.defending <= b && -b <= s.qualifying
            && s.qualifying <= b && -b <= s.race_start && s.race_start <= b && -b <= s.tyre_management
            && s.tyre_management <= b) {
            return false;
        }
        i = i + 1;
    }
    proof {
        assert forall|dp: DriverPriorities, j: int|
            0 <= j < driver_pairs_spec(resolved_drivers@.len() as int).len() implies #[trigger] pair_ok(
                driver_table(resolved_drivers@),
                driver_pairs_spec(resolved_drivers@.len() as int)[j],
                dp,
            ) by {
            lemma_pairs_ok(resolved_drivers@, dp);
        }
    }
    true
}

/// One preset run: its label and the optimizer's result.
pub struct PresetResult {
    pub label: &'static str,
    pub result: Option<OptimizeResult>,
}

/// The label of preset `i`.
pub open spec fn preset_label(i: int) -> Seq<char> {
    if i == 0 {
        "Speed"@
    } else if i == 1 {
        "Speed + Qualifying"@
    } else if i == 2 {
        "Cornering"@
    } else if i == 3 {
        "Cornering + Qualifying"@
    } else if i == 4 {
        "Power Unit"@
    } else {
        "Power Unit + Qualifying"@
    }
}

/// The part priorities of preset `i`: speed, cornering or power unit, the
/// odd presets with qualifying as well.
pub open spec fn preset_priorities(i: int) -> StatPriorities {
    StatPriorities {
        speed: i == 0 || i == 1,
        cornering: i == 2 || i == 3,
        power_unit: i == 4 || i == 5,
        qualifying: i == 1 || i == 3 || i == 5,
    }
}

/// The six presets, in order.
pub fn preset_defs() -> (r: Vec<(&'static str, StatPriorities)>)
    ensures
        r@.len() == 6,
        forall|i: int| 0 <= i < 6 ==> (#[trigger] r@[i]).0@ == preset_label(i) && r@[i].1 == preset_priorities(i),
{
    let none = StatPriorities { speed: false, cornering: false, power_unit: false, qualifying: false };
    let mut v: Vec<(&'static str, StatPriorities)> = Vec::new();
    v.push(("Speed", StatPriorities { speed: true, ..none }));
    v.push(("Speed + Qualifying", StatPriorities { speed: true, qualifying: true, ..none }));
    v.push(("Cornering", StatPriorities { cornering: true, ..none }));
    v.push(("Cornering + Qualifying", StatPriorities { cornering: true, qualifying: true, ..none }));
    v.push(("Power Unit", StatPriorities { power_unit: true, ..none }));
    v.push(("Power Unit + Qualifying", StatPriorities { power_unit: true, qualifying: true, ..none }));
    v
}

/// Runs the optimizer once per preset, on parts only (no drivers).
pub fn run_presets(parts_per_cat: &[Vec<ResolvedPart>], categories: &[PartCategory]) -> (r: Vec<
    PresetResult,
>)
    requires
        parts_per_cat@.len() == categories@.len(),
        forall|i: int| 0 <= i < 6 ==> all_combos_fit(stats_table(parts_per_cat@), #[trigger] preset_priorities(i)),
        combo_count(parts_per_cat@) <= usize::MAX,
    ensures
        r@.len() == 6,
        forall|i: int|
            0 <= i < 6 ==> {
                let p = #[trigger] r@[i];
                &&& p.label@ == preset_label(i)
                &&& p.result is None <==> !all_categories_filled(parts_per_cat@)
                &&& p.result matches Some(res) ==> exists|c: Seq<usize>|
                    is_best_combo(stats_table(parts_per_cat@), c, preset_priorities(i)) && reports(
                        res,
                        parts_per_cat@,
                        categories@,
                        Seq::empty(),
                        seq![(None::<usize>, None::<usize>)],
                        c,
                        0,
                    )
            },
{
    let defs = preset_defs();
    let no_drivers: Vec<ResolvedDriver> = Vec::new();
    let driver_priorities = DriverPriorities::default();
    let mut out: Vec<PresetResult> = Vec::new();
    let mut i: usize = 0;
    while i < defs.len()
        invariant
            defs@.len() == 6,
            forall|k: int| 0 <= k < 6 ==> (#[trigger] defs@[k]).0@ == preset_label(k) && defs@[k].1 == preset_priorities(k),
            parts_per_cat@.len() == categories@.len(),
            forall|i: int| 0 <= i < 6 ==> all_combos_fit(stats_table(parts_per_cat@), #[trigger] preset_priorities(i)),
            combo_count(parts_per_cat@) <= usize::MAX,
            no_drivers@.len() == 0,
            !driver_priorities.any(),
            0 <= i <= 6,
            out@.len() == i,
            forall|k: int|
                0 <= k < i ==> {
                    let p = #[trigger] out@[k];
                    &&& p.label@ == preset_label(k)
                    &&& p.result is None <==> !all_categories_filled(parts_per_cat@)
                    &&& p.result matches Some(res) ==> exists|c: Seq<usize>|
                        is_best_combo(stats_table(parts_per_cat@), c, preset_priorities(k)) && reports(
                            res,
                            parts_per_cat@,
                            categories@,
                            Seq::empty(),
                            seq![(None::<usize>, None::<usize>)],
                            c,
                            0,
                        )
                },
        decreases 6 - i,
    {
        let (label, prio) = defs[i];
        assert(driver_pairs_spec(0) =~= seq![(None::<usize>, None::<usize>)]);
        assert(all_combos_fit(stats_table(parts_per_cat@), preset_priorities(i as int)));
        assert(pair_ok(driver_table(no_drivers@), driver_pairs_spec(0)[0], driver_priorities));
        let result = optimize(parts_per_cat, categories, no_drivers.as_slice(), &prio, &driver_priorities);
        proof {
            assert(no_drivers@ =~= Seq::<ResolvedDriver>::empty());
            if result is Some {
                let res = result->0;
                let (c, j) = choose|c: Seq<usize>, j: int|
                    is_best_combo(stats_table(parts_per_cat@), c, prio) && is_best_pair(
                        driver_table(no_drivers@),
                        driver_pairs_spec(0),
                        j,
                        driver_priorities,
                    ) && reports(res, parts_per_cat@, categories@, no_drivers@, driver_pairs_spec(0), c, j);
                assert(0 <= j < 1);
                assert(reports(res, parts_per_cat@, categories@, Seq::empty(), seq![(None::<usize>, None::<usize>)], c, 0));
            }
        }
        out.push(PresetResult { label, result });
        i = i + 1;
    }
    out
}

} // verus!
