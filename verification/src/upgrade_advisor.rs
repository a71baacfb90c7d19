//! The upgrade advisor: simulates upgrading each owned part by one level (or
//! to the reachable level when the cards allow it) and re-runs the optimizer
//! to measure the score improvement. Recommendations come in two groups,
//! "immediate" (enough cards now) and "planned" (what to aim for), each
//! ranked by score gain, largest first.

use vstd::prelude::*;

use crate::data::{
    calculate_upgrade, card_cost, card_cost_at, law_cards_only_agrees_with_full, law_upgrade_bounds, coin_cost, coin_costs_for_season, format_coins,
    format_coins_spec, is_2026, max_level_for_rarity, max_level_spec, upgrade_walk, coin_entry_2025, coin_entry_2026,
    StatPriorities,
};
use crate::models::part::{
    first_level_index, fits_i32, OwnedLevelStats, OwnedPartDefinition, PartCategory, Stats, boost_stat,
};
use crate::models::setup::{Boost, InventoryItem};
use crate::optimizer_core::{
    all_combos_fit,
    all_categories_filled, combo_count, combo_score, driver_pairs_spec, driver_table,
    is_best_combo, lemma_table_fits, pair_ok, reports, run_brute_force, score_part_combo,
    stats_table, stats_within, table_within, valid_combo, law_best_combo_unique, DriverPair,
    DriverPriorities, ResolvedDriver, ResolvedPart, law_top_by_bounded, lemma_top_by_map, part_total_key,
    prune_category, pruned, stats_total_key, top_by, POOL_CAP,
};
use crate::find::{
    first_where, lemma_first_where_congruent, lemma_first_where_found, lemma_first_where_range,
};
use crate::resolve::{
    find_boost, find_def, first_boost, first_def, lemma_boost_within, lemma_upgraded_within,
};
use crate::text::str_eq;

verus! {

broadcast use vstd::seq_lib::group_seq_properties;

// ── Public types ──────────────────────────────────────────────────────────────

#[derive(Debug)]
pub struct UpgradeCandidate {
    pub inventory_id: i32,
    pub part_name: String,
    pub category: PartCategory,
    pub rarity_css_class: &'static str,
    pub current_level: i32,
    /// Level being simulated (reachable level for immediate, current + 1 for planned).
    pub target_level: i32,
    /// Whether `target_level` is the highest level the owned cards reach.
    pub at_reachable_level: bool,
}

#[derive(Debug)]
pub struct UpgradeCost {
    pub cards_owned: i32,
    /// Cards needed from current_level → target_level.
    pub cards_needed: i32,
    /// Coins needed from current_level → target_level.
    pub coins_needed: u64,
    pub can_afford: bool,
    /// Human-readable coin string.
    pub coins_display: String,
}

/// Per-stat change of a part between two levels; pit stop time in hundredths.
#[derive(Debug, Clone, Copy, PartialEq, Eq, Structural)]
pub struct StatDelta {
    pub speed: i32,
    pub cornering: i32,
    pub power_unit: i32,
    pub qualifying: i32,
    pub pit_stop_hundredths: i32,
}

impl Default for StatDelta {
    fn default() -> (r: StatDelta)
        ensures
            r == (StatDelta { speed: 0, cornering: 0, power_unit: 0, qualifying: 0, pit_stop_hundredths: 0 }),
    {
        StatDelta { speed: 0, cornering: 0, power_unit: 0, qualifying: 0, pit_stop_hundredths: 0 }
    }
}

#[derive(Debug)]
pub struct UpgradeRecommendation {
    pub candidate: UpgradeCandidate,
    pub cost: UpgradeCost,
    /// Improvement in the primary score metric (min of priority stats, or total).
    pub score_delta: i32,
    /// Per-stat change on the part itself (not the full setup).
    pub stat_delta: StatDelta,
}

pub struct AdvisorResult {
    pub priorities: StatPriorities,
    /// Baseline score with current inventory.
    pub baseline_score: i32,
    /// Parts the user has enough cards to upgrade now, ranked by score_delta desc.
    pub immediate: Vec<UpgradeRecommendation>,
    /// All +1 upgrades regardless of cards, ranked by score_delta desc.
    pub planned: Vec<UpgradeRecommendation>,
}

/// The mathematical model of a recommendation.
pub struct RecView {
    pub inventory_id: i32,
    pub part_name: Seq<char>,
    pub category: PartCategory,
    pub rarity_css_class: Seq<char>,
    pub current_level: i32,
    pub target_level: i32,
    pub at_reachable_level: bool,
    pub cards_owned: i32,
    pub cards_needed: int,
    pub coins_needed: int,
    pub can_afford: bool,
    pub coins_display: Seq<char>,
    pub score_delta: int,
    pub stat_delta: StatDelta,
}

impl View for UpgradeRecommendation {
    type V = RecView;

    open spec fn view(&self) -> RecView {
        RecView {
            inventory_id: self.candidate.inventory_id,
            part_name: self.candidate.part_name@,
            category: self.candidate.category,
            rarity_css_class: self.candidate.rarity_css_class@,
            current_level: self.candidate.current_level,
            target_level: self.candidate.target_level,
            at_reachable_level: self.candidate.at_reachable_level,
            cards_owned: self.cost.cards_owned,
            cards_needed: self.cost.cards_needed as int,
            coins_needed: self.cost.coins_needed as int,
            can_afford: self.cost.can_afford,
            coins_display: self.cost.coins_display@,
            score_delta: self.score_delta as int,
            stat_delta: self.stat_delta,
        }
    }
}

impl Clone for UpgradeRecommendation {
    fn clone(&self) -> (r: Self)
        ensures
            r@ == self@,
    {
        UpgradeRecommendation {
            candidate: UpgradeCandidate {
                inventory_id: self.candidate.inventory_id,
                part_name: self.candidate.part_name.clone(),
                category: self.candidate.category,
                rarity_css_class: self.candidate.rarity_css_class,
                current_level: self.candidate.current_level,
                target_level: self.candidate.target_level,
                at_reachable_level: self.candidate.at_reachable_level,
            },
            cost: UpgradeCost {
                cards_owned: self.cost.cards_owned,
                cards_needed: self.cost.cards_needed,
                coins_needed: self.cost.coins_needed,
                can_afford: self.cost.can_afford,
                coins_display: self.cost.coins_display.clone(),
            },
            score_delta: self.score_delta,
            stat_delta: self.stat_delta,
        }
    }
}

// ── Specification ─────────────────────────────────────────────────────────────

/// Index of the first occurrence of `cat` among the categories.
pub open spec fn first_cat(categories: Seq<PartCategory>, cat: PartCategory) -> Option<int> {
    first_where(categories.len() as int, |i: int| categories[i].rank() == cat.rank())
}

/// Index of the first resolved part whose inventory id is `id`.
pub open spec fn first_with_id(parts: Seq<ResolvedPart>, id: i32) -> Option<int> {
    first_where(parts.len() as int, |i: int| parts[i].item.id == id)
}

/// Everything the advisor reads, as mathematical values.
pub struct AdvisorInputs {
    pub ppc: Seq<Vec<ResolvedPart>>,
    pub categories: Seq<PartCategory>,
    pub catalog: Seq<OwnedPartDefinition>,
    pub boosts: Seq<Boost>,
    pub prios: StatPriorities,
    pub is2026: bool,
}

/// The optimizer's primary score for a stats table: the first component of
/// the best combination's score, or 0 when some category is empty.
pub open spec fn score_of(t: Seq<Seq<Stats>>, p: StatPriorities) -> int {
    if (forall|k: int| 0 <= k < t.len() ==> t[k].len() > 0) && exists|c: Seq<usize>| is_best_combo(t, c, p) {
        combo_score(t, choose|c: Seq<usize>| is_best_combo(t, c, p), p).0
    } else {
        0
    }
}

/// The baseline score of the current pool.
pub open spec fn baseline_spec(x: AdvisorInputs) -> int {
    score_of(stats_table(x.ppc), x.prios)
}

/// The stats of a part at a level, boosted when a boost exists for it.
pub open spec fn upgraded_stats(x: AdvisorInputs, name: Seq<char>, ls: OwnedLevelStats) -> Stats {
    match first_boost(x.boosts, name) {
        Some(b) => ls.to_stats_spec().boosted_spec(x.boosts[b].percentage as int),
        None => ls.to_stats_spec(),
    }
}

/// The pool's stats after the part with inventory id `id` in category
/// `ci` takes the stats `up` (it is added when the category lacks it) and
/// the category is pruned again.
pub open spec fn modified_table(ppc: Seq<Vec<ResolvedPart>>, ci: int, id: i32, up: Stats) -> Seq<
    Seq<Stats>,
> {
    let t = stats_table(ppc);
    let row = match first_with_id(ppc[ci]@, id) {
        Some(i) => t[ci].update(i, up),
        None => t[ci].push(up),
    };
    t.update(ci, top_by(row, stats_total_key(), POOL_CAP as nat))
}

/// Cards for the level steps `from..to`.
pub open spec fn card_sum(from: int, to: int) -> int
    decreases to - from,
{
    if from >= to {
        0
    } else {
        card_cost(from) + card_sum(from + 1, to)
    }
}

/// Coins for the level steps `from..to`.
pub open spec fn coin_sum(is2026: bool, series: int, from: int, to: int) -> int
    decreases to - from,
{
    if from >= to {
        0
    } else {
        coin_cost(is2026, series, from) + coin_sum(is2026, series, from + 1, to)
    }
}

/// The coins for a run of level steps add up step by step, and a single
/// step from level `from` costs the entry of the season's own table: the
/// 2026 table when the season is "2026", the 2025 table for any other. The
/// advisor reads the 2026 table exactly when its season is "2026".
pub proof fn law_coin_sum_by_table(is2026: bool, series: int, from: int, mid: int, to: int, season: Seq<char>)
    requires
        from <= mid <= to,
    ensures
        coin_sum(is2026, series, from, from) == 0,
        coin_sum(is2026, series, from, to) == coin_sum(is2026, series, from, mid) + coin_sum(
            is2026,
            series,
            mid,
            to,
        ),
        coin_sum(is2026, series, from, from + 1) == if is2026 {
            coin_entry_2026(series, from - 1)
        } else {
            coin_entry_2025(series, from - 1)
        },
        forall|ppc: Seq<Vec<ResolvedPart>>, cats: Seq<PartCategory>, catalog: Seq<OwnedPartDefinition>, boosts: Seq<Boost>, prios: StatPriorities|
            #[trigger] inputs(ppc, cats, catalog, boosts, prios, season).is2026 == (season == "2026"@),
    decreases mid - from,
{
    assert(coin_sum(is2026, series, from + 1, from + 1) == 0);
    if from < mid {
        law_coin_sum_by_table(is2026, series, from + 1, mid, to, season);
    }
}

/// The level an upgrade walk reaches is the highest one, up to the maximum,
/// whose card steps the owned cards pay for; the cards it reports missing
/// are what the next step would still need; at or above the maximum
/// nothing moves.
pub proof fn law_walk_reaches_highest_affordable(lvl: int, max: int, cards: int, is2026: bool, series: int)
    ensures
        lvl >= max ==> upgrade_walk(lvl, max, cards, is2026, series) == (lvl, 0int, 0int),
        lvl < max ==> lvl <= upgrade_walk(lvl, max, cards, is2026, series).0 <= max,
        upgrade_walk(lvl, max, cards, is2026, series).0 > lvl ==> card_sum(
            lvl,
            upgrade_walk(lvl, max, cards, is2026, series).0,
        ) <= cards,
        upgrade_walk(lvl, max, cards, is2026, series).0 < max ==> cards < card_sum(
            lvl,
            upgrade_walk(lvl, max, cards, is2026, series).0 + 1,
        ) && upgrade_walk(lvl, max, cards, is2026, series).2 == card_sum(
            lvl,
            upgrade_walk(lvl, max, cards, is2026, series).0 + 1,
        ) - cards,
        lvl < max && upgrade_walk(lvl, max, cards, is2026, series).0 == max ==> upgrade_walk(
            lvl,
            max,
            cards,
            is2026,
            series,
        ).2 == 0,
    decreases max - lvl,
{
    if lvl >= max {
    } else if cards >= card_cost(lvl) {
        let c2 = cards - card_cost(lvl);
        law_walk_reaches_highest_affordable(lvl + 1, max, c2, is2026, series);
        let r = upgrade_walk(lvl + 1, max, c2, is2026, series).0;
        assert(card_sum(lvl, r) == card_cost(lvl) + card_sum(lvl + 1, r));
        assert(card_sum(lvl, r + 1) == card_cost(lvl) + card_sum(lvl + 1, r + 1));
        assert(card_sum(lvl + 1, lvl + 1) == 0);
    } else {
        assert(card_sum(lvl, lvl + 1) == card_cost(lvl) + card_sum(lvl + 1, lvl + 1));
    }
}

/// The coins the upgrade calculator counts for a walk are the coins of the
/// level steps it climbs, each priced from the season's table: the same
/// sum the advisor charges for upgrading to the level the walk reaches.
pub proof fn law_walk_coins_match_steps(lvl: int, max: int, cards: int, is2026: bool, series: int)
    ensures
        lvl <= upgrade_walk(lvl, max, cards, is2026, series).0 || lvl >= max,
        upgrade_walk(lvl, max, cards, is2026, series).1 == coin_sum(
            is2026,
            series,
            lvl,
            upgrade_walk(lvl, max, cards, is2026, series).0,
        ),
    decreases max - lvl,
{
    if lvl >= max {
    } else if cards >= card_cost(lvl) {
        law_walk_coins_match_steps(lvl + 1, max, cards - card_cost(lvl), is2026, series);
    }
}

/// The recommendation for upgrading `item` (catalog entry `di`, category
/// index `ci`) to `target`, when the catalog has both levels.
pub open spec fn rec_spec(x: AdvisorInputs, item: InventoryItem, di: int, ci: int, target: int, at_reach: bool) -> Option<
    RecView,
> {
    let def = x.catalog[di];
    match (first_level_index(def.levels@, target as i32), first_level_index(def.levels@, item.level)) {
        (Some(ti), Some(cu)) => {
            let ts = def.levels@[ti];
            let cs = def.levels@[cu];
            let up = upgraded_stats(x, item.part_name@, ts);
            let sim = score_of(modified_table(x.ppc, ci, item.id, up), x.prios);
            let cards = card_sum(item.level as int, target);
            let coins = coin_sum(x.is2026, def.series as int, item.level as int, target);
            Some(
                RecView {
                    inventory_id: item.id,
                    part_name: item.part_name@,
                    category: def.category,
                    rarity_css_class: crate::models::part::part_rarity_css(def.rarity@),
                    current_level: item.level,
                    target_level: target as i32,
                    at_reachable_level: at_reach,
                    cards_owned: item.cards_owned,
                    cards_needed: cards,
                    coins_needed: coins,
                    can_afford: item.cards_owned >= cards,
                    coins_display: format_coins_spec(coins as nat),
                    score_delta: sim - baseline_spec(x),
                    stat_delta: StatDelta {
                        speed: (ts.speed - cs.speed) as i32,
                        cornering: (ts.cornering - cs.cornering) as i32,
                        power_unit: (ts.power_unit - cs.power_unit) as i32,
                        qualifying: (ts.qualifying - cs.qualifying) as i32,
                        pit_stop_hundredths: (ts.pit_stop_hundredths - cs.pit_stop_hundredths) as i32,
                    },
                },
            )
        },
        _ => None,
    }
}

/// A recommendation charges the cards and the coins of the level steps from
/// the part's level to its target, coins priced from the advisor's season
/// table; so a recommendation to the level an upgrade walk reaches costs
/// exactly the coins the upgrade calculator reports for that walk.
pub proof fn law_rec_costs_match_calculator(
    x: AdvisorInputs,
    item: InventoryItem,
    di: int,
    ci: int,
    target: int,
    at_reach: bool,
    max: int,
    cards: int,
)
    requires
        rec_spec(x, item, di, ci, target, at_reach) is Some,
    ensures
        rec_spec(x, item, di, ci, target, at_reach).unwrap().coins_needed == coin_sum(
            x.is2026,
            x.catalog[di].series as int,
            item.level as int,
            target,
        ),
        rec_spec(x, item, di, ci, target, at_reach).unwrap().cards_needed == card_sum(item.level as int, target),
        target == upgrade_walk(item.level as int, max, cards, x.is2026, x.catalog[di].series as int).0
            ==> rec_spec(x, item, di, ci, target, at_reach).unwrap().coins_needed == upgrade_walk(
            item.level as int,
            max,
            cards,
            x.is2026,
            x.catalog[di].series as int,
        ).1,
{
    law_walk_coins_match_steps(item.level as int, max, cards, x.is2026, x.catalog[di].series as int);
}

pub open spec fn opt_seq(o: Option<RecView>) -> Seq<RecView> {
    match o {
        Some(r) => seq![r],
        None => Seq::empty(),
    }
}

/// The levels simulated for an item: the reachable level when the cards
/// allow an upgrade, and current + 1 (once when the two coincide).
pub open spec fn targets_spec(level: int, reach: int) -> Seq<int> {
    if reach > level && reach != level + 1 {
        seq![reach, level + 1]
    } else if reach > level {
        seq![reach]
    } else {
        seq![level + 1]
    }
}

/// The recommendations for one inventory item.
pub open spec fn item_recs(x: AdvisorInputs, item: InventoryItem) -> Seq<RecView> {
    match first_def(x.catalog, item.part_name@) {
        None => Seq::empty(),
        Some(di) => {
            let def = x.catalog[di];
            let max = max_level_spec(def.rarity@);
            if item.level >= max {
                Seq::empty()
            } else {
                match first_cat(x.categories, def.category) {
                    None => Seq::empty(),
                    Some(ci) => {
                        let w = upgrade_walk(
                            item.level as int,
                            max,
                            item.cards_owned as int,
                            x.is2026,
                            def.series as int,
                        );
                        let ts = targets_spec(item.level as int, w.0);
                        opt_seq(rec_spec(x, item, di, ci, ts[0], w.0 > item.level)) + if ts.len() > 1 {
                            opt_seq(rec_spec(x, item, di, ci, ts[1], false))
                        } else {
                            Seq::empty()
                        }
                    },
                }
            }
        },
    }
}

/// The recommendations for all inventory items, in inventory order.
pub open spec fn all_recs(x: AdvisorInputs, inv: Seq<InventoryItem>) -> Seq<RecView>
    decreases inv.len(),
{
    if inv.len() == 0 {
        Seq::empty()
    } else {
        all_recs(x, inv.drop_last()) + item_recs(x, inv.last())
    }
}

/// Where `r` goes in a list sorted by score gain, largest first: before the
/// first entry that gains strictly less.
pub open spec fn insert_pos(s: Seq<RecView>, r: RecView) -> int {
    match first_where(s.len() as int, |j: int| s[j].score_delta < r.score_delta) {
        Some(j) => j,
        None => s.len() as int,
    }
}

/// Stable sort by score gain, largest first (insertion sort).
pub open spec fn sort_by_gain(s: Seq<RecView>) -> Seq<RecView>
    decreases s.len(),
{
    if s.len() == 0 {
        Seq::empty()
    } else {
        let sorted = sort_by_gain(s.drop_last());
        let p = insert_pos(sorted, s.last());
        sorted.take(p).push(s.last()) + sorted.skip(p)
    }
}

/// The advisor's input bounds, which keep every sum and score in range.
pub open spec fn advisor_inputs_ok(
    ppc: Seq<Vec<ResolvedPart>>,
    categories: Seq<PartCategory>,
    catalog: Seq<OwnedPartDefinition>,
    inventory: Seq<InventoryItem>,
    boosts: Seq<Boost>,
) -> bool {
    &&& ppc.len() == categories.len()
    &&& categories.len() <= 16
    &&& table_within(stats_table(ppc), 12_000_000)
    &&& forall|d: int, l: int|
        0 <= d < catalog.len() && 0 <= l < catalog[d].levels@.len() ==> stats_within(
            #[trigger] catalog[d].levels@[l].to_stats_spec(),
            1_000_000,
        )
    &&& forall|d: int| 0 <= d < catalog.len() ==> #[trigger] catalog[d].series > i32::MIN
    &&& forall|b: int| 0 <= b < boosts.len() ==> -1000 <= #[trigger] boosts[b].percentage <= 1000
    &&& forall|i: int|
        0 <= i < inventory.len() ==> #[trigger] inventory[i].level > i32::MIN
            && inventory[i].cards_owned >= -2_000_000_000
    &&& grown_count(ppc) <= usize::MAX
}

/// Number of combinations when every category grows by one part.
pub open spec fn grown_count(ppc: Seq<Vec<ResolvedPart>>) -> int
    decreases ppc.len(),
{
    if ppc.len() == 0 {
        1
    } else {
        grown_count(ppc.drop_last()) * (ppc.last()@.len() + 1)
    }
}

/// What simulating `item` at level `target` computes stays within `i32`:
/// the boosted target stats, the per-stat change, every combination of the
/// modified pool and the change of score (nothing is computed when the
/// catalog lacks either level).
#[verifier::opaque]
pub open spec fn sim_fits(x: AdvisorInputs, item: InventoryItem, di: int, ci: int, target: int) -> bool {
    let def = x.catalog[di];
    match (first_level_index(def.levels@, target as i32), first_level_index(def.levels@, item.level)) {
        (Some(ti), Some(cu)) => {
            let ts = def.levels@[ti];
            let cs = def.levels@[cu];
            let mt = modified_table(x.ppc, ci, item.id, upgraded_stats(x, item.part_name@, ts));
            &&& match first_boost(x.boosts, item.part_name@) {
                Some(b) => ts.to_stats_spec().can_boost(x.boosts[b].percentage as int),
                None => true,
            }
            &&& fits_i32(ts.speed - cs.speed)
            &&& fits_i32(ts.cornering - cs.cornering)
            &&& fits_i32(ts.power_unit - cs.power_unit)
            &&& fits_i32(ts.qualifying - cs.qualifying)
            &&& fits_i32(ts.pit_stop_hundredths - cs.pit_stop_hundredths)
            &&& all_combos_fit(mt, x.prios)
            &&& fits_i32(score_of(mt, x.prios) - baseline_spec(x))
        },
        _ => true,
    }
}

/// What the advisor computes for `item` stays within `i32`: its upgrade
/// walk, and the simulation at each target level.
#[verifier::opaque]
pub open spec fn item_fits(x: AdvisorInputs, item: InventoryItem) -> bool {
    match first_def(x.catalog, item.part_name@) {
        None => true,
        Some(di) => {
            let def = x.catalog[di];
            let max = max_level_spec(def.rarity@);
            if item.level >= max {
                true
            } else {
                match first_cat(x.categories, def.category) {
                    None => true,
                    Some(ci) => {
                        let w = upgrade_walk(item.level as int, max, item.cards_owned as int, x.is2026, def.series as int);
                        let ts = targets_spec(item.level as int, w.0);
                        &&& item.level > i32::MIN
                        &&& def.series > i32::MIN
                        &&& w.2 <= i32::MAX
                        &&& sim_fits(x, item, di, ci, ts[0])
                        &&& ts.len() > 1 ==> sim_fits(x, item, di, ci, ts[1])
                    },
                }
            }
        },
    }
}

proof fn lemma_item_fits_parts(x: AdvisorInputs, item: InventoryItem, di: int, ci: int)
    requires
        item_fits(x, item),
        first_def(x.catalog, item.part_name@) == Some(di),
        item.level < max_level_spec(x.catalog[di].rarity@),
        first_cat(x.categories, x.catalog[di].category) == Some(ci),
    ensures
        ({
            let def = x.catalog[di];
            let w = upgrade_walk(
                item.level as int,
                max_level_spec(def.rarity@),
                item.cards_owned as int,
                x.is2026,
                def.series as int,
            );
            let ts = targets_spec(item.level as int, w.0);
            &&& item.level > i32::MIN
            &&& def.series > i32::MIN
            &&& w.2 <= i32::MAX
            &&& sim_fits(x, item, di, ci, ts[0])
            &&& ts.len() > 1 ==> sim_fits(x, item, di, ci, ts[1])
        }),
{
    reveal(item_fits);
}

/// Everything the advisor computes stays within `i32`, and the combinations
/// of the pools grown by one part are countable in `usize`.
pub open spec fn advisor_fits(x: AdvisorInputs, inventory: Seq<InventoryItem>) -> bool {
    &&& x.ppc.len() == x.categories.len()
    &&& all_combos_fit(stats_table(x.ppc), x.prios)
    &&& grown_count(x.ppc) <= usize::MAX
    &&& forall|i: int| 0 <= i < inventory.len() ==> item_fits(x, #[trigger] inventory[i])
}

// ── Bounds ────────────────────────────────────────────────────────────────────

proof fn lemma_count_within(m: Seq<Vec<ResolvedPart>>, ppc: Seq<Vec<ResolvedPart>>)
    requires
        m.len() == ppc.len(),
        forall|k: int| 0 <= k < m.len() ==> #[trigger] m[k]@.len() <= ppc[k]@.len() + 1,
    ensures
        combo_count(m) <= grown_count(ppc),
        combo_count(m) >= 0,
    decreases m.len(),
{
    if m.len() > 0 {
        let m2 = m.drop_last();
        let p2 = ppc.drop_last();
        assert forall|k: int| 0 <= k < m2.len() implies #[trigger] m2[k]@.len() <= p2[k]@.len() + 1 by {
            assert(m[k]@.len() <= ppc[k]@.len() + 1);
        }
        lemma_count_within(m2, p2);
        let a = combo_count(m2);
        let b = m.last()@.len() as int;
        let aa = grown_count(p2);
        let bb = ppc.last()@.len() + 1;
        assert(m[m.len() - 1]@.len() <= ppc[m.len() - 1]@.len() + 1);
        assert(a * b <= aa * bb) by (nonlinear_arith)
            requires
                0 <= a <= aa,
                0 <= b <= bb,
        ;
        assert(a * b >= 0) by (nonlinear_arith)
            requires
                0 <= a,
                0 <= b,
        ;
    }
}

/// Cards needed to climb from level `l` to 1 + the highest priced level, summed.
pub open spec fn card_cum(l: int) -> int {
    if l <= 1 {
        0
    } else if l == 2 {
        4
    } else if l == 3 {
        14
    } else if l == 4 {
        34
    } else if l == 5 {
        84
    } else if l == 6 {
        184
    } else if l == 7 {
        384
    } else if l == 8 {
        784
    } else if l == 9 {
        1784
    } else if l == 10 {
        3784
    } else {
        7784
    }
}

proof fn lemma_card_sum(from: int, to: int)
    requires
        from <= to,
    ensures
        card_sum(from, to) == card_cum(to) - card_cum(from),
    decreases to - from,
{
    if from < to {
        lemma_card_sum(from + 1, to);
    }
}

// ── Costs ─────────────────────────────────────────────────────────────────────

/// Coins needed from `from_level` to `to_level` for `series` in `season`.
pub fn compute_coin_cost(from_level: i32, to_level: i32, series: i32, season: &str) -> (r: u64)
    requires
        series > i32::MIN,
    ensures
        r == coin_sum(is_2026(season@), series as int, from_level as int, to_level as int),
{
    let is2026 = str_eq(season, "2026");
    let mut total: u64 = 0;
    let mut lvl: i32 = from_level;
    while lvl < to_level
        invariant
            from_level <= lvl <= to_level || lvl == from_level,
            total as int + coin_sum(is2026, series as int, lvl as int, to_level as int) == coin_sum(
                is2026,
                series as int,
                from_level as int,
                to_level as int,
            ),
            total <= 1_000_000_000 * (crate::data::priced_steps_below(lvl as int)
                - crate::data::priced_steps_below(from_level as int)),
            crate::data::priced_steps_below(from_level as int) <= crate::data::priced_steps_below(
                lvl as int,
            ),
        decreases to_level - lvl,
    {
        let c = crate::data::coin_cost_at(is2026, series, lvl);
        proof {
            crate::data::lemma_coin_step(is2026, series as int, lvl as int);
        }
        total = total + c;
        lvl = lvl + 1;
    }
    total
}

/// What upgrading `item` to `target_level` costs.
fn compute_cost(
    item: &InventoryItem,
    part_def: &OwnedPartDefinition,
    target_level: i32,
    season: &str,
) -> (r: UpgradeCost)
    requires
        item.level < target_level,
        part_def.series > i32::MIN,
    ensures
        r.cards_owned == item.cards_owned,
        r.cards_needed == card_sum(item.level as int, target_level as int),
        r.coins_needed == coin_sum(
            is_2026(season@),
            part_def.series as int,
            item.level as int,
            target_level as int,
        ),
        r.can_afford == (item.cards_owned >= card_sum(item.level as int, target_level as int)),
        r.coins_display@ == format_coins_spec(r.coins_needed as nat),
{
    proof {
        lemma_card_sum(item.level as int, target_level as int);
    }
    let mut cards_needed: i32 = 0;
    let mut lvl: i32 = item.level;
    while lvl < target_level
        invariant
            item.level <= lvl <= target_level,
            cards_needed == card_cum(lvl as int) - card_cum(item.level as int),
            card_sum(item.level as int, target_level as int) == card_cum(target_level as int)
                - card_cum(item.level as int),
        decreases target_level - lvl,
    {
        cards_needed = cards_needed + card_cost_at(lvl);
        lvl = lvl + 1;
    }
    let can_afford = item.cards_owned >= cards_needed;
    let coins_to_target = compute_coin_cost(item.level, target_level, part_def.series, season);
    UpgradeCost {
        cards_owned: item.cards_owned,
        cards_needed,
        coins_needed: coins_to_target,
        can_afford,
        coins_display: format_coins(coins_to_target),
    }
}

// ── Lookups ───────────────────────────────────────────────────────────────────

fn find_cat(categories: &[PartCategory], cat: PartCategory) -> (r: Option<usize>)
    ensures
        match first_cat(categories@, cat) {
            Some(i) => 0 <= i < categories@.len() && r == Some(i as usize),
            None => r is None,
        },
{
    let ghost pred = |i: int| categories@[i].rank() == cat.rank();
    let mut i: usize = 0;
    while i < categories.len()
        invariant
            0 <= i <= categories@.len(),
            pred == (|i: int| categories@[i].rank() == cat.rank()),
            forall|j: int| 0 <= j < i ==> !#[trigger] pred(j),
        decreases categories@.len() - i,
    {
        if categories[i].rank_of() == cat.rank_of() {
            proof {
                lemma_first_where_found(categories@.len() as int, pred, i as int);
            }
            return Some(i);
        }
        i = i + 1;
    }
    None
}

fn find_by_id(parts: &Vec<ResolvedPart>, id: i32) -> (r: Option<usize>)
    ensures
        match first_with_id(parts@, id) {
            Some(i) => 0 <= i < parts@.len() && r == Some(i as usize),
            None => r is None,
        },
{
    let ghost pred = |i: int| parts@[i].item.id == id;
    let mut i: usize = 0;
    while i < parts.len()
        invariant
            0 <= i <= parts@.len(),
            pred == (|i: int| parts@[i].item.id == id),
            forall|j: int| 0 <= j < i ==> !#[trigger] pred(j),
        decreases parts@.len() - i,
    {
        if parts[i].item.id == id {
            proof {
                lemma_first_where_found(parts@.len() as int, pred, i as int);
            }
            return Some(i);
        }
        i = i + 1;
    }
    None
}

// ── Simulation ────────────────────────────────────────────────────────────────

/// The inputs of the advisor as mathematical values.
pub open spec fn inputs(
    ppc: Seq<Vec<ResolvedPart>>,
    categories: Seq<PartCategory>,
    catalog: Seq<OwnedPartDefinition>,
    boosts: Seq<Boost>,
    prios: StatPriorities,
    season: Seq<char>,
) -> AdvisorInputs {
    AdvisorInputs { ppc, categories, catalog, boosts, prios, is2026: is_2026(season) }
}

/// Runs the optimizer on a pool (parts only) and returns its primary score.
fn pool_score(pool: &[Vec<ResolvedPart>], categories: &[PartCategory], prios: &StatPriorities) -> (r: i32)
    requires
        pool@.len() == categories@.len(),
        all_combos_fit(stats_table(pool@), *prios),
        combo_count(pool@) <= usize::MAX,
    ensures
        r == score_of(stats_table(pool@), *prios),
{
    let ghost t = stats_table(pool@);
    let no_drivers: Vec<DriverPair> = vec![(None, None)];
    let none_resolved: Vec<ResolvedDriver> = Vec::new();
    let dp = DriverPriorities::default();
    assert(pair_ok(driver_table(none_resolved@), no_drivers@[0], dp));
    let result = run_brute_force(pool, categories, no_drivers.as_slice(), none_resolved.as_slice(), prios, &dp);
    match result {
        Some(res) => {
            let ghost (c, j) = choose|c: Seq<usize>, j: int|
                is_best_combo(t, c, *prios) && crate::optimizer_core::is_best_pair(
                    driver_table(none_resolved@),
                    no_drivers@,
                    j,
                    dp,
                ) && reports(res, pool@, categories@, none_resolved@, no_drivers@, c, j);
            proof {
                assert(forall|k: int| 0 <= k < t.len() ==> t[k].len() > 0) by {
                    assert forall|k: int| 0 <= k < t.len() implies t[k].len() > 0 by {
                        assert(pool@[k]@.len() > 0);
                    }
                }
                let c2 = choose|c: Seq<usize>| is_best_combo(t, c, *prios);
                law_best_combo_unique(t, c, c2, *prios);
                assert(valid_combo(t, c));
            }
            let sc = score_part_combo(&res.total_parts, prios);
            sc.0
        },
        None => {
            proof {
                let k = choose|k: int| 0 <= k < pool@.len() && !(#[trigger] pool@[k]@.len() > 0);
                assert(t[k].len() == 0);
            }
            0
        },
    }
}

/// A copy of the pool with category `ci` replaced by `row`.
fn pool_with_row(ppc: &[Vec<ResolvedPart>], ci: usize, row: Vec<ResolvedPart>) -> (r: Vec<Vec<ResolvedPart>>)
    requires
        ci < ppc@.len(),
    ensures
        r@.len() == ppc@.len(),
        forall|k: int| 0 <= k < ppc@.len() && k != ci ==> #[trigger] r@[k]@ == ppc@[k]@,
        r@[ci as int]@ == row@,
{
    let n = ppc.len();
    let mut out: Vec<Vec<ResolvedPart>> = Vec::new();
    let mut k: usize = 0;
    while k < n
        invariant
            n == ppc@.len(),
            ci < n,
            0 <= k <= n,
            out@.len() == k,
            forall|m: int| 0 <= m < k && m != ci ==> #[trigger] out@[m]@ == ppc@[m]@,
            k > ci ==> out@[ci as int]@ == row@,
        decreases n - k,
    {
        if k == ci {
            let copy = row.clone();
            assert(copy@ =~= row@);
            out.push(copy);
        } else {
            let cat = ppc[k].clone();
            assert(cat@ =~= ppc@[k as int]@);
            out.push(cat);
        }
        k = k + 1;
    }
    out
}

/// The stats of the part at its target level, boosted when it has a boost.
fn upgraded_part_stats(ls: &OwnedLevelStats, boosts: &[Boost], name: &String) -> (r: Stats)
    requires
        match first_boost(boosts@, name@) {
            Some(b) => ls.to_stats_spec().can_boost(boosts@[b].percentage as int),
            None => true,
        },
    ensures
        r == match first_boost(boosts@, name@) {
            Some(b) => ls.to_stats_spec().boosted_spec(boosts@[b].percentage as int),
            None => ls.to_stats_spec(),
        },
{
    let s = ls.to_stats();
    match find_boost(boosts, name) {
        Some(b) => s.boosted(boosts[b].percentage),
        None => s,
    }
}

/// The stats of a category after the part with inventory id `id` takes the
/// stats `up`, or after a part with those stats is added when it is absent.
pub open spec fn upgraded_row_stats(row: Seq<ResolvedPart>, id: i32, up: Stats) -> Seq<Stats> {
    let s = row.map_values(|r: ResolvedPart| r.stats);
    match first_with_id(row, id) {
        Some(i) => s.update(i, up),
        None => s.push(up),
    }
}

/// The category `base` with the part of `item` upgraded to `target_level`.
fn upgraded_row(
    base: &Vec<ResolvedPart>,
    item: &InventoryItem,
    target_level: i32,
    up: Stats,
    css: &'static str,
) -> (r: Vec<ResolvedPart>)
    ensures
        r@.map_values(|p: ResolvedPart| p.stats) == upgraded_row_stats(base@, item.id, up),
        r@.len() <= base@.len() + 1,
{
    let mut row: Vec<ResolvedPart> = base.clone();
    assert(row@ =~= base@);
    match find_by_id(&row, item.id) {
        Some(j) => {
            let old_part = row[j].clone();
            let replaced = ResolvedPart {
                item: InventoryItem {
                    id: old_part.item.id,
                    part_name: old_part.item.part_name,
                    level: target_level,
                    cards_owned: old_part.item.cards_owned,
                },
                stats: up,
                rarity_css_class: old_part.rarity_css_class,
            };
            row.set(j, replaced);
            assert(row@.map_values(|p: ResolvedPart| p.stats) =~= upgraded_row_stats(base@, item.id, up));
        },
        None => {
            let ghost before = row@;
            row.push(
                ResolvedPart {
                    item: InventoryItem {
                        id: item.id,
                        part_name: item.part_name.clone(),
                        level: target_level,
                        cards_owned: item.cards_owned,
                    },
                    stats: up,
                    rarity_css_class: css,
                },
            );
            assert(first_with_id(base@, item.id) is None);
            assert(row@ == before.push(row@.last()));
            assert(row@.map_values(|p: ResolvedPart| p.stats) =~= base@.map_values(|p: ResolvedPart| p.stats).push(up));
        },
    }
    row
}

proof fn lemma_modified_pool(
    ppc: Seq<Vec<ResolvedPart>>,
    m: Seq<Vec<ResolvedPart>>,
    r0: Seq<ResolvedPart>,
    ci: int,
    id: i32,
    up: Stats,
)
    requires
        0 <= ci < ppc.len(),
        m.len() == ppc.len(),
        forall|k: int| 0 <= k < ppc.len() && k != ci ==> #[trigger] m[k]@ == ppc[k]@,
        r0.map_values(|p: ResolvedPart| p.stats) == upgraded_row_stats(ppc[ci]@, id, up),
        r0.len() <= ppc[ci]@.len() + 1,
        m[ci]@ == pruned(r0),
    ensures
        stats_table(m) == modified_table(ppc, ci, id, up),
        combo_count(m) <= grown_count(ppc),
{
    let t = stats_table(ppc);
    let mt = modified_table(ppc, ci, id, up);
    let sf = |p: ResolvedPart| p.stats;
    let row = r0.map_values(sf);
    lemma_first_where_range(ppc[ci]@.len() as int, |i: int| ppc[ci]@[i].item.id == id);
    assert forall|x: ResolvedPart| #[trigger] part_total_key()(x) == stats_total_key()(sf(x)) by {}
    lemma_top_by_map(r0, sf, stats_total_key(), part_total_key(), POOL_CAP as nat);
    law_top_by_bounded(r0, part_total_key(), POOL_CAP as nat);
    assert(mt[ci] == top_by(row, stats_total_key(), POOL_CAP as nat));
    assert(stats_table(m)[ci] =~= pruned(r0).map_values(sf));
    assert(stats_table(m) =~= mt) by {
        assert forall|k: int| 0 <= k < mt.len() implies #[trigger] stats_table(m)[k] == mt[k] by {
            if k != ci {
                assert(m[k]@ == ppc[k]@);
            }
        }
    }
    assert forall|k: int| 0 <= k < m.len() implies #[trigger] m[k]@.len() <= ppc[k]@.len() + 1 by {
        if k != ci {
            assert(m[k]@ == ppc[k]@);
        }
    }
    lemma_count_within(m, ppc);
}

/// The per-stat change between two levels of a part.
fn stat_delta_between(to: &OwnedLevelStats, from: &OwnedLevelStats) -> (r: StatDelta)
    requires
        fits_i32(to.speed - from.speed),
        fits_i32(to.cornering - from.cornering),
        fits_i32(to.power_unit - from.power_unit),
        fits_i32(to.qualifying - from.qualifying),
        fits_i32(to.pit_stop_hundredths - from.pit_stop_hundredths),
    ensures
        r == (StatDelta {
            speed: (to.speed - from.speed) as i32,
            cornering: (to.cornering - from.cornering) as i32,
            power_unit: (to.power_unit - from.power_unit) as i32,
            qualifying: (to.qualifying - from.qualifying) as i32,
            pit_stop_hundredths: (to.pit_stop_hundredths - from.pit_stop_hundredths) as i32,
        }),
{
    StatDelta {
        speed: to.speed - from.speed,
        cornering: to.cornering - from.cornering,
        power_unit: to.power_unit - from.power_unit,
        qualifying: to.qualifying - from.qualifying,
        pit_stop_hundredths: to.pit_stop_hundredths - from.pit_stop_hundredths,
    }
}

/// Simulates upgrading `item` to `target` and builds the recommendation.
#[verifier::rlimit(40)]
fn simulate_target(
    parts_per_cat: &[Vec<ResolvedPart>],
    categories: &[PartCategory],
    catalog: &[OwnedPartDefinition],
    boosts: &[Boost],
    priorities: &StatPriorities,
    season: &str,
    item: &InventoryItem,
    di: usize,
    ci: usize,
    target_level: i32,
    at_reach: bool,
    baseline_score: i32,
) -> (r: Option<UpgradeRecommendation>)
    requires
        parts_per_cat@.len() == categories@.len(),
        grown_count(parts_per_cat@) <= usize::MAX,
        di < catalog@.len(),
        ci < categories@.len(),
        item.level < target_level,
        catalog@[di as int].series > i32::MIN,
        sim_fits(
            inputs(parts_per_cat@, categories@, catalog@, boosts@, *priorities, season@),
            *item,
            di as int,
            ci as int,
            target_level as int,
        ),
        baseline_score == baseline_spec(inputs(parts_per_cat@, categories@, catalog@, boosts@, *priorities, season@)),
    ensures
        match rec_spec(
            inputs(parts_per_cat@, categories@, catalog@, boosts@, *priorities, season@),
            *item,
            di as int,
            ci as int,
            target_level as int,
            at_reach,
        ) {
            Some(v) => r matches Some(x) && x@ == v,
            None => r is None,
        },
{
    let ghost x = inputs(parts_per_cat@, categories@, catalog@, boosts@, *priorities, season@);
    let part_def = &catalog[di];
    let target_stats = match part_def.stats_for_level(target_level) {
        Some(ls) => ls,
        None => return None,
    };
    let current_stats = match part_def.stats_for_level(item.level) {
        Some(ls) => ls,
        None => return None,
    };
    let ghost ti = first_level_index(part_def.levels@, target_level)->0;
    let ghost cu = first_level_index(part_def.levels@, item.level)->0;
    proof {
        reveal(sim_fits);
    }
    let upgraded_s = upgraded_part_stats(target_stats, boosts, &item.part_name);
    assert(upgraded_s == upgraded_stats(x, item.part_name@, *target_stats));
    let stat_delta = stat_delta_between(target_stats, current_stats);
    let row0 = upgraded_row(&parts_per_cat[ci], item, target_level, upgraded_s, part_def.rarity_css_class());
    let ghost r0 = row0@;
    let row = prune_category(row0);
    let modified = pool_with_row(parts_per_cat, ci, row);
    proof {
        lemma_modified_pool(parts_per_cat@, modified@, r0, ci as int, item.id, upgraded_s);
    }
    let sim_score = pool_score(modified.as_slice(), categories, priorities);
    let score_delta = sim_score - baseline_score;
    let cost = compute_cost(item, part_def, target_level, season);
    Some(
        UpgradeRecommendation {
            candidate: UpgradeCandidate {
                inventory_id: item.id,
                part_name: item.part_name.clone(),
                category: part_def.category,
                rarity_css_class: part_def.rarity_css_class(),
                current_level: item.level,
                target_level,
                at_reachable_level: at_reach,
            },
            cost,
            score_delta,
            stat_delta,
        },
    )
}


proof fn lemma_walk_bounds(lvl: int, max: int, cards: int, is2026: bool, series: int)
    requires
        lvl <= max,
        cards >= -2_000_000_000,
    ensures
        lvl <= upgrade_walk(lvl, max, cards, is2026, series).0 <= max,
        upgrade_walk(lvl, max, cards, is2026, series).2 <= 2_000_004_000,
    decreases max - lvl,
{
    law_cards_only_agrees_with_full(lvl, max, cards, is2026, series);
    law_upgrade_bounds(lvl, max, cards);
    if lvl < max && cards >= card_cost(lvl) {
        lemma_walk_bounds(lvl + 1, max, cards - card_cost(lvl), is2026, series);
    }
}

/// The recommendations for one inventory item: none when its part is not in
/// the catalog, is already at its maximum level, or its category is not in
/// the pool; otherwise one per simulated target level.
#[verifier::rlimit(100)]
#[verifier::spinoff_prover]
fn item_recommendations(
    parts_per_cat: &[Vec<ResolvedPart>],
    categories: &[PartCategory],
    catalog: &[OwnedPartDefinition],
    boosts: &[Boost],
    priorities: &StatPriorities,
    season: &str,
    item: &InventoryItem,
    baseline_score: i32,
) -> (r: Vec<UpgradeRecommendation>)
    requires
        parts_per_cat@.len() == categories@.len(),
        grown_count(parts_per_cat@) <= usize::MAX,
        item_fits(inputs(parts_per_cat@, categories@, catalog@, boosts@, *priorities, season@), *item),
        baseline_score == baseline_spec(inputs(parts_per_cat@, categories@, catalog@, boosts@, *priorities, season@)),
    ensures
        r@.map_values(|v: UpgradeRecommendation| v@) == item_recs(
            inputs(parts_per_cat@, categories@, catalog@, boosts@, *priorities, season@),
            *item,
        ),
{
    let ghost x = inputs(parts_per_cat@, categories@, catalog@, boosts@, *priorities, season@);
    let mut out: Vec<UpgradeRecommendation> = Vec::new();
    let di = match find_def(catalog, &item.part_name) {
        Some(d) => d,
        None => {
            assert(out@.map_values(|v: UpgradeRecommendation| v@) =~= item_recs(x, *item));
            return out;
        },
    };
    let part_def = &catalog[di];
    let max_lvl = max_level_for_rarity(part_def.rarity.as_str());
    if item.level >= max_lvl {
        assert(out@.map_values(|v: UpgradeRecommendation| v@) =~= item_recs(x, *item));
        return out;
    }
    let found = find_cat(categories, part_def.category);
    let ci = match found {
        Some(c) => c,
        None => {
            assert(out@.map_values(|v: UpgradeRecommendation| v@) =~= item_recs(x, *item));
            return out;
        },
    };
    assert(found == Some(ci));
    assert(x.catalog == catalog@ && x.categories == categories@);
    assert(first_def(x.catalog, item.part_name@) == Some(di as int));
    assert(item.level < max_level_spec(x.catalog[di as int].rarity@));
    assert(part_def.category == x.catalog[di as int].category);
    let n_cats = categories.len();
    assert(ci < n_cats);
    assert(first_cat(categories@, part_def.category) == Some(ci as int));
    proof {
        lemma_item_fits_parts(x, *item, di as int, ci as int);
    }
    let ghost w = upgrade_walk(
        item.level as int,
        max_lvl as int,
        item.cards_owned as int,
        is_2026(season@),
        part_def.series as int,
    );
    let ghost tw = targets_spec(item.level as int, w.0);
    assert(item_recs(x, *item) == opt_seq(rec_spec(x, *item, di as int, ci as int, tw[0], w.0 > item.level)) + if tw.len()
        > 1 {
        opt_seq(rec_spec(x, *item, di as int, ci as int, tw[1], false))
    } else {
        Seq::empty()
    });
    simulate_item(parts_per_cat, categories, catalog, boosts, priorities, season, item, baseline_score, di, ci)
}

/// The simulations of an item whose catalog entry (`di`), maximum level and
/// category (`ci`) are known.
#[verifier::rlimit(100)]
#[verifier::spinoff_prover]
fn simulate_item(
    parts_per_cat: &[Vec<ResolvedPart>],
    categories: &[PartCategory],
    catalog: &[OwnedPartDefinition],
    boosts: &[Boost],
    priorities: &StatPriorities,
    season: &str,
    item: &InventoryItem,
    baseline_score: i32,
    di: usize,
    ci: usize,
) -> (r: Vec<UpgradeRecommendation>)
    requires
        parts_per_cat@.len() == categories@.len(),
        grown_count(parts_per_cat@) <= usize::MAX,
        di < catalog@.len(),
        ci < categories@.len(),
        item.level < max_level_spec(catalog@[di as int].rarity@),
        ({
            let x = inputs(parts_per_cat@, categories@, catalog@, boosts@, *priorities, season@);
            let def = catalog@[di as int];
            let w = upgrade_walk(
                item.level as int,
                max_level_spec(def.rarity@),
                item.cards_owned as int,
                x.is2026,
                def.series as int,
            );
            let ts = targets_spec(item.level as int, w.0);
            &&& item.level > i32::MIN
            &&& def.series > i32::MIN
            &&& w.2 <= i32::MAX
            &&& sim_fits(x, *item, di as int, ci as int, ts[0])
            &&& ts.len() > 1 ==> sim_fits(x, *item, di as int, ci as int, ts[1])
        }),
        baseline_score == baseline_spec(inputs(parts_per_cat@, categories@, catalog@, boosts@, *priorities, season@)),
    ensures
        ({
            let x = inputs(parts_per_cat@, categories@, catalog@, boosts@, *priorities, season@);
            let def = catalog@[di as int];
            let w = upgrade_walk(
                item.level as int,
                max_level_spec(def.rarity@),
                item.cards_owned as int,
                x.is2026,
                def.series as int,
            );
            let ts = targets_spec(item.level as int, w.0);
            r@.map_values(|v: UpgradeRecommendation| v@) == opt_seq(rec_spec(x, *item, di as int, ci as int, ts[0], w.0 > item.level)) + if ts.len() > 1 {
                opt_seq(rec_spec(x, *item, di as int, ci as int, ts[1], false))
            } else {
                Seq::empty()
            }
        }),
{
    let ghost x = inputs(parts_per_cat@, categories@, catalog@, boosts@, *priorities, season@);
    let mut out: Vec<UpgradeRecommendation> = Vec::new();
    let part_def = &catalog[di];
    let max_lvl = max_level_for_rarity(part_def.rarity.as_str());
    let ghost w = upgrade_walk(
        item.level as int,
        max_lvl as int,
        item.cards_owned as int,
        is_2026(season@),
        part_def.series as int,
    );
    let ghost tw = targets_spec(item.level as int, w.0);
    proof {
        law_cards_only_agrees_with_full(
            item.level as int,
            max_lvl as int,
            item.cards_owned as int,
            is_2026(season@),
            part_def.series as int,
        );
        law_upgrade_bounds(item.level as int, max_lvl as int, item.cards_owned as int);
    }
    let upgrade_info = calculate_upgrade(
        item.level,
        item.cards_owned,
        part_def.series,
        part_def.rarity.as_str(),
        season,
    );
    let immediate_target = upgrade_info.reachable_level;
    let can_afford = immediate_target > item.level;
    let planning_target = item.level + 1;
    let ghost ts = targets_spec(item.level as int, immediate_target as int);
    assert(ts == tw);
    let first = if can_afford {
        immediate_target
    } else {
        planning_target
    };
    assert(first == ts[0]);
    let r1 = simulate_target(
        parts_per_cat,
        categories,
        catalog,
        boosts,
        priorities,
        season,
        item,
        di,
        ci,
        first,
        can_afford,
        baseline_score,
    );
    match r1 {
        Some(rec) => out.push(rec),
        None => {},
    }
    let ghost after_first = out@.map_values(|v: UpgradeRecommendation| v@);
    assert(after_first =~= opt_seq(rec_spec(x, *item, di as int, ci as int, ts[0], can_afford)));
    if can_afford && immediate_target != planning_target {
        assert(ts.len() == 2 && ts[1] == planning_target);
        let r2 = simulate_target(
            parts_per_cat,
            categories,
            catalog,
            boosts,
            priorities,
            season,
            item,
            di,
            ci,
            planning_target,
            false,
            baseline_score,
        );
        match r2 {
            Some(rec) => out.push(rec),
            None => {},
        }
        assert(out@.map_values(|v: UpgradeRecommendation| v@) =~= after_first + opt_seq(
            rec_spec(x, *item, di as int, ci as int, ts[1], false),
        ));
    } else {
        assert(ts.len() == 1);
        assert(out@.map_values(|v: UpgradeRecommendation| v@) =~= after_first + Seq::<RecView>::empty());
    }
    out
}


/// The views of a list of recommendations.
pub open spec fn views(v: Seq<UpgradeRecommendation>) -> Seq<RecView> {
    v.map_values(|r: UpgradeRecommendation| r@)
}

/// The recommendations whose view satisfies `keep`, in order.
fn filter_recs(recs: &Vec<UpgradeRecommendation>, affordable: bool) -> (r: Vec<UpgradeRecommendation>)
    ensures
        views(r@) == views(recs@).filter(keep_pred(affordable)),
{
    let mut out: Vec<UpgradeRecommendation> = Vec::new();
    let mut i: usize = 0;
    while i < recs.len()
        invariant
            0 <= i <= recs@.len(),
            views(out@) == views(recs@.take(i as int)).filter(keep_pred(affordable)),
        decreases recs@.len() - i,
    {
        let ghost before = views(out@);
        let ghost s = views(recs@.take(i as int + 1));
        assert(s.drop_last() =~= views(recs@.take(i as int)));
        assert(s.last() == recs@[i as int]@);
        proof {
            reveal(Seq::filter);
        }
        let keep = if affordable {
            recs[i].cost.can_afford && recs[i].candidate.at_reachable_level
        } else {
            recs[i].candidate.target_level as i64 == recs[i].candidate.current_level as i64 + 1
        };
        assert(keep == keep_pred(affordable)(recs@[i as int]@));
        if keep {
            let c = recs[i].clone();
            out.push(c);
            assert(views(out@) =~= before.push(recs@[i as int]@));
        } else {
            assert(views(out@) =~= before);
        }
        i = i + 1;
    }
    assert(recs@.take(recs@.len() as int) =~= recs@);
    out
}

/// Whether an owned part's catalog entry (the first of its name) has a
/// series of at most `max_series`.
pub open spec fn within_series(catalog: Seq<OwnedPartDefinition>, max_series: i32) -> spec_fn(InventoryItem) -> bool {
    |item: InventoryItem|
        match first_def(catalog, item.part_name@) {
            Some(d) => catalog[d].series <= max_series,
            None => false,
        }
}

/// The owned parts the advisor simulates: those whose catalog entry has a
/// series of at most `max_series`, in inventory order.
pub fn inventory_within_series(inventory: &[InventoryItem], catalog: &[OwnedPartDefinition], max_series: i32) -> (r: Vec<
    InventoryItem,
>)
    ensures
        r@ == inventory@.filter(within_series(catalog@, max_series)),
{
    let mut out: Vec<InventoryItem> = Vec::new();
    let mut i: usize = 0;
    while i < inventory.len()
        invariant
            0 <= i <= inventory@.len(),
            out@ == inventory@.take(i as int).filter(within_series(catalog@, max_series)),
        decreases inventory@.len() - i,
    {
        let ghost s = inventory@.take(i as int + 1);
        assert(s.drop_last() =~= inventory@.take(i as int));
        assert(s.last() == inventory@[i as int]);
        proof {
            reveal(Seq::filter);
        }
        let keep = match find_def(catalog, &inventory[i].part_name) {
            Some(d) => catalog[d].series <= max_series,
            None => false,
        };
        assert(keep == within_series(catalog@, max_series)(inventory@[i as int]));
        if keep {
            out.push(inventory[i].clone());
        }
        i = i + 1;
    }
    assert(inventory@.take(inventory@.len() as int) =~= inventory@);
    out
}

/// What each group keeps: the affordable upgrades to the level the cards
/// reach, or the one-level ones.
pub open spec fn keep_pred(affordable: bool) -> spec_fn(RecView) -> bool {
    if affordable {
        |v: RecView| v.can_afford && v.at_reachable_level
    } else {
        |v: RecView| v.target_level == v.current_level + 1
    }
}

/// Index of the first recommendation that gains strictly less than `delta`.
fn find_insert_pos(sorted: &Vec<UpgradeRecommendation>, delta: i32) -> (r: usize)
    ensures
        r as int == match first_where(sorted@.len() as int, |j: int| sorted@[j]@.score_delta < delta) {
            Some(j) => j,
            None => sorted@.len() as int,
        },
        r <= sorted@.len(),
{
    let ghost pred = |j: int| sorted@[j]@.score_delta < delta;
    let mut j: usize = 0;
    while j < sorted.len()
        invariant
            0 <= j <= sorted@.len(),
            pred == (|j: int| sorted@[j]@.score_delta < delta),
            forall|m: int| 0 <= m < j ==> !#[trigger] pred(m),
        decreases sorted@.len() - j,
    {
        if sorted[j].score_delta < delta {
            proof {
                lemma_first_where_found(sorted@.len() as int, pred, j as int);
            }
            return j;
        }
        j = j + 1;
    }
    j
}

/// Inserts `c` into `out` before the first recommendation that gains
/// strictly less.
fn insert_by_gain(out: &mut Vec<UpgradeRecommendation>, c: UpgradeRecommendation)
    ensures
        views(final(out)@) == views(old(out)@).take(insert_pos(views(old(out)@), c@)).push(c@)
            + views(old(out)@).skip(insert_pos(views(old(out)@), c@)),
{
    let ghost before = views(out@);
    let ghost old_out = out@;
    let ghost cv = c@;
    let p = find_insert_pos(out, c.score_delta);
    assert(p as int == insert_pos(before, cv)) by {
        lemma_first_where_congruent(
            old_out.len() as int,
            |j: int| old_out[j]@.score_delta < cv.score_delta,
            |j: int| before[j].score_delta < cv.score_delta,
        );
    }
    out.insert(p, c);
    assert(views(out@) =~= before.take(p as int).push(cv) + before.skip(p as int));
}

/// Sorts recommendations by score gain, largest first, keeping the order of
/// equal gains.
fn sort_recs(recs: &Vec<UpgradeRecommendation>) -> (r: Vec<UpgradeRecommendation>)
    ensures
        views(r@) == sort_by_gain(views(recs@)),
{
    let mut out: Vec<UpgradeRecommendation> = Vec::new();
    let mut i: usize = 0;
    while i < recs.len()
        invariant
            0 <= i <= recs@.len(),
            views(out@) == sort_by_gain(views(recs@.take(i as int))),
        decreases recs@.len() - i,
    {
        let ghost s = views(recs@.take(i as int + 1));
        assert(s.drop_last() =~= views(recs@.take(i as int)));
        assert(s.last() == recs@[i as int]@);
        let c = recs[i].clone();
        insert_by_gain(&mut out, c);
        i = i + 1;
    }
    assert(recs@.take(recs@.len() as int) =~= recs@);
    out
}

proof fn lemma_all_recs_step(x: AdvisorInputs, inv: Seq<InventoryItem>, i: int)
    requires
        0 <= i < inv.len(),
    ensures
        all_recs(x, inv.take(i + 1)) == all_recs(x, inv.take(i)) + item_recs(x, inv[i]),
{
    let t = inv.take(i + 1);
    assert(t.drop_last() =~= inv.take(i));
}

proof fn lemma_grown_prefix(ppc: Seq<Vec<ResolvedPart>>, n: int)
    requires
        0 <= n <= ppc.len(),
    ensures
        1 <= grown_count(ppc.take(n)) <= grown_count(ppc),
    decreases ppc.len(),
{
    if n == ppc.len() {
        assert(ppc.take(n) =~= ppc);
        lemma_grown_positive(ppc);
    } else {
        assert(ppc.drop_last().take(n) =~= ppc.take(n));
        lemma_grown_prefix(ppc.drop_last(), n);
        let a = grown_count(ppc.drop_last());
        let b = ppc.last()@.len() + 1;
        assert(a * b >= a) by (nonlinear_arith)
            requires
                a >= 1,
                b >= 1,
        ;
    }
}

proof fn lemma_grown_positive(ppc: Seq<Vec<ResolvedPart>>)
    ensures
        grown_count(ppc) >= 1,
    decreases ppc.len(),
{
    if ppc.len() > 0 {
        lemma_grown_positive(ppc.drop_last());
        let a = grown_count(ppc.drop_last());
        let b = ppc.last()@.len() + 1;
        assert(a * b >= 1) by (nonlinear_arith)
            requires
                a >= 1,
                b >= 1,
        ;
    }
}

fn stats_in_pool_range(s: &Stats) -> (r: bool)
    ensures
        r == stats_within(*s, 12_000_000),
{
    let b: i32 = 12_000_000;
    -b <= s.speed && s.speed <= b && -b <= s.cornering && s.cornering <= b && -b <= s.power_unit
        && s.power_unit <= b && -b <= s.qualifying && s.qualifying <= b && -b <= s.pit_stop_hundredths
        && s.pit_stop_hundredths <= b && -b <= s.additional_stat_value && s.additional_stat_value <= b
}

fn pool_in_range(ppc: &[Vec<ResolvedPart>]) -> (r: bool)
    ensures
        r == table_within(stats_table(ppc@), 12_000_000),
{
    let ghost t = stats_table(ppc@);
    let mut k: usize = 0;
    while k < ppc.len()
        invariant
            t == stats_table(ppc@),
            0 <= k <= ppc@.len(),
            forall|kk: int, i: int| 0 <= kk < k && 0 <= i < t[kk].len() ==> stats_within(#[trigger] t[kk][i], 12_000_000),
        decreases ppc@.len() - k,
    {
        let row = &ppc[k];
        let mut i: usize = 0;
        while i < row.len()
            invariant
                t == stats_table(ppc@),
                0 <= k < ppc@.len(),
                row@ == ppc@[k as int]@,
                0 <= i <= row@.len(),
                forall|ii: int| 0 <= ii < i ==> stats_within(#[trigger] row@[ii].stats, 12_000_000),
            decreases row@.len() - i,
        {
            if !stats_in_pool_range(&row[i].stats) {
                assert(t[k as int][i as int] == row@[i as int].stats);
                return false;
            }
            i = i + 1;
        }
        assert forall|kk: int, ii: int| 0 <= kk < k + 1 && 0 <= ii < t[kk].len() implies stats_within(
            #[trigger] t[kk][ii],
            12_000_000,
        ) by {
            if kk == k {
                assert(t[kk][ii] == row@[ii].stats);
            }
        }
        k = k + 1;
    }
    true
}

/// A table whose stats lie within ±12 000 000, with at most 16 categories,
/// has a primary score within ±1 000 000 000.
proof fn lemma_score_of_within(t: Seq<Seq<Stats>>, p: StatPriorities)
    requires
        table_within(t, 12_000_000),
        t.len() <= 16,
    ensures
        -1_000_000_000 <= score_of(t, p) <= 1_000_000_000,
{
    assert(t.len() * 12_000_000 <= 200_000_000) by (nonlinear_arith)
        requires
            t.len() <= 16,
    ;
    lemma_table_fits(t, p, 12_000_000);
    if (forall|k: int| 0 <= k < t.len() ==> t[k].len() > 0) && exists|c: Seq<usize>| is_best_combo(t, c, p) {
        let c = choose|c: Seq<usize>| is_best_combo(t, c, p);
        assert(valid_combo(t, c));
    }
}

/// The modified pool of a pool within ±12 000 000 stays within it when the
/// upgraded stats do.
proof fn lemma_modified_within(ppc: Seq<Vec<ResolvedPart>>, ci: int, id: i32, up: Stats)
    requires
        0 <= ci < ppc.len(),
        table_within(stats_table(ppc), 12_000_000),
        stats_within(up, 12_000_000),
    ensures
        modified_table(ppc, ci, id, up).len() == ppc.len(),
        table_within(modified_table(ppc, ci, id, up), 12_000_000),
{
    let t = stats_table(ppc);
    let mt = modified_table(ppc, ci, id, up);
    lemma_first_where_range(ppc[ci]@.len() as int, |i: int| ppc[ci]@[i].item.id == id);
    let row = match first_with_id(ppc[ci]@, id) {
        Some(i) => t[ci].update(i, up),
        None => t[ci].push(up),
    };
    assert forall|i: int| 0 <= i < row.len() implies stats_within(#[trigger] row[i], 12_000_000) by {
        match first_with_id(ppc[ci]@, id) {
            Some(j) => {
                if i != j {
                    assert(row[i] == t[ci][i]);
                }
            },
            None => {
                if i < t[ci].len() {
                    assert(row[i] == t[ci][i]);
                }
            },
        }
    }
    law_top_by_bounded(row, stats_total_key(), POOL_CAP as nat);
    assert forall|k: int, i: int|
        0 <= k < mt.len() && 0 <= i < mt[k].len() implies stats_within(#[trigger] mt[k][i], 12_000_000) by {
        if k != ci {
            assert(mt[k][i] == t[k][i]);
        } else {
            let v = mt[ci][i];
            assert(row.contains(v));
            let j = choose|j: int| 0 <= j < row.len() && row[j] == v;
            assert(stats_within(row[j], 12_000_000));
        }
    }
}

/// Within the advisor's ranges every simulation fits.
proof fn lemma_sim_in_range(x: AdvisorInputs, item: InventoryItem, di: int, ci: int, target: int)
    requires
        0 <= di < x.catalog.len(),
        0 <= ci < x.ppc.len(),
        x.ppc.len() <= 16,
        table_within(stats_table(x.ppc), 12_000_000),
        forall|d: int, l: int|
            0 <= d < x.catalog.len() && 0 <= l < x.catalog[d].levels@.len() ==> stats_within(
                #[trigger] x.catalog[d].levels@[l].to_stats_spec(),
                1_000_000,
            ),
        forall|b: int| 0 <= b < x.boosts.len() ==> -1000 <= #[trigger] x.boosts[b].percentage <= 1000,
    ensures
        sim_fits(x, item, di, ci, target),
{
    reveal(sim_fits);
    let def = x.catalog[di];
    crate::models::part::lemma_first_level_index_range(def.levels@, target as i32);
    crate::models::part::lemma_first_level_index_range(def.levels@, item.level);
    if let (Some(ti), Some(cu)) = (first_level_index(def.levels@, target as i32), first_level_index(def.levels@, item.level)) {
        let ts = def.levels@[ti];
        let cs = def.levels@[cu];
        assert(stats_within(ts.to_stats_spec(), 1_000_000));
        assert(stats_within(cs.to_stats_spec(), 1_000_000));
        lemma_first_where_range(x.boosts.len() as int, |i: int| x.boosts[i].part_name@ == item.part_name@);
        let up = upgraded_stats(x, item.part_name@, ts);
        match first_boost(x.boosts, item.part_name@) {
            Some(b) => {
                lemma_upgraded_within(ts, x.boosts[b].percentage as int);
            },
            None => {
                lemma_upgraded_within(ts, 0);
            },
        }
        lemma_modified_within(x.ppc, ci, item.id, up);
        let mt = modified_table(x.ppc, ci, item.id, up);
        assert(mt.len() * 12_000_000 <= 200_000_000) by (nonlinear_arith)
            requires
                mt.len() <= 16,
        ;
        lemma_table_fits(mt, x.prios, 12_000_000);
        lemma_score_of_within(mt, x.prios);
        lemma_score_of_within(stats_table(x.ppc), x.prios);
    }
}

/// Within the advisor's ranges (see `advisor_inputs_valid`) everything the
/// advisor computes fits, whatever the priorities and season.
pub proof fn lemma_ranges_fit(
    ppc: Seq<Vec<ResolvedPart>>,
    categories: Seq<PartCategory>,
    catalog: Seq<OwnedPartDefinition>,
    inventory: Seq<InventoryItem>,
    boosts: Seq<Boost>,
    prios: StatPriorities,
    season: Seq<char>,
)
    requires
        advisor_inputs_ok(ppc, categories, catalog, inventory, boosts),
    ensures
        advisor_fits(inputs(ppc, categories, catalog, boosts, prios, season), inventory),
{
    let x = inputs(ppc, categories, catalog, boosts, prios, season);
    let t = stats_table(ppc);
    assert(t.len() * 12_000_000 <= 200_000_000) by (nonlinear_arith)
        requires
            t.len() <= 16,
    ;
    lemma_table_fits(t, prios, 12_000_000);
    assert forall|i: int| 0 <= i < inventory.len() implies item_fits(x, #[trigger] inventory[i]) by {
        reveal(item_fits);
        let item = inventory[i];
        if let Some(di) = first_def(x.catalog, item.part_name@) {
            lemma_first_where_range(catalog.len() as int, |j: int| catalog[j].name@ == item.part_name@);
            let def = x.catalog[di];
            let max = max_level_spec(def.rarity@);
            if item.level < max {
                if let Some(ci) = first_cat(x.categories, def.category) {
                    lemma_first_where_range(categories.len() as int, |j: int| categories[j].rank() == def.category.rank());
                    lemma_walk_bounds(item.level as int, max, item.cards_owned as int, x.is2026, def.series as int);
                    let w = upgrade_walk(item.level as int, max, item.cards_owned as int, x.is2026, def.series as int);
                    let ts = targets_spec(item.level as int, w.0);
                    lemma_sim_in_range(x, item, di, ci, ts[0]);
                    if ts.len() > 1 {
                        lemma_sim_in_range(x, item, di, ci, ts[1]);
                    }
                }
            }
        }
    }
}

/// Ranges within which the advisor provably fits `i32`, whatever the
/// priorities and season: one pool per category (at most 16), pool stats
/// within ±12 000 000, catalog stats within ±1 000 000 with a series above
/// `i32::MIN`, boosts within ±1000 %, owned levels above `i32::MIN` with at
/// least -2 000 000 000 cards, and the combinations of pools grown by one
/// part countable in `usize`. A check that rules overflow out, not the exact
/// condition (`advisor_fits`).
pub fn advisor_inputs_valid(
    parts_per_cat: &[Vec<ResolvedPart>],
    categories: &[PartCategory],
    catalog: &[OwnedPartDefinition],
    inventory: &[InventoryItem],
    boosts: &[Boost],
) -> (r: bool)
    ensures
        r == advisor_inputs_ok(parts_per_cat@, categories@, catalog@, inventory@, boosts@),
        r ==> forall|p: StatPriorities, season: Seq<char>|
            #[trigger] advisor_fits(inputs(parts_per_cat@, categories@, catalog@, boosts@, p, season), inventory@),
{
    proof {
        assert forall|p: StatPriorities, season: Seq<char>|
            advisor_inputs_ok(parts_per_cat@, categories@, catalog@, inventory@, boosts@) implies #[trigger] advisor_fits(
            inputs(parts_per_cat@, categories@, catalog@, boosts@, p, season),
            inventory@,
        ) by {
            lemma_ranges_fit(parts_per_cat@, categories@, catalog@, inventory@, boosts@, p, season);
        }
    }
    if parts_per_cat.len() != categories.len() || categories.len() > 16 {
        return false;
    }
    if !pool_in_range(parts_per_cat) || !crate::resolve::catalog_in_range(catalog)
        || !crate::resolve::boosts_in_range(boosts) {
        return false;
    }
    let mut d: usize = 0;
    while d < catalog.len()
        invariant
            0 <= d <= catalog@.len(),
            forall|j: int| 0 <= j < d ==> #[trigger] catalog@[j].series > i32::MIN,
        decreases catalog@.len() - d,
    {
        if catalog[d].series == i32::MIN {
            assert(!(catalog@[d as int].series > i32::MIN));
            return false;
        }
        d = d + 1;
    }
    let mut i: usize = 0;
    while i < inventory.len()
        invariant
            0 <= i <= inventory@.len(),
            forall|j: int|
                0 <= j < i ==> #[trigger] inventory@[j].level > i32::MIN && inventory@[j].cards_owned
                    >= -2_000_000_000,
        decreases inventory@.len() - i,
    {
        if inventory[i].level == i32::MIN || inventory[i].cards_owned < -2_000_000_000 {
            assert(!(inventory@[i as int].level > i32::MIN && inventory@[i as int].cards_owned >= -2_000_000_000));
            return false;
        }
        i = i + 1;
    }
    let ghost ppc = parts_per_cat@;
    let mut prod: usize = 1;
    let mut k: usize = 0;
    assert(ppc.take(0) =~= Seq::<Vec<ResolvedPart>>::empty());
    while k < parts_per_cat.len()
        invariant
            ppc == parts_per_cat@,
            0 <= k <= ppc.len(),
            prod as int == grown_count(ppc.take(k as int)),
        decreases ppc.len() - k,
    {
        assert(ppc.take(k as int + 1).drop_last() =~= ppc.take(k as int));
        assert(ppc.take(k as int + 1).last() == ppc[k as int]);
        let n = parts_per_cat[k].len();
        if n == usize::MAX {
            proof {
                lemma_grown_prefix(ppc, k as int + 1);
                lemma_grown_positive(ppc.take(k as int));
                let a = grown_count(ppc.take(k as int));
                assert(a * (n + 1) > usize::MAX) by (nonlinear_arith)
                    requires
                        a >= 1,
                        n == usize::MAX,
                ;
            }
            return false;
        }
        match prod.checked_mul(n + 1) {
            None => {
                proof {
                    lemma_grown_prefix(ppc, k as int + 1);
                }
                return false;
            },
            Some(p) => {
                prod = p;
            },
        }
        k = k + 1;
    }
    assert(ppc.take(ppc.len() as int) =~= ppc);
    true
}

/// Runs the upgrade advisor.
///
/// `parts_per_cat` and `categories` are the resolved pool (boosts applied);
/// the raw `inventory`, `catalog` and `boosts` are used to simulate each
/// part's upgrade. Every owned part below its maximum level whose catalog
/// entry and category are known is simulated at the level its cards reach
/// (when they reach past its level) and at its level + 1; `immediate` holds
/// the simulations at the level the cards reach and `planned` the one-level ones, each sorted
/// by score gain, largest first, ties in inventory order.
#[verifier::rlimit(50)]
#[verifier::spinoff_prover]
pub fn run_upgrade_advisor(
    parts_per_cat: &[Vec<ResolvedPart>],
    categories: &[PartCategory],
    catalog: &[OwnedPartDefinition],
    inventory: &[InventoryItem],
    boosts: &[Boost],
    priorities: &StatPriorities,
    season: &str,
) -> (r: AdvisorResult)
    requires
        advisor_fits(inputs(parts_per_cat@, categories@, catalog@, boosts@, *priorities, season@), inventory@),
    ensures
        ({
            let x = inputs(parts_per_cat@, categories@, catalog@, boosts@, *priorities, season@);
            &&& r.priorities == *priorities
            &&& r.baseline_score == baseline_spec(x)
            &&& views(r.immediate@) == sort_by_gain(all_recs(x, inventory@).filter(keep_pred(true)))
            &&& views(r.planned@) == sort_by_gain(all_recs(x, inventory@).filter(keep_pred(false)))
        }),
{
    let ghost x = inputs(parts_per_cat@, categories@, catalog@, boosts@, *priorities, season@);
    proof {
        assert forall|k: int| 0 <= k < parts_per_cat@.len() implies #[trigger] parts_per_cat@[k]@.len()
            <= parts_per_cat@[k]@.len() + 1 by {}
        lemma_count_within(parts_per_cat@, parts_per_cat@);
    }
    assert(all_combos_fit(stats_table(parts_per_cat@), *priorities));
    let baseline_score = pool_score(parts_per_cat, categories, priorities);
    let mut all: Vec<UpgradeRecommendation> = Vec::new();
    let mut i: usize = 0;
    while i < inventory.len()
        invariant
            0 <= i <= inventory@.len(),
            advisor_fits(x, inventory@),
            x == inputs(parts_per_cat@, categories@, catalog@, boosts@, *priorities, season@),
            baseline_score == baseline_spec(x),
            views(all@) == all_recs(x, inventory@.take(i as int)),
        decreases inventory@.len() - i,
    {
        let ghost before = views(all@);
        let item = &inventory[i];
        assert(item_fits(x, inventory@[i as int]));
        let recs = item_recommendations(
            parts_per_cat,
            categories,
            catalog,
            boosts,
            priorities,
            season,
            item,
            baseline_score,
        );
        let ghost added = views(recs@);
        let mut recs = recs;
        all.append(&mut recs);
        proof {
            lemma_all_recs_step(x, inventory@, i as int);
            assert(views(all@) =~= before + added);
        }
        i = i + 1;
    }
    assert(inventory@.take(inventory@.len() as int) =~= inventory@);
    let affordable = filter_recs(&all, true);
    let immediate = sort_recs(&affordable);
    let one_level = filter_recs(&all, false);
    let planned = sort_recs(&one_level);
    AdvisorResult { priorities: *priorities, baseline_score, immediate, planned }
}


// ── Laws ──────────────────────────────────────────────────────────────────────

/// Ranking by score gain puts larger gains first.
pub proof fn law_ranked_by_gain(s: Seq<RecView>)
    ensures
        forall|i: int, j: int|
            0 <= i < j < sort_by_gain(s).len() ==> #[trigger] sort_by_gain(s)[i].score_delta
                >= #[trigger] sort_by_gain(s)[j].score_delta,
        sort_by_gain(s).len() == s.len(),
    decreases s.len(),
{
    if s.len() > 0 {
        let sorted = sort_by_gain(s.drop_last());
        law_ranked_by_gain(s.drop_last());
        let e = s.last();
        let p = insert_pos(sorted, e);
        let pred = |j: int| sorted[j].score_delta < e.score_delta;
        lemma_first_where_range(sorted.len() as int, pred);
        let out = sort_by_gain(s);
        assert(out =~= sorted.take(p).push(e) + sorted.skip(p));
        assert(0 <= p <= sorted.len());
        assert forall|i: int, j: int| 0 <= i < j < out.len() implies #[trigger] out[i].score_delta
            >= #[trigger] out[j].score_delta by {
            if j < p {
                assert(out[i] == sorted[i] && out[j] == sorted[j]);
            } else if j == p {
                assert(out[i] == sorted[i]);
                assert(!pred(i));
            } else if i < p {
                assert(out[i] == sorted[i] && out[j] == sorted[j - 1]);
            } else if i == p {
                assert(out[j] == sorted[j - 1]);
                assert(pred(p));
                assert(sorted[p].score_delta >= sorted[j - 1].score_delta);
            } else {
                assert(out[i] == sorted[i - 1] && out[j] == sorted[j - 1]);
            }
        }
    }
}

/// Ranking by score gain neither drops nor adds a recommendation.
pub proof fn law_ranking_keeps_all(s: Seq<RecView>)
    ensures
        sort_by_gain(s).to_multiset() == s.to_multiset(),
    decreases s.len(),
{
    broadcast use vstd::seq_lib::to_multiset_insert, vstd::seq_lib::to_multiset_build;

    if s.len() == 0 {
        assert(sort_by_gain(s) =~= s);
    } else {
        let sorted = sort_by_gain(s.drop_last());
        law_ranking_keeps_all(s.drop_last());
        let e = s.last();
        let p = insert_pos(sorted, e);
        let pred = |j: int| sorted[j].score_delta < e.score_delta;
        lemma_first_where_range(sorted.len() as int, pred);
        assert(sort_by_gain(s) =~= sorted.insert(p, e));
        assert(s =~= s.drop_last().push(e));
    }
}

/// Every planned upgrade goes exactly one level up, and every immediate
/// upgrade is affordable with the cards owned.
pub proof fn law_advisor_groups(x: AdvisorInputs, inv: Seq<InventoryItem>)
    ensures
        forall|i: int|
            0 <= i < sort_by_gain(all_recs(x, inv).filter(keep_pred(false))).len() ==> {
                let v = #[trigger] sort_by_gain(all_recs(x, inv).filter(keep_pred(false)))[i];
                v.target_level == v.current_level + 1
            },
        forall|i: int|
            0 <= i < sort_by_gain(all_recs(x, inv).filter(keep_pred(true))).len()
                ==> #[trigger] sort_by_gain(all_recs(x, inv).filter(keep_pred(true)))[i].can_afford,
{
    broadcast use vstd::seq_lib::to_multiset_contains, vstd::seq_lib::group_filter_ensures;

    let all = all_recs(x, inv);
    let planned = all.filter(keep_pred(false));
    let immediate = all.filter(keep_pred(true));
    law_ranking_keeps_all(planned);
    law_ranking_keeps_all(immediate);
    assert forall|i: int| 0 <= i < sort_by_gain(planned).len() implies ({
        let v = #[trigger] sort_by_gain(planned)[i];
        v.target_level == v.current_level + 1
    }) by {
        let v = sort_by_gain(planned)[i];
        assert(sort_by_gain(planned).contains(v));
        assert(sort_by_gain(planned).to_multiset().count(v) > 0);
        assert(planned.contains(v));
        let k = choose|k: int| 0 <= k < planned.len() && planned[k] == v;
        assert(keep_pred(false)(planned[k]));
    }
    assert forall|i: int| 0 <= i < sort_by_gain(immediate).len() implies #[trigger] sort_by_gain(
        immediate,
    )[i].can_afford by {
        let v = sort_by_gain(immediate)[i];
        assert(sort_by_gain(immediate).contains(v));
        assert(sort_by_gain(immediate).to_multiset().count(v) > 0);
        assert(immediate.contains(v));
        let k = choose|k: int| 0 <= k < immediate.len() && immediate[k] == v;
        assert(keep_pred(true)(immediate[k]));
    }
}

/// A part already at the maximum level of its rarity yields no recommendation.
pub proof fn law_maxed_part_not_recommended(x: AdvisorInputs, item: InventoryItem)
    requires
        first_def(x.catalog, item.part_name@) matches Some(di) && item.level >= max_level_spec(
            x.catalog[di].rarity@,
        ),
    ensures
        item_recs(x, item) == Seq::<RecView>::empty(),
{
}

} // verus!
