//! The brute-force setup optimizer: scores, driver priorities, and the search
//! for the best part combination and driver pair.

use vstd::prelude::*;

use crate::data::StatPriorities;
use crate::models::driver::{DriverInventoryItem, DriverStats};
use crate::models::part::{fits_i32, PartCategory, Stats};
use crate::models::setup::InventoryItem;

verus! {

/// A part resolved from the inventory, with its (boosted) stats.
pub struct ResolvedPart {
    pub item: InventoryItem,
    pub stats: Stats,
    pub rarity_css_class: &'static str,
}

impl Clone for ResolvedPart {
    fn clone(&self) -> (r: Self)
        ensures
            r == *self,
    {
        ResolvedPart {
            item: self.item.clone(),
            stats: self.stats,
            rarity_css_class: self.rarity_css_class,
        }
    }
}

/// A driver resolved from the inventory, with its (boosted) stats.
pub struct ResolvedDriver {
    pub item: DriverInventoryItem,
    pub stats: DriverStats,
}

// ── Scores ────────────────────────────────────────────────────────────────────

/// The smallest element of a non-empty sequence (0 for the empty one).
pub open spec fn seq_min(q: Seq<int>) -> int
    decreases q.len(),
{
    if q.len() == 0 {
        0
    } else if q.len() == 1 {
        q[0]
    } else {
        let m = seq_min(q.drop_last());
        if q.last() < m {
            q.last()
        } else {
            m
        }
    }
}

/// The sum of a sequence.
pub open spec fn seq_sum(q: Seq<int>) -> int
    decreases q.len(),
{
    if q.len() == 0 {
        0
    } else {
        seq_sum(q.drop_last()) + q.last()
    }
}

proof fn lemma_min_sum_push(q: Seq<int>, v: int)
    ensures
        seq_min(q.push(v)) == (if q.len() == 0 {
            v
        } else if v < seq_min(q) {
            v
        } else {
            seq_min(q)
        }),
        seq_sum(q.push(v)) == seq_sum(q) + v,
{
    assert(q.push(v).drop_last() =~= q);
}

/// The minimum is one of the elements and no element is below it.
pub proof fn law_min_is_least(q: Seq<int>)
    requires
        q.len() > 0,
    ensures
        exists|i: int| 0 <= i < q.len() && q[i] == seq_min(q),
        forall|i: int| 0 <= i < q.len() ==> seq_min(q) <= q[i],
    decreases q.len(),
{
    if q.len() > 1 {
        law_min_is_least(q.drop_last());
        let m = seq_min(q.drop_last());
        let j = choose|i: int| 0 <= i < q.drop_last().len() && q.drop_last()[i] == m;
        if q.last() < m {
            assert(q[q.len() - 1] == seq_min(q));
        } else {
            assert(q[j] == seq_min(q));
        }
        assert forall|i: int| 0 <= i < q.len() implies seq_min(q) <= q[i] by {
            if i < q.len() - 1 {
                assert(q.drop_last()[i] == q[i]);
            }
        }
    } else {
        assert(q[0] == seq_min(q));
    }
}

/// `a` beats `b` when the pair compares greater, first component first.
pub open spec fn score_gt(a: (int, int), b: (int, int)) -> bool {
    a.0 > b.0 || (a.0 == b.0 && a.1 > b.1)
}

/// The selected priority stats of a part total, in the fixed order speed,
/// cornering, power unit, qualifying.
pub open spec fn selected_part_values(s: Stats, p: StatPriorities) -> Seq<int> {
    (if p.speed { seq![s.speed as int] } else { Seq::empty() }) + (if p.cornering {
        seq![s.cornering as int]
    } else {
        Seq::empty()
    }) + (if p.power_unit { seq![s.power_unit as int] } else { Seq::empty() }) + (if p.qualifying {
        seq![s.qualifying as int]
    } else {
        Seq::empty()
    })
}

/// Score of a part total: with no priority, the total performance twice;
/// otherwise the smallest selected stat and the sum of the selected stats.
pub open spec fn part_score(s: Stats, p: StatPriorities) -> (int, int) {
    if !p.any() {
        (s.total_spec(), s.total_spec())
    } else {
        let q = selected_part_values(s, p);
        (seq_min(q), seq_sum(q))
    }
}

/// The score of `s` and its total performance fit in `i32`.
pub open spec fn part_score_fits(s: Stats, p: StatPriorities) -> bool {
    &&& fits_i32(s.total_spec())
    &&& p.any() ==> fits_i32(seq_sum(selected_part_values(s, p)))
}

/// `a` beats `b` when the triple compares greater, first component first.
pub open spec fn rank_gt(a: (int, int, int), b: (int, int, int)) -> bool {
    a.0 > b.0 || (a.0 == b.0 && (a.1 > b.1 || (a.1 == b.1 && a.2 > b.2)))
}

/// How the optimizer ranks a part total: its score, then its total
/// performance as the tie-breaker.
pub open spec fn part_rank(s: Stats, p: StatPriorities) -> (int, int, int) {
    (part_score(s, p).0, part_score(s, p).1, s.total_spec())
}

pub fn score_part_combo(stats: &Stats, priorities: &StatPriorities) -> (r: (i32, i32))
    requires
        part_score_fits(*stats, *priorities),
    ensures
        (r.0 as int, r.1 as int) == part_score(*stats, *priorities),
{
    if !priorities.any_selected() {
        let total = stats.total_performance();
        return (total, total);
    }
    let ghost mut q: Seq<int> = Seq::empty();
    let mut min: i32 = 0;
    let mut sum: i64 = 0;
    let mut seen = false;
    if priorities.speed {
        proof { lemma_min_sum_push(q, stats.speed as int); }
        if !seen || stats.speed < min {
            min = stats.speed;
        }
        sum = sum + stats.speed as i64;
        seen = true;
        proof { q = q.push(stats.speed as int); }
    }
    assert(q =~= (if priorities.speed { seq![stats.speed as int] } else { Seq::<int>::empty() }));
    if priorities.cornering {
        proof { lemma_min_sum_push(q, stats.cornering as int); }
        if !seen || stats.cornering < min {
            min = stats.cornering;
        }
        sum = sum + stats.cornering as i64;
        seen = true;
        proof { q = q.push(stats.cornering as int); }
    }
    if priorities.power_unit {
        proof { lemma_min_sum_push(q, stats.power_unit as int); }
        if !seen || stats.power_unit < min {
            min = stats.power_unit;
        }
        sum = sum + stats.power_unit as i64;
        seen = true;
        proof { q = q.push(stats.power_unit as int); }
    }
    if priorities.qualifying {
        proof { lemma_min_sum_push(q, stats.qualifying as int); }
        if !seen || stats.qualifying < min {
            min = stats.qualifying;
        }
        sum = sum + stats.qualifying as i64;
        seen = true;
        proof { q = q.push(stats.qualifying as int); }
    }
    assert(q =~= selected_part_values(*stats, *priorities));
    (min, sum as i32)
}

// ── Driver priorities ─────────────────────────────────────────────────────────

#[derive(Debug, Clone, Copy, PartialEq, Eq, Structural)]
pub struct DriverPriorities {
    pub overtaking: bool,
    pub defending: bool,
    pub qualifying: bool,
    pub race_start: bool,
    pub tyre_management: bool,
}

impl Default for DriverPriorities {
    fn default() -> (r: DriverPriorities)
        ensures
            !r.any(),
    {
        DriverPriorities {
            overtaking: false,
            defending: false,
            qualifying: false,
            race_start: false,
            tyre_management: false,
        }
    }
}

/// The selected priority stats of a driver total, in the fixed order
/// overtaking, defending, qualifying, race start, tyre management.
pub open spec fn selected_driver_values(s: DriverStats, p: DriverPriorities) -> Seq<int> {
    (if p.overtaking { seq![s.overtaking as int] } else { Seq::empty() }) + (if p.defending {
        seq![s.defending as int]
    } else {
        Seq::empty()
    }) + (if p.qualifying { seq![s.qualifying as int] } else { Seq::empty() }) + (if p.race_start {
        seq![s.race_start as int]
    } else {
        Seq::empty()
    }) + (if p.tyre_management { seq![s.tyre_management as int] } else { Seq::empty() })
}

/// Score of a driver total: with no priority, the total twice; otherwise
/// the smallest selected stat and the sum of the selected stats.
pub open spec fn driver_score(s: DriverStats, p: DriverPriorities) -> (int, int) {
    if !p.any() {
        (s.total_spec(), s.total_spec())
    } else {
        let q = selected_driver_values(s, p);
        (seq_min(q), seq_sum(q))
    }
}

/// The score of `s` fits in `i32`.
pub open spec fn driver_score_fits(s: DriverStats, p: DriverPriorities) -> bool {
    if !p.any() {
        fits_i32(s.total_spec())
    } else {
        fits_i32(seq_sum(selected_driver_values(s, p)))
    }
}

impl DriverPriorities {
    pub open spec fn any(self) -> bool {
        self.overtaking || self.defending || self.qualifying || self.race_start
            || self.tyre_management
    }

    /// The labels of the selected priorities, in the fixed order.
    pub open spec fn label_views(self) -> Seq<Seq<char>> {
        (if self.overtaking { seq!["Overtaking"@] } else { Seq::empty() }) + (if self.defending {
            seq!["Defending"@]
        } else {
            Seq::empty()
        }) + (if self.qualifying { seq!["Qualifying"@] } else { Seq::empty() }) + (
        if self.race_start {
            seq!["Race Start"@]
        } else {
            Seq::empty()
        }) + (if self.tyre_management { seq!["Tyre Mgmt"@] } else { Seq::empty() })
    }

    pub fn any_selected(&self) -> (r: bool)
        ensures
            r == self.any(),
    {
        self.overtaking || self.defending || self.qualifying || self.race_start
            || self.tyre_management
    }

    pub fn labels(&self) -> (r: Vec<&'static str>)
        ensures
            r@.map_values(|s: &'static str| s@) == self.label_views(),
    {
        let mut out: Vec<&'static str> = Vec::new();
        if self.overtaking {
            out.push("Overtaking");
        }
        if self.defending {
            out.push("Defending");
        }
        if self.qualifying {
            out.push("Qualifying");
        }
        if self.race_start {
            out.push("Race Start");
        }
        if self.tyre_management {
            out.push("Tyre Mgmt");
        }
        assert(out@.map_values(|s: &'static str| s@) =~= self.label_views());
        out
    }

    pub fn score(&self, stats: &DriverStats) -> (r: (i32, i32))
        requires
            driver_score_fits(*stats, *self),
        ensures
            (r.0 as int, r.1 as int) == driver_score(*stats, *self),
    {
        if !self.any_selected() {
            let total = stats.total();
            return (total, total);
        }
        let ghost mut q: Seq<int> = Seq::empty();
        let mut min: i32 = 0;
        let mut sum: i64 = 0;
        let mut seen = false;
        if self.overtaking {
            proof { lemma_min_sum_push(q, stats.overtaking as int); }
            if !seen || stats.overtaking < min {
                min = stats.overtaking;
            }
            sum = sum + stats.overtaking as i64;
            seen = true;
            proof { q = q.push(stats.overtaking as int); }
        }
        assert(q =~= (if self.overtaking { seq![stats.overtaking as int] } else { Seq::<int>::empty() }));
        if self.defending {
            proof { lemma_min_sum_push(q, stats.defending as int); }
            if !seen || stats.defending < min {
                min = stats.defending;
            }
            sum = sum + stats.defending as i64;
            seen = true;
            proof { q = q.push(stats.defending as int); }
        }
        if self.qualifying {
            proof { lemma_min_sum_push(q, stats.qualifying as int); }
            if !seen || stats.qualifying < min {
                min = stats.qualifying;
            }
            sum = sum + stats.qualifying as i64;
            seen = true;
            proof { q = q.push(stats.qualifying as int); }
        }
        if self.race_start {
            proof { lemma_min_sum_push(q, stats.race_start as int); }
            if !seen || stats.race_start < min {
                min = stats.race_start;
            }
            sum = sum + stats.race_start as i64;
            seen = true;
            proof { q = q.push(stats.race_start as int); }
        }
        if self.tyre_management {
            proof { lemma_min_sum_push(q, stats.tyre_management as int); }
            if !seen || stats.tyre_management < min {
                min = stats.tyre_management;
            }
            sum = sum + stats.tyre_management as i64;
            seen = true;
            proof { q = q.push(stats.tyre_management as int); }
        }
        assert(q =~= selected_driver_values(*stats, *self));
        (min, sum as i32)
    }
}

// ── Combinations ──────────────────────────────────────────────────────────────

/// Strict lexicographic order on index sequences of the same length, the
/// first position most significant.
pub open spec fn lex_lt(a: Seq<usize>, b: Seq<usize>) -> bool
    decreases a.len(),
{
    if a.len() == 0 || b.len() == 0 {
        false
    } else {
        lex_lt(a.drop_last(), b.drop_last()) || (a.drop_last() == b.drop_last() && a.last()
            < b.last())
    }
}

proof fn lemma_lex_push(a: Seq<usize>, x: usize, b: Seq<usize>, y: usize)
    ensures
        lex_lt(a.push(x), b.push(y)) == (lex_lt(a, b) || (a == b && x < y)),
{
    assert(a.push(x).drop_last() =~= a);
    assert(b.push(y).drop_last() =~= b);
}

/// The lexicographic order is asymmetric.
pub proof fn law_lex_asymmetric(a: Seq<usize>, b: Seq<usize>)
    requires
        a.len() == b.len(),
        lex_lt(a, b),
    ensures
        !lex_lt(b, a),
        a != b,
    decreases a.len(),
{
    if a.len() > 0 && lex_lt(a.drop_last(), b.drop_last()) {
        law_lex_asymmetric(a.drop_last(), b.drop_last());
    }
}

/// Two different index sequences of the same length are ordered one way or
/// the other.
pub proof fn law_lex_total(a: Seq<usize>, b: Seq<usize>)
    requires
        a.len() == b.len(),
        a != b,
    ensures
        lex_lt(a, b) || lex_lt(b, a),
    decreases a.len(),
{
    if a.len() > 0 {
        if a.drop_last() != b.drop_last() {
            law_lex_total(a.drop_last(), b.drop_last());
        } else {
            assert(a =~= a.drop_last().push(a.last()));
            assert(b =~= b.drop_last().push(b.last()));
        }
    } else {
        assert(a =~= b);
    }
}

/// The stats of every part, per category.
pub open spec fn stats_table(ppc: Seq<Vec<ResolvedPart>>) -> Seq<Seq<Stats>> {
    Seq::new(ppc.len(), |k: int| ppc[k]@.map_values(|r: ResolvedPart| r.stats))
}

/// `c` picks one part in each category.
pub open spec fn valid_combo(t: Seq<Seq<Stats>>, c: Seq<usize>) -> bool {
    c.len() == t.len() && forall|k: int| 0 <= k < c.len() ==> c[k] < t[k].len()
}

/// `c` picks one part in each of the first `c.len()` categories.
pub open spec fn valid_prefix(t: Seq<Seq<Stats>>, c: Seq<usize>) -> bool {
    c.len() <= t.len() && forall|k: int| 0 <= k < c.len() ==> c[k] < t[k].len()
}

/// The sum of the stats picked by `c` in its first `k` categories, added
/// in category order starting from zero stats.
pub open spec fn combo_stats(t: Seq<Seq<Stats>>, c: Seq<usize>, k: int) -> Stats
    decreases k,
{
    if k <= 0 {
        Stats::zero()
    } else {
        combo_stats(t, c, k - 1).add_spec(t[k - 1][c[k - 1] as int])
    }
}

/// Every partial sum of `c` fits in `i32`.
pub open spec fn combo_fits(t: Seq<Seq<Stats>>, c: Seq<usize>) -> bool {
    forall|k: int| 0 <= k < t.len() ==> #[trigger] combo_stats(t, c, k).can_add(t[k][c[k] as int])
}

/// The score of the combination `c`.
pub open spec fn combo_score(t: Seq<Seq<Stats>>, c: Seq<usize>, p: StatPriorities) -> (int, int) {
    part_score(combo_stats(t, c, t.len() as int), p)
}

/// The rank of the combination `c`.
pub open spec fn combo_rank(t: Seq<Seq<Stats>>, c: Seq<usize>, p: StatPriorities) -> (int, int, int) {
    part_rank(combo_stats(t, c, t.len() as int), p)
}

/// No combination overflows while its stats are summed or scored.
pub open spec fn all_combos_fit(t: Seq<Seq<Stats>>, p: StatPriorities) -> bool {
    forall|c: Seq<usize>| #[trigger]
        valid_combo(t, c) ==> combo_fits(t, c) && part_score_fits(
            combo_stats(t, c, t.len() as int),
            p,
        )
}

/// `c` is the optimizer's part choice: no combination ranks higher (score
/// first, total performance breaking ties), and every combination before it
/// in lexicographic order ranks strictly lower.
pub open spec fn is_best_combo(t: Seq<Seq<Stats>>, c: Seq<usize>, p: StatPriorities) -> bool {
    &&& valid_combo(t, c)
    &&& forall|d: Seq<usize>| #[trigger]
        valid_combo(t, d) ==> !rank_gt(combo_rank(t, d, p), combo_rank(t, c, p)) && (lex_lt(
            d,
            c,
        ) ==> rank_gt(combo_rank(t, c, p), combo_rank(t, d, p)))
}

/// The best combination is unique: two combinations that both meet the
/// optimizer's criterion are the same.
pub proof fn law_best_combo_unique(
    t: Seq<Seq<Stats>>,
    c1: Seq<usize>,
    c2: Seq<usize>,
    p: StatPriorities,
)
    requires
        is_best_combo(t, c1, p),
        is_best_combo(t, c2, p),
    ensures
        c1 == c2,
{
    if c1 != c2 {
        law_lex_total(c1, c2);
        assert(valid_combo(t, c1));
        assert(valid_combo(t, c2));
    }
}

proof fn lemma_combo_stats_prefix(t: Seq<Seq<Stats>>, c: Seq<usize>, d: Seq<usize>, k: int)
    requires
        0 <= k <= c.len(),
        k <= d.len(),
        c.take(k) == d.take(k),
    ensures
        combo_stats(t, c, k) == combo_stats(t, d, k),
    decreases k,
{
    if k > 0 {
        assert(c.take(k - 1) =~= c.take(k).take(k - 1));
        assert(d.take(k - 1) =~= d.take(k).take(k - 1));
        assert(c[k - 1] == c.take(k)[k - 1]);
        assert(d[k - 1] == d.take(k)[k - 1]);
        lemma_combo_stats_prefix(t, c, d, k - 1);
    }
}

/// The combination that extends `c` with the first part of every remaining
/// category.
pub open spec fn complete_with_zeros(t: Seq<Seq<Stats>>, c: Seq<usize>) -> Seq<usize> {
    c + Seq::new((t.len() - c.len()) as nat, |i: int| 0usize)
}

proof fn lemma_completion(t: Seq<Seq<Stats>>, c: Seq<usize>)
    requires
        valid_prefix(t, c),
        forall|k: int| 0 <= k < t.len() ==> t[k].len() > 0,
    ensures
        valid_combo(t, complete_with_zeros(t, c)),
        complete_with_zeros(t, c).take(c.len() as int) == c,
{
    let d = complete_with_zeros(t, c);
    assert forall|k: int| 0 <= k < d.len() implies d[k] < t[k].len() by {
        if k < c.len() {
            assert(d[k] == c[k]);
        } else {
            assert(d[k] == 0);
        }
    }
    assert(d.take(c.len() as int) =~= c);
}

/// `c` comes before position `q` of the enumeration (or at it when
/// `inclusive`), comparing the first `q.len()` picks.
pub open spec fn visited(c: Seq<usize>, q: Seq<usize>, inclusive: bool) -> bool {
    lex_lt(c.take(q.len() as int), q) || (inclusive && c.take(q.len() as int) == q)
}

/// What the search knows of its best candidate after visiting every
/// combination up to `q`.
pub open spec fn best_inv(
    t: Seq<Seq<Stats>>,
    p: StatPriorities,
    best: Option<(Seq<usize>, (int, int, int))>,
    q: Seq<usize>,
    inclusive: bool,
) -> bool {
    match best {
        None => forall|c: Seq<usize>| #[trigger] valid_combo(t, c) ==> !visited(c, q, inclusive),
        Some(b) => {
            &&& valid_combo(t, b.0)
            &&& b.1 == combo_rank(t, b.0, p)
            &&& visited(b.0, q, inclusive)
            &&& forall|c: Seq<usize>| #[trigger]
                valid_combo(t, c) && visited(c, q, inclusive) ==> !rank_gt(
                    combo_rank(t, c, p),
                    b.1,
                ) && (lex_lt(c, b.0) ==> rank_gt(b.1, combo_rank(t, c, p)))
        },
    }
}

pub open spec fn best_view(best: Option<(Vec<usize>, (i32, i32, i32))>) -> Option<(Seq<usize>, (int, int, int))> {
    match best {
        None => None,
        Some(b) => Some((b.0@, (b.1.0 as int, b.1.1 as int, b.1.2 as int))),
    }
}

proof fn lemma_inv_equiv(
    t: Seq<Seq<Stats>>,
    p: StatPriorities,
    best: Option<(Seq<usize>, (int, int, int))>,
    q1: Seq<usize>,
    i1: bool,
    q2: Seq<usize>,
    i2: bool,
)
    requires
        forall|c: Seq<usize>| #[trigger] valid_combo(t, c) ==> visited(c, q1, i1) == visited(c, q2, i2),
    ensures
        best_inv(t, p, best, q1, i1) == best_inv(t, p, best, q2, i2),
{
    if let Some(b) = best {
        if valid_combo(t, b.0) {
            assert(visited(b.0, q1, i1) == visited(b.0, q2, i2));
        }
    }
}

proof fn lemma_take_push(c: Seq<usize>, pre: Seq<usize>, i: usize)
    requires
        pre.len() < c.len(),
    ensures
        c.take(pre.len() as int + 1) == c.take(pre.len() as int).push(c[pre.len() as int]),
        (c.take(pre.len() as int + 1) == pre.push(i)) == (c.take(pre.len() as int) == pre && c[pre.len() as int] == i),
{
    let k = pre.len() as int;
    assert(c.take(k + 1) =~= c.take(k).push(c[k]));
    if c.take(k + 1) == pre.push(i) {
        assert(c.take(k + 1)[k] == c[k]);
        assert(c.take(k) =~= c.take(k + 1).drop_last());
        assert(pre =~= pre.push(i).drop_last());
    }
    if c.take(k) == pre && c[k] == i {
        assert(c.take(k + 1) =~= pre.push(i));
    }
}

proof fn lemma_visited_step(t: Seq<Seq<Stats>>, c: Seq<usize>, pre: Seq<usize>, i: usize)
    requires
        valid_combo(t, c),
        pre.len() < t.len(),
        i < usize::MAX,
    ensures
        visited(c, pre.push(i), true) == visited(c, pre.push((i + 1) as usize), false),
{
    let k = pre.len() as int;
    lemma_take_push(c, pre, i);
    lemma_lex_push(c.take(k), c[k], pre, i);
    lemma_lex_push(c.take(k), c[k], pre, (i + 1) as usize);
}

proof fn lemma_visited_ends(t: Seq<Seq<Stats>>, c: Seq<usize>, pre: Seq<usize>, i: usize)
    requires
        valid_combo(t, c),
        pre.len() < t.len(),
    ensures
        visited(c, pre.push(0usize), false) == visited(c, pre, false),
        i >= t[pre.len() as int].len() ==> (visited(c, pre.push(i), false) == visited(
            c,
            pre,
            true,
        )),
{
    let k = pre.len() as int;
    lemma_take_push(c, pre, i);
    lemma_lex_push(c.take(k), c[k], pre, i);
    lemma_lex_push(c.take(k), c[k], pre, 0usize);
}

/// Visits, in lexicographic order, every combination that extends `prefix`,
/// keeping in `best` the first one with the highest score.
fn search(
    ppc: &[Vec<ResolvedPart>],
    prios: &StatPriorities,
    prefix: &mut Vec<usize>,
    acc: Stats,
    best: &mut Option<(Vec<usize>, (i32, i32, i32))>,
)
    requires
        valid_prefix(stats_table(ppc@), old(prefix)@),
        forall|k: int| 0 <= k < ppc@.len() ==> ppc@[k]@.len() > 0,
        acc == combo_stats(stats_table(ppc@), old(prefix)@, old(prefix)@.len() as int),
        all_combos_fit(stats_table(ppc@), *prios),
        best_inv(stats_table(ppc@), *prios, best_view(*old(best)), old(prefix)@, false),
    ensures
        final(prefix)@ == old(prefix)@,
        best_inv(stats_table(ppc@), *prios, best_view(*final(best)), old(prefix)@, true),
    decreases ppc@.len() - old(prefix)@.len(),
{
    let ghost t = stats_table(ppc@);
    let k = prefix.len();
    if k == ppc.len() {
        let ghost c = prefix@;
        assert(valid_combo(t, c));
        assert(c.take(c.len() as int) =~= c);
        let score = score_part_combo(&acc, prios);
        let total = acc.total_performance();
        let is_better = match best {
            None => true,
            Some(b) => score.0 > b.1.0 || (score.0 == b.1.0 && (score.1 > b.1.1 || (score.1 == b.1.1
                && total > b.1.2))),
        };
        if is_better {
            let snapshot = prefix.clone();
            assert(snapshot@ =~= prefix@);
            *best = Some((snapshot, (score.0, score.1, total)));
            assert forall|d: Seq<usize>| #[trigger]
                valid_combo(t, d) && visited(d, c, true) implies !rank_gt(
                combo_rank(t, d, *prios),
                (score.0 as int, score.1 as int, total as int),
            ) && (lex_lt(d, c) ==> rank_gt(
                (score.0 as int, score.1 as int, total as int),
                combo_rank(t, d, *prios),
            )) by {
                assert(d.take(d.len() as int) =~= d);
                if d != c {
                    law_lex_total(d, c);
                    if lex_lt(c, d) {
                        law_lex_asymmetric(c, d);
                    }
                }
            }
        } else {
            let ghost b = best_view(*best)->0;
            assert(lex_lt(b.0, c)) by {
                assert(b.0.take(c.len() as int) =~= b.0);
            }
            proof {
                law_lex_asymmetric(b.0, c);
            }
            assert(b.0.take(c.len() as int) =~= b.0);
            assert forall|d: Seq<usize>| #[trigger]
                valid_combo(t, d) && visited(d, c, true) implies !rank_gt(
                combo_rank(t, d, *prios),
                b.1,
            ) && (lex_lt(d, b.0) ==> rank_gt(b.1, combo_rank(t, d, *prios))) by {
                assert(d.take(d.len() as int) =~= d);
            }
        }
        return;
    }
    let n_k = ppc[k].len();
    proof {
        assert forall|c: Seq<usize>| #[trigger] valid_combo(t, c) implies visited(c, prefix@.push(0usize), false)
            == visited(c, prefix@, false) by {
            lemma_visited_ends(t, c, prefix@, 0usize);
        }
        lemma_inv_equiv(t, *prios, best_view(*best), prefix@.push(0usize), false, prefix@, false);
    }
    let mut i: usize = 0;
    while i < n_k
        invariant
            t == stats_table(ppc@),
            k == prefix@.len(),
            k < ppc@.len(),
            n_k == ppc@[k as int]@.len(),
            n_k == t[k as int].len(),
            prefix@ == old(prefix)@,
            0 <= i <= n_k,
            valid_prefix(t, prefix@),
            forall|j: int| 0 <= j < ppc@.len() ==> ppc@[j]@.len() > 0,
            acc == combo_stats(t, prefix@, k as int),
            all_combos_fit(t, *prios),
            best_inv(t, *prios, best_view(*best), prefix@.push(i), false),
        decreases n_k - i,
    {
        let ghost pre = prefix@;
        let ghost ext = pre.push(i);
        proof {
            assert(valid_prefix(t, ext));
            lemma_completion(t, ext);
            let d = complete_with_zeros(t, ext);
            assert(valid_combo(t, d));
            assert(combo_fits(t, d));
            assert(d.take(k as int) =~= pre.take(k as int)) by {
                assert(d.take(k as int) =~= d.take(k + 1).take(k as int));
                assert(ext.take(k as int) =~= pre);
            }
            assert(pre.take(k as int) =~= pre);
            lemma_combo_stats_prefix(t, d, pre, k as int);
            assert(d[k as int] == i);
            assert(combo_stats(t, d, k as int).can_add(t[k as int][d[k as int] as int]));
            assert(ext.take(k as int) =~= pre.take(k as int));
            lemma_combo_stats_prefix(t, ext, pre, k as int);
            assert(t[k as int][i as int] == ppc@[k as int]@[i as int].stats);
        }
        let next = acc.add(&ppc[k][i].stats);
        prefix.push(i);
        proof {
            assert(prefix@ == ext);
            assert(next == combo_stats(t, ext, k + 1));
        }
        search(ppc, prios, prefix, next, best);
        prefix.pop();
        proof {
            assert(prefix@ =~= pre);
            assert forall|c: Seq<usize>| #[trigger] valid_combo(t, c) implies visited(c, pre.push(i), true)
                == visited(c, pre.push((i + 1) as usize), false) by {
                lemma_visited_step(t, c, pre, i);
            }
            lemma_inv_equiv(t, *prios, best_view(*best), pre.push(i), true, pre.push((i + 1) as usize), false);
        }
        i = i + 1;
    }
    proof {
        assert forall|c: Seq<usize>| #[trigger] valid_combo(t, c) implies visited(c, prefix@.push(i), false)
            == visited(c, prefix@, true) by {
            lemma_visited_ends(t, c, prefix@, i);
        }
        lemma_inv_equiv(t, *prios, best_view(*best), prefix@.push(i), false, prefix@, true);
    }
}

// ── Driver pairs ──────────────────────────────────────────────────────────────

/// A driver pair: up to two indices into the resolved drivers.
pub type DriverPair = (Option<usize>, Option<usize>);

/// The pairs that start with driver `i` and every later one, `i` alone
/// first, followed by those for `i + 1`, … `n - 1`.
pub open spec fn pairs_from(i: int, n: int) -> Seq<DriverPair>
    decreases n - i,
{
    if i >= n {
        Seq::empty()
    } else {
        seq![(Some(i as usize), None::<usize>)] + Seq::new(
            (n - i - 1) as nat,
            |j: int| (Some(i as usize), Some((i + 1 + j) as usize)),
        ) + pairs_from(i + 1, n)
    }
}

/// All pairs for `n` drivers: no driver, then each driver alone followed by
/// its pairs with every later driver.
pub open spec fn driver_pairs_spec(n: int) -> Seq<DriverPair> {
    seq![(None::<usize>, None::<usize>)] + pairs_from(0, n)
}

/// Every pair of `n` drivers names valid, distinct, increasing indices.
pub proof fn law_pairs_well_formed(i: int, n: int)
    requires
        0 <= i <= n <= usize::MAX,
    ensures
        forall|k: int|
            0 <= k < pairs_from(i, n).len() ==> {
                let p = #[trigger] pairs_from(i, n)[k];
                &&& p.0 is Some
                &&& i <= p.0->0 < n
                &&& p.1 is Some ==> p.0->0 < p.1->0 < n
            },
    decreases n - i,
{
    if i < n {
        law_pairs_well_formed(i + 1, n);
        let head = seq![(Some(i as usize), None::<usize>)];
        let mid = Seq::new((n - i - 1) as nat, |j: int| (Some(i as usize), Some((i + 1 + j) as usize)));
        let rest = pairs_from(i + 1, n);
        assert forall|k: int| 0 <= k < pairs_from(i, n).len() implies {
            let p = #[trigger] pairs_from(i, n)[k];
            &&& p.0 is Some
            &&& i <= p.0->0 < n
            &&& p.1 is Some ==> p.0->0 < p.1->0 < n
        } by {
            if k < 1 {
                assert(pairs_from(i, n)[k] == head[k]);
            } else if k < 1 + mid.len() {
                assert(pairs_from(i, n)[k] == mid[k - 1]);
            } else {
                assert(pairs_from(i, n)[k] == rest[k - 1 - mid.len()]);
            }
        }
    }
}

/// All driver pairs to consider: the empty pair, then each driver alone
/// and with every later driver.
pub fn build_driver_pairs(resolved_drivers: &[ResolvedDriver]) -> (r: Vec<DriverPair>)
    ensures
        r@ == driver_pairs_spec(resolved_drivers@.len() as int),
{
    let n = resolved_drivers.len();
    let mut pairs: Vec<DriverPair> = Vec::new();
    pairs.push((None, None));
    let mut i: usize = 0;
    while i < n
        invariant
            n == resolved_drivers@.len(),
            0 <= i <= n,
            pairs@ + pairs_from(i as int, n as int) == driver_pairs_spec(n as int),
        decreases n - i,
    {
        let ghost before = pairs@;
        pairs.push((Some(i), None));
        let mut j: usize = i + 1;
        while j < n
            invariant
                n == resolved_drivers@.len(),
                i < n,
                i + 1 <= j <= n,
                pairs@ == before + seq![(Some(i), None::<usize>)] + Seq::new(
                    (j - i - 1) as nat,
                    |m: int| (Some(i), Some((i + 1 + m) as usize)),
                ),
            decreases n - j,
        {
            pairs.push((Some(i), Some(j)));
            assert(Seq::new((j + 1 - i - 1) as nat, |m: int| (Some(i), Some((i + 1 + m) as usize)))
                =~= Seq::new((j - i - 1) as nat, |m: int| (Some(i), Some((i + 1 + m) as usize))).push(
                (Some(i), Some(j)),
            ));
            j = j + 1;
        }
        assert(pairs@ + pairs_from(i + 1, n as int) =~= before + pairs_from(i as int, n as int));
        i = i + 1;
    }
    assert(pairs_from(n as int, n as int) =~= Seq::<DriverPair>::empty());
    assert(pairs@ =~= pairs@ + pairs_from(n as int, n as int));
    pairs
}

/// The combined stats of a pair, added from zero: first driver, then second.
pub open spec fn pair_stats(rd: Seq<DriverStats>, pair: DriverPair) -> DriverStats {
    let s1 = match pair.0 {
        Some(i) => DriverStats::zero().add_spec(rd[i as int]),
        None => DriverStats::zero(),
    };
    match pair.1 {
        Some(i) => s1.add_spec(rd[i as int]),
        None => s1,
    }
}

/// The pair names resolved drivers, and summing and scoring it does not overflow.
pub open spec fn pair_ok(rd: Seq<DriverStats>, pair: DriverPair, dp: DriverPriorities) -> bool {
    let s1 = match pair.0 {
        Some(i) => DriverStats::zero().add_spec(rd[i as int]),
        None => DriverStats::zero(),
    };
    &&& (pair.0 is Some ==> pair.0->0 < rd.len())
    &&& (pair.1 is Some ==> pair.1->0 < rd.len() && s1.can_add(rd[pair.1->0 as int]))
    &&& driver_score_fits(pair_stats(rd, pair), dp)
}

/// The stats of the resolved drivers.
pub open spec fn driver_table(rd: Seq<ResolvedDriver>) -> Seq<DriverStats> {
    rd.map_values(|d: ResolvedDriver| d.stats)
}

/// Score of pair `j`.
pub open spec fn pair_score(
    rd: Seq<DriverStats>,
    pairs: Seq<DriverPair>,
    j: int,
    dp: DriverPriorities,
) -> (int, int) {
    driver_score(pair_stats(rd, pairs[j]), dp)
}

/// `j` is the chosen pair: none scores higher and every later pair scores
/// strictly lower (the last of the best pairs wins).
pub open spec fn is_best_pair(
    rd: Seq<DriverStats>,
    pairs: Seq<DriverPair>,
    j: int,
    dp: DriverPriorities,
) -> bool {
    &&& 0 <= j < pairs.len()
    &&& forall|m: int|
        0 <= m < pairs.len() ==> !score_gt(
            #[trigger] pair_score(rd, pairs, m, dp),
            pair_score(rd, pairs, j, dp),
        )
    &&& forall|m: int|
        j < m < pairs.len() ==> score_gt(
            pair_score(rd, pairs, j, dp),
            #[trigger] pair_score(rd, pairs, m, dp),
        )
}

fn pair_stats_exec(
    rd: &[ResolvedDriver],
    pair: DriverPair,
    Ghost(dp): Ghost<DriverPriorities>,
) -> (r: DriverStats)
    requires
        pair_ok(driver_table(rd@), pair, dp),
    ensures
        r == pair_stats(driver_table(rd@), pair),
{
    let mut ds = DriverStats::default();
    if let Some(i) = pair.0 {
        ds = ds.add(&rd[i].stats);
    }
    if let Some(i) = pair.1 {
        ds = ds.add(&rd[i].stats);
    }
    ds
}

/// Index of the best pair (the last one among equals).
fn best_pair_index(
    driver_pairs: &[DriverPair],
    rd: &[ResolvedDriver],
    dp: &DriverPriorities,
) -> (r: usize)
    requires
        driver_pairs@.len() > 0,
        forall|j: int| 0 <= j < driver_pairs@.len() ==> pair_ok(driver_table(rd@), #[trigger] driver_pairs@[j], *dp),
    ensures
        is_best_pair(driver_table(rd@), driver_pairs@, r as int, *dp),
{
    let ghost tab = driver_table(rd@);
    let mut best_j: usize = 0;
    let mut best_s: (i32, i32) = (0, 0);
    let mut j: usize = 0;
    while j < driver_pairs.len()
        invariant
            tab == driver_table(rd@),
            forall|m: int| 0 <= m < driver_pairs@.len() ==> pair_ok(tab, #[trigger] driver_pairs@[m], *dp),
            0 <= j <= driver_pairs@.len(),
            j > 0 ==> best_j < j,
            j > 0 ==> (best_s.0 as int, best_s.1 as int) == pair_score(tab, driver_pairs@, best_j as int, *dp),
            forall|m: int| 0 <= m < j ==> !score_gt(
                #[trigger] pair_score(tab, driver_pairs@, m, *dp),
                (best_s.0 as int, best_s.1 as int),
            ),
            forall|m: int| best_j < m < j ==> score_gt(
                (best_s.0 as int, best_s.1 as int),
                #[trigger] pair_score(tab, driver_pairs@, m, *dp),
            ),
        decreases driver_pairs@.len() - j,
    {
        let ds = pair_stats_exec(rd, driver_pairs[j], Ghost(*dp));
        let sc = dp.score(&ds);
        let beaten = best_s.0 > sc.0 || (best_s.0 == sc.0 && best_s.1 > sc.1);
        if j == 0 || !beaten {
            best_j = j;
            best_s = sc;
        }
        j = j + 1;
    }
    best_j
}

/// The result of the optimizer.
pub struct OptimizeResult {
    pub part_picks: Vec<(PartCategory, InventoryItem, Stats)>,
    pub driver1: Option<(DriverInventoryItem, DriverStats)>,
    pub driver2: Option<(DriverInventoryItem, DriverStats)>,
    pub total_parts: Stats,
    pub total_drivers: DriverStats,
}

/// Number of part combinations: the product of the category sizes.
pub open spec fn combo_count(ppc: Seq<Vec<ResolvedPart>>) -> int
    decreases ppc.len(),
{
    if ppc.len() == 0 {
        1
    } else {
        combo_count(ppc.drop_last()) * ppc.last()@.len()
    }
}

/// Every category offers at least one part.
pub open spec fn all_categories_filled(ppc: Seq<Vec<ResolvedPart>>) -> bool {
    forall|k: int| 0 <= k < ppc.len() ==> #[trigger] ppc[k]@.len() > 0
}

/// The driver entry the result reports for a pair slot.
pub open spec fn driver_entry(
    rd: Seq<ResolvedDriver>,
    slot: Option<usize>,
) -> Option<(DriverInventoryItem, DriverStats)> {
    match slot {
        Some(i) => Some((rd[i as int].item, rd[i as int].stats)),
        None => None,
    }
}

/// The optimizer result reports the combination `c` and the pair `j`.
pub open spec fn reports(
    r: OptimizeResult,
    ppc: Seq<Vec<ResolvedPart>>,
    categories: Seq<PartCategory>,
    rd: Seq<ResolvedDriver>,
    pairs: Seq<DriverPair>,
    c: Seq<usize>,
    j: int,
) -> bool {
    &&& r.part_picks@.len() == c.len()
    &&& forall|k: int|
        0 <= k < c.len() ==> #[trigger] r.part_picks@[k] == (
            categories[k],
            ppc[k]@[c[k] as int].item,
            ppc[k]@[c[k] as int].stats,
        )
    &&& r.total_parts == combo_stats(stats_table(ppc), c, c.len() as int)
    &&& r.driver1 == driver_entry(rd, pairs[j].0)
    &&& r.driver2 == driver_entry(rd, pairs[j].1)
    &&& r.total_drivers == pair_stats(driver_table(rd), pairs[j])
}

/// Run the brute-force optimizer with the given part and driver priorities.
/// Returns `None` if any category has no available parts. Otherwise the
/// part combination is the first, in lexicographic order of the part
/// indices, with the highest part score, total performance breaking ties,
/// and the driver pair is the last
/// with the highest driver score; part and driver choices are independent.
pub fn run_brute_force(
    parts_per_cat: &[Vec<ResolvedPart>],
    categories: &[PartCategory],
    driver_pairs: &[DriverPair],
    resolved_drivers: &[ResolvedDriver],
    part_priorities: &StatPriorities,
    driver_priorities: &DriverPriorities,
) -> (r: Option<OptimizeResult>)
    requires
        parts_per_cat@.len() == categories@.len(),
        all_categories_filled(parts_per_cat@) ==> combo_count(parts_per_cat@) <= usize::MAX,
        all_categories_filled(parts_per_cat@) ==> driver_pairs@.len() > 0,
        all_combos_fit(stats_table(parts_per_cat@), *part_priorities),
        forall|j: int|
            0 <= j < driver_pairs@.len() ==> pair_ok(
                driver_table(resolved_drivers@),
                #[trigger] driver_pairs@[j],
                *driver_priorities,
            ),
    ensures
        r is None <==> !all_categories_filled(parts_per_cat@),
        r matches Some(res) ==> exists|c: Seq<usize>, j: int|
            is_best_combo(stats_table(parts_per_cat@), c, *part_priorities) && is_best_pair(
                driver_table(resolved_drivers@),
                driver_pairs@,
                j,
                *driver_priorities,
            ) && reports(
                res,
                parts_per_cat@,
                categories@,
                resolved_drivers@,
                driver_pairs@,
                c,
                j,
            ),
{
    let ghost t = stats_table(parts_per_cat@);
    let mut k: usize = 0;
    while k < parts_per_cat.len()
        invariant
            0 <= k <= parts_per_cat@.len(),
            forall|m: int| 0 <= m < k ==> #[trigger] parts_per_cat@[m]@.len() > 0,
        decreases parts_per_cat@.len() - k,
    {
        if parts_per_cat[k].len() == 0 {
            return None;
        }
        k = k + 1;
    }
    // Step 1: the best part combination.
    let mut prefix: Vec<usize> = Vec::new();
    let mut best: Option<(Vec<usize>, (i32, i32, i32))> = None;
    proof {
        assert(valid_prefix(t, prefix@));
        assert forall|c: Seq<usize>| #[trigger] valid_combo(t, c) implies !visited(c, prefix@, false) by {
            assert(c.take(0) =~= Seq::<usize>::empty());
        }
    }
    search(parts_per_cat, part_priorities, &mut prefix, Stats::default(), &mut best);
    let ghost zeros = complete_with_zeros(t, Seq::<usize>::empty());
    proof {
        lemma_completion(t, Seq::<usize>::empty());
        assert(zeros.take(0) =~= Seq::<usize>::empty());
        assert(visited(zeros, Seq::<usize>::empty(), true));
    }
    let best_c: Vec<usize> = match best {
        Some(b) => b.0,
        None => {
            assert(false);
            Vec::new()
        },
    };
    let ghost c = best_c@;
    proof {
        assert forall|d: Seq<usize>| #[trigger] valid_combo(t, d) implies visited(d, Seq::<usize>::empty(), true) by {
            assert(d.take(0) =~= Seq::<usize>::empty());
        }
        assert(is_best_combo(t, c, *part_priorities));
        assert(combo_fits(t, c));
    }
    // Step 2: the best driver pair (independent of the part choice).
    let best_dp_idx = best_pair_index(driver_pairs, resolved_drivers, driver_priorities);
    // Build the result.
    let n = categories.len();
    let mut picks: Vec<(PartCategory, InventoryItem, Stats)> = Vec::new();
    let mut ts = Stats::default();
    let mut ci: usize = 0;
    while ci < n
        invariant
            t == stats_table(parts_per_cat@),
            n == categories@.len(),
            n == parts_per_cat@.len(),
            best_c@ == c,
            valid_combo(t, c),
            combo_fits(t, c),
            0 <= ci <= n,
            picks@.len() == ci,
            forall|m: int|
                0 <= m < ci ==> #[trigger] picks@[m] == (
                    categories@[m],
                    parts_per_cat@[m]@[c[m] as int].item,
                    parts_per_cat@[m]@[c[m] as int].stats,
                ),
            ts == combo_stats(t, c, ci as int),
        decreases n - ci,
    {
        let pi = best_c[ci];
        let rp = &parts_per_cat[ci][pi];
        assert(t[ci as int][pi as int] == rp.stats);
        assert(combo_stats(t, c, ci as int).can_add(t[ci as int][c[ci as int] as int]));
        ts = ts.add(&rp.stats);
        picks.push((categories[ci], rp.item.clone(), rp.stats));
        ci = ci + 1;
    }
    let (d1_idx, d2_idx) = driver_pairs[best_dp_idx];
    let ghost pair = driver_pairs@[best_dp_idx as int];
    let driver1 = match d1_idx {
        Some(i) => Some((resolved_drivers[i].item.clone(), resolved_drivers[i].stats)),
        None => None,
    };
    let driver2 = match d2_idx {
        Some(i) => Some((resolved_drivers[i].item.clone(), resolved_drivers[i].stats)),
        None => None,
    };
    let ds = pair_stats_exec(resolved_drivers, (d1_idx, d2_idx), Ghost(*driver_priorities));
    let res = OptimizeResult {
        part_picks: picks,
        driver1,
        driver2,
        total_parts: ts,
        total_drivers: ds,
    };
    assert(reports(
        res,
        parts_per_cat@,
        categories@,
        resolved_drivers@,
        driver_pairs@,
        c,
        best_dp_idx as int,
    ));
    Some(res)
}

/// Ranking a candidate by its part rank, then its driver score, the optimizer's independent choices are jointly
/// optimal: no combination and pair together beat the chosen ones.
pub proof fn law_joint_optimum(
    t: Seq<Seq<Stats>>,
    p: StatPriorities,
    c: Seq<usize>,
    rd: Seq<DriverStats>,
    pairs: Seq<DriverPair>,
    j: int,
    dp: DriverPriorities,
    c2: Seq<usize>,
    j2: int,
)
    requires
        is_best_combo(t, c, p),
        is_best_pair(rd, pairs, j, dp),
        valid_combo(t, c2),
        0 <= j2 < pairs.len(),
    ensures
        !rank_gt(combo_rank(t, c2, p), combo_rank(t, c, p)),
        combo_rank(t, c2, p) == combo_rank(t, c, p) ==> !score_gt(
            pair_score(rd, pairs, j2, dp),
            pair_score(rd, pairs, j, dp),
        ),
{
    assert(valid_combo(t, c2));
    assert(!score_gt(pair_score(rd, pairs, j2, dp), pair_score(rd, pairs, j, dp)));
}

// ── Bounds that rule out overflow ─────────────────────────────────────────────

/// Every field of `s` lies within `-b..=b`.
pub open spec fn stats_within(s: Stats, b: int) -> bool {
    -b <= s.speed <= b && -b <= s.cornering <= b && -b <= s.power_unit <= b && -b <= s.qualifying
        <= b && -b <= s.pit_stop_hundredths <= b && -b <= s.additional_stat_value <= b
}

/// Every part of the table lies within `-b..=b`.
pub open spec fn table_within(t: Seq<Seq<Stats>>, b: int) -> bool {
    forall|k: int, i: int| 0 <= k < t.len() && 0 <= i < t[k].len() ==> stats_within(#[trigger] t[k][i], b)
}

proof fn lemma_combo_within(t: Seq<Seq<Stats>>, c: Seq<usize>, k: int, b: int)
    requires
        valid_combo(t, c),
        table_within(t, b),
        0 <= b,
        0 <= k <= t.len(),
        t.len() * b <= 200_000_000,
    ensures
        stats_within(combo_stats(t, c, k), k * b),
        k < t.len() ==> combo_stats(t, c, k).can_add(t[k][c[k] as int]),
    decreases k,
{
    assert(k * b <= t.len() * b) by (nonlinear_arith)
        requires
            0 <= k <= t.len(),
            0 <= b,
    ;
    if k > 0 {
        lemma_combo_within(t, c, k - 1, b);
        assert((k - 1) * b + b == k * b) by (nonlinear_arith);
        assert(stats_within(t[k - 1][c[k - 1] as int], b));
    }
    if k < t.len() {
        assert(stats_within(t[k][c[k] as int], b));
        assert(k * b + b == (k + 1) * b) by (nonlinear_arith);
        assert((k + 1) * b <= t.len() * b) by (nonlinear_arith)
            requires
                0 <= k + 1 <= t.len(),
                0 <= b,
        ;
    }
}

proof fn lemma_sum_append_opt(x: Seq<int>, on: bool, v: int)
    ensures
        seq_sum(x + (if on { seq![v] } else { Seq::<int>::empty() })) == seq_sum(x) + (if on {
            v
        } else {
            0
        }),
{
    if on {
        assert(x + seq![v] =~= x.push(v));
        lemma_min_sum_push(x, v);
    } else {
        assert(x + Seq::<int>::empty() =~= x);
    }
}

/// The selected driver values sum to the selected fields.
pub proof fn lemma_selected_driver_sum(s: DriverStats, p: DriverPriorities)
    ensures
        seq_sum(selected_driver_values(s, p)) == (if p.overtaking { s.overtaking as int } else { 0 })
            + (if p.defending { s.defending as int } else { 0 }) + (if p.qualifying {
            s.qualifying as int
        } else {
            0
        }) + (if p.race_start { s.race_start as int } else { 0 }) + (if p.tyre_management {
            s.tyre_management as int
        } else {
            0
        }),
{
    let e = Seq::<int>::empty();
    let a = if p.overtaking { seq![s.overtaking as int] } else { e };
    let b = if p.defending { seq![s.defending as int] } else { e };
    let c = if p.qualifying { seq![s.qualifying as int] } else { e };
    let d = if p.race_start { seq![s.race_start as int] } else { e };
    lemma_sum_append_opt(e, p.overtaking, s.overtaking as int);
    assert(e + a =~= a);
    lemma_sum_append_opt(a, p.defending, s.defending as int);
    lemma_sum_append_opt(a + b, p.qualifying, s.qualifying as int);
    lemma_sum_append_opt(a + b + c, p.race_start, s.race_start as int);
    lemma_sum_append_opt(a + b + c + d, p.tyre_management, s.tyre_management as int);
}

/// The selected part values sum to the selected fields.
proof fn lemma_selected_part_sum(s: Stats, p: StatPriorities)
    ensures
        seq_sum(selected_part_values(s, p)) == (if p.speed { s.speed as int } else { 0 }) + (
        if p.cornering {
            s.cornering as int
        } else {
            0
        }) + (if p.power_unit { s.power_unit as int } else { 0 }) + (if p.qualifying {
            s.qualifying as int
        } else {
            0
        }),
{
    let e = Seq::<int>::empty();
    let a = if p.speed { seq![s.speed as int] } else { e };
    let b = if p.cornering { seq![s.cornering as int] } else { e };
    let c = if p.power_unit { seq![s.power_unit as int] } else { e };
    let d = if p.qualifying { seq![s.qualifying as int] } else { e };
    lemma_sum_append_opt(e, p.speed, s.speed as int);
    assert(e + a =~= a);
    lemma_sum_append_opt(a, p.cornering, s.cornering as int);
    lemma_sum_append_opt(a + b, p.power_unit, s.power_unit as int);
    lemma_sum_append_opt(a + b + c, p.qualifying, s.qualifying as int);
}

/// Scores of a part total whose fields lie within `-m..=m`.
proof fn lemma_part_score_within(s: Stats, p: StatPriorities, m: int)
    requires
        stats_within(s, m),
        0 <= m <= 200_000_000,
    ensures
        part_score_fits(s, p),
        -1_000_000_000 <= part_score(s, p).0 <= 1_000_000_000,
        -1_000_000_000 <= part_score(s, p).1 <= 1_000_000_000,
{
    lemma_selected_part_sum(s, p);
    let q = selected_part_values(s, p);
    if p.any() {
        assert(q.len() > 0);
        law_min_is_least(q);
        let i = choose|i: int| 0 <= i < q.len() && q[i] == seq_min(q);
        assert forall|j: int| 0 <= j < q.len() implies -m <= #[trigger] q[j] <= m by {
            let e = Seq::<int>::empty();
            let a = if p.speed { seq![s.speed as int] } else { e };
            let b = if p.cornering { seq![s.cornering as int] } else { e };
            let c = if p.power_unit { seq![s.power_unit as int] } else { e };
            let d = if p.qualifying { seq![s.qualifying as int] } else { e };
            assert(q == a + b + c + d);
            if j < a.len() {
                assert(q[j] == a[j]);
            } else if j < a.len() + b.len() {
                assert(q[j] == b[j - a.len()]);
            } else if j < a.len() + b.len() + c.len() {
                assert(q[j] == c[j - a.len() - b.len()]);
            } else {
                assert(q[j] == d[j - a.len() - b.len() - c.len()]);
            }
        }
        assert(-m <= q[i] <= m);
    }
}

/// When every part lies within `-b..=b` and the categories times `b` stay
/// at most 200 000 000, no combination overflows, and every score lies
/// within ±1 000 000 000.
pub proof fn lemma_table_fits(t: Seq<Seq<Stats>>, p: StatPriorities, b: int)
    requires
        table_within(t, b),
        0 <= b,
        t.len() * b <= 200_000_000,
    ensures
        all_combos_fit(t, p),
        forall|c: Seq<usize>| #[trigger]
            valid_combo(t, c) ==> -1_000_000_000 <= combo_score(t, c, p).0 <= 1_000_000_000
                && -1_000_000_000 <= combo_score(t, c, p).1 <= 1_000_000_000,
{
    assert forall|c: Seq<usize>| #[trigger] valid_combo(t, c) implies combo_fits(t, c)
        && part_score_fits(combo_stats(t, c, t.len() as int), p) && -1_000_000_000 <= combo_score(
        t,
        c,
        p,
    ).0 <= 1_000_000_000 && -1_000_000_000 <= combo_score(t, c, p).1 <= 1_000_000_000 by {
        assert forall|k: int| 0 <= k < t.len() implies #[trigger] combo_stats(t, c, k).can_add(
            t[k][c[k] as int],
        ) by {
            lemma_combo_within(t, c, k, b);
        }
        lemma_combo_within(t, c, t.len() as int, b);
        lemma_part_score_within(combo_stats(t, c, t.len() as int), p, t.len() * b);
    }
}

// ── Pruning ───────────────────────────────────────────────────────────────────

/// How many parts a category keeps for the search.
pub const POOL_CAP: usize = 10;

/// Index of the first element with the largest key (0 for an empty
/// sequence).
pub open spec fn best_index<A>(s: Seq<A>, key: spec_fn(A) -> int) -> int
    decreases s.len(),
{
    if s.len() <= 1 {
        0
    } else {
        let b = best_index(s.drop_last(), key);
        if key(s.last()) > key(s[b]) {
            s.len() - 1
        } else {
            b
        }
    }
}

/// The `k` elements with the largest keys, largest first; of equal keys the
/// earlier comes first.
pub open spec fn top_by<A>(s: Seq<A>, key: spec_fn(A) -> int, k: nat) -> Seq<A>
    decreases k,
{
    if k == 0 || s.len() == 0 {
        Seq::empty()
    } else {
        let m = best_index(s, key);
        seq![s[m]] + top_by(s.remove(m), key, (k - 1) as nat)
    }
}

/// The key parts are pruned by: their total performance.
pub open spec fn part_total_key() -> spec_fn(ResolvedPart) -> int {
    |rp: ResolvedPart| rp.stats.total_spec()
}

/// The same key on bare stats.
pub open spec fn stats_total_key() -> spec_fn(Stats) -> int {
    |s: Stats| s.total_spec()
}

/// A category's pool as the search sees it: the `POOL_CAP` parts with the
/// highest total performance, highest first, ties in pool order.
pub open spec fn pruned(s: Seq<ResolvedPart>) -> Seq<ResolvedPart> {
    top_by(s, part_total_key(), POOL_CAP as nat)
}

pub proof fn lemma_best_index_range<A>(s: Seq<A>, key: spec_fn(A) -> int)
    requires
        s.len() > 0,
    ensures
        0 <= best_index(s, key) < s.len(),
        forall|j: int| 0 <= j < s.len() ==> key(#[trigger] s[j]) <= key(s[best_index(s, key)]),
        forall|j: int| 0 <= j < best_index(s, key) ==> key(#[trigger] s[j]) < key(s[best_index(s, key)]),
    decreases s.len(),
{
    if s.len() > 1 {
        let d = s.drop_last();
        lemma_best_index_range(d, key);
        assert forall|j: int| 0 <= j < d.len() implies d[j] == s[j] by {}
    }
}

/// Pruning keeps at most `POOL_CAP` parts, and every kept part comes from
/// the pool.
pub proof fn law_top_by_bounded<A>(s: Seq<A>, key: spec_fn(A) -> int, k: nat)
    ensures
        top_by(s, key, k).len() == if s.len() < k { s.len() } else { k },
        forall|i: int| 0 <= i < top_by(s, key, k).len() ==> s.contains(#[trigger] top_by(s, key, k)[i]),
    decreases k,
{
    if k > 0 && s.len() > 0 {
        let m = best_index(s, key);
        lemma_best_index_range(s, key);
        let rest = s.remove(m);
        law_top_by_bounded(rest, key, (k - 1) as nat);
        let t = top_by(s, key, k);
        assert forall|i: int| 0 <= i < t.len() implies s.contains(#[trigger] t[i]) by {
            if i == 0 {
                assert(s[m] == t[0]);
            } else {
                let x = t[i];
                assert(x == top_by(rest, key, (k - 1) as nat)[i - 1]);
                assert(rest.contains(x));
                let j = choose|j: int| 0 <= j < rest.len() && rest[j] == x;
                if j < m {
                    assert(s[j] == x);
                } else {
                    assert(s[j + 1] == x);
                }
            }
        }
    }
}

/// Choosing by a key of the mapped values is choosing by the composed key.
proof fn lemma_best_index_map<A, B>(s: Seq<A>, f: spec_fn(A) -> B, kb: spec_fn(B) -> int, ka: spec_fn(A) -> int)
    requires
        forall|x: A| #[trigger] ka(x) == kb(f(x)),
    ensures
        best_index(s.map_values(f), kb) == best_index(s, ka),
    decreases s.len(),
{
    if s.len() > 1 {
        assert(s.map_values(f).drop_last() =~= s.drop_last().map_values(f));
        lemma_best_index_map(s.drop_last(), f, kb, ka);
        let b = best_index(s.drop_last(), ka);
        if s.drop_last().len() > 0 {
            lemma_best_index_range(s.drop_last(), ka);
        }
        assert(s.map_values(f)[b] == f(s[b]));
        assert(ka(s[b]) == kb(f(s[b])));
        assert(ka(s.last()) == kb(f(s.last())));
    }
}

/// Pruning commutes with mapping the parts to a view whose key agrees.
pub proof fn lemma_top_by_map<A, B>(
    s: Seq<A>,
    f: spec_fn(A) -> B,
    kb: spec_fn(B) -> int,
    ka: spec_fn(A) -> int,
    k: nat,
)
    requires
        forall|x: A| #[trigger] ka(x) == kb(f(x)),
    ensures
        top_by(s.map_values(f), kb, k) == top_by(s, ka, k).map_values(f),
    decreases k,
{
    if k > 0 && s.len() > 0 {
        lemma_best_index_map(s, f, kb, ka);
        let m = best_index(s, ka);
        lemma_best_index_range(s, ka);
        assert(s.map_values(f).remove(m) =~= s.remove(m).map_values(f));
        lemma_top_by_map(s.remove(m), f, kb, ka, (k - 1) as nat);
        let lhs = top_by(s.map_values(f), kb, k);
        let rhs = top_by(s, ka, k).map_values(f);
        assert(lhs =~= rhs);
    } else {
        assert(top_by(s.map_values(f), kb, k) =~= top_by(s, ka, k).map_values(f));
    }
}

fn best_part_index(v: &Vec<ResolvedPart>) -> (r: usize)
    requires
        v@.len() > 0,
    ensures
        r as int == best_index(v@, part_total_key()),
        r < v@.len(),
{
    let ghost key = part_total_key();
    let mut b: usize = 0;
    let mut bk: i64 = v[0].stats.total_wide();
    let mut i: usize = 1;
    assert(v@.take(1).len() == 1);
    while i < v.len()
        invariant
            key == part_total_key(),
            1 <= i <= v@.len(),
            b < i,
            b as int == best_index(v@.take(i as int), key),
            bk == key(v@[b as int]),
        decreases v@.len() - i,
    {
        let ghost s = v@.take(i as int + 1);
        assert(s.drop_last() =~= v@.take(i as int));
        assert(s.last() == v@[i as int]);
        assert(s[b as int] == v@[b as int]);
        let k = v[i].stats.total_wide();
        if k > bk {
            b = i;
            bk = k;
        }
        i = i + 1;
    }
    assert(v@.take(v@.len() as int) =~= v@);
    b
}

/// Caps a category's candidates at `POOL_CAP`, keeping those with the
/// highest total performance, highest first; of equal totals the earlier
/// stays first.
pub fn prune_category(parts: Vec<ResolvedPart>) -> (r: Vec<ResolvedPart>)
    ensures
        r@ == pruned(parts@),
{
    let ghost key = part_total_key();
    let mut rest = parts;
    let mut out: Vec<ResolvedPart> = Vec::new();
    let mut taken: usize = 0;
    while taken < POOL_CAP && rest.len() > 0
        invariant
            key == part_total_key(),
            taken <= POOL_CAP,
            out@ + top_by(rest@, key, (POOL_CAP - taken) as nat) == top_by(parts@, key, POOL_CAP as nat),
        decreases POOL_CAP - taken,
    {
        let m = best_part_index(&rest);
        let ghost before = rest@;
        let p = rest.remove(m);
        assert(top_by(before, key, (POOL_CAP - taken) as nat) == seq![before[m as int]] + top_by(
            rest@,
            key,
            (POOL_CAP - taken - 1) as nat,
        ));
        let ghost prev = out@;
        out.push(p);
        assert(out@ + top_by(rest@, key, (POOL_CAP - taken - 1) as nat) =~= prev + (seq![before[m as int]]
            + top_by(rest@, key, (POOL_CAP - taken - 1) as nat)));
        taken = taken + 1;
    }
    assert(top_by(rest@, key, (POOL_CAP - taken) as nat) =~= Seq::<ResolvedPart>::empty());
    assert(out@ =~= out@ + Seq::<ResolvedPart>::empty());
    out
}

} // verus!
