//! Car parts: categories, stats, per-level stats and catalog definitions.
//!
//! Pit stop times are held in hundredths of a second (`100` is 1.00 s).

use vstd::prelude::*;

use crate::binary64::{ceil_of, floor_of, lemma_round_ratio, round_ratio, round_ratio_exec};
use crate::data::{scale_up, two52, two53, StatPriorities};
use crate::find::lemma_least_exists;
use crate::text::str_eq;

verus! {

/// Car part categories in F1 Clash.
#[derive(Debug, Clone, Copy, PartialEq, Eq, PartialOrd, Ord, Hash, Structural)]
pub enum PartCategory {
    FrontWing,
    Brakes,
    Suspension,
    RearWing,
    Gearbox,
    Engine,
    Battery,
}

impl PartCategory {
    /// Position of the category in the canonical order.
    pub open spec fn rank(self) -> int {
        match self {
            PartCategory::FrontWing => 0,
            PartCategory::Brakes => 1,
            PartCategory::Suspension => 2,
            PartCategory::RearWing => 3,
            PartCategory::Gearbox => 4,
            PartCategory::Engine => 5,
            PartCategory::Battery => 6,
        }
    }

    pub open spec fn display_name_view(self) -> Seq<char> {
        match self {
            PartCategory::FrontWing => "Front Wing"@,
            PartCategory::Brakes => "Brakes"@,
            PartCategory::Suspension => "Suspension"@,
            PartCategory::RearWing => "Rear Wing"@,
            PartCategory::Gearbox => "Gearbox"@,
            PartCategory::Engine => "Engine"@,
            PartCategory::Battery => "Battery"@,
        }
    }

    pub open spec fn slug_view(self) -> Seq<char> {
        match self {
            PartCategory::FrontWing => "front_wing"@,
            PartCategory::Brakes => "brakes"@,
            PartCategory::Suspension => "suspension"@,
            PartCategory::RearWing => "rear_wing"@,
            PartCategory::Gearbox => "gearbox"@,
            PartCategory::Engine => "engine"@,
            PartCategory::Battery => "battery"@,
        }
    }

    /// The categories in canonical order.
    pub open spec fn all_spec() -> Seq<PartCategory> {
        seq![
            PartCategory::FrontWing,
            PartCategory::Brakes,
            PartCategory::Suspension,
            PartCategory::RearWing,
            PartCategory::Gearbox,
            PartCategory::Engine,
            PartCategory::Battery,
        ]
    }

    /// All known categories, in canonical order.
    pub fn all() -> (r: &'static [PartCategory])
        ensures
            r@ == PartCategory::all_spec(),
    {
        &[
            PartCategory::FrontWing,
            PartCategory::Brakes,
            PartCategory::Suspension,
            PartCategory::RearWing,
            PartCategory::Gearbox,
            PartCategory::Engine,
            PartCategory::Battery,
        ]
    }

    pub fn display_name(&self) -> (r: &'static str)
        ensures
            r@ == self.display_name_view(),
    {
        match self {
            PartCategory::FrontWing => "Front Wing",
            PartCategory::Brakes => "Brakes",
            PartCategory::Suspension => "Suspension",
            PartCategory::RearWing => "Rear Wing",
            PartCategory::Gearbox => "Gearbox",
            PartCategory::Engine => "Engine",
            PartCategory::Battery => "Battery",
        }
    }

    pub fn slug(&self) -> (r: &'static str)
        ensures
            r@ == self.slug_view(),
    {
        match self {
            PartCategory::FrontWing => "front_wing",
            PartCategory::Brakes => "brakes",
            PartCategory::Suspension => "suspension",
            PartCategory::RearWing => "rear_wing",
            PartCategory::Gearbox => "gearbox",
            PartCategory::Engine => "engine",
            PartCategory::Battery => "battery",
        }
    }

    /// The category whose slug is `s`, if any.
    pub open spec fn from_slug_spec(s: Seq<char>) -> Option<PartCategory> {
        if s == "front_wing"@ {
            Some(PartCategory::FrontWing)
        } else if s == "brakes"@ {
            Some(PartCategory::Brakes)
        } else if s == "suspension"@ {
            Some(PartCategory::Suspension)
        } else if s == "rear_wing"@ {
            Some(PartCategory::RearWing)
        } else if s == "gearbox"@ {
            Some(PartCategory::Gearbox)
        } else if s == "engine"@ {
            Some(PartCategory::Engine)
        } else if s == "battery"@ {
            Some(PartCategory::Battery)
        } else {
            None
        }
    }

    /// The category stored (and submitted) under the slug `s`.
    pub fn from_slug(s: &str) -> (r: Option<PartCategory>)
        ensures
            r == PartCategory::from_slug_spec(s@),
    {
        if str_eq(s, "front_wing") {
            Some(PartCategory::FrontWing)
        } else if str_eq(s, "brakes") {
            Some(PartCategory::Brakes)
        } else if str_eq(s, "suspension") {
            Some(PartCategory::Suspension)
        } else if str_eq(s, "rear_wing") {
            Some(PartCategory::RearWing)
        } else if str_eq(s, "gearbox") {
            Some(PartCategory::Gearbox)
        } else if str_eq(s, "engine") {
            Some(PartCategory::Engine)
        } else if str_eq(s, "battery") {
            Some(PartCategory::Battery)
        } else {
            None
        }
    }

    /// Whether two categories are the same.
    pub fn same_as(&self, other: &PartCategory) -> (r: bool)
        ensures
            r == (*self == *other),
    {
        self.rank_of() == other.rank_of()
    }

    /// Position of the category in the canonical order.
    pub fn rank_of(&self) -> (r: usize)
        ensures
            r == self.rank(),
    {
        match self {
            PartCategory::FrontWing => 0,
            PartCategory::Brakes => 1,
            PartCategory::Suspension => 2,
            PartCategory::RearWing => 3,
            PartCategory::Gearbox => 4,
            PartCategory::Engine => 5,
            PartCategory::Battery => 6,
        }
    }
}

/// Every category sits at its rank in the canonical list, which holds each
/// category exactly once.
pub proof fn law_all_categories_listed_once(c: PartCategory)
    ensures
        PartCategory::all_spec().len() == 7,
        PartCategory::all_spec()[c.rank()] == c,
        forall|i: int| 0 <= i < 7 && PartCategory::all_spec()[i] == c ==> i == c.rank(),
{
}

/// A category's slug reads back as that category.
pub proof fn law_slug_round_trip(c: PartCategory)
    ensures
        PartCategory::from_slug_spec(c.slug_view()) == Some(c),
{
    reveal_strlit("front_wing");
    reveal_strlit("brakes");
    reveal_strlit("suspension");
    reveal_strlit("rear_wing");
    reveal_strlit("gearbox");
    reveal_strlit("engine");
    reveal_strlit("battery");
    let s = c.slug_view();
    // slugs differ in their first character, brakes and battery in their second
    assert(s[0] == 'f' ==> c == PartCategory::FrontWing);
    assert(s[0] == 'b' && s[1] == 'r' ==> c == PartCategory::Brakes);
    assert(s[0] == 's' ==> c == PartCategory::Suspension);
    assert(s[0] == 'r' ==> c == PartCategory::RearWing);
    assert(s[0] == 'g' ==> c == PartCategory::Gearbox);
    assert(s[0] == 'e' ==> c == PartCategory::Engine);
    assert(s[0] == 'b' && s[1] == 'a' ==> c == PartCategory::Battery);
    if s =~= "front_wing"@ {
        assert(s[0] == 'f');
    } else if s =~= "brakes"@ {
        assert(s[0] == 'b' && s[1] == 'r');
    } else if s =~= "suspension"@ {
        assert(s[0] == 's');
    } else if s =~= "rear_wing"@ {
        assert(s[0] == 'r');
    } else if s =~= "gearbox"@ {
        assert(s[0] == 'g');
    } else if s =~= "engine"@ {
        assert(s[0] == 'e');
    } else {
        assert(s[0] == 'b' && s[1] == 'a');
    }
}

/// Exact rounding of `n / 100` to the nearest integer, halves away from zero.
pub open spec fn round_div100(n: int) -> int {
    if n >= 0 {
        (n + 50) / 100
    } else {
        -((-n + 50) / 100)
    }
}

/// Exact rounding of `n / 10` to the nearest integer, halves away from zero.
pub open spec fn round_div10(n: int) -> int {
    if n >= 0 {
        (n + 5) / 10
    } else {
        -((-n + 5) / 10)
    }
}

/// `|x|`.
pub open spec fn magnitude(x: int) -> nat {
    if x < 0 {
        (-x) as nat
    } else {
        x as nat
    }
}

/// Saturates `x` to the range of `i32`, as a float-to-integer `as` cast does.
pub open spec fn sat_i32(x: int) -> int {
    if x > i32::MAX {
        i32::MAX as int
    } else if x < i32::MIN {
        i32::MIN as int
    } else {
        x
    }
}

/// `a × (p / 100)` with the division and the product each rounded to
/// binary64.
pub open spec fn bonus_magnitude(a: nat, p: nat) -> (nat, nat, nat) {
    let m = round_ratio(p, 100);
    round_ratio(a * m.0 * m.1, m.2)
}

/// The bonus of a `pct` percent boost on `v`: `v × (pct / 100)` computed in
/// binary64, rounded up to an integer and saturated to `i32`.
#[verifier::opaque]
pub open spec fn boost_bonus(v: int, pct: int) -> int {
    let x = bonus_magnitude(magnitude(v), magnitude(pct));
    if (v < 0) != (pct < 0) {
        sat_i32(-floor_of(x))
    } else {
        sat_i32(ceil_of(x))
    }
}

/// `v` increased by `pct` percent, the bonus rounded up.
pub open spec fn boost_stat(v: int, pct: int) -> int {
    v + boost_bonus(v, pct)
}

/// Whether `v` fits in an `i32`.
pub open spec fn fits_i32(v: int) -> bool {
    i32::MIN <= v <= i32::MAX
}

/// The bonus of a boost, as `boost_bonus` states it.
fn boost_bonus_exec(v: i32, pct: i32) -> (r: i64)
    ensures
        r == boost_bonus(v as int, pct as int),
        i32::MIN <= r <= i32::MAX,
{
    reveal(boost_bonus);
    let a: u128 = if v < 0 {
        (-(v as i64)) as u128
    } else {
        v as u128
    };
    let p: u128 = if pct < 0 {
        (-(pct as i64)) as u128
    } else {
        pct as u128
    };
    assert(a == magnitude(v as int) && p == magnitude(pct as int));
    let m = round_ratio_exec(p, 100);
    assert(p < two52() * 100);
    assert(m.1 == 1);
    assert(a * m.0 <= 0x20_0000_0000_0000_0000_0000u128) by (nonlinear_arith)
        requires
            a <= 2147483648,
            m.0 <= two53(),
    ;
    let n2: u128 = a * m.0 * m.1;
    assert(n2 == a * m.0);
    proof {
        lemma_round_ratio(p as nat, 100);
        lemma_round_ratio(n2 as nat, m.2 as nat);
    }
    let x = round_ratio_exec(n2, m.2);
    assert(x.0 * x.1 <= 0x40_0000_0000_0000_0000_0000u128) by (nonlinear_arith)
        requires
            x.0 <= two53(),
            x.1 <= 0x2_0000_0000u128,
    ;
    assert(x.2 <= 0x4_0000_0000_0000_0000_0000_0000_0000u128) by (nonlinear_arith)
        requires
            x.2 == 1 || x.2 <= two53() * m.2,
            m.2 <= two53() * 100,
    ;
    let t: u128 = x.0 * x.1;
    if (v < 0) != (pct < 0) {
        let f: u128 = t / x.2;
        if f > 2147483648 {
            -2147483648
        } else {
            -(f as i64)
        }
    } else {
        let c: u128 = (t + x.2 - 1) / x.2;
        if c > 2147483647 {
            2147483647
        } else {
            c as i64
        }
    }
}

/// `boost_stat`, computed without a bound on its size.
pub(crate) fn boost_wide(v: i32, pct: i32) -> (r: i64)
    ensures
        r == boost_stat(v as int, pct as int),
{
    v as i64 + boost_bonus_exec(v, pct)
}

pub(crate) fn fits_i32_exec(v: i64) -> (r: bool)
    ensures
        r == fits_i32(v as int),
{
    -2147483648i64 <= v && v <= 2147483647i64
}

pub fn boost_value(v: i32, pct: i32) -> (r: i32)
    requires
        fits_i32(boost_stat(v as int, pct as int)),
    ensures
        r == boost_stat(v as int, pct as int),
{
    (v as i64 + boost_bonus_exec(v, pct)) as i32
}

/// A 0 % boost adds nothing.
pub proof fn lemma_boost_by_zero(v: int)
    ensures
        boost_bonus(v, 0) == 0,
{
    reveal(boost_bonus);
    let m = round_ratio(0, 100);
    assert(scale_up(0, 1, two52() * 100) == (0nat, 1nat));
    assert(m == (0nat, 1nat, 1nat));
    assert(scale_up(0, 1, two52() * 1) == (0nat, 1nat));
    assert(bonus_magnitude(magnitude(v), 0) == (0nat, 1nat, 1nat)) by (nonlinear_arith)
        requires
            m == (0nat, 1nat, 1nat),
            m == round_ratio(0, 100),
            round_ratio(0, 1) == (0nat, 1nat, 1nat),
    ;
}

/// A positive boost of a positive stat adds at least one point.
pub proof fn lemma_boost_positive(v: int, pct: int)
    requires
        v > 0,
        pct > 0,
    ensures
        boost_bonus(v, pct) >= 1,
{
    reveal(boost_bonus);
    let m = round_ratio(pct as nat, 100);
    lemma_round_ratio(pct as nat, 100);
    let n2 = (v as nat) * m.0 * m.1;
    assert(n2 >= 1) by (nonlinear_arith)
        requires
            v >= 1,
            m.0 >= 1,
            m.1 >= 1,
            n2 == (v as nat) * m.0 * m.1,
    ;
    lemma_round_ratio(n2, m.2);
    let x = round_ratio(n2, m.2);
    assert(x.0 * x.1 >= 1) by (nonlinear_arith)
        requires
            x.0 >= 1,
            x.1 >= 1,
    ;
    assert(ceil_of(x) >= 1) by (nonlinear_arith)
        requires
            x.0 * x.1 >= 1,
            x.2 >= 1,
            ceil_of(x) == ((x.0 * x.1) as int + x.2 - 1) / (x.2 as int),
    ;
}

/// A stat within ±1 000 000 boosted by at most ±1000 % gains or loses at
/// most 10 000 001.
pub proof fn lemma_boost_bonus_bounded(v: int, pct: int)
    requires
        -1_000_000 <= v <= 1_000_000,
        -1000 <= pct <= 1000,
    ensures
        -10_000_001 <= boost_bonus(v, pct) <= 10_000_001,
{
    reveal(boost_bonus);
    let e = two52();
    let a = magnitude(v);
    let p = magnitude(pct);
    let m = round_ratio(p, 100);
    lemma_round_ratio(p, 100);
    let n2 = a * m.0 * m.1;
    lemma_round_ratio(n2, m.2);
    let x = round_ratio(n2, m.2);
    let t = x.0 * x.1;
    let l1 = m.0 * m.1 * 100 * e;
    let r1 = (e + 1) * p * m.2;
    let l2 = t * m.2 * e;
    let r2 = (e + 1) * n2 * x.2;
    assert(l1 <= r1);
    assert(l2 <= r2);
    assert(n2 * 100 * e == a * l1) by (nonlinear_arith)
        requires
            n2 == a * m.0 * m.1,
            l1 == m.0 * m.1 * 100 * e,
    ;
    assert(l2 * (100 * e) <= r2 * (100 * e)) by (nonlinear_arith)
        requires
            l2 <= r2,
    ;
    assert(r2 * (100 * e) == ((e + 1) * x.2 * a) * l1) by (nonlinear_arith)
        requires
            r2 == (e + 1) * n2 * x.2,
            n2 * 100 * e == a * l1,
    ;
    assert(((e + 1) * x.2 * a) * l1 <= ((e + 1) * x.2 * a) * r1) by (nonlinear_arith)
        requires
            l1 <= r1,
    ;
    let big = t * 100 * e * e;
    let rhs = (e + 1) * (e + 1) * (a * p) * x.2;
    assert(big * m.2 == l2 * (100 * e)) by (nonlinear_arith)
        requires
            l2 == t * m.2 * e,
            big == t * 100 * e * e,
    ;
    assert(rhs * m.2 == ((e + 1) * x.2 * a) * r1) by (nonlinear_arith)
        requires
            r1 == (e + 1) * p * m.2,
            rhs == (e + 1) * (e + 1) * (a * p) * x.2,
    ;
    assert(big <= rhs) by (nonlinear_arith)
        requires
            big * m.2 <= rhs * m.2,
            m.2 >= 1,
    ;
    assert(a * p <= 1_000_000_000) by (nonlinear_arith)
        requires
            a <= 1_000_000,
            p <= 1000,
    ;
    let c = (e + 1) * (e + 1);
    assert(c * 1_000_000_000 <= 100 * e * e * 10_000_001) by (nonlinear_arith)
        requires
            c == (e + 1) * (e + 1),
            e == 4503599627370496,
    ;
    assert(rhs <= (c * 1_000_000_000) * x.2) by (nonlinear_arith)
        requires
            rhs == c * (a * p) * x.2,
            a * p <= 1_000_000_000,
    ;
    assert((c * 1_000_000_000) * x.2 <= (100 * e * e) * (10_000_001 * x.2)) by (nonlinear_arith)
        requires
            c * 1_000_000_000 <= 100 * e * e * 10_000_001,
    ;
    assert((100 * e * e) * t <= (100 * e * e) * (10_000_001 * x.2));
    assert(t <= 10_000_001 * x.2) by (nonlinear_arith)
        requires
            (100 * e * e) * t <= (100 * e * e) * (10_000_001 * x.2),
            e >= 1,
    ;
    assert(ceil_of(x) <= 10_000_001 && floor_of(x) <= 10_000_001 && floor_of(x) >= 0) by (nonlinear_arith)
        requires
            t <= 10_000_001 * x.2,
            x.2 >= 1,
            ceil_of(x) == (t as int + x.2 - 1) / (x.2 as int),
            floor_of(x) == (t as int) / (x.2 as int),
    ;
    assert(ceil_of(x) >= 0) by (nonlinear_arith)
        requires
            x.2 >= 1,
            ceil_of(x) == (t as int + x.2 - 1) / (x.2 as int),
    ;
}

/// Stats that car parts contribute to a setup.
#[derive(Debug, Clone, Copy, PartialEq, Eq, Structural)]
pub struct Stats {
    pub speed: i32,
    pub cornering: i32,
    pub power_unit: i32,
    pub qualifying: i32,
    /// Pit stop time in hundredths of a second.
    pub pit_stop_hundredths: i32,
    /// Generic secondary stat (DRS, Overtake Mode, …). Not included in total_performance.
    pub additional_stat_value: i32,
}

impl Default for Stats {
    fn default() -> (r: Stats)
        ensures
            r == Stats::zero(),
    {
        Stats {
            speed: 0,
            cornering: 0,
            power_unit: 0,
            qualifying: 0,
            pit_stop_hundredths: 0,
            additional_stat_value: 0,
        }
    }
}

impl Stats {
    pub open spec fn zero() -> Stats {
        Stats {
            speed: 0,
            cornering: 0,
            power_unit: 0,
            qualifying: 0,
            pit_stop_hundredths: 0,
            additional_stat_value: 0,
        }
    }

    /// Points a pit stop time earns: 7 + 29 × (7 s − time), rounded.
    pub open spec fn pit_points(self) -> int {
        round_div100(21000 - 29 * self.pit_stop_hundredths)
    }

    pub open spec fn total_spec(self) -> int {
        self.speed + self.cornering + self.power_unit + self.qualifying + self.pit_points()
    }

    /// Field-wise sum.
    pub open spec fn sum(self, o: Stats) -> (int, int, int, int, int, int) {
        (
            self.speed + o.speed,
            self.cornering + o.cornering,
            self.power_unit + o.power_unit,
            self.qualifying + o.qualifying,
            self.pit_stop_hundredths + o.pit_stop_hundredths,
            self.additional_stat_value + o.additional_stat_value,
        )
    }

    pub open spec fn can_add(self, o: Stats) -> bool {
        let s = self.sum(o);
        fits_i32(s.0) && fits_i32(s.1) && fits_i32(s.2) && fits_i32(s.3) && fits_i32(s.4)
            && fits_i32(s.5)
    }

    pub open spec fn add_spec(self, o: Stats) -> Stats {
        let s = self.sum(o);
        Stats {
            speed: s.0 as i32,
            cornering: s.1 as i32,
            power_unit: s.2 as i32,
            qualifying: s.3 as i32,
            pit_stop_hundredths: s.4 as i32,
            additional_stat_value: s.5 as i32,
        }
    }

    /// The pit stop time after a `pct` percent boost: 0.7 s per 100 %
    /// shorter, in whole hundredths.
    pub open spec fn boosted_pit(self, pct: int) -> int {
        round_div10(10 * self.pit_stop_hundredths - 7 * pct)
    }

    pub open spec fn can_boost(self, pct: int) -> bool {
        fits_i32(boost_stat(self.speed as int, pct)) && fits_i32(
            boost_stat(self.cornering as int, pct),
        ) && fits_i32(boost_stat(self.power_unit as int, pct)) && fits_i32(
            boost_stat(self.qualifying as int, pct),
        ) && fits_i32(self.boosted_pit(pct))
    }

    pub open spec fn boosted_spec(self, pct: int) -> Stats {
        Stats {
            speed: boost_stat(self.speed as int, pct) as i32,
            cornering: boost_stat(self.cornering as int, pct) as i32,
            power_unit: boost_stat(self.power_unit as int, pct) as i32,
            qualifying: boost_stat(self.qualifying as int, pct) as i32,
            pit_stop_hundredths: self.boosted_pit(pct) as i32,
            additional_stat_value: self.additional_stat_value,
        }
    }

    /// The four performance stats plus the pit stop contribution; the
    /// additional stat is not counted.
    pub fn total_performance(&self) -> (r: i32)
        requires
            fits_i32(self.total_spec()),
        ensures
            r == self.total_spec(),
    {
        let n: i64 = 21000i64 - 29i64 * (self.pit_stop_hundredths as i64);
        let pit: i64 = if n >= 0 {
            (n + 50) / 100
        } else {
            -((-n + 50) / 100)
        };
        (self.speed as i64 + self.cornering as i64 + self.power_unit as i64
            + self.qualifying as i64 + pit) as i32
    }

    /// Whether boosting by `percentage` keeps every boosted stat within `i32`.
    pub fn boost_fits(&self, percentage: i32) -> (r: bool)
        ensures
            r == self.can_boost(percentage as int),
    {
        let n: i64 = 10i64 * (self.pit_stop_hundredths as i64) - 7i64 * (percentage as i64);
        let pit: i64 = if n >= 0 {
            (n + 5) / 10
        } else {
            -((-n + 5) / 10)
        };
        fits_i32_exec(boost_wide(self.speed, percentage)) && fits_i32_exec(boost_wide(self.cornering, percentage))
            && fits_i32_exec(boost_wide(self.power_unit, percentage)) && fits_i32_exec(
            boost_wide(self.qualifying, percentage),
        ) && fits_i32_exec(pit)
    }

    /// The total performance, computed without a bound on its size.
    pub fn total_wide(&self) -> (r: i64)
        ensures
            r == self.total_spec(),
    {
        let n: i64 = 21000i64 - 29i64 * (self.pit_stop_hundredths as i64);
        let pit: i64 = if n >= 0 {
            (n + 50) / 100
        } else {
            -((-n + 50) / 100)
        };
        self.speed as i64 + self.cornering as i64 + self.power_unit as i64 + self.qualifying as i64 + pit
    }

    /// The field-wise sum, or `None` when a field leaves `i32`.
    pub fn checked_add(&self, other: &Stats) -> (r: Option<Stats>)
        ensures
            match r {
                Some(t) => self.can_add(*other) && t == self.add_spec(*other),
                None => !self.can_add(*other),
            },
    {
        let ok = fits_i32_exec(self.speed as i64 + other.speed as i64) && fits_i32_exec(
            self.cornering as i64 + other.cornering as i64,
        ) && fits_i32_exec(self.power_unit as i64 + other.power_unit as i64) && fits_i32_exec(
            self.qualifying as i64 + other.qualifying as i64,
        ) && fits_i32_exec(self.pit_stop_hundredths as i64 + other.pit_stop_hundredths as i64) && fits_i32_exec(
            self.additional_stat_value as i64 + other.additional_stat_value as i64,
        );
        if ok {
            Some(self.add(other))
        } else {
            None
        }
    }

    pub fn add(&self, other: &Stats) -> (r: Stats)
        requires
            self.can_add(*other),
        ensures
            r == self.add_spec(*other),
    {
        Stats {
            speed: self.speed + other.speed,
            cornering: self.cornering + other.cornering,
            power_unit: self.power_unit + other.power_unit,
            qualifying: self.qualifying + other.qualifying,
            pit_stop_hundredths: self.pit_stop_hundredths + other.pit_stop_hundredths,
            additional_stat_value: self.additional_stat_value + other.additional_stat_value,
        }
    }

    /// Apply a percentage boost to performance stats (pit stop time is reduced).
    /// Integer stats use ceiling so any non-zero bonus always adds at least 1.
    /// The additional stat is left unchanged.
    pub fn boosted(&self, percentage: i32) -> (r: Stats)
        requires
            self.can_boost(percentage as int),
        ensures
            r == self.boosted_spec(percentage as int),
    {
        let n: i64 = 10i64 * (self.pit_stop_hundredths as i64) - 7i64 * (percentage as i64);
        let pit: i64 = if n >= 0 {
            (n + 5) / 10
        } else {
            -((-n + 5) / 10)
        };
        Stats {
            speed: boost_value(self.speed, percentage),
            cornering: boost_value(self.cornering, percentage),
            power_unit: boost_value(self.power_unit, percentage),
            qualifying: boost_value(self.qualifying, percentage),
            pit_stop_hundredths: pit as i32,
            additional_stat_value: self.additional_stat_value,
        }
    }
}

/// Each of the four performance stats counts once in the total, the
/// additional stat does not count, and a shorter pit stop never earns fewer
/// points than a longer one.
pub proof fn law_part_total_counts_each_stat(s: Stats, k: i32, h1: i32, h2: i32)
    ensures
        (Stats { speed: k, ..s }).total_spec() == s.total_spec() - s.speed + k,
        (Stats { cornering: k, ..s }).total_spec() == s.total_spec() - s.cornering + k,
        (Stats { power_unit: k, ..s }).total_spec() == s.total_spec() - s.power_unit + k,
        (Stats { qualifying: k, ..s }).total_spec() == s.total_spec() - s.qualifying + k,
        (Stats { additional_stat_value: k, ..s }).total_spec() == s.total_spec(),
        h1 <= h2 ==> (Stats { pit_stop_hundredths: h1, ..s }).pit_points() >= (Stats {
            pit_stop_hundredths: h2,
            ..s
        }).pit_points(),
{
}

/// A 0 % boost leaves every stat as it was.
pub proof fn law_boost_zero_is_identity(s: Stats)
    ensures
        s.can_boost(0),
        s.boosted_spec(0) == s,
{
    lemma_boost_by_zero(s.speed as int);
    lemma_boost_by_zero(s.cornering as int);
    lemma_boost_by_zero(s.power_unit as int);
    lemma_boost_by_zero(s.qualifying as int);
}

/// Adding zero stats changes nothing, and adding is commutative.
pub proof fn law_add_zero_and_commutes(a: Stats, b: Stats)
    ensures
        a.can_add(Stats::zero()),
        a.add_spec(Stats::zero()) == a,
        a.can_add(b) == b.can_add(a),
        a.can_add(b) ==> a.add_spec(b) == b.add_spec(a),
{
}

/// Adding part stats is associative wherever no field overflows.
pub proof fn law_add_associates(a: Stats, b: Stats, c: Stats)
    ensures
        a.can_add(b) && a.add_spec(b).can_add(c) && b.can_add(c) ==> a.can_add(b.add_spec(c)) && a.add_spec(
            b,
        ).add_spec(c) == a.add_spec(b.add_spec(c)),
{
}

/// Level stats for a single upgrade level.
#[derive(Debug, Clone, Copy, PartialEq, Eq, Structural)]
pub struct OwnedLevelStats {
    pub level: i32,
    pub speed: i32,
    pub cornering: i32,
    pub power_unit: i32,
    pub qualifying: i32,
    /// Pit stop time in hundredths of a second.
    pub pit_stop_hundredths: i32,
    /// The primary value of the part's special secondary stat (e.g. DRS, Overtake Mode).
    pub additional_stat_value: i32,
}

impl OwnedLevelStats {
    pub open spec fn priority_score_spec(self, p: StatPriorities) -> int {
        (if p.speed { self.speed as int } else { 0 }) + (if p.cornering {
            self.cornering as int
        } else {
            0
        }) + (if p.power_unit { self.power_unit as int } else { 0 }) + (if p.qualifying {
            self.qualifying as int
        } else {
            0
        })
    }

    /// Points a level's pit stop time earns: 1 + 29 × (1 s − time), rounded.
    pub open spec fn pit_points(self) -> int {
        round_div100(3000 - 29 * self.pit_stop_hundredths)
    }

    pub open spec fn total_spec(self) -> int {
        self.speed + self.cornering + self.power_unit + self.qualifying + self.pit_points()
    }

    /// The part stats of this level.
    pub open spec fn to_stats_spec(self) -> Stats {
        Stats {
            speed: self.speed,
            cornering: self.cornering,
            power_unit: self.power_unit,
            qualifying: self.qualifying,
            pit_stop_hundredths: self.pit_stop_hundredths,
            additional_stat_value: self.additional_stat_value,
        }
    }

    /// Sum of the selected priority stats.
    pub fn priority_score(&self, priorities: &StatPriorities) -> (r: i32)
        requires
            fits_i32(self.priority_score_spec(*priorities)),
        ensures
            r == self.priority_score_spec(*priorities),
    {
        let mut score: i64 = 0;
        if priorities.speed {
            score = score + self.speed as i64;
        }
        if priorities.cornering {
            score = score + self.cornering as i64;
        }
        if priorities.power_unit {
            score = score + self.power_unit as i64;
        }
        if priorities.qualifying {
            score = score + self.qualifying as i64;
        }
        score as i32
    }

    pub fn total_performance(&self) -> (r: i32)
        requires
            fits_i32(self.total_spec()),
        ensures
            r == self.total_spec(),
    {
        let n: i64 = 3000i64 - 29i64 * (self.pit_stop_hundredths as i64);
        let pit: i64 = if n >= 0 {
            (n + 50) / 100
        } else {
            -((-n + 50) / 100)
        };
        (self.speed as i64 + self.cornering as i64 + self.power_unit as i64
            + self.qualifying as i64 + pit) as i32
    }

    /// The part stats of this level.
    pub fn to_stats(&self) -> (r: Stats)
        ensures
            r == self.to_stats_spec(),
    {
        Stats {
            speed: self.speed,
            cornering: self.cornering,
            power_unit: self.power_unit,
            qualifying: self.qualifying,
            pit_stop_hundredths: self.pit_stop_hundredths,
            additional_stat_value: self.additional_stat_value,
        }
    }
}

/// Index of the first entry of `levels` equal to `level`, if any.
pub open spec fn first_level_index_by(levels: Seq<i32>, level: i32) -> Option<int> {
    if exists|i: int| 0 <= i < levels.len() && levels[i] == level {
        Some(
            choose|i: int|
                0 <= i < levels.len() && levels[i] == level && forall|j: int|
                    0 <= j < i ==> levels[j] != level,
        )
    } else {
        None
    }
}

/// The first index of a level lies in range and holds that level.
pub proof fn lemma_first_level_index_by_range(lv: Seq<i32>, level: i32)
    ensures
        first_level_index_by(lv, level) matches Some(i) ==> 0 <= i < lv.len() && lv[i] == level,
{
    if exists|i: int| 0 <= i < lv.len() && lv[i] == level {
        let w = choose|i: int| 0 <= i < lv.len() && lv[i] == level;
        let pred = |i: int| lv[i] == level;
        lemma_least_exists(lv.len() as int, pred, w);
        let k = choose|k: int| 0 <= k < lv.len() && #[trigger] pred(k) && forall|j: int| 0 <= j < k ==> !#[trigger] pred(j);
        assert forall|j: int| 0 <= j < k implies lv[j] != level by {
            assert(!pred(j));
        }
        assert(0 <= k < lv.len() && lv[k] == level && forall|j: int| 0 <= j < k ==> lv[j] != level);
    }
}

/// The first index of a level lies in range and holds that level.
pub proof fn lemma_first_level_index_range(levels: Seq<OwnedLevelStats>, level: i32)
    ensures
        first_level_index(levels, level) matches Some(i) ==> 0 <= i < levels.len() && levels[i].level == level,
{
    lemma_first_level_index_by_range(levels.map_values(|l: OwnedLevelStats| l.level), level);
}

/// Index of the first entry whose level is `level`, if any.
pub open spec fn first_level_index(levels: Seq<OwnedLevelStats>, level: i32) -> Option<int> {
    first_level_index_by(levels.map_values(|l: OwnedLevelStats| l.level), level)
}

/// A part definition loaded from the catalog, scoped to a season.
#[derive(Debug)]
pub struct OwnedPartDefinition {
    pub id: i32,
    pub name: String,
    pub season: String,
    pub category: PartCategory,
    pub series: i32,
    /// "Common" | "Rare" | "Epic"
    pub rarity: String,
    pub sort_order: i32,
    /// The name of this part's secondary stat, if any (e.g. "DRS", "Overtake Mode").
    pub additional_stat_name: Option<String>,
    pub levels: Vec<OwnedLevelStats>,
}

/// The mathematical model of a part definition: its fields, strings as
/// character sequences.
pub struct PartDefView {
    pub id: i32,
    pub name: Seq<char>,
    pub season: Seq<char>,
    pub category: PartCategory,
    pub series: i32,
    pub rarity: Seq<char>,
    pub sort_order: i32,
    pub additional_stat_name: Option<Seq<char>>,
    pub levels: Seq<OwnedLevelStats>,
}

impl View for OwnedPartDefinition {
    type V = PartDefView;

    open spec fn view(&self) -> PartDefView {
        PartDefView {
            id: self.id,
            name: self.name@,
            season: self.season@,
            category: self.category,
            series: self.series,
            rarity: self.rarity@,
            sort_order: self.sort_order,
            additional_stat_name: match self.additional_stat_name {
                Some(n) => Some(n@),
                None => None,
            },
            levels: self.levels@,
        }
    }
}

impl Clone for OwnedPartDefinition {
    fn clone(&self) -> (r: Self)
        ensures
            r@ == self@,
    {
        let levels = self.levels.clone();
        assert(levels@ =~= self.levels@);
        let additional_stat_name = match &self.additional_stat_name {
            Some(n) => Some(n.clone()),
            None => None,
        };
        OwnedPartDefinition {
            id: self.id,
            name: self.name.clone(),
            season: self.season.clone(),
            category: self.category,
            series: self.series,
            rarity: self.rarity.clone(),
            sort_order: self.sort_order,
            additional_stat_name,
            levels,
        }
    }
}

/// CSS class for a part rarity name: Rare and Epic have their own, anything
/// else is shown as Common.
pub open spec fn part_rarity_css(rarity: Seq<char>) -> Seq<char> {
    if rarity == "Rare"@ {
        "rarity-rare"@
    } else if rarity == "Epic"@ {
        "rarity-epic"@
    } else {
        "rarity-common"@
    }
}

impl OwnedPartDefinition {
    pub open spec fn max_level_spec(self) -> int {
        if self.levels@.len() == 0 {
            1
        } else {
            self.levels@.last().level as int
        }
    }

    /// The stats of the first entry for `level`, if there is one.
    pub fn stats_for_level(&self, level: i32) -> (r: Option<&OwnedLevelStats>)
        ensures
            match first_level_index(self.levels@, level) {
                Some(i) => 0 <= i < self.levels@.len() && r == Some(&self.levels@[i]),
                None => r is None,
            },
    {
        let ghost lv = self.levels@.map_values(|l: OwnedLevelStats| l.level);
        let mut i: usize = 0;
        while i < self.levels.len()
            invariant
                0 <= i <= self.levels.len(),
                lv == self.levels@.map_values(|l: OwnedLevelStats| l.level),
                forall|j: int| 0 <= j < i ==> lv[j] != level,
            decreases self.levels.len() - i,
        {
            if self.levels[i].level == level {
                let ghost k = first_level_index(self.levels@, level);
                assert(lv[i as int] == level);
                assert(k is Some);
                assert(k->0 == i) by {
                    let c = k->0;
                    if c < i {
                    } else if c > i {
                    }
                }
                return Some(&self.levels[i]);
            }
            i = i + 1;
        }
        None
    }

    /// The level of the last entry, or 1 when there are none.
    pub fn max_level(&self) -> (r: i32)
        ensures
            r == self.max_level_spec(),
    {
        if self.levels.len() == 0 {
            1
        } else {
            self.levels[self.levels.len() - 1].level
        }
    }

    pub fn rarity_css_class(&self) -> (r: &'static str)
        ensures
            r@ == part_rarity_css(self.rarity@),
    {
        if str_eq(self.rarity.as_str(), "Rare") {
            "rarity-rare"
        } else if str_eq(self.rarity.as_str(), "Epic") {
            "rarity-epic"
        } else {
            "rarity-common"
        }
    }
}

} // verus!
