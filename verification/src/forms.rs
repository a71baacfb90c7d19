//! The forms and query strings the pages submit, and what their fields
//! mean to the optimizer, the setups and the inventory.

use vstd::prelude::*;

use crate::data::StatPriorities;
use crate::models::setup::Setup;
use crate::optimizer_core::DriverPriorities;
use crate::text::{
    chars_of, parse_i32, parse_i32_spec, str_eq, string_from_chars, trim, trim_prefix, trim_spec,
};

verus! {

// ── Numeric fields ────────────────────────────────────────────────────────────

/// A numeric form field that is neither blank nor an integer.
#[derive(Debug, Clone, Copy, PartialEq, Eq, Structural)]
pub struct NotAnInteger;

/// An optional integer field: nothing when blank, else its trimmed text as
/// an integer, an error when that does not parse.
pub open spec fn optional_i32_spec(s: Seq<char>) -> Result<Option<i32>, NotAnInteger> {
    let t = trim_spec(s);
    if t.len() == 0 {
        Ok(None)
    } else {
        match parse_i32_spec(t) {
            Some(v) => Ok(Some(v)),
            None => Err(NotAnInteger),
        }
    }
}

/// Reads an optional integer field (a series limit, a setup slot).
pub fn optional_i32(s: &str) -> (r: Result<Option<i32>, NotAnInteger>)
    ensures
        r == optional_i32_spec(s@),
{
    let t = trim(s);
    proof {
        reveal_strlit("");
    }
    assert(""@.len() == 0);
    assert(t@.len() == 0 ==> t@ =~= ""@);
    if str_eq(t.as_str(), "") {
        Ok(None)
    } else {
        match parse_i32(t.as_str()) {
            Some(v) => Ok(Some(v)),
            None => Err(NotAnInteger),
        }
    }
}

// ── Optimizer ─────────────────────────────────────────────────────────────────

/// The custom optimizer's query: the part and driver stats to prioritise
/// and the highest series of parts and of drivers to consider.
#[derive(Debug, Clone, Copy)]
pub struct OptimizerQuery {
    pub speed: bool,
    pub cornering: bool,
    pub power_unit: bool,
    pub qualifying: bool,
    pub overtaking: bool,
    pub defending: bool,
    pub d_qualifying: bool,
    pub race_start: bool,
    pub tyre_management: bool,
    pub max_part_series: Option<i32>,
    pub max_driver_series: Option<i32>,
}

/// A series limit: without one, every series.
pub open spec fn series_limit(max: Option<i32>) -> i32 {
    match max {
        Some(v) => v,
        None => i32::MAX,
    }
}

impl OptimizerQuery {
    /// The part stats to prioritise.
    pub fn part_priorities(&self) -> (r: StatPriorities)
        ensures
            r == (StatPriorities {
                speed: self.speed,
                cornering: self.cornering,
                power_unit: self.power_unit,
                qualifying: self.qualifying,
            }),
    {
        StatPriorities {
            speed: self.speed,
            cornering: self.cornering,
            power_unit: self.power_unit,
            qualifying: self.qualifying,
        }
    }

    /// The driver stats to prioritise (`d_qualifying` is the drivers'
    /// qualifying).
    pub fn driver_priorities(&self) -> (r: DriverPriorities)
        ensures
            r == (DriverPriorities {
                overtaking: self.overtaking,
                defending: self.defending,
                qualifying: self.d_qualifying,
                race_start: self.race_start,
                tyre_management: self.tyre_management,
            }),
    {
        DriverPriorities {
            overtaking: self.overtaking,
            defending: self.defending,
            qualifying: self.d_qualifying,
            race_start: self.race_start,
            tyre_management: self.tyre_management,
        }
    }

    /// The highest part series to consider.
    pub fn part_series_limit(&self) -> (r: i32)
        ensures
            r == series_limit(self.max_part_series),
    {
        match self.max_part_series {
            Some(v) => v,
            None => i32::MAX,
        }
    }

    /// The highest driver series to consider.
    pub fn driver_series_limit(&self) -> (r: i32)
        ensures
            r == series_limit(self.max_driver_series),
    {
        match self.max_driver_series {
            Some(v) => v,
            None => i32::MAX,
        }
    }
}

/// The presets' query: the highest part series to consider.
#[derive(Debug, Clone, Copy)]
pub struct PresetsQuery {
    pub max_part_series: Option<i32>,
}

impl PresetsQuery {
    /// The highest part series to consider.
    pub fn part_series_limit(&self) -> (r: i32)
        ensures
            r == series_limit(self.max_part_series),
    {
        match self.max_part_series {
            Some(v) => v,
            None => i32::MAX,
        }
    }
}

/// The upgrade advisor's query: the part stats to prioritise and the
/// highest part series to consider.
#[derive(Debug, Clone, Copy)]
pub struct AdvisorQuery {
    pub speed: bool,
    pub cornering: bool,
    pub power_unit: bool,
    pub qualifying: bool,
    pub max_part_series: Option<i32>,
}

impl AdvisorQuery {
    /// The part stats to prioritise.
    pub fn priorities(&self) -> (r: StatPriorities)
        ensures
            r == (StatPriorities {
                speed: self.speed,
                cornering: self.cornering,
                power_unit: self.power_unit,
                qualifying: self.qualifying,
            }),
    {
        StatPriorities {
            speed: self.speed,
            cornering: self.cornering,
            power_unit: self.power_unit,
            qualifying: self.qualifying,
        }
    }

    /// The highest part series to consider: 12 when none is given.
    pub fn part_series_limit(&self) -> (r: i32)
        ensures
            r == match self.max_part_series {
                Some(v) => v,
                None => 12,
            },
    {
        match self.max_part_series {
            Some(v) => v,
            None => 12,
        }
    }
}

// ── Setups ────────────────────────────────────────────────────────────────────

/// Saving an optimizer result as a setup: its name and the picked parts and
/// drivers.
#[derive(Debug)]
pub struct SaveForm {
    pub name: String,
    pub brakes_id: Option<i32>,
    pub gearbox_id: Option<i32>,
    pub rear_wing_id: Option<i32>,
    pub front_wing_id: Option<i32>,
    pub suspension_id: Option<i32>,
    pub engine_id: Option<i32>,
    pub battery_id: Option<i32>,
    pub driver1_id: Option<i32>,
    pub driver2_id: Option<i32>,
}

/// Creating or editing a setup: its name and the part and driver of each
/// slot (a blank slot is empty).
#[derive(Debug)]
pub struct SetupForm {
    pub name: String,
    pub engine_id: Option<i32>,
    pub front_wing_id: Option<i32>,
    pub rear_wing_id: Option<i32>,
    pub suspension_id: Option<i32>,
    pub brakes_id: Option<i32>,
    pub gearbox_id: Option<i32>,
    pub battery_id: Option<i32>,
    pub driver1_id: Option<i32>,
    pub driver2_id: Option<i32>,
}

impl SaveForm {
    /// The setup the form describes, under `id`.
    pub fn to_setup(&self, id: i32) -> (r: Setup)
        ensures
            r.id == id,
            r.name@ == self.name@,
            r.engine_id == self.engine_id,
            r.front_wing_id == self.front_wing_id,
            r.rear_wing_id == self.rear_wing_id,
            r.suspension_id == self.suspension_id,
            r.brakes_id == self.brakes_id,
            r.gearbox_id == self.gearbox_id,
            r.battery_id == self.battery_id,
            r.driver1_id == self.driver1_id,
            r.driver2_id == self.driver2_id,
    {
        Setup {
            id,
            name: self.name.clone(),
            engine_id: self.engine_id,
            front_wing_id: self.front_wing_id,
            rear_wing_id: self.rear_wing_id,
            suspension_id: self.suspension_id,
            brakes_id: self.brakes_id,
            gearbox_id: self.gearbox_id,
            battery_id: self.battery_id,
            driver1_id: self.driver1_id,
            driver2_id: self.driver2_id,
        }
    }
}

impl SetupForm {
    /// The setup the form describes, under `id`.
    pub fn to_setup(&self, id: i32) -> (r: Setup)
        ensures
            r.id == id,
            r.name@ == self.name@,
            r.engine_id == self.engine_id,
            r.front_wing_id == self.front_wing_id,
            r.rear_wing_id == self.rear_wing_id,
            r.suspension_id == self.suspension_id,
            r.brakes_id == self.brakes_id,
            r.gearbox_id == self.gearbox_id,
            r.battery_id == self.battery_id,
            r.driver1_id == self.driver1_id,
            r.driver2_id == self.driver2_id,
    {
        Setup {
            id,
            name: self.name.clone(),
            engine_id: self.engine_id,
            front_wing_id: self.front_wing_id,
            rear_wing_id: self.rear_wing_id,
            suspension_id: self.suspension_id,
            brakes_id: self.brakes_id,
            gearbox_id: self.gearbox_id,
            battery_id: self.battery_id,
            driver1_id: self.driver1_id,
            driver2_id: self.driver2_id,
        }
    }
}

// ── Comparison ────────────────────────────────────────────────────────────────

/// The pieces of `s` between its commas (`str::split(',')`): one more than
/// the number of commas, empty pieces included.
pub open spec fn comma_pieces(s: Seq<char>) -> Seq<Seq<char>>
    decreases s.len(),
{
    if s.len() == 0 {
        seq![Seq::empty()]
    } else {
        let r = comma_pieces(s.drop_last());
        if s.last() == ',' {
            r.push(Seq::empty())
        } else {
            r.update(r.len() - 1, r.last().push(s.last()))
        }
    }
}

/// The integers among `pieces`, each trimmed, in order; the others are
/// skipped.
pub open spec fn ids_of_pieces(pieces: Seq<Seq<char>>) -> Seq<i32>
    decreases pieces.len(),
{
    if pieces.len() == 0 {
        Seq::empty()
    } else {
        ids_of_pieces(pieces.drop_last()) + match parse_i32_spec(trim_spec(pieces.last())) {
            Some(v) => seq![v],
            None => Seq::empty(),
        }
    }
}

proof fn lemma_comma_pieces_nonempty(s: Seq<char>)
    ensures
        comma_pieces(s).len() >= 1,
    decreases s.len(),
{
    if s.len() > 0 {
        lemma_comma_pieces_nonempty(s.drop_last());
    }
}

fn piece_id(p: &Vec<char>) -> (r: Option<i32>)
    ensures
        r == parse_i32_spec(trim_spec(p@)),
{
    let t = trim_prefix(p, p.len());
    assert(p@.take(p@.len() as int) =~= p@);
    let st = string_from_chars(&t);
    parse_i32(st.as_str())
}

/// The setup ids of a comparison: the comma-separated list `s`, each piece
/// trimmed and read as an integer, the pieces that are not skipped.
pub fn id_list(s: &str) -> (r: Vec<i32>)
    ensures
        r@ == ids_of_pieces(comma_pieces(s@)),
{
    let cs = chars_of(s);
    let mut out: Vec<i32> = Vec::new();
    let mut cur: Vec<char> = Vec::new();
    let ghost mut done: Seq<Seq<char>> = Seq::empty();
    let mut i: usize = 0;
    assert(cs@.take(0) =~= Seq::<char>::empty());
    while i < cs.len()
        invariant
            cs@ == s@,
            0 <= i <= cs@.len(),
            comma_pieces(cs@.take(i as int)) == done.push(cur@),
            out@ == ids_of_pieces(done),
        decreases cs@.len() - i,
    {
        let ghost pre = cs@.take(i as int);
        assert(cs@.take(i as int + 1).drop_last() =~= pre);
        assert(cs@.take(i as int + 1).last() == cs@[i as int]);
        if cs[i] == ',' {
            let id = piece_id(&cur);
            proof {
                let d2 = done.push(cur@);
                assert(d2.drop_last() =~= done);
                assert(d2.last() == cur@);
            }
            match id {
                Some(v) => out.push(v),
                None => {},
            }
            proof {
                done = done.push(cur@);
            }
            assert(out@ =~= ids_of_pieces(done));
            cur = Vec::new();
            assert(comma_pieces(cs@.take(i as int + 1)) =~= done.push(cur@));
        } else {
            cur.push(cs[i]);
            proof {
                lemma_comma_pieces_nonempty(pre);
            }
            assert(comma_pieces(cs@.take(i as int + 1)) =~= done.push(cur@));
        }
        i = i + 1;
    }
    assert(cs@.take(cs@.len() as int) =~= cs@);
    let id = piece_id(&cur);
    proof {
        let d2 = done.push(cur@);
        assert(d2.drop_last() =~= done);
        assert(d2.last() == cur@);
    }
    match id {
        Some(v) => out.push(v),
        None => {},
    }
    assert(out@ =~= ids_of_pieces(done.push(cur@)));
    out
}

// ── Inventory and season ──────────────────────────────────────────────────────

/// A new level for an owned part or driver.
#[derive(Debug, Clone, Copy)]
pub struct LevelForm {
    pub level: i32,
}

/// A new card count for an owned part or driver.
#[derive(Debug, Clone, Copy)]
pub struct CardsForm {
    pub cards: i32,
}

impl CardsForm {
    /// The count stored: negative counts are stored as 0.
    pub fn stored_cards(&self) -> (r: i32)
        ensures
            r == if self.cards < 0 {
                0
            } else {
                self.cards
            },
    {
        if self.cards < 0 {
            0
        } else {
            self.cards
        }
    }
}

/// Switching the session's season.
#[derive(Debug)]
pub struct SeasonForm {
    pub season: String,
}

impl SeasonForm {
    /// The season to switch to: the trimmed field, nothing when blank.
    pub fn target(&self) -> (r: Option<String>)
        ensures
            match r {
                Some(t) => t@ == trim_spec(self.season@) && t@.len() > 0,
                None => trim_spec(self.season@).len() == 0,
            },
    {
        let t = trim(self.season.as_str());
        proof {
            reveal_strlit("");
        }
        assert(""@.len() == 0);
        assert(t@.len() == 0 ==> t@ =~= ""@);
        if str_eq(t.as_str(), "") {
            None
        } else {
            Some(t)
        }
    }
}

/// The admin login form.
#[derive(Debug)]
pub struct LoginForm {
    pub password: String,
}

} // verus!
