//! Stat priorities, card and coin upgrade costs, and the upgrade calculator.

use vstd::prelude::*;

use crate::text::{dec_nat, digit_char, push_char, push_u64, str_eq};

verus! {

/// Part stat priorities used by the optimizer.
#[derive(Debug, Clone, Copy, PartialEq, Eq, Structural)]
pub struct StatPriorities {
    pub speed: bool,
    pub cornering: bool,
    pub power_unit: bool,
    pub qualifying: bool,
}

impl Default for StatPriorities {
    fn default() -> (r: StatPriorities)
        ensures
            r == (StatPriorities { speed: false, cornering: false, power_unit: false, qualifying: false }),
    {
        StatPriorities { speed: false, cornering: false, power_unit: false, qualifying: false }
    }
}

impl StatPriorities {
    /// Whether at least one priority is set.
    pub open spec fn any(self) -> bool {
        self.speed || self.cornering || self.power_unit || self.qualifying
    }

    /// The labels of the selected priorities, in the fixed order
    /// Speed, Cornering, Power Unit, Qualifying.
    pub open spec fn label_views(self) -> Seq<Seq<char>> {
        (if self.speed { seq!["Speed"@] } else { Seq::empty() })
        + (if self.cornering { seq!["Cornering"@] } else { Seq::empty() })
        + (if self.power_unit { seq!["Power Unit"@] } else { Seq::empty() })
        + (if self.qualifying { seq!["Qualifying"@] } else { Seq::empty() })
    }

    pub fn any_selected(&self) -> (r: bool)
        ensures
            r == self.any(),
    {
        self.speed || self.cornering || self.power_unit || self.qualifying
    }

    pub fn labels(&self) -> (r: Vec<&'static str>)
        ensures
            r@.map_values(|s: &'static str| s@) == self.label_views(),
    {
        let mut out: Vec<&'static str> = Vec::new();
        if self.speed {
            out.push("Speed");
        }
        if self.cornering {
            out.push("Cornering");
        }
        if self.power_unit {
            out.push("Power Unit");
        }
        if self.qualifying {
            out.push("Qualifying");
        }
        assert(out@.map_values(|s: &'static str| s@) =~= self.label_views());
        out
    }
}

// ── Upgrade calculator ────────────────────────────────────────────────────────

/// Cards required to upgrade from level `lvl` to `lvl + 1`; the same for all
/// rarities and series. Levels outside 1..=10 cost nothing.
pub open spec fn card_cost(lvl: int) -> int {
    if lvl == 1 {
        4
    } else if lvl == 2 {
        10
    } else if lvl == 3 {
        20
    } else if lvl == 4 {
        50
    } else if lvl == 5 {
        100
    } else if lvl == 6 {
        200
    } else if lvl == 7 {
        400
    } else if lvl == 8 {
        1000
    } else if lvl == 9 {
        2000
    } else if lvl == 10 {
        4000
    } else {
        0
    }
}

/// Cards required to upgrade from level `lvl` to `lvl + 1`.
pub fn card_cost_at(lvl: i32) -> (r: i32)
    ensures
        r == card_cost(lvl as int),
{
    match lvl {
        1 => 4,
        2 => 10,
        3 => 20,
        4 => 50,
        5 => 100,
        6 => 200,
        7 => 400,
        8 => 1000,
        9 => 2000,
        10 => 4000,
        _ => 0,
    }
}

/// Coins to go from level `idx + 1` to `idx + 2` for `series` in the 2025 season (0 outside the table).
pub open spec fn coin_entry_2025(series: int, idx: int) -> int {
    if series == 1 {
        if idx == 0 {
            2000
        } else if idx == 1 {
            8000
        } else if idx == 2 {
            35000
        } else if idx == 3 {
            90000
        } else if idx == 4 {
            275000
        } else if idx == 5 {
            800000
        } else if idx == 6 {
            1600000
        } else if idx == 7 {
            2400000
        } else if idx == 8 {
            3200000
        } else if idx == 9 {
            4000000
        } else {
            0
        }
    } else if series == 2 {
        if idx == 0 {
            6000
        } else if idx == 1 {
            30000
        } else if idx == 2 {
            95000
        } else if idx == 3 {
            300000
        } else if idx == 4 {
            950000
        } else if idx == 5 {
            1900000
        } else if idx == 6 {
            3750000
        } else if idx == 7 {
            5600000
        } else if idx == 8 {
            7450000
        } else if idx == 9 {
            9300000
        } else {
            0
        }
    } else if series == 3 {
        if idx == 0 {
            22000
        } else if idx == 1 {
            45000
        } else if idx == 2 {
            135000
        } else if idx == 3 {
            450000
        } else if idx == 4 {
            1350000
        } else if idx == 5 {
            2800000
        } else if idx == 6 {
            5250000
        } else if idx == 7 {
            7700000
        } else if idx == 8 {
            10150000
        } else if idx == 9 {
            12600000
        } else {
            0
        }
    } else if series == 4 {
        if idx == 0 {
            1950000
        } else if idx == 1 {
            3850000
        } else if idx == 2 {
            5800000
        } else if idx == 3 {
            7700000
        } else if idx == 4 {
            15750000
        } else if idx == 5 {
            28000000
        } else if idx == 6 {
            51750000
        } else {
            0
        }
    } else if series == 5 {
        if idx == 0 {
            4500000
        } else if idx == 1 {
            9000000
        } else if idx == 2 {
            20000000
        } else if idx == 3 {
            42250000
        } else if idx == 4 {
            139250000
        } else if idx == 5 {
            167000000
        } else if idx == 6 {
            195000000
        } else if idx == 7 {
            223000000
        } else {
            0
        }
    } else if series == 6 {
        if idx == 0 {
            790000
        } else if idx == 1 {
            1600000
        } else if idx == 2 {
            2400000
        } else if idx == 3 {
            3200000
        } else if idx == 4 {
            6800000
        } else if idx == 5 {
            19500000
        } else if idx == 6 {
            36250000
        } else if idx == 7 {
            53000000
        } else if idx == 8 {
            69750000
        } else if idx == 9 {
            86500000
        } else {
            0
        }
    } else if series == 7 {
        if idx == 0 {
            1950000
        } else if idx == 1 {
            3850000
        } else if idx == 2 {
            5800000
        } else if idx == 3 {
            7700000
        } else if idx == 4 {
            15750000
        } else if idx == 5 {
            28000000
        } else if idx == 6 {
            51750000
        } else if idx == 7 {
            75500000
        } else {
            0
        }
    } else if series == 8 {
        if idx == 0 {
            4500000
        } else if idx == 1 {
            9000000
        } else if idx == 2 {
            20000000
        } else if idx == 3 {
            42250000
        } else if idx == 4 {
            139250000
        } else if idx == 5 {
            167000000
        } else if idx == 6 {
            195000000
        } else if idx == 7 {
            223000000
        } else {
            0
        }
    } else if series == 9 {
        if idx == 0 {
            9500000
        } else if idx == 1 {
            19000000
        } else if idx == 2 {
            45000000
        } else if idx == 3 {
            105000000
        } else if idx == 4 {
            199000000
        } else if idx == 5 {
            239000000
        } else if idx == 6 {
            278000000
        } else if idx == 7 {
            317000000
        } else {
            0
        }
    } else if series == 10 {
        if idx == 0 {
            22000000
        } else if idx == 1 {
            43000000
        } else if idx == 2 {
            65000000
        } else if idx == 3 {
            150000000
        } else if idx == 4 {
            284000000
        } else if idx == 5 {
            341000000
        } else if idx == 6 {
            398000000
        } else {
            0
        }
    } else if series == 11 {
        if idx == 0 {
            54000000
        } else if idx == 1 {
            107000000
        } else if idx == 2 {
            161000000
        } else if idx == 3 {
            215000000
        } else if idx == 4 {
            406000000
        } else if idx == 5 {
            487000000
        } else if idx == 6 {
            568000000
        } else {
            0
        }
    } else if series == 12 {
        if idx == 0 {
            116000000
        } else if idx == 1 {
            232000000
        } else if idx == 2 {
            348000000
        } else if idx == 3 {
            464000000
        } else if idx == 4 {
            580000000
        } else if idx == 5 {
            696000000
        } else if idx == 6 {
            812000000
        } else {
            0
        }
    } else {
        0
    }
}

/// Coins to go from level `idx + 1` to `idx + 2` for `series` in the 2026 season (0 outside the table).
pub open spec fn coin_entry_2026(series: int, idx: int) -> int {
    if series == 1 {
        if idx == 0 {
            2000
        } else if idx == 1 {
            8000
        } else if idx == 2 {
            60000
        } else if idx == 3 {
            190000
        } else if idx == 4 {
            640000
        } else if idx == 5 {
            800000
        } else if idx == 6 {
            1600000
        } else if idx == 7 {
            2400000
        } else if idx == 8 {
            3200000
        } else if idx == 9 {
            4000000
        } else {
            0
        }
    } else if series == 2 {
        if idx == 0 {
            8600
        } else if idx == 1 {
            30000
        } else if idx == 2 {
            95000
        } else if idx == 3 {
            300000
        } else if idx == 4 {
            950000
        } else if idx == 5 {
            1900000
        } else if idx == 6 {
            3750000
        } else if idx == 7 {
            5600000
        } else if idx == 8 {
            7450000
        } else if idx == 9 {
            9300000
        } else {
            0
        }
    } else if series == 3 {
        if idx == 0 {
            35000
        } else if idx == 1 {
            45000
        } else if idx == 2 {
            135000
        } else if idx == 3 {
            450000
        } else if idx == 4 {
            1350000
        } else if idx == 5 {
            2800000
        } else if idx == 6 {
            5250000
        } else if idx == 7 {
            7700000
        } else if idx == 8 {
            10150000
        } else if idx == 9 {
            12600000
        } else {
            0
        }
    } else if series == 4 {
        if idx == 0 {
            110000
        } else if idx == 1 {
            3850000
        } else if idx == 2 {
            5800000
        } else if idx == 3 {
            7700000
        } else if idx == 4 {
            15750000
        } else if idx == 5 {
            28000000
        } else if idx == 6 {
            51750000
        } else {
            0
        }
    } else if series == 5 {
        if idx == 0 {
            4500000
        } else if idx == 1 {
            9000000
        } else if idx == 2 {
            20000000
        } else if idx == 3 {
            42250000
        } else if idx == 4 {
            139250000
        } else if idx == 5 {
            167000000
        } else if idx == 6 {
            195000000
        } else if idx == 7 {
            223000000
        } else {
            0
        }
    } else if series == 6 {
        if idx == 0 {
            790000
        } else if idx == 1 {
            1600000
        } else if idx == 2 {
            2400000
        } else if idx == 3 {
            3200000
        } else if idx == 4 {
            6800000
        } else if idx == 5 {
            19500000
        } else if idx == 6 {
            36250000
        } else if idx == 7 {
            53000000
        } else if idx == 8 {
            69750000
        } else if idx == 9 {
            86500000
        } else {
            0
        }
    } else if series == 7 {
        if idx == 0 {
            1950000
        } else if idx == 1 {
            3850000
        } else if idx == 2 {
            5800000
        } else if idx == 3 {
            7700000
        } else if idx == 4 {
            15750000
        } else if idx == 5 {
            28000000
        } else if idx == 6 {
            51750000
        } else if idx == 7 {
            75500000
        } else {
            0
        }
    } else if series == 8 {
        if idx == 0 {
            4500000
        } else if idx == 1 {
            9000000
        } else if idx == 2 {
            20000000
        } else if idx == 3 {
            42250000
        } else if idx == 4 {
            139250000
        } else if idx == 5 {
            167000000
        } else if idx == 6 {
            195000000
        } else if idx == 7 {
            223000000
        } else {
            0
        }
    } else if series == 9 {
        if idx == 0 {
            9500000
        } else if idx == 1 {
            19000000
        } else if idx == 2 {
            45000000
        } else if idx == 3 {
            105000000
        } else if idx == 4 {
            199000000
        } else if idx == 5 {
            239000000
        } else if idx == 6 {
            278000000
        } else if idx == 7 {
            317000000
        } else {
            0
        }
    } else if series == 10 {
        if idx == 0 {
            22000000
        } else if idx == 1 {
            43000000
        } else if idx == 2 {
            65000000
        } else if idx == 3 {
            150000000
        } else if idx == 4 {
            284000000
        } else if idx == 5 {
            341000000
        } else if idx == 6 {
            398000000
        } else {
            0
        }
    } else if series == 11 {
        if idx == 0 {
            54000000
        } else if idx == 1 {
            107000000
        } else if idx == 2 {
            161000000
        } else if idx == 3 {
            215000000
        } else if idx == 4 {
            406000000
        } else if idx == 5 {
            487000000
        } else if idx == 6 {
            568000000
        } else {
            0
        }
    } else if series == 12 {
        if idx == 0 {
            116000000
        } else if idx == 1 {
            232000000
        } else if idx == 2 {
            348000000
        } else if idx == 3 {
            464000000
        } else if idx == 4 {
            580000000
        } else if idx == 5 {
            696000000
        } else if idx == 6 {
            812000000
        } else {
            0
        }
    } else {
        0
    }
}

fn coin_entry_2025_exec(series: i32, idx: usize) -> (r: u64)
    ensures
        r == coin_entry_2025(series as int, idx as int),
{
    match series {
        1 => match idx {
            0 => 2000u64,
            1 => 8000u64,
            2 => 35000u64,
            3 => 90000u64,
            4 => 275000u64,
            5 => 800000u64,
            6 => 1600000u64,
            7 => 2400000u64,
            8 => 3200000u64,
            9 => 4000000u64,
            _ => 0u64,
        },
        2 => match idx {
            0 => 6000u64,
            1 => 30000u64,
            2 => 95000u64,
            3 => 300000u64,
            4 => 950000u64,
            5 => 1900000u64,
            6 => 3750000u64,
            7 => 5600000u64,
            8 => 7450000u64,
            9 => 9300000u64,
            _ => 0u64,
        },
        3 => match idx {
            0 => 22000u64,
            1 => 45000u64,
            2 => 135000u64,
            3 => 450000u64,
            4 => 1350000u64,
            5 => 2800000u64,
            6 => 5250000u64,
            7 => 7700000u64,
            8 => 10150000u64,
            9 => 12600000u64,
            _ => 0u64,
        },
        4 => match idx {
            0 => 1950000u64,
            1 => 3850000u64,
            2 => 5800000u64,
            3 => 7700000u64,
            4 => 15750000u64,
            5 => 28000000u64,
            6 => 51750000u64,
            _ => 0u64,
        },
        5 => match idx {
            0 => 4500000u64,
            1 => 9000000u64,
            2 => 20000000u64,
            3 => 42250000u64,
            4 => 139250000u64,
            5 => 167000000u64,
            6 => 195000000u64,
            7 => 223000000u64,
            _ => 0u64,
        },
        6 => match idx {
            0 => 790000u64,
            1 => 1600000u64,
            2 => 2400000u64,
            3 => 3200000u64,
            4 => 6800000u64,
            5 => 19500000u64,
            6 => 36250000u64,
            7 => 53000000u64,
            8 => 69750000u64,
            9 => 86500000u64,
            _ => 0u64,
        },
        7 => match idx {
            0 => 1950000u64,
            1 => 3850000u64,
            2 => 5800000u64,
            3 => 7700000u64,
            4 => 15750000u64,
            5 => 28000000u64,
            6 => 51750000u64,
            7 => 75500000u64,
            _ => 0u64,
        },
        8 => match idx {
            0 => 4500000u64,
            1 => 9000000u64,
            2 => 20000000u64,
            3 => 42250000u64,
            4 => 139250000u64,
            5 => 167000000u64,
            6 => 195000000u64,
            7 => 223000000u64,
            _ => 0u64,
        },
        9 => match idx {
            0 => 9500000u64,
            1 => 19000000u64,
            2 => 45000000u64,
            3 => 105000000u64,
            4 => 199000000u64,
            5 => 239000000u64,
            6 => 278000000u64,
            7 => 317000000u64,
            _ => 0u64,
        },
        10 => match idx {
            0 => 22000000u64,
            1 => 43000000u64,
            2 => 65000000u64,
            3 => 150000000u64,
            4 => 284000000u64,
            5 => 341000000u64,
            6 => 398000000u64,
            _ => 0u64,
        },
        11 => match idx {
            0 => 54000000u64,
            1 => 107000000u64,
            2 => 161000000u64,
            3 => 215000000u64,
            4 => 406000000u64,
            5 => 487000000u64,
            6 => 568000000u64,
            _ => 0u64,
        },
        12 => match idx {
            0 => 116000000u64,
            1 => 232000000u64,
            2 => 348000000u64,
            3 => 464000000u64,
            4 => 580000000u64,
            5 => 696000000u64,
            6 => 812000000u64,
            _ => 0u64,
        },
        _ => 0u64,
    }
}

fn coin_entry_2026_exec(series: i32, idx: usize) -> (r: u64)
    ensures
        r == coin_entry_2026(series as int, idx as int),
{
    match series {
        1 => match idx {
            0 => 2000u64,
            1 => 8000u64,
            2 => 60000u64,
            3 => 190000u64,
            4 => 640000u64,
            5 => 800000u64,
            6 => 1600000u64,
            7 => 2400000u64,
            8 => 3200000u64,
            9 => 4000000u64,
            _ => 0u64,
        },
        2 => match idx {
            0 => 8600u64,
            1 => 30000u64,
            2 => 95000u64,
            3 => 300000u64,
            4 => 950000u64,
            5 => 1900000u64,
            6 => 3750000u64,
            7 => 5600000u64,
            8 => 7450000u64,
            9 => 9300000u64,
            _ => 0u64,
        },
        3 => match idx {
            0 => 35000u64,
            1 => 45000u64,
            2 => 135000u64,
            3 => 450000u64,
            4 => 1350000u64,
            5 => 2800000u64,
            6 => 5250000u64,
            7 => 7700000u64,
            8 => 10150000u64,
            9 => 12600000u64,
            _ => 0u64,
        },
        4 => match idx {
            0 => 110000u64,
            1 => 3850000u64,
            2 => 5800000u64,
            3 => 7700000u64,
            4 => 15750000u64,
            5 => 28000000u64,
            6 => 51750000u64,
            _ => 0u64,
        },
        5 => match idx {
            0 => 4500000u64,
            1 => 9000000u64,
            2 => 20000000u64,
            3 => 42250000u64,
            4 => 139250000u64,
            5 => 167000000u64,
            6 => 195000000u64,
            7 => 223000000u64,
            _ => 0u64,
        },
        6 => match idx {
            0 => 790000u64,
            1 => 1600000u64,
            2 => 2400000u64,
            3 => 3200000u64,
            4 => 6800000u64,
            5 => 19500000u64,
            6 => 36250000u64,
            7 => 53000000u64,
            8 => 69750000u64,
            9 => 86500000u64,
            _ => 0u64,
        },
        7 => match idx {
            0 => 1950000u64,
            1 => 3850000u64,
            2 => 5800000u64,
            3 => 7700000u64,
            4 => 15750000u64,
            5 => 28000000u64,
            6 => 51750000u64,
            7 => 75500000u64,
            _ => 0u64,
        },
        8 => match idx {
            0 => 4500000u64,
            1 => 9000000u64,
            2 => 20000000u64,
            3 => 42250000u64,
            4 => 139250000u64,
            5 => 167000000u64,
            6 => 195000000u64,
            7 => 223000000u64,
            _ => 0u64,
        },
        9 => match idx {
            0 => 9500000u64,
            1 => 19000000u64,
            2 => 45000000u64,
            3 => 105000000u64,
            4 => 199000000u64,
            5 => 239000000u64,
            6 => 278000000u64,
            7 => 317000000u64,
            _ => 0u64,
        },
        10 => match idx {
            0 => 22000000u64,
            1 => 43000000u64,
            2 => 65000000u64,
            3 => 150000000u64,
            4 => 284000000u64,
            5 => 341000000u64,
            6 => 398000000u64,
            _ => 0u64,
        },
        11 => match idx {
            0 => 54000000u64,
            1 => 107000000u64,
            2 => 161000000u64,
            3 => 215000000u64,
            4 => 406000000u64,
            5 => 487000000u64,
            6 => 568000000u64,
            _ => 0u64,
        },
        12 => match idx {
            0 => 116000000u64,
            1 => 232000000u64,
            2 => 348000000u64,
            3 => 464000000u64,
            4 => 580000000u64,
            5 => 696000000u64,
            6 => 812000000u64,
            _ => 0u64,
        },
        _ => 0u64,
    }
}

/// Number of level steps in the coin table of `series` (0 outside 1..=12).
pub open spec fn coin_row_len(series: int) -> int {
    if series == 1 {
        10
    } else if series == 2 {
        10
    } else if series == 3 {
        10
    } else if series == 4 {
        7
    } else if series == 5 {
        8
    } else if series == 6 {
        10
    } else if series == 7 {
        8
    } else if series == 8 {
        8
    } else if series == 9 {
        8
    } else if series == 10 {
        7
    } else if series == 11 {
        7
    } else if series == 12 {
        7
    } else {
        0
    }
}

fn coin_row_len_exec(series: i32) -> (r: usize)
    ensures
        r == coin_row_len(series as int),
{
    match series {
        1 => 10,
        2 => 10,
        3 => 10,
        4 => 7,
        5 => 8,
        6 => 10,
        7 => 8,
        8 => 8,
        9 => 8,
        10 => 7,
        11 => 7,
        12 => 7,
        _ => 0,
    }
}

/// Coins to upgrade from level `lvl` to `lvl + 1` for `series`; `is2026`
/// selects the 2026 table, otherwise the 2025 table applies.
pub open spec fn coin_cost(is2026: bool, series: int, lvl: int) -> int {
    if is2026 {
        coin_entry_2026(series, lvl - 1)
    } else {
        coin_entry_2025(series, lvl - 1)
    }
}

/// Whether a season string selects the 2026 coin table (every other season
/// uses the 2025 costs).
pub open spec fn is_2026(season: Seq<char>) -> bool {
    season == "2026"@
}

pub fn coin_cost_at(is2026: bool, series: i32, lvl: i32) -> (r: u64)
    ensures
        r == coin_cost(is2026, series as int, lvl as int),
        r <= 1_000_000_000,
{
    if lvl < 1 {
        return 0;
    }
    let idx: usize = (lvl - 1) as usize;
    if is2026 {
        coin_entry_2026_exec(series, idx)
    } else {
        coin_entry_2025_exec(series, idx)
    }
}

/// The coin cost table of a season: one row per series (index 0 = series 1),
/// one entry per level step (index 0 = L1→L2). Any season other than "2026"
/// gets the 2025 costs.
pub fn coin_costs_for_season(season: &str) -> (r: Vec<Vec<u64>>)
    ensures
        r@.len() == 12,
        forall|s: int| 0 <= s < 12 ==> #[trigger] r@[s]@.len() == coin_row_len(s + 1),
        forall|s: int, i: int|
            0 <= s < 12 && 0 <= i < coin_row_len(s + 1) ==> #[trigger] r@[s]@[i]
                == coin_cost(is_2026(season@), s + 1, i + 1),
{
    let is2026 = str_eq(season, "2026");
    let mut table: Vec<Vec<u64>> = Vec::new();
    let mut s: i32 = 1;
    while s <= 12
        invariant
            1 <= s <= 13,
            is2026 == is_2026(season@),
            table@.len() == s - 1,
            forall|t: int| 0 <= t < s - 1 ==> #[trigger] table@[t]@.len() == coin_row_len(t + 1),
            forall|t: int, i: int|
                0 <= t < s - 1 && 0 <= i < coin_row_len(t + 1) ==> #[trigger] table@[t]@[i]
                    == coin_cost(is2026, t + 1, i + 1),
        decreases 13 - s,
    {
        let n = coin_row_len_exec(s);
        let mut row: Vec<u64> = Vec::new();
        let mut i: usize = 0;
        while i < n
            invariant
                1 <= s <= 12,
                n == coin_row_len(s as int),
                0 <= i <= n,
                row@.len() == i,
                forall|k: int| 0 <= k < i ==> #[trigger] row@[k] == coin_cost(is2026, s as int, k + 1),
            decreases n - i,
        {
            let c = coin_cost_at(is2026, s, (i + 1) as i32);
            row.push(c);
            i = i + 1;
        }
        table.push(row);
        s = s + 1;
    }
    table
}

/// Maximum upgrade level for a rarity name: Epic 8, Rare 9, anything else 11.
pub open spec fn max_level_spec(rarity: Seq<char>) -> int {
    if rarity == "Epic"@ {
        8
    } else if rarity == "Rare"@ {
        9
    } else {
        11
    }
}

/// Maximum upgrade level for a given rarity.
pub fn max_level_for_rarity(rarity: &str) -> (r: i32)
    ensures
        r == max_level_spec(rarity@),
{
    if str_eq(rarity, "Epic") {
        8
    } else if str_eq(rarity, "Rare") {
        9
    } else {
        11
    }
}

/// Walking up from level `lvl` towards `max`, spending `cards`: the level
/// reached, the coins spent on the way, and the cards still missing for the
/// next step (0 when `max` was reached).
pub open spec fn upgrade_walk(lvl: int, max: int, cards: int, is2026: bool, series: int) -> (
    int,
    int,
    int,
)
    decreases max - lvl,
{
    if lvl >= max {
        (lvl, 0, 0)
    } else if cards >= card_cost(lvl) {
        let r = upgrade_walk(lvl + 1, max, cards - card_cost(lvl), is2026, series);
        (r.0, r.1 + coin_cost(is2026, series, lvl), r.2)
    } else {
        (lvl, 0, card_cost(lvl) - cards)
    }
}

/// The same walk without coins: the level reached and the cards still
/// missing for the next step.
pub open spec fn card_walk(lvl: int, max: int, cards: int) -> (int, int)
    decreases max - lvl,
{
    if lvl >= max {
        (lvl, 0)
    } else if cards >= card_cost(lvl) {
        card_walk(lvl + 1, max, cards - card_cost(lvl))
    } else {
        (lvl, card_cost(lvl) - cards)
    }
}

/// Number of level steps below `lvl` that carry a coin cost.
pub open spec fn priced_steps_below(lvl: int) -> int {
    if lvl <= 1 {
        0
    } else if lvl >= 11 {
        10
    } else {
        lvl - 1
    }
}

pub proof fn lemma_coin_step(is2026: bool, series: int, lvl: int)
    ensures
        coin_cost(is2026, series, lvl) <= 1_000_000_000,
        coin_cost(is2026, series, lvl) >= 0,
        (1 <= lvl <= 10) ==> priced_steps_below(lvl + 1) == priced_steps_below(lvl) + 1,
        !(1 <= lvl <= 10) ==> priced_steps_below(lvl + 1) == priced_steps_below(lvl)
            && coin_cost(is2026, series, lvl) == 0,
{
}

/// A walk that can afford exactly one level step climbs one level and costs
/// that step's entry of the season's table: the 2026 table for season
/// "2026", the 2025 table otherwise.
pub proof fn law_one_step_costs_season_entry(lvl: int, max: int, cards: int, series: int, season: Seq<char>)
    requires
        lvl < max,
        card_cost(lvl) <= cards,
        lvl + 1 >= max || cards - card_cost(lvl) < card_cost(lvl + 1),
    ensures
        upgrade_walk(lvl, max, cards, is_2026(season), series).0 == lvl + 1,
        upgrade_walk(lvl, max, cards, is_2026(season), series).1 == if season == "2026"@ {
            coin_entry_2026(series, lvl - 1)
        } else {
            coin_entry_2025(series, lvl - 1)
        },
{
    let is = is_2026(season);
    let inner = upgrade_walk(lvl + 1, max, cards - card_cost(lvl), is, series);
    assert(inner.0 == lvl + 1 && inner.1 == 0);
    assert(upgrade_walk(lvl, max, cards, is, series) == (inner.0, inner.1 + coin_cost(is, series, lvl), inner.2));
}

/// Result of an upgrade calculation.
pub struct UpgradeInfo {
    /// Highest level reachable with the cards currently owned.
    pub reachable_level: i32,
    /// Total coins needed to reach that level from the current level.
    pub coins_needed: u64,
    /// Cards still needed to reach the next level beyond what is owned.
    pub cards_to_next: i32,
}

/// Calculate how far a part can be upgraded given cards owned.
pub fn calculate_upgrade(
    current_level: i32,
    cards_owned: i32,
    series: i32,
    rarity: &str,
    season: &str,
) -> (r: UpgradeInfo)
    requires
        current_level > i32::MIN,
        series > i32::MIN,
        upgrade_walk(
            current_level as int,
            max_level_spec(rarity@),
            cards_owned as int,
            is_2026(season@),
            series as int,
        ).2 <= i32::MAX,
    ensures
        ({
            let w = upgrade_walk(
                current_level as int,
                max_level_spec(rarity@),
                cards_owned as int,
                is_2026(season@),
                series as int,
            );
            r.reachable_level == w.0 && r.coins_needed == w.1 && r.cards_to_next == w.2
        }),
{
    let max_lvl = max_level_for_rarity(rarity);
    let is2026 = str_eq(season, "2026");
    let ghost whole = upgrade_walk(
        current_level as int,
        max_lvl as int,
        cards_owned as int,
        is2026,
        series as int,
    );
    let mut cards_remaining = cards_owned;
    let mut coins_needed: u64 = 0;
    let mut reachable_level = current_level;
    let mut cards_to_next: i32 = 0;
    let mut from_level = current_level;
    while from_level < max_lvl
        invariant_except_break
            reachable_level == from_level,
            cards_to_next == 0,
        invariant
            from_level > i32::MIN,
            from_level <= max_lvl || from_level == current_level,
            cards_remaining <= cards_owned,
            coins_needed <= 1_000_000_000 * (priced_steps_below(from_level as int)
                - priced_steps_below(current_level as int)),
            priced_steps_below(current_level as int) <= priced_steps_below(from_level as int),
            whole.2 <= i32::MAX,
            whole == upgrade_walk(
                current_level as int,
                max_lvl as int,
                cards_owned as int,
                is2026,
                series as int,
            ),
            ({
                let w = upgrade_walk(
                    from_level as int,
                    max_lvl as int,
                    cards_remaining as int,
                    is2026,
                    series as int,
                );
                whole == (w.0, coins_needed + w.1, w.2)
            }),
        ensures
            whole == (reachable_level as int, coins_needed as int, cards_to_next as int),
        decreases max_lvl - from_level,
    {
        let card_cost = card_cost_at(from_level);
        let coin_cost = coin_cost_at(is2026, series, from_level);
        proof {
            lemma_coin_step(is2026, series as int, from_level as int);
        }
        if cards_remaining >= card_cost {
            cards_remaining = cards_remaining - card_cost;
            coins_needed = coins_needed + coin_cost;
            reachable_level = from_level + 1;
            from_level = from_level + 1;
        } else {
            cards_to_next = card_cost - cards_remaining;
            break;
        }
    }
    UpgradeInfo { reachable_level, coins_needed, cards_to_next }
}

/// How many cards are needed to reach a target level from the current level.
/// Returns (reachable_level, cards_to_next) — no coin data required.
pub fn calculate_upgrade_cards_only(current_level: i32, cards_owned: i32, max_level: i32) -> (r: (
    i32,
    i32,
))
    requires
        current_level > i32::MIN,
        card_walk(current_level as int, max_level as int, cards_owned as int).1 <= i32::MAX,
    ensures
        r.0 == card_walk(current_level as int, max_level as int, cards_owned as int).0,
        r.1 == card_walk(current_level as int, max_level as int, cards_owned as int).1,
{
    let ghost whole = card_walk(current_level as int, max_level as int, cards_owned as int);
    let mut cards_remaining = cards_owned;
    let mut reachable = current_level;
    let mut from_level = current_level;
    while from_level < max_level
        invariant
            from_level > i32::MIN,
            reachable == from_level,
            cards_remaining <= cards_owned,
            whole.1 <= i32::MAX,
            whole == card_walk(current_level as int, max_level as int, cards_owned as int),
            whole == card_walk(from_level as int, max_level as int, cards_remaining as int),
        decreases max_level - from_level,
    {
        let card_cost = card_cost_at(from_level);
        if cards_remaining >= card_cost {
            cards_remaining = cards_remaining - card_cost;
            reachable = from_level + 1;
            from_level = from_level + 1;
        } else {
            return (reachable, card_cost - cards_remaining);
        }
    }
    (reachable, 0)
}

/// The card-only calculator agrees with the full calculator: for the same
/// level, cards and rarity cap, both reach the same level and report the
/// same shortfall for the next step, whatever the series and season.
pub proof fn law_cards_only_agrees_with_full(
    lvl: int,
    max: int,
    cards: int,
    is2026: bool,
    series: int,
)
    ensures
        upgrade_walk(lvl, max, cards, is2026, series).0 == card_walk(lvl, max, cards).0,
        upgrade_walk(lvl, max, cards, is2026, series).2 == card_walk(lvl, max, cards).1,
    decreases max - lvl,
{
    if lvl < max && cards >= card_cost(lvl) {
        law_cards_only_agrees_with_full(lvl + 1, max, cards - card_cost(lvl), is2026, series);
    }
}

/// Upgrading never moves a part down: the reached level is at least the
/// current one, and never beyond the cap when starting below it.
pub proof fn law_upgrade_bounds(lvl: int, max: int, cards: int)
    ensures
        card_walk(lvl, max, cards).0 >= lvl,
        lvl <= max ==> card_walk(lvl, max, cards).0 <= max,
        card_walk(lvl, max, cards).1 >= 0,
    decreases max - lvl,
{
    if lvl < max && cards >= card_cost(lvl) {
        law_upgrade_bounds(lvl + 1, max, cards - card_cost(lvl));
    }
}

/// With no negative card count, the cards still missing for the next level
/// are at most 4000, the dearest step.
pub proof fn law_missing_cards_bounded(lvl: int, max: int, cards: int)
    requires
        cards >= 0,
    ensures
        0 <= card_walk(lvl, max, cards).1 <= 4000,
    decreases max - lvl,
{
    if lvl < max && cards >= card_cost(lvl) {
        law_missing_cards_bounded(lvl + 1, max, cards - card_cost(lvl));
    }
}

/// Owning more cards never lowers the level that can be reached.
pub proof fn law_more_cards_reach_higher(lvl: int, max: int, cards: int, more: int)
    requires
        cards <= more,
    ensures
        card_walk(lvl, max, cards).0 <= card_walk(lvl, max, more).0,
    decreases max - lvl,
{
    if lvl < max {
        if cards >= card_cost(lvl) {
            law_more_cards_reach_higher(lvl + 1, max, cards - card_cost(lvl), more - card_cost(lvl));
        } else if more >= card_cost(lvl) {
            law_upgrade_bounds(lvl + 1, max, more - card_cost(lvl));
        }
    }
}

proof fn lemma_coin_cost_nonneg(is2026: bool, series: int, lvl: int)
    ensures
        coin_cost(is2026, series, lvl) >= 0,
{
}

proof fn lemma_walk_nonneg(lvl: int, max: int, cards: int, is2026: bool, series: int)
    ensures
        upgrade_walk(lvl, max, cards, is2026, series).0 >= lvl,
        upgrade_walk(lvl, max, cards, is2026, series).1 >= 0,
    decreases max - lvl,
{
    if lvl < max && cards >= card_cost(lvl) {
        lemma_walk_nonneg(lvl + 1, max, cards - card_cost(lvl), is2026, series);
        lemma_coin_cost_nonneg(is2026, series, lvl);
    }
}

/// Owning more cards never lowers the level that can be reached, nor the
/// coins needed to reach it.
pub proof fn law_more_cards_cost_more_coins(lvl: int, max: int, cards: int, more: int, is2026: bool, series: int)
    requires
        cards <= more,
    ensures
        upgrade_walk(lvl, max, cards, is2026, series).0 <= upgrade_walk(lvl, max, more, is2026, series).0,
        upgrade_walk(lvl, max, cards, is2026, series).1 <= upgrade_walk(lvl, max, more, is2026, series).1,
    decreases max - lvl,
{
    if lvl < max {
        lemma_coin_cost_nonneg(is2026, series, lvl);
        if cards >= card_cost(lvl) {
            law_more_cards_cost_more_coins(lvl + 1, max, cards - card_cost(lvl), more - card_cost(lvl), is2026, series);
        } else if more >= card_cost(lvl) {
            lemma_walk_nonneg(lvl + 1, max, more - card_cost(lvl), is2026, series);
        }
    }
}

// ── Coin display ──────────────────────────────────────────────────────────────
//
// `format_coins` prints `coins / 10^k` with `{:.1}` (or `{:.0}` for
// thousands) after converting to `f64`. The specification below follows the
// binary64 arithmetic exactly: the conversion of `coins` to the nearest
// double, the division rounded to the nearest double (ties to even), and the
// decimal rounding of that double half to even.

/// 2^52.
pub open spec fn two52() -> nat {
    4503599627370496
}

/// 2^53.
pub open spec fn two53() -> nat {
    9007199254740992
}

/// `q + rem / d` rounded to the nearest integer, halves to even.
pub open spec fn half_even(q: nat, rem: nat, d: nat) -> nat {
    if 2 * rem > d || (2 * rem == d && q % 2 == 1) {
        q + 1
    } else {
        q
    }
}

/// The smallest power of two `p >= start` (doubling from `start`) with
/// `c < 2^53 * p`, i.e. the unit in which `c` has at most 53 significant bits.
pub open spec fn double_unit(c: nat, p: nat) -> nat
    decreases c - p,
{
    if p == 0 || p > c || c < two53() * p {
        p
    } else {
        double_unit(c, 2 * p)
    }
}

/// The value of the integer `c` converted to binary64 (nearest, ties to even).
pub open spec fn to_double(c: nat) -> nat {
    let p = double_unit(c, 1);
    half_even(c / p, c % p, p) * p
}

/// The distance from `m` up to `lim` (0 once reached).
pub open spec fn gap(lim: nat, m: nat) -> nat {
    if m >= lim {
        0
    } else {
        (lim - m) as nat
    }
}

/// Doubles `m` and `p` together until `m` reaches `lim`.
pub open spec fn scale_up(m: nat, p: nat, lim: nat) -> (nat, nat)
    decreases gap(lim, m),
{
    if m == 0 || m >= lim {
        (m, p)
    } else {
        scale_up(2 * m, 2 * p, lim)
    }
}

/// `x / d` rounded to binary64, times `ten`, rounded to an integer half to
/// even: the digits `{:.1}` (ten = 10) or `{:.0}` (ten = 1) print.
pub open spec fn scaled_digits(x: nat, d: nat, ten: nat) -> nat {
    let sp = scale_up(x, 1, two52() * d);
    let mh = half_even(sp.0 / d, sp.0 % d, d);
    half_even((ten * mh) / sp.1, (ten * mh) % sp.1, sp.1)
}

/// `t / 10` printed with one decimal.
pub open spec fn one_decimal(t: nat) -> Seq<char> {
    dec_nat(t / 10) + seq!['.'] + seq![digit_char((t % 10) as int)]
}

/// The compact coin display.
pub open spec fn format_coins_spec(c: nat) -> Seq<char> {
    if c >= 1_000_000_000 {
        one_decimal(scaled_digits(to_double(c), 1_000_000_000, 10)) + "B"@
    } else if c >= 1_000_000 {
        one_decimal(scaled_digits(c, 1_000_000, 10)) + "M"@
    } else if c >= 1_000 {
        dec_nat(scaled_digits(c, 1_000, 1)) + "K"@
    } else {
        dec_nat(c)
    }
}

fn half_even_exec(q: u128, rem: u128, d: u128) -> (r: u128)
    requires
        q < u128::MAX,
        2 * rem <= u128::MAX,
    ensures
        r == half_even(q as nat, rem as nat, d as nat),
{
    if 2 * rem > d || (2 * rem == d && q % 2 == 1) {
        q + 1
    } else {
        q
    }
}

fn to_double_exec(c: u64) -> (r: u128)
    ensures
        r == to_double(c as nat),
        r <= 36893488147419103232u128,
{
    let cc: u128 = c as u128;
    let mut p: u128 = 1;
    while !(p > cc || cc < 9007199254740992u128 * p)
        invariant
            1 <= p <= cc + 1,
            cc == c,
            cc <= 18446744073709551615u128,
            double_unit(cc as nat, p as nat) == double_unit(cc as nat, 1),
        decreases cc - p,
    {
        p = 2 * p;
    }
    let q = cc / p;
    let rem = cc % p;
    assert(q * p + rem == cc) by (nonlinear_arith)
        requires
            q == cc / p,
            rem == cc % p,
            p >= 1,
    ;
    assert(q <= cc) by (nonlinear_arith)
        requires
            q * p + rem == cc,
            p >= 1,
            rem >= 0,
            q >= 0,
    ;
    let m = half_even_exec(q, rem, p);
    assert(m * p <= q * p + p) by (nonlinear_arith)
        requires
            m <= q + 1,
            p >= 1,
    ;
    m * p
}

fn scaled_digits_exec(x: u128, d: u128, ten: u128) -> (r: u128)
    requires
        1 <= d <= 1_000_000_000,
        1 <= ten <= 10,
        x < two52() * d,
    ensures
        r == scaled_digits(x as nat, d as nat, ten as nat),
        r <= 10 * 9007199254740992u128 + 11,
{
    let lim: u128 = 4503599627370496u128 * d;
    let mut m: u128 = x;
    let mut p: u128 = 1;
    while !(m == 0 || m >= lim)
        invariant
            lim == two52() * d,
            1 <= d <= 1_000_000_000,
            m < 2 * lim,
            1 <= p <= 2 * lim,
            m == 0 || p <= m,
            scale_up(m as nat, p as nat, lim as nat) == scale_up(x as nat, 1, lim as nat),
        decreases gap(lim as nat, m as nat),
    {
        m = 2 * m;
        p = 2 * p;
    }
    let q = m / d;
    let rem = m % d;
    assert(q <= 2 * 4503599627370496u128) by (nonlinear_arith)
        requires
            q == m / d,
            m < 2 * lim,
            lim == 4503599627370496u128 * d,
            d >= 1,
    ;
    let mh = half_even_exec(q, rem, d);
    assert(mh <= 2 * 4503599627370496u128 + 1);
    assert(ten * mh <= 10 * (2 * 4503599627370496u128 + 1)) by (nonlinear_arith)
        requires
            mh <= 2 * 4503599627370496u128 + 1,
            ten <= 10,
    ;
    let tm = ten * mh;
    assert(tm / p <= tm && tm % p < p) by (nonlinear_arith)
        requires
            p >= 1,
    ;
    let r = half_even_exec(tm / p, tm % p, p);
    r
}

fn push_one_decimal(s: &mut String, t: u128)
    requires
        t <= 10 * 9007199254740992u128 + 11,
    ensures
        final(s)@ == old(s)@ + one_decimal(t as nat),
{
    push_u64(s, (t / 10) as u64);
    push_char(s, '.');
    let d: u8 = (t % 10) as u8;
    let c: char = (48u8 + d) as char;
    push_char(s, c);
    assert(final(s)@ =~= old(s)@ + one_decimal(t as nat));
}

/// Format a large coin number as a compact string (e.g. 1_250_000 → "1.2M").
pub fn format_coins(coins: u64) -> (r: String)
    ensures
        r@ == format_coins_spec(coins as nat),
{
    let mut s = String::new();
    if coins >= 1_000_000_000 {
        let x = to_double_exec(coins);
        let t = scaled_digits_exec(x, 1_000_000_000, 10);
        push_one_decimal(&mut s, t);
        push_char(&mut s, 'B');
        proof { reveal_strlit("B"); }
        assert(s@ =~= format_coins_spec(coins as nat));
    } else if coins >= 1_000_000 {
        let t = scaled_digits_exec(coins as u128, 1_000_000, 10);
        push_one_decimal(&mut s, t);
        push_char(&mut s, 'M');
        proof { reveal_strlit("M"); }
        assert(s@ =~= format_coins_spec(coins as nat));
    } else if coins >= 1_000 {
        let t = scaled_digits_exec(coins as u128, 1_000, 1);
        push_u64(&mut s, t as u64);
        push_char(&mut s, 'K');
        proof { reveal_strlit("K"); }
        assert(s@ =~= format_coins_spec(coins as nat));
    } else {
        push_u64(&mut s, coins);
        assert(s@ =~= format_coins_spec(coins as nat));
    }
    s
}

// ── Rarity ────────────────────────────────────────────────────────────────────

/// Part rarity.
#[derive(Debug, Clone, Copy, PartialEq, Eq, Structural)]
pub enum Rarity {
    Common,
    Rare,
    Epic,
}

impl Rarity {
    pub open spec fn label_view(self) -> Seq<char> {
        match self {
            Rarity::Common => "Common"@,
            Rarity::Rare => "Rare"@,
            Rarity::Epic => "Epic"@,
        }
    }

    pub open spec fn css_class_view(self) -> Seq<char> {
        match self {
            Rarity::Common => "rarity-common"@,
            Rarity::Rare => "rarity-rare"@,
            Rarity::Epic => "rarity-epic"@,
        }
    }

    pub fn label(&self) -> (r: &'static str)
        ensures
            r@ == self.label_view(),
    {
        match self {
            Rarity::Common => "Common",
            Rarity::Rare => "Rare",
            Rarity::Epic => "Epic",
        }
    }

    pub fn css_class(&self) -> (r: &'static str)
        ensures
            r@ == self.css_class_view(),
    {
        match self {
            Rarity::Common => "rarity-common",
            Rarity::Rare => "rarity-rare",
            Rarity::Epic => "rarity-epic",
        }
    }
}

} // verus!
