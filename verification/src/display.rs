//! Display helpers: signed stat changes of the upgrade advisor's results,
//! and the upgrade tag of an inventory row's cards cell.

use vstd::prelude::*;

use crate::data::{
    calculate_upgrade, calculate_upgrade_cards_only, card_walk, is_2026, law_cards_only_agrees_with_full,
    law_missing_cards_bounded, max_level_for_rarity, max_level_spec, upgrade_walk,
};
use crate::models::driver::OwnedDriverDefinition;
use crate::models::part::OwnedPartDefinition;
use crate::text::{dec_int, dec_nat, digit_char, join, join_spec, push_char, push_i64, push_u64, string_of};

verus! {

/// The labels joined with `, `, or `none` when there are none.
pub fn labels_or(labels: &Vec<&str>, none: &str) -> (r: String)
    ensures
        r@ == if labels@.len() == 0 {
            none@
        } else {
            join_spec(labels@.map_values(|p: &str| p@), ", "@)
        },
{
    if labels.len() == 0 {
        string_of(none)
    } else {
        join(labels, ", ")
    }
}

/// A signed change: `+` before a positive value.
pub open spec fn fmt_delta_spec(v: int) -> Seq<char> {
    if v > 0 {
        seq!['+'] + dec_int(v)
    } else {
        dec_int(v)
    }
}

/// A signed change, `+3` or `-2` (and `0`).
pub fn fmt_delta(v: i32) -> (r: String)
    ensures
        r@ == fmt_delta_spec(v as int),
{
    let mut s = String::new();
    if v > 0 {
        push_char(&mut s, '+');
    }
    push_i64(&mut s, v as i64);
    if v <= 0 {
        assert(s@ =~= dec_int(v as int));
    }
    s
}

/// A time in hundredths of a second written in seconds with two decimals,
/// `-0.05` or `1.20`.
pub open spec fn seconds2(h: int) -> Seq<char> {
    let a = if h < 0 {
        -h
    } else {
        h
    };
    (if h < 0 {
        seq!['-']
    } else {
        Seq::empty()
    }) + dec_nat((a / 100) as nat) + seq!['.', digit_char((a % 100) / 10), digit_char(a % 10)]
}

/// A signed change of pit stop time (in hundredths), in seconds with two
/// decimals: `+` before a positive value.
pub open spec fn fmt_pit_delta_spec(h: int) -> Seq<char> {
    if h > 0 {
        seq!['+'] + seconds2(h)
    } else {
        seconds2(h)
    }
}

/// A signed change of pit stop time (in hundredths), in seconds with two
/// decimals, `-0.05` or `+0.10`.
pub fn fmt_pit_delta(h: i32) -> (r: String)
    ensures
        r@ == fmt_pit_delta_spec(h as int),
{
    let mut s = String::new();
    if h > 0 {
        push_char(&mut s, '+');
    }
    let a: u64 = if h < 0 {
        (-(h as i64)) as u64
    } else {
        h as u64
    };
    if h < 0 {
        push_char(&mut s, '-');
    }
    let ghost head = s@;
    push_u64(&mut s, a / 100);
    push_char(&mut s, '.');
    let tens: u8 = ((a % 100) / 10) as u8;
    let ones: u8 = (a % 10) as u8;
    push_char(&mut s, (48u8 + tens) as char);
    push_char(&mut s, (48u8 + ones) as char);
    assert(s@ =~= head + dec_nat((a / 100) as nat) + seq![
        '.',
        digit_char(((a % 100) / 10) as int),
        digit_char((a % 10) as int),
    ]);
    s
}

// ── Upgrade tags ──────────────────────────────────────────────────────────────

/// What the cards cell of an owned part or driver shows beside its input.
#[derive(Debug, Clone, Copy, PartialEq, Eq, Structural)]
pub enum UpgradeTag {
    /// Nothing: the catalog lacks the item, or no cards are owned.
    Hidden,
    /// The item is at its maximum level.
    Max,
    /// The owned cards reach `level`; for a part, at the cost of `coins`.
    Reachable { level: i32, coins: Option<u64> },
    /// The cards still missing for the next level.
    Need { cards: i32 },
}

/// The tag of an owned part at `level` with `cards` cards, whose catalog
/// entry (when known) has this series and rarity.
pub open spec fn part_upgrade_tag_spec(
    level: int,
    cards: int,
    part: Option<(int, Seq<char>)>,
    season: Seq<char>,
) -> UpgradeTag {
    match part {
        None => UpgradeTag::Hidden,
        Some((series, rarity)) => if level >= max_level_spec(rarity) {
            UpgradeTag::Max
        } else if cards == 0 {
            UpgradeTag::Hidden
        } else {
            let w = upgrade_walk(level, max_level_spec(rarity), cards, is_2026(season), series);
            if w.0 > level {
                UpgradeTag::Reachable { level: w.0 as i32, coins: Some(w.1 as u64) }
            } else {
                UpgradeTag::Need { cards: w.2 as i32 }
            }
        },
    }
}

/// The upgrade walk of a part below its maximum level stays in `i32`.
pub open spec fn part_upgrade_fits(level: int, cards: int, series: int, rarity: Seq<char>, season: Seq<char>) -> bool {
    level >= max_level_spec(rarity) || cards == 0 || (level > i32::MIN && series > i32::MIN && upgrade_walk(
        level,
        max_level_spec(rarity),
        cards,
        is_2026(season),
        series,
    ).2 <= i32::MAX)
}

/// An owned part with a non-negative card count, a level and a series
/// above `i32::MIN` can always be tagged.
pub proof fn lemma_owned_part_fits(level: int, cards: int, series: int, rarity: Seq<char>, season: Seq<char>)
    requires
        cards >= 0,
        level > i32::MIN,
        series > i32::MIN,
    ensures
        part_upgrade_fits(level, cards, series, rarity, season),
{
    law_cards_only_agrees_with_full(level, max_level_spec(rarity), cards, is_2026(season), series);
    law_missing_cards_bounded(level, max_level_spec(rarity), cards);
}

/// The upgrade tag of an owned part: `MAX` at the rarity's maximum level,
/// nothing without cards, else the level the cards reach with its coins, or
/// the cards missing for the next level.
pub fn part_upgrade_tag(
    current_level: i32,
    cards_owned: i32,
    part_def: Option<&OwnedPartDefinition>,
    season: &str,
) -> (r: UpgradeTag)
    requires
        part_def matches Some(d) ==> part_upgrade_fits(
            current_level as int,
            cards_owned as int,
            d.series as int,
            d.rarity@,
            season@,
        ),
    ensures
        r == part_upgrade_tag_spec(
            current_level as int,
            cards_owned as int,
            match part_def {
                Some(d) => Some((d.series as int, d.rarity@)),
                None => None,
            },
            season@,
        ),
{
    let part = match part_def {
        None => return UpgradeTag::Hidden,
        Some(p) => p,
    };
    let max_lvl = max_level_for_rarity(part.rarity.as_str());
    if current_level >= max_lvl {
        UpgradeTag::Max
    } else if cards_owned == 0 {
        UpgradeTag::Hidden
    } else {
        let upgrade = calculate_upgrade(current_level, cards_owned, part.series, part.rarity.as_str(), season);
        if upgrade.reachable_level > current_level {
            UpgradeTag::Reachable { level: upgrade.reachable_level, coins: Some(upgrade.coins_needed) }
        } else {
            UpgradeTag::Need { cards: upgrade.cards_to_next }
        }
    }
}

/// The tag of an owned driver at `level` with `cards` cards, whose catalog
/// entry (when known) has maximum level `max`.
pub open spec fn driver_upgrade_tag_spec(level: int, cards: int, max: Option<int>) -> UpgradeTag {
    match max {
        None => UpgradeTag::Hidden,
        Some(m) => if level >= m {
            UpgradeTag::Max
        } else if cards == 0 {
            UpgradeTag::Hidden
        } else {
            let w = card_walk(level, m, cards);
            if w.0 > level {
                UpgradeTag::Reachable { level: w.0 as i32, coins: None }
            } else {
                UpgradeTag::Need { cards: w.1 as i32 }
            }
        },
    }
}

/// The card walk of a driver below its maximum level stays in `i32`.
pub open spec fn driver_upgrade_fits(level: int, cards: int, max: int) -> bool {
    level >= max || cards == 0 || (level > i32::MIN && card_walk(level, max, cards).1 <= i32::MAX)
}

/// An owned driver with a non-negative card count and a level above
/// `i32::MIN` can always be tagged.
pub proof fn lemma_owned_driver_fits(level: int, cards: int, max: int)
    requires
        cards >= 0,
        level > i32::MIN,
    ensures
        driver_upgrade_fits(level, cards, max),
{
    law_missing_cards_bounded(level, max, cards);
}

/// The upgrade tag of an owned driver: `MAX` at the last level of its
/// catalog entry, nothing without cards, else the level the cards reach, or
/// the cards missing for the next level.
pub fn driver_upgrade_tag(current_level: i32, cards_owned: i32, def: Option<&OwnedDriverDefinition>) -> (r:
    UpgradeTag)
    requires
        def matches Some(d) ==> driver_upgrade_fits(current_level as int, cards_owned as int, d.max_level_spec()),
    ensures
        r == driver_upgrade_tag_spec(
            current_level as int,
            cards_owned as int,
            match def {
                Some(d) => Some(d.max_level_spec()),
                None => None,
            },
        ),
{
    let d = match def {
        None => return UpgradeTag::Hidden,
        Some(d) => d,
    };
    let max_lvl = d.max_level();
    if current_level >= max_lvl {
        UpgradeTag::Max
    } else if cards_owned == 0 {
        UpgradeTag::Hidden
    } else {
        let (reachable, cards_to_next) = calculate_upgrade_cards_only(current_level, cards_owned, max_lvl);
        if reachable > current_level {
            UpgradeTag::Reachable { level: reachable, coins: None }
        } else {
            UpgradeTag::Need { cards: cards_to_next }
        }
    }
}

} // verus!
