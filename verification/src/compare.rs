//! Side-by-side comparison of setups: which value of a stat row is the
//! best and which the worst.

use vstd::prelude::*;

verus! {

/// How a value of a comparison row is marked.
#[derive(Debug, Clone, Copy, PartialEq, Eq, Structural)]
pub enum CompareMark {
    Best,
    Worst,
    Plain,
}

/// `vals[i]` is the lowest value of the row (or, with `lowest` false, the
/// highest).
pub open spec fn is_extreme(vals: Seq<i64>, i: int, lowest: bool) -> bool {
    forall|j: int|
        0 <= j < vals.len() ==> if lowest {
            vals[i] <= #[trigger] vals[j]
        } else {
            vals[i] >= #[trigger] vals[j]
        }
}

/// Every value of the row equals `x`.
pub open spec fn all_equal_to(vals: Seq<i64>, x: i64) -> bool {
    forall|j: int| 0 <= j < vals.len() ==> #[trigger] vals[j] == x
}

/// The mark of `vals[i]`: none when the whole row has its value; else best
/// when it is the best value (the lowest when lower is better, otherwise the
/// highest), worst when it is the worst value.
pub open spec fn compare_mark_spec(vals: Seq<i64>, i: int, lower_is_better: bool) -> CompareMark {
    if all_equal_to(vals, vals[i]) {
        CompareMark::Plain
    } else if is_extreme(vals, i, lower_is_better) {
        CompareMark::Best
    } else if is_extreme(vals, i, !lower_is_better) {
        CompareMark::Worst
    } else {
        CompareMark::Plain
    }
}

/// The marks of a comparison row, one per value.
pub fn compare_marks(values: &[i64], lower_is_better: bool) -> (r: Vec<CompareMark>)
    ensures
        r@.len() == values@.len(),
        forall|i: int| 0 <= i < values@.len() ==> #[trigger] r@[i] == compare_mark_spec(values@, i, lower_is_better),
{
    let mut out: Vec<CompareMark> = Vec::new();
    if values.len() == 0 {
        return out;
    }
    let mut lo: usize = 0;
    let mut hi: usize = 0;
    let mut k: usize = 1;
    while k < values.len()
        invariant
            1 <= k <= values@.len(),
            lo < k,
            hi < k,
            forall|j: int| 0 <= j < k ==> values@[lo as int] <= #[trigger] values@[j],
            forall|j: int| 0 <= j < k ==> values@[hi as int] >= #[trigger] values@[j],
        decreases values@.len() - k,
    {
        if values[k] < values[lo] {
            lo = k;
        }
        if values[k] > values[hi] {
            hi = k;
        }
        k = k + 1;
    }
    let mn = values[lo];
    let mx = values[hi];
    let mut i: usize = 0;
    while i < values.len()
        invariant
            0 <= i <= values@.len(),
            lo < values@.len(),
            hi < values@.len(),
            mn == values@[lo as int],
            mx == values@[hi as int],
            forall|j: int| 0 <= j < values@.len() ==> mn <= #[trigger] values@[j] && values@[j] <= mx,
            out@.len() == i,
            forall|m: int| 0 <= m < i ==> #[trigger] out@[m] == compare_mark_spec(values@, m, lower_is_better),
        decreases values@.len() - i,
    {
        let v = values[i];
        let ghost vals = values@;
        let best = if lower_is_better { mn } else { mx };
        let worst = if lower_is_better { mx } else { mn };
        let mark = if mn == mx {
            assert(all_equal_to(vals, v)) by {
                assert forall|j: int| 0 <= j < vals.len() implies #[trigger] vals[j] == v by {
                    assert(mn <= vals[j] && vals[j] <= mx);
                }
            }
            CompareMark::Plain
        } else {
            assert(!all_equal_to(vals, v)) by {
                if v == mn {
                    assert(vals[hi as int] != v);
                } else {
                    assert(vals[lo as int] != v);
                }
            }
            if v == best {
                assert(is_extreme(vals, i as int, lower_is_better));
                CompareMark::Best
            } else {
                assert(!is_extreme(vals, i as int, lower_is_better)) by {
                    if lower_is_better {
                        assert(vals[lo as int] < v);
                    } else {
                        assert(vals[hi as int] > v);
                    }
                }
                if v == worst {
                    assert(is_extreme(vals, i as int, !lower_is_better));
                    CompareMark::Worst
                } else {
                    assert(!is_extreme(vals, i as int, !lower_is_better)) by {
                        if lower_is_better {
                            assert(vals[hi as int] > v);
                        } else {
                            assert(vals[lo as int] < v);
                        }
                    }
                    CompareMark::Plain
                }
            }
        };
        out.push(mark);
        i = i + 1;
    }
    out
}

} // verus!
