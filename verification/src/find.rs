//! First-match search over an index range, and its properties.

use vstd::prelude::*;

verus! {

/// The first index below `len` where `pred` holds, if any.
pub open spec fn first_where(len: int, pred: spec_fn(int) -> bool) -> Option<int> {
    if exists|i: int| 0 <= i < len && #[trigger] pred(i) {
        Some(choose|i: int| 0 <= i < len && #[trigger] pred(i) && forall|j: int| 0 <= j < i ==> !#[trigger] pred(j))
    } else {
        None
    }
}

/// An index where `pred` holds, after none where it does not, is the first.
pub proof fn lemma_first_where_found(len: int, pred: spec_fn(int) -> bool, i: int)
    requires
        0 <= i < len,
        pred(i),
        forall|j: int| 0 <= j < i ==> !#[trigger] pred(j),
    ensures
        first_where(len, pred) == Some(i),
{
    let k = choose|k: int| 0 <= k < len && #[trigger] pred(k) && forall|j: int| 0 <= j < k ==> !#[trigger] pred(j);
    assert(pred(k));
    if k < i {
    } else if k > i {
    }
}

/// When `pred` holds somewhere below `len`, a first such index exists.
pub proof fn lemma_least_exists(len: int, pred: spec_fn(int) -> bool, w: int)
    requires
        0 <= w < len,
        pred(w),
    ensures
        exists|i: int| 0 <= i < len && #[trigger] pred(i) && forall|j: int| 0 <= j < i ==> !#[trigger] pred(j),
    decreases w,
{
    if exists|j: int| 0 <= j < w && #[trigger] pred(j) {
        let j = choose|j: int| 0 <= j < w && #[trigger] pred(j);
        lemma_least_exists(len, pred, j);
    } else {
        assert(forall|j: int| 0 <= j < w ==> !#[trigger] pred(j));
    }
}

/// The first index lies in range, satisfies `pred`, and follows none that does.
pub proof fn lemma_first_where_range(len: int, pred: spec_fn(int) -> bool)
    ensures
        first_where(len, pred) matches Some(i) ==> 0 <= i < len && pred(i) && forall|j: int|
            0 <= j < i ==> !#[trigger] pred(j),
        first_where(len, pred) is None ==> forall|i: int| 0 <= i < len ==> !#[trigger] pred(i),
{
    if exists|i: int| 0 <= i < len && #[trigger] pred(i) {
        let w = choose|i: int| 0 <= i < len && #[trigger] pred(i);
        lemma_least_exists(len, pred, w);
    }
}

/// Predicates that agree on the range have the same first index.
pub proof fn lemma_first_where_congruent(len: int, p1: spec_fn(int) -> bool, p2: spec_fn(int) -> bool)
    requires
        forall|i: int| 0 <= i < len ==> #[trigger] p1(i) == p2(i),
    ensures
        first_where(len, p1) == first_where(len, p2),
{
    lemma_first_where_range(len, p1);
    lemma_first_where_range(len, p2);
    match (first_where(len, p1), first_where(len, p2)) {
        (Some(a), Some(b)) => {
            assert(p1(a) == p2(a));
            assert(p1(b) == p2(b));
            if a < b {
                assert(!p2(a));
            } else if b < a {
                assert(!p1(b));
            }
        },
        (Some(a), None) => {
            assert(p1(a) == p2(a));
        },
        (None, Some(b)) => {
            assert(p1(b) == p2(b));
        },
        (None, None) => {},
    }
}

} // verus!
