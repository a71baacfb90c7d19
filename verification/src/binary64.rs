//! Binary64 rounding of non-negative ratios.
//!
//! A ratio `n / d` rounded to the nearest double (ties to even) is written
//! as a triple `(sig, up, down)` whose value is `sig * up / down`: `sig`
//! holds at most 53 significant bits and `up`, `down` are powers of two.

use vstd::prelude::*;

use crate::data::{gap, half_even, scale_up, two52, two53};

verus! {

/// The power of two `q` (doubling from `q`) at which `n < 2^53 * d * q`.
pub open spec fn down_unit(n: nat, d: nat, q: nat) -> nat
    decreases n - q,
{
    if q == 0 || d == 0 || q > n || n < two53() * q || n < two53() * d * q {
        q
    } else {
        down_unit(n, d, 2 * q)
    }
}

/// `n / d` rounded to binary64 (nearest, ties to even), as
/// `(sig, up, down)` with value `sig * up / down`.
pub open spec fn round_ratio(n: nat, d: nat) -> (nat, nat, nat) {
    if n < two52() * d {
        let sp = scale_up(n, 1, two52() * d);
        (half_even(sp.0 / d, sp.0 % d, d), 1, sp.1)
    } else {
        let q = down_unit(n, d, 1);
        (half_even(n / (d * q), n % (d * q), d * q), q, 1)
    }
}

/// The smallest integer at least the value of a triple.
pub open spec fn ceil_of(x: (nat, nat, nat)) -> int {
    ((x.0 * x.1) as int + x.2 - 1) / (x.2 as int)
}

/// The largest integer at most the value of a triple.
pub open spec fn floor_of(x: (nat, nat, nat)) -> int {
    ((x.0 * x.1) as int) / (x.2 as int)
}

proof fn lemma_half_even(q: nat, rem: nat, d: nat)
    ensures
        q <= half_even(q, rem, d) <= q + 1,
{
}

proof fn lemma_scale_up(m: nat, p: nat, lim: nat)
    requires
        p >= 1,
    ensures
        scale_up(m, p, lim).0 * p == m * scale_up(m, p, lim).1,
        scale_up(m, p, lim).1 >= p,
        m > 0 ==> scale_up(m, p, lim).0 >= lim,
    decreases gap(lim, m),
{
    if m == 0 || m >= lim {
    } else {
        lemma_scale_up(2 * m, 2 * p, lim);
        let r = scale_up(2 * m, 2 * p, lim);
        assert(r.0 * p == m * r.1) by (nonlinear_arith)
            requires
                r.0 * (2 * p) == (2 * m) * r.1,
        ;
    }
}

proof fn lemma_down_unit(n: nat, d: nat, q: nat)
    requires
        q >= 1,
        d >= 1,
        n >= two52() * d * q,
    ensures
        down_unit(n, d, q) >= q,
        n >= two52() * d * down_unit(n, d, q),
        n < two53() * d * down_unit(n, d, q),
    decreases n - q,
{
    assert(d * q >= 1) by (nonlinear_arith)
        requires
            d >= 1,
            q >= 1,
    ;
    assert(two53() * q <= two53() * d * q) by (nonlinear_arith)
        requires
            d >= 1,
            q >= 1,
    ;
    if q > n || n < two53() * q || n < two53() * d * q {
    } else {
        assert(n >= two52() * d * (2 * q)) by (nonlinear_arith)
            requires
                n >= two53() * d * q,
                two53() == 2 * two52(),
        ;
        lemma_down_unit(n, d, 2 * q);
    }
}

/// The rounded value is positive for a positive ratio, and exceeds the
/// ratio by at most a 2^-52 part of it.
pub proof fn lemma_round_ratio(n: nat, d: nat)
    requires
        d >= 1,
    ensures
        round_ratio(n, d).1 >= 1,
        round_ratio(n, d).2 >= 1,
        n >= 1 ==> round_ratio(n, d).0 >= 1,
        round_ratio(n, d).0 * round_ratio(n, d).1 * d * two52() <= (two52() + 1) * n
            * round_ratio(n, d).2,
{
    let e = two52();
    let r = round_ratio(n, d);
    if n < e * d {
        let sp = scale_up(n, 1, e * d);
        lemma_scale_up(n, 1, e * d);
        let q = sp.0 / d;
        let rem = sp.0 % d;
        lemma_half_even(q, rem, d);
        assert(q * d + rem == sp.0 && rem < d) by (nonlinear_arith)
            requires
                q == sp.0 / d,
                rem == sp.0 % d,
                d >= 1,
        ;
        if n >= 1 {
            assert(q >= 1) by (nonlinear_arith)
                requires
                    sp.0 >= e * d,
                    q * d + rem == sp.0,
                    rem < d,
                    e >= 1,
            ;
        }
        assert(r.0 * d <= sp.0 + d) by (nonlinear_arith)
            requires
                r.0 <= q + 1,
                q * d + rem == sp.0,
                rem >= 0,
        ;
        if n >= 1 {
            assert(r.0 * d * e <= (e + 1) * sp.0) by (nonlinear_arith)
                requires
                    r.0 * d <= sp.0 + d,
                    sp.0 >= e * d,
            ;
        } else {
            assert(sp.0 == 0);
            assert(q == 0) by (nonlinear_arith)
                requires
                    q * d + rem == sp.0,
                    sp.0 == 0,
                    d >= 1,
            ;
            assert(r.0 <= 1);
            assert(r.0 == 0);
        }
        assert(r.0 * r.1 * d * e <= (e + 1) * n * r.2) by (nonlinear_arith)
            requires
                r.0 * d * e <= (e + 1) * sp.0,
                sp.0 == n * sp.1,
                r.1 == 1,
                r.2 == sp.1,
        ;
    } else {
        lemma_down_unit(n, d, 1);
        let q = down_unit(n, d, 1);
        let dq = d * q;
        assert(n >= e * dq) by (nonlinear_arith)
            requires
                n >= two52() * d * q,
                e == two52(),
                dq == d * q,
        ;
        assert(dq >= 1) by (nonlinear_arith)
            requires
                d >= 1,
                q >= 1,
                dq == d * q,
        ;
        let k = n / dq;
        let rem = n % dq;
        lemma_half_even(k, rem, dq);
        assert(k * dq + rem == n && rem < dq) by (nonlinear_arith)
            requires
                k == n / dq,
                rem == n % dq,
                dq >= 1,
        ;
        assert(k >= 1) by (nonlinear_arith)
            requires
                n >= e * dq,
                k * dq + rem == n,
                rem < dq,
                e >= 1,
        ;
        assert(r.0 * r.1 * d * e <= (e + 1) * n * r.2) by (nonlinear_arith)
            requires
                r.0 <= k + 1,
                k * dq + rem == n,
                rem >= 0,
                n >= e * dq,
                dq == d * q,
                r.1 == q,
                r.2 == 1,
        ;
    }
}

fn half_even_u128(q: u128, rem: u128, d: u128) -> (r: u128)
    requires
        q < u128::MAX,
        2 * rem <= u128::MAX,
    ensures
        r == half_even(q as nat, rem as nat, d as nat),
{
    if 2 * rem > d || (2 * rem == d && q % 2 == 1) {
        q + 1
    } else {
        q
    }
}

/// `round_ratio(n, d)`, for a numerator below 2^85 and a denominator below
/// 2^60.
pub fn round_ratio_exec(n: u128, d: u128) -> (r: (u128, u128, u128))
    requires
        1 <= d <= 0x1000_0000_0000_0000u128,
        n <= 0x20_0000_0000_0000_0000_0000u128,
    ensures
        r.0 == round_ratio(n as nat, d as nat).0,
        r.1 == round_ratio(n as nat, d as nat).1,
        r.2 == round_ratio(n as nat, d as nat).2,
        r.0 <= two53(),
        n < two52() * d ==> r.1 == 1 && r.2 <= two53() * d,
        n >= two52() * d ==> r.2 == 1 && r.1 <= 0x2_0000_0000u128,
{
    let lim: u128 = 4503599627370496u128 * d;
    if n < lim {
        let mut m: u128 = n;
        let mut p: u128 = 1;
        while !(m == 0 || m >= lim)
            invariant
                lim == two52() * d,
                1 <= d <= 0x1000_0000_0000_0000u128,
                m < 2 * lim,
                m == n * p,
                1 <= p,
                m == 0 || p <= m,
                scale_up(m as nat, p as nat, lim as nat) == scale_up(n as nat, 1, lim as nat),
            decreases gap(lim as nat, m as nat),
        {
            assert(2 * m == n * (2 * p)) by (nonlinear_arith)
                requires
                    m == n * p,
            ;
            m = 2 * m;
            p = 2 * p;
        }
        if m == 0 {
            assert(n == 0) by (nonlinear_arith)
                requires
                    m == n * p,
                    m == 0,
                    p >= 1,
            ;
            assert(scale_up(0, 1, lim as nat) == (0nat, 1nat));
            return (half_even_u128(0, 0, d), 1, 1);
        }
        let q = m / d;
        let rem = m % d;
        assert(q < two53() && rem < d) by (nonlinear_arith)
            requires
                q == m / d,
                rem == m % d,
                m < 2 * lim,
                lim == two52() * d,
                two53() == 2 * two52(),
                d >= 1,
        ;
        assert(p <= two53() * d);
        let s = half_even_u128(q, rem, d);
        (s, 1, p)
    } else {
        let mut q: u128 = 1;
        assert(d <= 0x2_0000_0000u128) by (nonlinear_arith)
            requires
                n >= 4503599627370496u128 * d,
                n <= 0x20_0000_0000_0000_0000_0000u128,
        ;
        while !(q > n || n < 9007199254740992u128 * (d * q))
            invariant
                1 <= d,
                1 <= q <= n + 1,
                d * q <= 0x2_0000_0000u128,
                n <= 0x20_0000_0000_0000_0000_0000u128,
                down_unit(n as nat, d as nat, q as nat) == down_unit(n as nat, d as nat, 1),
            decreases n - q,
        {
            assert(d * (2 * q) <= 0x2_0000_0000u128 && 2 * q <= n) by (nonlinear_arith)
                requires
                    n >= 9007199254740992u128 * (d * q),
                    n <= 0x20_0000_0000_0000_0000_0000u128,
                    d >= 1,
            ;
            assert(two53() * d * q == 9007199254740992u128 * (d * q)) by (nonlinear_arith);
            assert(two53() * q <= two53() * d * q) by (nonlinear_arith)
                requires
                    d >= 1,
                    q >= 1,
            ;
            q = 2 * q;
        }
        assert(two53() * d * q == 9007199254740992u128 * (d * q)) by (nonlinear_arith);
        assert(two53() * q <= two53() * d * q) by (nonlinear_arith)
            requires
                d >= 1,
                q >= 1,
        ;
        assert(q <= d * q) by (nonlinear_arith)
            requires
                d >= 1,
                q >= 1,
        ;
        let dq = d * q;
        let k = n / dq;
        let rem = n % dq;
        assert(k < two53() && rem < dq) by (nonlinear_arith)
            requires
                k == n / dq,
                rem == n % dq,
                n < 9007199254740992u128 * dq,
                dq >= 1,
        ;
        let s = half_even_u128(k, rem, dq);
        (s, q, 1)
    }
}

} // verus!
