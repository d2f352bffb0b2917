//! Magnitude-tier computation: which of the nine unit buckets a value falls
//! in. The tier is `floor(log_c(value))` for a ceiling `c` of 1024 or 1000,
//! computed exactly by repeated comparison against powers of `c`.

use crate::arith::{
    lemma_npow_1024_9, lemma_npow_base_le, lemma_npow_exp_le, lemma_npow_pos, npow,
};
use vstd::arithmetic::div_mod::lemma_fundamental_div_mod;
use vstd::prelude::*;

verus! {

/// The unclamped magnitude tier of `m` for ceiling `c`: `floor(log_c(m))`,
/// with every value below `c` (zero included) at tier 0.
pub open spec fn tier_unclamped(m: nat, c: nat) -> nat
    recommends
        c >= 2,
    decreases m,
    when c >= 2
    via tier_unclamped_decreases
{
    if m < c {
        0
    } else {
        1 + tier_unclamped(m / c, c)
    }
}

#[via_fn]
proof fn tier_unclamped_decreases(m: nat, c: nat) {
    if m >= c {
        lemma_fundamental_div_mod(m as int, c as int);
        assert(m / c < m) by (nonlinear_arith)
            requires
                m == c * (m / c) + m % c,
                0 <= m % c < c,
                c >= 2,
                m >= c,
        ;
    }
}

/// The tier actually used: clamped to the largest tabulated unit.
pub open spec fn spec_tier(m: nat, c: nat) -> nat {
    let t = tier_unclamped(m, c);
    if t <= 8 {
        t
    } else {
        8
    }
}

pub proof fn lemma_tier_lower(m: nat, c: nat, t: nat)
    requires
        c >= 2,
        npow(c, t) <= m,
    ensures
        tier_unclamped(m, c) >= t,
    decreases t,
{
    if t > 0 {
        let k = npow(c, (t - 1) as nat);
        lemma_npow_pos(c, (t - 1) as nat);
        assert(npow(c, t) == c * k);
        assert(c <= c * k) by (nonlinear_arith)
            requires
                c >= 2,
                k >= 1,
        ;
        lemma_fundamental_div_mod(m as int, c as int);
        assert(m / c >= k) by (nonlinear_arith)
            requires
                m == c * (m / c) + m % c,
                0 <= m % c < c,
                c * k <= m,
                c >= 2,
        ;
        lemma_tier_lower(m / c, c, (t - 1) as nat);
    }
}

pub proof fn lemma_tier_upper(m: nat, c: nat, t: nat)
    requires
        c >= 2,
        m < npow(c, t + 1),
    ensures
        tier_unclamped(m, c) <= t,
    decreases t,
{
    if m < c {
    } else {
        assert(npow(c, t + 1) == c * npow(c, t));
        if t == 0 {
            assert(npow(c, 0) == 1);
            assert(npow(c, t) == 1);
            assert(c * npow(c, t) == c) by (nonlinear_arith)
                requires
                    npow(c, t) == 1,
            ;
            assert(false);
        } else {
            let k = npow(c, t);
            lemma_fundamental_div_mod(m as int, c as int);
            assert(m / c < k) by (nonlinear_arith)
                requires
                    m == c * (m / c) + m % c,
                    0 <= m % c,
                    m < c * k,
                    c >= 2,
            ;
            lemma_tier_upper(m / c, c, (t - 1) as nat);
        }
    }
}

/// Tier characterization: with ceiling `c`, a value is at tier 0 exactly when
/// it lies below `c`, and the tier increments exactly where the value crosses
/// each successive power of `c` (powers of 1024 for binary tiers, powers of
/// 1000 for decimal tiers).
pub proof fn lemma_tier_characterization(m: nat, c: nat, t: nat)
    requires
        c >= 2,
        npow(c, t) <= m,
        m < npow(c, t + 1),
    ensures
        tier_unclamped(m, c) == t,
{
    lemma_tier_lower(m, c, t);
    lemma_tier_upper(m, c, t);
}

/// The automatically computed tier of a magnitude, clamped to tier 8.
pub fn compute_tier(mag: u64, c: u32) -> (e: u32)
    requires
        c == 1000 || c == 1024,
    ensures
        e as nat == spec_tier(mag as nat, c as nat),
        e <= 8,
{
    let m: u128 = mag as u128;
    let mut e: u32 = 0;
    let mut p: u128 = c as u128;
    proof {
        assert(npow(c as nat, 0) == 1);
        assert(npow(c as nat, 1) == (c as nat) * npow(c as nat, 0));
    }
    while e < 8 && m >= p
        invariant
            c == 1000 || c == 1024,
            m == mag as u128,
            e <= 8,
            p as nat == npow(c as nat, (e + 1) as nat),
            e > 0 ==> npow(c as nat, e as nat) <= mag as nat,
        decreases 8 - e,
    {
        proof {
            lemma_npow_base_le(c as nat, 1024, (e + 2) as nat);
            lemma_npow_exp_le(1024, (e + 2) as nat, 9);
            lemma_npow_1024_9();
            assert(npow(c as nat, (e + 2) as nat) == (c as nat) * npow(
                c as nat,
                (e + 1) as nat,
            ));
            assert((p as nat) * (c as nat) == npow(c as nat, (e + 2) as nat)) by (nonlinear_arith)
                requires
                    p as nat == npow(c as nat, (e + 1) as nat),
                    npow(c as nat, (e + 2) as nat) == (c as nat) * npow(c as nat, (e + 1) as nat),
            ;
        }
        e = e + 1;
        p = p * (c as u128);
    }
    proof {
        let mn = mag as nat;
        let cn = c as nat;
        if e == 8 {
            lemma_tier_lower(mn, cn, 8);
        } else {
            assert(m < p);
            if e == 0 {
                assert(npow(cn, 1) == cn * npow(cn, 0));
            } else {
                lemma_tier_characterization(mn, cn, e as nat);
            }
        }
    }
    e
}

/// `b^e` for the two tier bases, as an exact integer.
pub fn pow_ceiling(b: u32, e: u32) -> (r: u128)
    requires
        b == 1000 || b == 1024,
        e <= 8,
    ensures
        r as nat == npow(b as nat, e as nat),
{
    let mut r: u128 = 1;
    let mut i: u32 = 0;
    proof {
        assert(npow(b as nat, 0) == 1);
    }
    while i < e
        invariant
            b == 1000 || b == 1024,
            i <= e <= 8,
            r as nat == npow(b as nat, i as nat),
        decreases e - i,
    {
        proof {
            lemma_npow_base_le(b as nat, 1024, (i + 1) as nat);
            lemma_npow_exp_le(1024, (i + 1) as nat, 9);
            lemma_npow_1024_9();
            assert(npow(b as nat, (i + 1) as nat) == (b as nat) * npow(b as nat, i as nat));
            assert((r as nat) * (b as nat) == npow(b as nat, (i + 1) as nat)) by (nonlinear_arith)
                requires
                    r as nat == npow(b as nat, i as nat),
                    npow(b as nat, (i + 1) as nat) == (b as nat) * npow(b as nat, i as nat),
            ;
        }
        r = r * (b as u128);
        i = i + 1;
    }
    r
}

} // verus!
