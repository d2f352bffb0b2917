//! The displayed numeric value: an exactly rounded decimal, held as an
//! integer part plus fractional digits with trailing zeros stripped. The
//! rounded, normalized decimal is the authoritative displayed value; the
//! structured output shapes carry it as their numeric component.

use crate::arith::{
    digits_ok, dval, frac_digits, lemma_digits_canonical, lemma_dval_bound, lemma_dval_push,
    lemma_frac_digits_mult_vanish, lemma_npow_pos, pow10, rounded_div, strip_zeros,
};
use vstd::arithmetic::div_mod::{
    lemma_fundamental_div_mod, lemma_fundamental_div_mod_converse,
};
use vstd::prelude::*;

verus! {

/// A signed decimal number: integer part `units`, then the fractional
/// digits `frac` (most significant first, no trailing zeros), negated when
/// `neg` is set.
#[derive(Debug, PartialEq, Eq)]
pub struct Decimal {
    pub neg: bool,
    pub units: u128,
    pub frac: Vec<u8>,
}

/// Well-formed: every entry a decimal digit, none trailing zero.
pub open spec fn dec_wf(d: Decimal) -> bool {
    &&& digits_ok(d.frac@)
    &&& (d.frac@.len() > 0 ==> d.frac@.last() != 0)
}

/// The integer part of a mantissa `m` scaled by `p` decimal places.
pub open spec fn spec_units(m: nat, p: nat) -> nat {
    m / pow10(p)
}

/// The displayed fractional digits of a mantissa `m` at `p` places.
pub open spec fn spec_frac(m: nat, p: nat) -> Seq<u8> {
    strip_zeros(frac_digits(m, p))
}

proof fn lemma_dval_all_zero(s: Seq<u8>)
    requires
        forall|k: int| 0 <= k < s.len() ==> s[k] == 0,
    ensures
        dval(s) == 0,
    decreases s.len(),
{
    if s.len() > 0 {
        lemma_dval_all_zero(s.drop_last());
    }
}

proof fn lemma_dval_update(s: Seq<u8>, k: int, x: u8)
    requires
        0 <= k < s.len(),
    ensures
        dval(s.update(k, x)) + (s[k] as nat) * pow10((s.len() - 1 - k) as nat) == dval(s) + (
        x as nat) * pow10((s.len() - 1 - k) as nat),
    decreases s.len(),
{
    let l = s.len() as int;
    if k == l - 1 {
        assert(s.update(k, x).drop_last() =~= s.drop_last());
        assert(s.update(k, x).last() == x);
        assert(pow10(0) == 1);
        assert((x as nat) * pow10(0) == x as nat && (s[k] as nat) * pow10(0) == s[k] as nat)
            by (nonlinear_arith)
            requires
                pow10(0) == 1,
        ;
    } else {
        assert(s.update(k, x).drop_last() =~= s.drop_last().update(k, x));
        assert(s.update(k, x).last() == s.last());
        lemma_dval_update(s.drop_last(), k, x);
        assert(pow10((l - 1 - k) as nat) == 10 * pow10((l - 2 - k) as nat));
        assert(dval(s.update(k, x)) + (s[k] as nat) * pow10((l - 1 - k) as nat) == dval(s) + (
        x as nat) * pow10((l - 1 - k) as nat)) by (nonlinear_arith)
            requires
                dval(s.update(k, x)) == dval(s.drop_last().update(k, x)) * 10 + (s.last() as nat),
                dval(s) == dval(s.drop_last()) * 10 + (s.last() as nat),
                dval(s.drop_last().update(k, x)) + (s[k] as nat) * pow10((l - 2 - k) as nat)
                    == dval(s.drop_last()) + (x as nat) * pow10((l - 2 - k) as nat),
                pow10((l - 1 - k) as nat) == 10 * pow10((l - 2 - k) as nat),
        ;
    }
}

proof fn lemma_div_round_step(n: nat, d: nat, i: nat, q: nat, v: nat, rem: nat, dig: nat, rem2: nat)
    requires
        d >= 1,
        q * pow10(i) + v == (n * pow10(i)) / d,
        rem == (n * pow10(i)) % d,
        rem < d,
        rem * 10 == d * dig + rem2,
        rem2 < d,
    ensures
        dig < 10,
        q * pow10(i + 1) + (v * 10 + dig) == (n * pow10(i + 1)) / d,
        (n * pow10(i + 1)) % d == rem2,
{
    let cn = n * pow10(i);
    lemma_fundamental_div_mod(cn as int, d as int);
    assert(pow10(i + 1) == 10 * pow10(i));
    assert(dig < 10) by (nonlinear_arith)
        requires
            rem * 10 == d * dig + rem2,
            rem2 >= 0,
            rem < d,
            d >= 1,
    ;
    assert(n * pow10(i + 1) == (10 * (cn / d) + dig) * d + rem2) by (nonlinear_arith)
        requires
            pow10(i + 1) == 10 * pow10(i),
            cn == n * pow10(i),
            cn == d * (cn / d) + (cn % d),
            rem == cn % d,
            rem * 10 == d * dig + rem2,
    ;
    lemma_fundamental_div_mod_converse(
        (n * pow10(i + 1)) as int,
        d as int,
        (10 * (cn / d) + dig) as int,
        rem2 as int,
    );
    assert(q * pow10(i + 1) + (v * 10 + dig) == 10 * (cn / d) + dig) by (nonlinear_arith)
        requires
            pow10(i + 1) == 10 * pow10(i),
            q * pow10(i) + v == cn / d,
    ;
}

proof fn lemma_round_decision(n: nat, d: nat, p: nat, rem: nat)
    requires
        d >= 1,
        rem == (n * pow10(p)) % d,
        rem < d,
    ensures
        rounded_div(n, d, p) == (n * pow10(p)) / d + (if 2 * rem >= d {
            1nat
        } else {
            0nat
        }),
{
    let cn = n * pow10(p);
    let q = cn / d;
    lemma_fundamental_div_mod(cn as int, d as int);
    if 2 * rem >= d {
        assert(2 * cn + d == (q + 1) * (2 * d) + (2 * rem - d)) by (nonlinear_arith)
            requires
                cn == d * q + rem,
        ;
        lemma_fundamental_div_mod_converse(
            (2 * cn + d) as int,
            (2 * d) as int,
            (q + 1) as int,
            (2 * rem - d) as int,
        );
        assert(rounded_div(n, d, p) == (2 * n * pow10(p) + d) / (2 * d));
        assert(2 * n * pow10(p) == 2 * cn) by (nonlinear_arith)
            requires
                cn == n * pow10(p),
        ;
    } else {
        assert(2 * cn + d == q * (2 * d) + (2 * rem + d)) by (nonlinear_arith)
            requires
                cn == d * q + rem,
        ;
        lemma_fundamental_div_mod_converse(
            (2 * cn + d) as int,
            (2 * d) as int,
            q as int,
            (2 * rem + d) as int,
        );
        assert(2 * n * pow10(p) == 2 * cn) by (nonlinear_arith)
            requires
                cn == n * pow10(p),
        ;
        assert(rounded_div(n, d, p) == (2 * n * pow10(p) + d) / (2 * d));
    }
}

/// Ripple-carry increment of the mantissa `units . digs` by one unit in the
/// last digit place; returns the new integer part.
fn increment_digits(units: u128, digs: &mut Vec<u8>) -> (r: u128)
    requires
        digits_ok(old(digs)@),
        units < 0xffffffffffffffffffffffffffffffff,
    ensures
        final(digs)@.len() == old(digs)@.len(),
        digits_ok(final(digs)@),
        (r as nat) * pow10(final(digs)@.len()) + dval(final(digs)@) == (units as nat) * pow10(
            old(digs)@.len(),
        ) + dval(old(digs)@) + 1,
{
    let ghost orig = digs@;
    let len = digs.len();
    let mut j: usize = len;
    proof {
        assert(pow10(0) == 1);
    }
    loop
        invariant
            j <= len,
            digs@.len() == len,
            orig.len() == len,
            orig == old(digs)@,
            digits_ok(digs@),
            units < 0xffffffffffffffffffffffffffffffff,
            forall|k: int| 0 <= k < j ==> digs@[k] == orig[k],
            forall|k: int| j <= k < len ==> digs@[k] == 0,
            dval(digs@) + pow10((len - j) as nat) == dval(orig) + 1,
        decreases j,
    {
        if j == 0 {
            proof {
                lemma_dval_all_zero(digs@);
                assert(((units + 1) as nat) * pow10(len as nat) == (units as nat) * pow10(
                    len as nat,
                ) + pow10(len as nat)) by (nonlinear_arith);
            }
            return units + 1;
        }
        let dj = digs[j - 1];
        if dj < 9 {
            let ghost before = digs@;
            digs.set(j - 1, dj + 1);
            proof {
                lemma_dval_update(before, (j - 1) as int, (dj + 1) as u8);
                assert((((dj + 1) as u8) as nat) * pow10((len - j) as nat) == (dj as nat) * pow10(
                    (len - j) as nat,
                ) + pow10((len - j) as nat)) by (nonlinear_arith)
                    requires
                        dj < 9,
                ;
            }
            return units;
        }
        let ghost before = digs@;
        digs.set(j - 1, 0);
        proof {
            lemma_dval_update(before, (j - 1) as int, 0);
            assert(pow10((len - j + 1) as nat) == 10 * pow10((len - j) as nat));
            assert(dval(digs@) + pow10((len - (j - 1)) as nat) == dval(orig) + 1)
                by (nonlinear_arith)
                requires
                    dval(digs@) + (before[(j - 1) as int] as nat) * pow10((len - j) as nat) == dval(
                        before,
                    ) + (0u8 as nat) * pow10((len - j) as nat),
                    before[(j - 1) as int] == 9u8,
                    dval(before) + pow10((len - j) as nat) == dval(orig) + 1,
                    pow10((len - (j - 1)) as nat) == 10 * pow10((len - j) as nat),
            ;
        }
        j = j - 1;
    }
}

/// Scale `n / d` to `p` decimal places with exact half-up rounding, and
/// split the rounded mantissa into its integer part and its displayed
/// (trailing-zero-free) fractional digits.
pub fn div_round(n: u128, d: u128, p: u32) -> (r: (u128, Vec<u8>))
    requires
        1 <= d <= 0x40000000000000000000000,
        n <= 0xfffffffffffffffff,
    ensures
        r.0 as nat == spec_units(rounded_div(n as nat, d as nat, p as nat), p as nat),
        r.1@ == spec_frac(rounded_div(n as nat, d as nat, p as nat), p as nat),
        digits_ok(r.1@),
        r.1@.len() > 0 ==> r.1@.last() != 0,
{
    let ghost nn = n as nat;
    let ghost dd = d as nat;
    let ghost pp = p as nat;
    let mut units: u128 = n / d;
    let mut rem: u128 = n % d;
    let mut digs: Vec<u8> = Vec::new();
    let mut i: u32 = 0;
    proof {
        assert(pow10(0) == 1);
        assert(nn * pow10(0) == nn) by (nonlinear_arith)
            requires
                pow10(0) == 1,
        ;
        assert((units as nat) * pow10(0) == units as nat) by (nonlinear_arith)
            requires
                pow10(0) == 1,
        ;
        lemma_fundamental_div_mod(n as int, d as int);
        assert(units as nat <= nn) by (nonlinear_arith)
            requires
                nn == dd * (units as nat) + (rem as nat),
                rem >= 0,
                dd >= 1,
                units as nat == nn / dd,
        ;
    }
    while i < p
        invariant
            1 <= d <= 0x40000000000000000000000,
            n <= 0xfffffffffffffffff,
            nn == n as nat,
            dd == d as nat,
            i <= p,
            digs@.len() == i as nat,
            digits_ok(digs@),
            rem < d,
            units <= n,
            (units as nat) * pow10(i as nat) + dval(digs@) == (nn * pow10(i as nat)) / dd,
            rem as nat == (nn * pow10(i as nat)) % dd,
        decreases p - i,
    {
        let r10: u128 = rem * 10;
        let dig: u128 = r10 / d;
        let rem2: u128 = r10 % d;
        proof {
            lemma_fundamental_div_mod(r10 as int, d as int);
            lemma_div_round_step(
                nn,
                dd,
                i as nat,
                units as nat,
                dval(digs@),
                rem as nat,
                dig as nat,
                rem2 as nat,
            );
            lemma_dval_push(digs@, dig as u8);
        }
        digs.push(dig as u8);
        rem = rem2;
        i = i + 1;
    }
    let ghost m = rounded_div(nn, dd, pp);
    proof {
        lemma_round_decision(nn, dd, pp, rem as nat);
    }
    let two_rem: u128 = rem * 2;
    if two_rem >= d {
        units = increment_digits(units, &mut digs);
    }
    proof {
        assert((units as nat) * pow10(pp) + dval(digs@) == m);
        lemma_dval_bound(digs@);
        lemma_npow_pos(10, pp);
        lemma_fundamental_div_mod_converse(
            m as int,
            pow10(pp) as int,
            units as int,
            dval(digs@) as int,
        );
        assert(units as nat == m / pow10(pp));
        lemma_digits_canonical(digs@);
        lemma_frac_digits_mult_vanish(units as nat, dval(digs@), pp);
        assert(frac_digits(m, pp) == digs@);
    }
    let ghost target = strip_zeros(frac_digits(m, pp));
    proof {
        assert(strip_zeros(digs@) == target);
    }
    while digs.len() > 0 && digs[digs.len() - 1] == 0
        invariant
            digits_ok(digs@),
            strip_zeros(digs@) == target,
        decreases digs@.len(),
    {
        digs.pop();
    }
    proof {
        assert(strip_zeros(digs@) == digs@);
    }
    (units, digs)
}

} // verus!
