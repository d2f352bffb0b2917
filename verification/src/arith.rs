//! Exact integer arithmetic behind the formatter: powers, decimal digit
//! sequences, and round-half-up division. The displayed value of a size is
//! computed as an exactly rounded rational, never with floating point.

use vstd::arithmetic::div_mod::{lemma_fundamental_div_mod, lemma_fundamental_div_mod_converse};
use vstd::prelude::*;

verus! {

/// `b` raised to `e`, over naturals.
pub open spec fn npow(b: nat, e: nat) -> nat
    decreases e,
{
    if e == 0 {
        1
    } else {
        b * npow(b, (e - 1) as nat)
    }
}

/// `10^e`, the scale factor for `e` decimal places.
pub open spec fn pow10(e: nat) -> nat {
    npow(10, e)
}

pub proof fn lemma_npow_pos(b: nat, e: nat)
    requires
        b >= 1,
    ensures
        npow(b, e) >= 1,
    decreases e,
{
    if e > 0 {
        lemma_npow_pos(b, (e - 1) as nat);
        assert(b * npow(b, (e - 1) as nat) >= 1) by (nonlinear_arith)
            requires
                b >= 1,
                npow(b, (e - 1) as nat) >= 1,
        ;
    }
}

pub proof fn lemma_npow_base_le(b1: nat, b2: nat, e: nat)
    requires
        b1 <= b2,
    ensures
        npow(b1, e) <= npow(b2, e),
    decreases e,
{
    if e > 0 {
        lemma_npow_base_le(b1, b2, (e - 1) as nat);
        assert(b1 * npow(b1, (e - 1) as nat) <= b2 * npow(b2, (e - 1) as nat))
            by (nonlinear_arith)
            requires
                b1 <= b2,
                npow(b1, (e - 1) as nat) <= npow(b2, (e - 1) as nat),
        ;
    }
}

pub proof fn lemma_npow_exp_le(b: nat, e1: nat, e2: nat)
    requires
        b >= 1,
        e1 <= e2,
    ensures
        npow(b, e1) <= npow(b, e2),
    decreases e2,
{
    if e1 < e2 {
        lemma_npow_exp_le(b, e1, (e2 - 1) as nat);
        lemma_npow_pos(b, (e2 - 1) as nat);
        assert(b * npow(b, (e2 - 1) as nat) >= npow(b, (e2 - 1) as nat)) by (nonlinear_arith)
            requires
                b >= 1,
                npow(b, (e2 - 1) as nat) >= 1,
        ;
    }
}

/// `1024^9`, the largest divider the formatter can meet (tier 8 with one
/// bit-unit carry step): it fits comfortably in a `u128`.
pub proof fn lemma_npow_1024_9()
    ensures
        npow(1024, 9) == 0x40000000000000000000000,
{
    reveal_with_fuel(npow, 10);
}

/// `1024^8`, the largest tier divider before a carry step.
pub proof fn lemma_npow_1024_8()
    ensures
        npow(1024, 8) == 0x100000000000000000000,
{
    reveal_with_fuel(npow, 9);
}

/// The mantissa of `n / d` rounded half-up to `p` decimal places: the
/// closest integer to `n * 10^p / d`, ties away from zero.
pub open spec fn rounded_div(n: nat, d: nat, p: nat) -> nat
    recommends
        d >= 1,
{
    (2 * n * pow10(p) + d) / (2 * d)
}

/// Round-trip accuracy: the rounded mantissa `m = rounded_div(n, d, p)`,
/// read as the rational `m / 10^p`, differs from the exact quotient `n / d`
/// by at most half a unit in the last of the `p` decimal places. Re-scaling
/// the numeric component of a structured result by its tier divider hence
/// recovers the input magnitude within rounding tolerance.
pub proof fn lemma_round_trip(n: nat, d: nat, p: nat)
    requires
        d >= 1,
    ensures
        2 * d * rounded_div(n, d, p) <= 2 * n * pow10(p) + d,
        2 * n * pow10(p) < 2 * d * rounded_div(n, d, p) + d,
{
    let x = (2 * n * pow10(p) + d) as int;
    let dd = (2 * d) as int;
    lemma_fundamental_div_mod(x, dd);
    assert(x == dd * (x / dd) + x % dd);
    assert(dd * (x / dd) == 2 * d * rounded_div(n, d, p));
}

/// Every sequence element is a decimal digit.
pub open spec fn digits_ok(s: Seq<u8>) -> bool {
    forall|i: int| 0 <= i < s.len() ==> s[i] < 10
}

/// The natural number written by a digit sequence, most significant first.
pub open spec fn dval(s: Seq<u8>) -> nat
    decreases s.len(),
{
    if s.len() == 0 {
        0
    } else {
        dval(s.drop_last()) * 10 + s.last() as nat
    }
}

pub proof fn lemma_dval_push(s: Seq<u8>, x: u8)
    ensures
        dval(s.push(x)) == dval(s) * 10 + x as nat,
{
    assert(s.push(x).drop_last() =~= s);
    assert(s.push(x).last() == x);
}

pub proof fn lemma_dval_bound(s: Seq<u8>)
    requires
        digits_ok(s),
    ensures
        dval(s) < pow10(s.len()),
    decreases s.len(),
{
    if s.len() == 0 {
    } else {
        let t = s.drop_last();
        assert(digits_ok(t));
        lemma_dval_bound(t);
        assert(pow10(s.len()) == 10 * pow10(t.len()));
        assert(dval(t) * 10 + (s.last() as nat) < 10 * pow10(t.len())) by (nonlinear_arith)
            requires
                dval(t) < pow10(t.len()),
                s.last() < 10,
        ;
    }
}

/// The last `p` decimal digits of `m`, most significant first.
pub open spec fn frac_digits(m: nat, p: nat) -> Seq<u8>
    decreases p,
{
    if p == 0 {
        Seq::empty()
    } else {
        frac_digits(m / 10, (p - 1) as nat).push((m % 10) as u8)
    }
}

/// A digit sequence is recovered from its own value: digit sequences of a
/// fixed length are a canonical representation.
pub proof fn lemma_digits_canonical(s: Seq<u8>)
    requires
        digits_ok(s),
    ensures
        frac_digits(dval(s), s.len()) == s,
    decreases s.len(),
{
    if s.len() == 0 {
        assert(frac_digits(dval(s), s.len()) =~= s);
    } else {
        let t = s.drop_last();
        let v = dval(s);
        assert(digits_ok(t));
        lemma_digits_canonical(t);
        assert(v == 10 * dval(t) + s.last() as nat);
        lemma_fundamental_div_mod_converse(v as int, 10, dval(t) as int, s.last() as int);
        assert(v / 10 == dval(t) && v % 10 == s.last() as nat);
        assert(frac_digits(v, s.len()) == frac_digits(dval(t), t.len()).push(s.last()));
        assert(t.push(s.last()) =~= s);
    }
}

/// `frac_digits` only reads `m` modulo `10^p`: whole multiples of `10^p`
/// vanish.
pub proof fn lemma_frac_digits_mult_vanish(a: nat, m: nat, p: nat)
    ensures
        frac_digits(a * pow10(p) + m, p) == frac_digits(m, p),
    decreases p,
{
    if p > 0 {
        let q = pow10((p - 1) as nat);
        let total = a * pow10(p) + m;
        assert(pow10(p) == 10 * q);
        assert(a * (10 * q) == 10 * (a * q)) by (nonlinear_arith);
        lemma_fundamental_div_mod(m as int, 10);
        assert(total == 10 * (a * q + m / 10) + m % 10);
        lemma_fundamental_div_mod_converse(
            total as int,
            10,
            (a * q + m / 10) as int,
            (m % 10) as int,
        );
        assert(total / 10 == a * q + m / 10 && total % 10 == m % 10);
        lemma_frac_digits_mult_vanish(a, m / 10, (p - 1) as nat);
        assert(frac_digits(total, p) == frac_digits(a * q + m / 10, (p - 1) as nat).push(
            (m % 10) as u8,
        ));
    }
}

/// Drop trailing zero digits: the fractional part as displayed.
pub open spec fn strip_zeros(s: Seq<u8>) -> Seq<u8>
    decreases s.len(),
{
    if s.len() > 0 && s.last() == 0 {
        strip_zeros(s.drop_last())
    } else {
        s
    }
}

} // verus!
