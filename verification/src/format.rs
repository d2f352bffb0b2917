//! The formatting pipeline: tier selection, exact scaling and rounding,
//! suffix selection with overrides and POSIX-style collapse, numeric text
//! rendering, and output-shape assembly. Every stage is pinned by a spec
//! function of the input value and configuration.

use crate::arith::{
    lemma_npow_1024_8, lemma_npow_base_le, lemma_npow_exp_le, lemma_npow_pos, npow, rounded_div,
};
use crate::decimal::{dec_wf, spec_frac, spec_units, Decimal};
use crate::options::{
    resolve_options, spec_base, spec_bits, spec_fullform, spec_output, spec_round, spec_separator,
    spec_spacer, spec_standard, spec_unix, Config, LocaleChoice, Output, Standard,
};
use crate::suffix::{
    apply_override, fullform_name, spec_collapse, spec_fullform_name, spec_override, spec_symbol,
    symbol_str, unix_collapse,
};
use crate::text::{render_decimal, spec_render};
use crate::tier::{compute_tier, pow_ceiling, spec_tier};
use vstd::prelude::*;
use vstd::string::StrSliceExecFns;

verus! {

/// A formatting result, shaped by the `output` option.
#[derive(Debug, PartialEq, Eq)]
pub enum FormatResult {
    /// The raw magnitude tier, for `output == "exponent"`.
    Exponent(u32),
    /// The default string shape: number, spacer, suffix.
    Text(String),
    /// The `"array"` shape: numeric value and suffix.
    Array(Decimal, String),
    /// The `"object"` shape: numeric value and symbol.
    Object { value: Decimal, symbol: String },
}

/// The sign of the input; it is recorded separately, and all computation
/// runs on the absolute value.
pub open spec fn spec_neg(v: int) -> bool {
    v < 0
}

pub open spec fn spec_mag(v: int) -> nat {
    if v < 0 {
        (-v) as nat
    } else {
        v as nat
    }
}

/// The tier ceiling that drives tier computation: 1000 above base 2.
pub open spec fn spec_tceil(c: Config) -> nat {
    if spec_base(c) > 2 {
        1000
    } else {
        1024
    }
}

/// The divider base: base 2 divides by powers of 1024, every other base by
/// powers of 1000.
pub open spec fn spec_dbase(c: Config) -> nat {
    if spec_base(c) == 2 {
        1024
    } else {
        1000
    }
}

/// The resolved tier before any bit-unit carry: an explicit exponent clamped
/// to 8, else the computed magnitude tier.
pub open spec fn spec_tier0(mag: nat, c: Config) -> nat {
    match c.exponent {
        Some(x) => if x <= 8 {
            x as nat
        } else {
            8
        },
        None => spec_tier(mag, spec_tceil(c)),
    }
}

/// Whether the bit-unit factor 8 pushes the scaled value to or past the
/// ceiling: then the value carries one tier up, at most one step, never
/// beyond tier 8.
pub open spec fn spec_carry(mag: nat, c: Config) -> bool {
    &&& spec_bits(c)
    &&& spec_tier0(mag, c) < 8
    &&& mag * 8 >= spec_tceil(c) * npow(spec_dbase(c), spec_tier0(mag, c))
}

/// The displayed tier, after the carry.
pub open spec fn spec_etier(mag: nat, c: Config) -> nat {
    spec_tier0(mag, c) + (if spec_carry(mag, c) {
        1nat
    } else {
        0nat
    })
}

/// The exact numerator of the displayed magnitude.
pub open spec fn spec_numer(mag: nat, c: Config) -> nat {
    mag * (if spec_bits(c) {
        8nat
    } else {
        1nat
    })
}

/// The exact divisor of the displayed magnitude.
pub open spec fn spec_divisor(mag: nat, c: Config) -> nat {
    npow(spec_dbase(c), spec_tier0(mag, c)) * (if spec_carry(mag, c) {
        spec_tceil(c)
    } else {
        1nat
    })
}

/// Decimal places: the rounding precision above tier 0; whole units are
/// never fractional.
pub open spec fn spec_places(mag: nat, c: Config) -> nat {
    if spec_etier(mag, c) > 0 {
        spec_round(c) as nat
    } else {
        0
    }
}

/// The displayed mantissa: the exact quotient rounded half-up.
pub open spec fn spec_mantissa(mag: nat, c: Config) -> nat {
    rounded_div(spec_numer(mag, c), spec_divisor(mag, c), spec_places(mag, c))
}

/// The suffix before unix collapse: the empty unix zero bucket, the
/// irregular decimal-base `kb`/`kB` at tier 1, or the table symbol.
pub open spec fn spec_base_suffix(mag: nat, c: Config) -> Seq<char> {
    if mag == 0 && spec_unix(c) {
        Seq::<char>::empty()
    } else if mag != 0 && spec_base(c) != 2 && spec_etier(mag, c) == 1 {
        if spec_bits(c) {
            "kb"@
        } else {
            "kB"@
        }
    } else {
        spec_symbol(spec_standard(c), spec_bits(c), spec_etier(mag, c))
    }
}

/// The suffix after the unix collapse, with the flag that floors the
/// displayed value to a whole number.
pub open spec fn spec_unix_suffix(mag: nat, c: Config) -> (Seq<char>, bool) {
    if spec_unix(c) && mag != 0 {
        spec_collapse(spec_base_suffix(mag, c), spec_standard(c), spec_etier(mag, c))
    } else {
        (spec_base_suffix(mag, c), false)
    }
}

/// The displayed suffix, after the caller's override table.
pub open spec fn spec_suffix(mag: nat, c: Config) -> Seq<char> {
    spec_override(c.symbols@, spec_unix_suffix(mag, c).0)
}

/// The integer part of the displayed decimal.
pub open spec fn spec_dec_units(mag: nat, c: Config) -> nat {
    spec_units(spec_mantissa(mag, c), spec_places(mag, c))
}

/// The fractional digits of the displayed decimal: dropped entirely when
/// the unix collapse cleared the suffix.
pub open spec fn spec_dec_frac(mag: nat, c: Config) -> Seq<u8> {
    if spec_unix_suffix(mag, c).1 {
        Seq::<u8>::empty()
    } else {
        spec_frac(spec_mantissa(mag, c), spec_places(mag, c))
    }
}

/// Whether locale-style digit grouping applies.
pub open spec fn spec_grouped(c: Config) -> bool {
    !(c.locale is Off)
}

/// The decimal mark: the point, or the caller's separator when one was
/// supplied and locale rendering is off.
pub open spec fn spec_mark(c: Config) -> Seq<char> {
    if spec_grouped(c) {
        "."@
    } else if spec_separator(c).len() > 0 {
        spec_separator(c)
    } else {
        "."@
    }
}

/// The rendered numeric text of the displayed value.
pub open spec fn spec_rendered(v: int, c: Config) -> Seq<char> {
    spec_render(
        spec_neg(v),
        spec_dec_units(spec_mag(v), c),
        spec_dec_frac(spec_mag(v), c),
        spec_grouped(c),
        spec_mark(c),
    )
}

/// The suffix carried by the string and object shapes: the spelled-out name
/// when `fullform` is set, else the displayed suffix.
pub open spec fn spec_final_suffix(v: int, c: Config) -> Seq<char> {
    if spec_fullform(c) {
        spec_fullform_name(
            c.fullforms@,
            spec_standard(c),
            spec_bits(c),
            spec_etier(spec_mag(v), c),
            spec_rendered(v, c),
        )
    } else {
        spec_suffix(spec_mag(v), c)
    }
}

/// The displayed decimal, field by field: well-formed, and pinned to the
/// exactly rounded value.
pub open spec fn spec_decimal_ok(v: int, c: Config, d: Decimal) -> bool {
    &&& dec_wf(d)
    &&& d.neg == spec_neg(v)
    &&& d.units as nat == spec_dec_units(spec_mag(v), c)
    &&& d.frac@ == spec_dec_frac(spec_mag(v), c)
}

/// What a formatting call returns, pinned field by field: the shape follows
/// the `output` option, the numeric component is the exactly rounded
/// decimal, and the suffix is the collapse- and override-adjusted symbol.
pub open spec fn spec_result(v: int, c: Config, r: FormatResult) -> bool {
    match r {
        FormatResult::Exponent(e) => spec_output(c) == Output::Exponent && e as nat == spec_tier0(
            spec_mag(v),
            c,
        ),
        FormatResult::Array(d, s) => spec_output(c) == Output::Array && spec_decimal_ok(v, c, d)
            && s@ == spec_suffix(spec_mag(v), c),
        FormatResult::Object { value, symbol } => spec_output(c) == Output::Object
            && spec_decimal_ok(v, c, value) && symbol@ == spec_final_suffix(v, c),
        FormatResult::Text(s) => spec_output(c) == Output::Text && s@ == spec_rendered(v, c)
            + spec_spacer(c) + spec_final_suffix(v, c),
    }
}

/// The resolved options agree field by field with the configuration they
/// were built from.
pub open spec fn opts_match(o: crate::options::ResolvedOptions, c: Config) -> bool {
    &&& o.base == spec_base(c)
    &&& o.bits == spec_bits(c)
    &&& o.exponent == c.exponent
    &&& o.fullform == spec_fullform(c)
    &&& o.fullforms@ == c.fullforms@
    &&& o.locale == c.locale
    &&& o.output == spec_output(c)
    &&& o.round == spec_round(c)
    &&& o.separator@ == spec_separator(c)
    &&& o.spacer@ == spec_spacer(c)
    &&& o.standard == spec_standard(c)
    &&& o.symbols@ == c.symbols@
    &&& o.unix == spec_unix(c)
}

/// The tier before the bit-unit carry: the explicit exponent, clamped, or
/// the computed magnitude tier.
fn tier0_of(mag: u64, o: &crate::options::ResolvedOptions, Ghost(c): Ghost<Config>) -> (e0: u32)
    requires
        opts_match(*o, c),
    ensures
        e0 as nat == spec_tier0(mag as nat, c),
        e0 <= 8,
{
    let tceil: u32 = if o.base > 2 {
        1000
    } else {
        1024
    };
    match o.exponent {
        Some(x) => if x <= 8 {
            x
        } else {
            8
        },
        None => compute_tier(mag, tceil),
    }
}

/// Scale the magnitude by its tier divider (with the bit factor and its
/// at-most-one carry step) and round: the displayed tier and the integer
/// and fractional parts of the exactly rounded mantissa.
#[verifier::rlimit(100)]
fn scale_value(mag: u64, e0: u32, o: &crate::options::ResolvedOptions, Ghost(c): Ghost<
    Config,
>) -> (r: (u32, u128, Vec<u8>))
    requires
        opts_match(*o, c),
        e0 as nat == spec_tier0(mag as nat, c),
        e0 <= 8,
    ensures
        r.0 as nat == spec_etier(mag as nat, c),
        r.0 <= 8,
        r.1 as nat == spec_units(spec_mantissa(mag as nat, c), spec_places(mag as nat, c)),
        r.2@ == spec_frac(spec_mantissa(mag as nat, c), spec_places(mag as nat, c)),
        crate::arith::digits_ok(r.2@),
        r.2@.len() > 0 ==> r.2@.last() != 0,
{
    let tceil: u32 = if o.base > 2 {
        1000
    } else {
        1024
    };
    let dbase: u32 = if o.base == 2 {
        1024
    } else {
        1000
    };
    let d0: u128 = pow_ceiling(dbase, e0);
    let n: u128 = if o.bits {
        (mag as u128) * 8
    } else {
        mag as u128
    };
    proof {
        lemma_npow_pos(dbase as nat, e0 as nat);
        lemma_npow_base_le(dbase as nat, 1024, e0 as nat);
        lemma_npow_exp_le(1024, e0 as nat, 8);
        lemma_npow_1024_8();
        assert((tceil as nat) * (d0 as nat) <= 1024 * 0x100000000000000000000)
            by (nonlinear_arith)
            requires
                tceil <= 1024,
                d0 as nat <= 0x100000000000000000000,
        ;
    }
    let carry: bool = o.bits && e0 < 8 && n >= (tceil as u128) * d0;
    let e: u32 = if carry {
        e0 + 1
    } else {
        e0
    };
    let d: u128 = if carry {
        d0 * (tceil as u128)
    } else {
        d0
    };
    proof {
        assert(carry == spec_carry(mag as nat, c));
        assert(e as nat == spec_etier(mag as nat, c));
        assert(n as nat == spec_numer(mag as nat, c));
        if carry {
            assert(spec_divisor(mag as nat, c) == npow(spec_dbase(c), spec_tier0(mag as nat, c))
                * spec_tceil(c));
            assert((d0 as nat) * (tceil as nat) == spec_divisor(mag as nat, c) && (d0 as nat) * (
            tceil as nat) <= 0x40000000000000000000000) by (nonlinear_arith)
                requires
                    d0 as nat == npow(spec_dbase(c), spec_tier0(mag as nat, c)),
                    tceil as nat == spec_tceil(c),
                    spec_divisor(mag as nat, c) == npow(spec_dbase(c), spec_tier0(mag as nat, c))
                        * spec_tceil(c),
                    d0 as nat <= 0x100000000000000000000,
                    tceil <= 1024,
            ;
        } else {
            assert((d0 as nat) * 1 == d0 as nat) by (nonlinear_arith);
            assert(d as nat == spec_divisor(mag as nat, c));
        }
        assert(d as nat == spec_divisor(mag as nat, c));
        assert(d >= 1);
    }
    let places: u32 = if e > 0 {
        o.round
    } else {
        0
    };
    let (units, frac) = crate::decimal::div_round(n, d, places);
    (e, units, frac)
}

/// The suffix for a displayed tier: unix zero bucket, the irregular
/// decimal-base `kb`/`kB` at tier 1, or the table symbol, then the unix
/// collapse. The flag reports that the collapse cleared the suffix and the
/// displayed value is floored.
fn suffix_value(
    zero: bool,
    e: u32,
    o: &crate::options::ResolvedOptions,
    Ghost(c): Ghost<Config>,
    Ghost(mag): Ghost<nat>,
) -> (r: (String, bool))
    requires
        opts_match(*o, c),
        zero == (mag == 0),
        e as nat == spec_etier(mag, c),
        e <= 8,
    ensures
        r.0@ == spec_unix_suffix(mag, c).0,
        r.1 == spec_unix_suffix(mag, c).1,
{
    let suffix0: String = if zero && o.unix {
        String::new()
    } else if !zero && o.base != 2 && e == 1 {
        if o.bits {
            "kb".to_owned()
        } else {
            "kB".to_owned()
        }
    } else {
        symbol_str(o.standard, o.bits, e).to_owned()
    };
    if o.unix && !zero {
        unix_collapse(suffix0, o.standard, e)
    } else {
        (suffix0, false)
    }
}

/// Format a byte count under a sparse configuration. The numeric component
/// is the value scaled by its tier divider and rounded half-up to the
/// resolved precision, exactly; the shape follows the `output` option.
#[verifier::rlimit(100)]
pub fn filesize(value: i64, cfg: Config) -> (r: FormatResult)
    ensures
        spec_result(value as int, cfg, r),
{
    let ghost c = cfg;
    let o = resolve_options(cfg);
    proof {
        assert(opts_match(o, c));
    }
    let neg = value < 0;
    let mag: u64 = if value >= 0 {
        value as u64
    } else {
        (-(value as i128)) as u64
    };
    proof {
        assert(mag as nat == spec_mag(value as int));
    }
    let e0 = tier0_of(mag, &o, Ghost(c));
    if matches!(o.output, Output::Exponent) {
        return FormatResult::Exponent(e0);
    }
    let (e, units, frac) = scale_value(mag, e0, &o, Ghost(c));
    let collapsed = suffix_value(mag == 0, e, &o, Ghost(c), Ghost(mag as nat));
    let floored = collapsed.1;
    let frac2: Vec<u8> = if floored {
        Vec::new()
    } else {
        frac
    };
    let dec = Decimal { neg, units, frac: frac2 };
    proof {
        assert(spec_decimal_ok(value as int, c, dec));
    }
    let suffix = apply_override(&o.symbols, collapsed.0);
    if matches!(o.output, Output::Array) {
        return FormatResult::Array(dec, suffix);
    }
    let grouped = !matches!(o.locale, LocaleChoice::Off);
    let rendered: String = if grouped {
        render_decimal(&dec, true, ".")
    } else if !o.separator.as_str().is_empty() {
        render_decimal(&dec, false, o.separator.as_str())
    } else {
        render_decimal(&dec, false, ".")
    };
    proof {
        assert(rendered@ == spec_rendered(value as int, c));
    }
    let final_suffix: String = if o.fullform {
        fullform_name(&o.fullforms, o.standard, o.bits, e, &rendered)
    } else {
        suffix
    };
    proof {
        assert(final_suffix@ == spec_final_suffix(value as int, c));
    }
    if matches!(o.output, Output::Object) {
        return FormatResult::Object { value: dec, symbol: final_suffix };
    }
    let mut out = rendered;
    out.append(o.spacer.as_str());
    out.append(final_suffix.as_str());
    proof {
        assert(out@ =~= spec_rendered(value as int, c) + spec_spacer(c) + spec_final_suffix(
            value as int,
            c,
        ));
    }
    FormatResult::Text(out)
}

/// Tier selection at the formatting level: without an explicit exponent and
/// without bit units, a value between two successive powers of the ceiling
/// (1024, or 1000 for a decimal base) is displayed at exactly the tier of
/// the lower power — tier 0 below the ceiling, one step up at each crossing.
pub proof fn lemma_displayed_tier(mag: nat, c: Config, t: nat)
    requires
        c.exponent is None,
        !spec_bits(c),
        t <= 8,
        npow(spec_tceil(c), t) <= mag,
        mag < npow(spec_tceil(c), t + 1),
    ensures
        spec_etier(mag, c) == t,
{
    crate::tier::lemma_tier_characterization(mag, spec_tceil(c), t);
}

/// Round-trip accuracy at the formatting level: the displayed mantissa,
/// re-scaled by the tier divisor, recovers the exact scaled magnitude
/// (numerator times the decimal scale) within half a unit in the last of
/// the resolved decimal places.
pub proof fn lemma_mantissa_round_trip(mag: nat, c: Config)
    ensures
        2 * spec_divisor(mag, c) * spec_mantissa(mag, c) <= 2 * spec_numer(mag, c) * crate::arith::pow10(
            spec_places(mag, c),
        ) + spec_divisor(mag, c),
        2 * spec_numer(mag, c) * crate::arith::pow10(spec_places(mag, c)) < 2 * spec_divisor(
            mag,
            c,
        ) * spec_mantissa(mag, c) + spec_divisor(mag, c),
{
    lemma_npow_pos(spec_dbase(c), spec_tier0(mag, c));
    assert(spec_divisor(mag, c) >= 1) by (nonlinear_arith)
        requires
            npow(spec_dbase(c), spec_tier0(mag, c)) >= 1,
            spec_divisor(mag, c) == npow(spec_dbase(c), spec_tier0(mag, c)) * (if spec_carry(
                mag,
                c,
            ) {
                spec_tceil(c)
            } else {
                1nat
            }),
            spec_tceil(c) >= 1000,
    ;
    crate::arith::lemma_round_trip(spec_numer(mag, c), spec_divisor(mag, c), spec_places(mag, c));
}

/// Purity: formatting is a function of its inputs. Any two results of the
/// same value under the same configuration agree: same shape, same numeric
/// fields, same text.
pub proof fn lemma_format_deterministic(v: int, c: Config, r1: FormatResult, r2: FormatResult)
    requires
        spec_result(v, c, r1),
        spec_result(v, c, r2),
    ensures
        match (r1, r2) {
            (FormatResult::Exponent(a), FormatResult::Exponent(b)) => a == b,
            (FormatResult::Text(a), FormatResult::Text(b)) => a@ == b@,
            (FormatResult::Array(d1, s1), FormatResult::Array(d2, s2)) => d1.neg == d2.neg
                && d1.units == d2.units && d1.frac@ == d2.frac@ && s1@ == s2@,
            (
                FormatResult::Object { value: d1, symbol: s1 },
                FormatResult::Object { value: d2, symbol: s2 },
            ) => d1.neg == d2.neg && d1.units == d2.units && d1.frac@ == d2.frac@ && s1@ == s2@,
            _ => false,
        },
{
}

/// Sign preservation: a negative value formats exactly as its absolute
/// value with the numeric component negated and the same suffix. Full forms
/// are excluded: their pluralization consults the rendered text, so the
/// suffixes of 1 and -1 differ there.
pub proof fn lemma_sign_preservation(v: int, c: Config, rp: FormatResult, rn: FormatResult)
    requires
        0 < v,
        !spec_fullform(c),
        spec_result(v, c, rp),
        spec_result(-v, c, rn),
    ensures
        match (rp, rn) {
            (FormatResult::Exponent(a), FormatResult::Exponent(b)) => a == b,
            (FormatResult::Text(a), FormatResult::Text(b)) => b@ == "-"@ + a@,
            (FormatResult::Array(d1, s1), FormatResult::Array(d2, s2)) => d1.neg == false
                && d2.neg == true && d1.units == d2.units && d1.frac@ == d2.frac@ && s1@ == s2@,
            (
                FormatResult::Object { value: d1, symbol: s1 },
                FormatResult::Object { value: d2, symbol: s2 },
            ) => d1.neg == false && d2.neg == true && d1.units == d2.units && d1.frac@ == d2.frac@
                && s1@ == s2@,
            _ => false,
        },
{
    assert(spec_mag(v) == spec_mag(-v));
    match (rp, rn) {
        (FormatResult::Text(a), FormatResult::Text(b)) => {
            let mag = spec_mag(v);
            let u = spec_dec_units(mag, c);
            let f = spec_dec_frac(mag, c);
            let g = spec_grouped(c);
            let m = spec_mark(c);
            assert(spec_render(true, u, f, g, m) =~= "-"@ + spec_render(false, u, f, g, m));
            assert(b@ =~= "-"@ + a@);
        },
        _ => {},
    }
}

} // verus!
