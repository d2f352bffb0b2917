//! Numeric text rendering: decimal digit strings for the integer part,
//! locale-style grouping by thousands, and the separator that replaces the
//! decimal mark.

use crate::arith::{digits_ok, dval};
use crate::decimal::Decimal;
use vstd::prelude::*;
use vstd::string::{StrSliceExecFns, StringExecFns};

verus! {

/// The character of one decimal digit.
pub open spec fn spec_digit_char(d: nat) -> char {
    if d == 0 {
        '0'
    } else if d == 1 {
        '1'
    } else if d == 2 {
        '2'
    } else if d == 3 {
        '3'
    } else if d == 4 {
        '4'
    } else if d == 5 {
        '5'
    } else if d == 6 {
        '6'
    } else if d == 7 {
        '7'
    } else if d == 8 {
        '8'
    } else {
        '9'
    }
}

/// A digit sequence as characters.
pub open spec fn digit_chars(s: Seq<u8>) -> Seq<char> {
    s.map_values(|d: u8| spec_digit_char(d as nat))
}

/// The canonical decimal digits of `n`, most significant first, no leading
/// zeros (a single zero digit for zero).
pub open spec fn dec_digits(n: nat) -> Seq<u8>
    decreases n,
{
    if n < 10 {
        seq![n as u8]
    } else {
        dec_digits(n / 10).push((n % 10) as u8)
    }
}

pub proof fn lemma_dec_digits_ok(n: nat)
    ensures
        digits_ok(dec_digits(n)),
        dec_digits(n).len() >= 1,
    decreases n,
{
    if n >= 10 {
        lemma_dec_digits_ok(n / 10);
    }
}

/// Digit grouping by thousands with a comma, the default locale convention.
pub open spec fn grouped_chars(s: Seq<u8>) -> Seq<char>
    decreases s.len(),
{
    if s.len() <= 3 {
        digit_chars(s)
    } else {
        grouped_chars(s.take(s.len() - 3)) + ","@ + digit_chars(s.skip(s.len() - 3))
    }
}

/// One digit as a string slice.
fn digit_str(d: u8) -> (r: &'static str)
    requires
        d < 10,
    ensures
        r@ =~= seq![spec_digit_char(d as nat)],
{
    proof {
        reveal_strlit("0");
        reveal_strlit("1");
        reveal_strlit("2");
        reveal_strlit("3");
        reveal_strlit("4");
        reveal_strlit("5");
        reveal_strlit("6");
        reveal_strlit("7");
        reveal_strlit("8");
        reveal_strlit("9");
    }
    if d == 0 {
        "0"
    } else if d == 1 {
        "1"
    } else if d == 2 {
        "2"
    } else if d == 3 {
        "3"
    } else if d == 4 {
        "4"
    } else if d == 5 {
        "5"
    } else if d == 6 {
        "6"
    } else if d == 7 {
        "7"
    } else if d == 8 {
        "8"
    } else {
        "9"
    }
}

/// Collect the canonical digits of `x` onto `out`.
fn push_digits(x: u128, out: &mut Vec<u8>)
    ensures
        final(out)@ == old(out)@ + dec_digits(x as nat),
    decreases x,
{
    if x < 10 {
        out.push(x as u8);
        proof {
            assert(old(out)@.push(x as u8) =~= old(out)@ + dec_digits(x as nat));
        }
    } else {
        push_digits(x / 10, out);
        out.push((x % 10) as u8);
        proof {
            assert((old(out)@ + dec_digits((x / 10) as nat)).push((x % 10) as u8) =~= old(out)@
                + dec_digits(x as nat));
        }
    }
}

/// Append the characters of `digs[from..to]` onto `out`.
fn append_digit_range(digs: &Vec<u8>, from: usize, to: usize, out: &mut String)
    requires
        digits_ok(digs@),
        from <= to <= digs@.len(),
    ensures
        final(out)@ == old(out)@ + digit_chars(digs@.subrange(from as int, to as int)),
{
    let mut i: usize = from;
    proof {
        assert(old(out)@ + digit_chars(digs@.subrange(from as int, from as int)) =~= old(out)@);
    }
    while i < to
        invariant
            digits_ok(digs@),
            from <= i <= to <= digs@.len(),
            out@ == old(out)@ + digit_chars(digs@.subrange(from as int, i as int)),
        decreases to - i,
    {
        let part = digit_str(digs[i]);
        out.append(part);
        proof {
            assert((old(out)@ + digit_chars(digs@.subrange(from as int, i as int))) + part@
                =~= old(out)@ + digit_chars(digs@.subrange(from as int, i as int + 1)));
        }
        i = i + 1;
    }
}

/// Append the grouped rendering of the first `end` digits onto `out`.
fn append_grouped(digs: &Vec<u8>, end: usize, out: &mut String)
    requires
        digits_ok(digs@),
        end <= digs@.len(),
    ensures
        final(out)@ == old(out)@ + grouped_chars(digs@.take(end as int)),
    decreases end,
{
    if end <= 3 {
        append_digit_range(digs, 0, end, out);
        proof {
            assert(digs@.subrange(0, end as int) =~= digs@.take(end as int));
        }
    } else {
        append_grouped(digs, end - 3, out);
        out.append(",");
        append_digit_range(digs, end - 3, end, out);
        proof {
            let whole = digs@.take(end as int);
            assert(digs@.take(end as int - 3) =~= whole.take(whole.len() - 3));
            assert(digs@.subrange(end as int - 3, end as int) =~= whole.skip(whole.len() - 3));
            assert(((old(out)@ + grouped_chars(whole.take(whole.len() - 3))) + ","@)
                + digit_chars(whole.skip(whole.len() - 3)) =~= old(out)@ + (grouped_chars(
                whole.take(whole.len() - 3),
            ) + ","@ + digit_chars(whole.skip(whole.len() - 3))));
        }
    }
}

/// The rendered numeric text of a decimal: an optional minus sign, the
/// integer digits (grouped when locale rendering is on), and the fractional
/// digits after `sep` when any remain. `sep` is the point, or the caller's
/// separator when one was supplied and locale rendering is off.
pub open spec fn spec_render(
    neg: bool,
    units: nat,
    frac: Seq<u8>,
    grouped: bool,
    sep: Seq<char>,
) -> Seq<char> {
    (if neg {
        "-"@
    } else {
        Seq::<char>::empty()
    }) + (if grouped {
        grouped_chars(dec_digits(units))
    } else {
        digit_chars(dec_digits(units))
    }) + (if frac.len() > 0 {
        sep + digit_chars(frac)
    } else {
        Seq::<char>::empty()
    })
}

/// Render a decimal value as numeric text.
pub fn render_decimal(dec: &Decimal, grouped: bool, sep: &str) -> (r: String)
    requires
        digits_ok(dec.frac@),
    ensures
        r@ == spec_render(dec.neg, dec.units as nat, dec.frac@, grouped, sep@),
{
    let ghost goal = spec_render(dec.neg, dec.units as nat, dec.frac@, grouped, sep@);
    let mut out = String::new();
    if dec.neg {
        out.append("-");
    }
    let ghost sign = out@;
    let mut idigs: Vec<u8> = Vec::new();
    push_digits(dec.units, &mut idigs);
    proof {
        lemma_dec_digits_ok(dec.units as nat);
        assert(idigs@ =~= dec_digits(dec.units as nat));
    }
    if grouped {
        proof {
            assert(idigs@.take(idigs@.len() as int) =~= idigs@);
        }
        append_grouped(&idigs, idigs.len(), &mut out);
    } else {
        proof {
            assert(idigs@.subrange(0, idigs@.len() as int) =~= idigs@);
        }
        append_digit_range(&idigs, 0, idigs.len(), &mut out);
    }
    if dec.frac.len() > 0 {
        out.append(sep);
        proof {
            assert(dec.frac@.subrange(0, dec.frac@.len() as int) =~= dec.frac@);
        }
        append_digit_range(&dec.frac, 0, dec.frac.len(), &mut out);
        proof {
            assert(out@ =~= goal);
        }
    } else {
        proof {
            assert(out@ =~= goal);
        }
    }
    out
}

} // verus!
