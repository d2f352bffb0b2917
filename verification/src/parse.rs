//! Input normalization for numeric text: a size may arrive as the string of
//! an integer literal (an optional sign, then digits). Parsing records sign
//! and magnitude exactly; anything else fails as an invalid number.

use crate::format::{filesize, spec_result, FormatResult};
use crate::options::Config;
use vstd::prelude::*;
use vstd::string::StrSliceExecFns;

verus! {

/// Why a call fails: the input text is not a numeric literal in range.
#[derive(Debug, PartialEq, Eq, Clone, Copy)]
pub enum SizeError {
    InvalidNumber,
}

/// The value of one digit character, ten for anything else.
pub open spec fn spec_digit_of(ch: char) -> nat {
    if ch == '0' {
        0
    } else if ch == '1' {
        1
    } else if ch == '2' {
        2
    } else if ch == '3' {
        3
    } else if ch == '4' {
        4
    } else if ch == '5' {
        5
    } else if ch == '6' {
        6
    } else if ch == '7' {
        7
    } else if ch == '8' {
        8
    } else if ch == '9' {
        9
    } else {
        10
    }
}

/// All characters from `i` on are decimal digits.
pub open spec fn all_digits(s: Seq<char>, i: int) -> bool {
    forall|k: int| i <= k < s.len() ==> spec_digit_of(#[trigger] s[k]) < 10
}

/// The numeric value of digit text, most significant first.
pub open spec fn spec_digits_value(s: Seq<char>) -> nat
    decreases s.len(),
{
    if s.len() == 0 {
        0
    } else {
        spec_digits_value(s.drop_last()) * 10 + spec_digit_of(s.last())
    }
}

/// A valid integer literal: an optional sign, then at least one digit,
/// nothing else.
pub open spec fn spec_is_literal(s: Seq<char>) -> bool {
    let start: int = if s.len() > 0 && (s[0] == '-' || s[0] == '+') {
        1
    } else {
        0
    };
    s.len() > start && all_digits(s, start)
}

/// The signed value of a literal.
pub open spec fn spec_literal_value(s: Seq<char>) -> int {
    let start: int = if s.len() > 0 && (s[0] == '-' || s[0] == '+') {
        1
    } else {
        0
    };
    let m = spec_digits_value(s.subrange(start, s.len() as int));
    if s.len() > 0 && s[0] == '-' {
        -(m as int)
    } else {
        m as int
    }
}

/// A literal in the `i64` range.
pub open spec fn spec_parse_ok(s: Seq<char>) -> bool {
    &&& spec_is_literal(s)
    &&& -0x8000000000000000 <= spec_literal_value(s) <= 0x7fffffffffffffff
}

fn digit_of(ch: char) -> (d: u32)
    ensures
        d as nat == spec_digit_of(ch),
{
    if ch == '0' {
        0
    } else if ch == '1' {
        1
    } else if ch == '2' {
        2
    } else if ch == '3' {
        3
    } else if ch == '4' {
        4
    } else if ch == '5' {
        5
    } else if ch == '6' {
        6
    } else if ch == '7' {
        7
    } else if ch == '8' {
        8
    } else if ch == '9' {
        9
    } else {
        10
    }
}

/// Appending text never shrinks the value of digit text.
proof fn lemma_digits_value_extend(s: Seq<char>, a: int, i: int, j: int)
    requires
        0 <= a <= i <= j <= s.len(),
    ensures
        spec_digits_value(s.subrange(a, j)) >= spec_digits_value(s.subrange(a, i)),
    decreases j - i,
{
    if i < j {
        lemma_digits_value_extend(s, a, i, j - 1);
        assert(s.subrange(a, j).drop_last() =~= s.subrange(a, j - 1));
        assert(spec_digits_value(s.subrange(a, j)) == spec_digits_value(s.subrange(a, j - 1)) * 10
            + spec_digit_of(s.subrange(a, j).last()));
    }
}

/// Parse an integer literal: `Ok` exactly for a valid literal whose value
/// fits an `i64`, else `InvalidNumber`.
pub fn parse_size(s: &str) -> (r: Result<i64, SizeError>)
    ensures
        match r {
            Ok(v) => spec_parse_ok(s@) && v as int == spec_literal_value(s@),
            Err(e) => e == SizeError::InvalidNumber && !spec_parse_ok(s@),
        },
{
    let n = s.unicode_len();
    if n == 0 {
        return Err(SizeError::InvalidNumber);
    }
    let c0 = s.get_char(0);
    let neg = c0 == '-';
    let start: usize = if neg || c0 == '+' {
        1
    } else {
        0
    };
    if n == start {
        return Err(SizeError::InvalidNumber);
    }
    let mut acc: u128 = 0;
    let mut i: usize = start;
    proof {
        assert(s@.subrange(start as int, start as int) =~= Seq::<char>::empty());
    }
    while i < n
        invariant
            start <= 1,
            start <= i <= n,
            n == s@.len(),
            start == 1 ==> s@.len() > 0 && (s@[0] == '-' || s@[0] == '+'),
            start == 0 ==> !(s@.len() > 0 && (s@[0] == '-' || s@[0] == '+')),
            neg == (s@.len() > 0 && s@[0] == '-'),
            acc as nat == spec_digits_value(s@.subrange(start as int, i as int)),
            acc <= 0x8000000000000000,
            all_digits(s@.subrange(0, i as int), start as int),
        decreases n - i,
    {
        let ch = s.get_char(i);
        let d = digit_of(ch);
        if d >= 10 {
            proof {
                assert(spec_digit_of(s@[i as int]) >= 10);
                assert(!all_digits(s@, start as int));
            }
            return Err(SizeError::InvalidNumber);
        }
        acc = acc * 10 + (d as u128);
        proof {
            assert(s@.subrange(start as int, i as int + 1).drop_last() =~= s@.subrange(
                start as int,
                i as int,
            ));
            assert(s@.subrange(0, i as int + 1).subrange(start as int, s@.subrange(
                0,
                i as int + 1,
            ).len() as int) =~= s@.subrange(start as int, i as int + 1));
        }
        if acc > 0x8000000000000000 {
            proof {
                let sub1 = s@.subrange(start as int, i as int + 1);
                assert(sub1.last() == s@[i as int]);
                assert(spec_digits_value(sub1) == spec_digits_value(sub1.drop_last()) * 10
                    + spec_digit_of(sub1.last()));
                assert(acc as nat == spec_digits_value(sub1));
                lemma_digits_value_extend(s@, start as int, i as int + 1, n as int);
                assert(s@.subrange(start as int, n as int) =~= s@.subrange(
                    start as int,
                    s@.len() as int,
                ));
                assert(spec_digits_value(s@.subrange(start as int, s@.len() as int))
                    >= acc as nat);
                assert(!spec_parse_ok(s@));
            }
            return Err(SizeError::InvalidNumber);
        }
        i = i + 1;
    }
    proof {
        assert(s@.subrange(start as int, i as int) =~= s@.subrange(start as int, s@.len() as int));
        assert(s@.subrange(0, i as int) =~= s@);
    }
    if neg {
        Ok((-(acc as i128)) as i64)
    } else {
        if acc == 0x8000000000000000 {
            return Err(SizeError::InvalidNumber);
        }
        Ok(acc as i64)
    }
}

/// Format a size given as numeric text: parse, then format. `Ok` exactly
/// when the text is an integer literal in range; the result then satisfies
/// the formatting specification for the parsed value.
pub fn filesize_str(s: &str, cfg: Config) -> (r: Result<FormatResult, SizeError>)
    ensures
        match r {
            Ok(fr) => spec_parse_ok(s@) && spec_result(spec_literal_value(s@), cfg, fr),
            Err(e) => e == SizeError::InvalidNumber && !spec_parse_ok(s@),
        },
{
    match parse_size(s) {
        Ok(v) => Ok(filesize(v, cfg)),
        Err(e) => Err(e),
    }
}

} // verus!
