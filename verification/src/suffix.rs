//! Suffix selection: the fixed IEC/JEDEC unit tables, the irregular decimal
//! `kb`/`kB` rule at tier 1, the POSIX-style collapse, caller overrides, and
//! spelled-out full-form names.

use crate::options::Standard;
use vstd::prelude::*;
use vstd::string::{StrSliceExecFns, StringExecFns};

verus! {

/// The unit symbol for a standard, bit/byte choice and tier: the two fixed
/// nine-entry rows per standard.
#[verifier::opaque]
pub open spec fn spec_symbol(std: Standard, bits: bool, t: nat) -> Seq<char> {
    match std {
        Standard::Iec => if bits {
            if t == 0 {
                "b"@
            } else if t == 1 {
                "Kib"@
            } else if t == 2 {
                "Mib"@
            } else if t == 3 {
                "Gib"@
            } else if t == 4 {
                "Tib"@
            } else if t == 5 {
                "Pib"@
            } else if t == 6 {
                "Eib"@
            } else if t == 7 {
                "Zib"@
            } else {
                "Yib"@
            }
        } else {
            if t == 0 {
                "B"@
            } else if t == 1 {
                "KiB"@
            } else if t == 2 {
                "MiB"@
            } else if t == 3 {
                "GiB"@
            } else if t == 4 {
                "TiB"@
            } else if t == 5 {
                "PiB"@
            } else if t == 6 {
                "EiB"@
            } else if t == 7 {
                "ZiB"@
            } else {
                "YiB"@
            }
        },
        Standard::Jedec => if bits {
            if t == 0 {
                "b"@
            } else if t == 1 {
                "Kb"@
            } else if t == 2 {
                "Mb"@
            } else if t == 3 {
                "Gb"@
            } else if t == 4 {
                "Tb"@
            } else if t == 5 {
                "Pb"@
            } else if t == 6 {
                "Eb"@
            } else if t == 7 {
                "Zb"@
            } else {
                "Yb"@
            }
        } else {
            if t == 0 {
                "B"@
            } else if t == 1 {
                "KB"@
            } else if t == 2 {
                "MB"@
            } else if t == 3 {
                "GB"@
            } else if t == 4 {
                "TB"@
            } else if t == 5 {
                "PB"@
            } else if t == 6 {
                "EB"@
            } else if t == 7 {
                "ZB"@
            } else {
                "YB"@
            }
        },
    }
}

/// The table symbol as an executable string slice.
pub fn symbol_str(std: Standard, bits: bool, t: u32) -> (r: &'static str)
    requires
        t <= 8,
    ensures
        r@ == spec_symbol(std, bits, t as nat),
{
    proof {
        reveal(spec_symbol);
    }
    match std {
        Standard::Iec => if bits {
            if t == 0 {
                "b"
            } else if t == 1 {
                "Kib"
            } else if t == 2 {
                "Mib"
            } else if t == 3 {
                "Gib"
            } else if t == 4 {
                "Tib"
            } else if t == 5 {
                "Pib"
            } else if t == 6 {
                "Eib"
            } else if t == 7 {
                "Zib"
            } else {
                "Yib"
            }
        } else {
            if t == 0 {
                "B"
            } else if t == 1 {
                "KiB"
            } else if t == 2 {
                "MiB"
            } else if t == 3 {
                "GiB"
            } else if t == 4 {
                "TiB"
            } else if t == 5 {
                "PiB"
            } else if t == 6 {
                "EiB"
            } else if t == 7 {
                "ZiB"
            } else {
                "YiB"
            }
        },
        Standard::Jedec => if bits {
            if t == 0 {
                "b"
            } else if t == 1 {
                "Kb"
            } else if t == 2 {
                "Mb"
            } else if t == 3 {
                "Gb"
            } else if t == 4 {
                "Tb"
            } else if t == 5 {
                "Pb"
            } else if t == 6 {
                "Eb"
            } else if t == 7 {
                "Zb"
            } else {
                "Yb"
            }
        } else {
            if t == 0 {
                "B"
            } else if t == 1 {
                "KB"
            } else if t == 2 {
                "MB"
            } else if t == 3 {
                "GB"
            } else if t == 4 {
                "TB"
            } else if t == 5 {
                "PB"
            } else if t == 6 {
                "EB"
            } else if t == 7 {
                "ZB"
            } else {
                "YB"
            }
        },
    }
}

/// The magnitude-name prefix per standard and tier, for full-form names.
#[verifier::opaque]
pub open spec fn spec_prefix(std: Standard, t: nat) -> Seq<char> {
    match std {
        Standard::Iec => if t == 0 {
            ""@
        } else if t == 1 {
            "kibi"@
        } else if t == 2 {
            "mebi"@
        } else if t == 3 {
            "gibi"@
        } else if t == 4 {
            "tebi"@
        } else if t == 5 {
            "pebi"@
        } else if t == 6 {
            "exbi"@
        } else if t == 7 {
            "zebi"@
        } else {
            "yobi"@
        },
        Standard::Jedec => if t == 0 {
            ""@
        } else if t == 1 {
            "kilo"@
        } else if t == 2 {
            "mega"@
        } else if t == 3 {
            "giga"@
        } else if t == 4 {
            "tera"@
        } else if t == 5 {
            "peta"@
        } else if t == 6 {
            "exa"@
        } else if t == 7 {
            "zetta"@
        } else {
            "yotta"@
        },
    }
}

pub fn prefix_str(std: Standard, t: u32) -> (r: &'static str)
    requires
        t <= 8,
    ensures
        r@ == spec_prefix(std, t as nat),
{
    proof {
        reveal(spec_prefix);
    }
    match std {
        Standard::Iec => if t == 0 {
            ""
        } else if t == 1 {
            "kibi"
        } else if t == 2 {
            "mebi"
        } else if t == 3 {
            "gibi"
        } else if t == 4 {
            "tebi"
        } else if t == 5 {
            "pebi"
        } else if t == 6 {
            "exbi"
        } else if t == 7 {
            "zebi"
        } else {
            "yobi"
        },
        Standard::Jedec => if t == 0 {
            ""
        } else if t == 1 {
            "kilo"
        } else if t == 2 {
            "mega"
        } else if t == 3 {
            "giga"
        } else if t == 4 {
            "tera"
        } else if t == 5 {
            "peta"
        } else if t == 6 {
            "exa"
        } else if t == 7 {
            "zetta"
        } else {
            "yotta"
        },
    }
}

/// POSIX-style suffix collapse: a JEDEC suffix keeps only its first
/// character; any other standard drops a trailing byte marker above tier 0.
/// When what remains is a bare single-character bit or byte marker, the
/// suffix clears to empty and the displayed value is floored to a whole
/// number (the second component reports that).
pub open spec fn spec_collapse(s: Seq<char>, std: Standard, t: nat) -> (Seq<char>, bool) {
    let s1 = if std == Standard::Jedec {
        if s.len() > 0 {
            s.take(1)
        } else {
            s
        }
    } else if t > 0 && s.len() > 0 && s.last() == 'B' {
        s.drop_last()
    } else {
        s
    };
    if s1.len() == 1 && (s1[0] == 'b' || s1[0] == 'B') {
        (Seq::<char>::empty(), true)
    } else {
        (s1, false)
    }
}

/// Collapse a suffix string for unix rendering.
pub fn unix_collapse(s: String, std: Standard, t: u32) -> (r: (String, bool))
    ensures
        r.0@ == spec_collapse(s@, std, t as nat).0,
        r.1 == spec_collapse(s@, std, t as nat).1,
{
    let ghost orig = s@;
    let n = s.as_str().unicode_len();
    let s1: String = if n == 0 {
        s
    } else {
        match std {
            Standard::Jedec => {
                let first = s.as_str().substring_char(0, 1);
                proof {
                    assert(first@ =~= orig.take(1));
                }
                first.to_owned()
            },
            Standard::Iec => {
                if t > 0 && s.as_str().get_char(n - 1) == 'B' {
                    let head = s.as_str().substring_char(0, n - 1);
                    proof {
                        assert(head@ =~= orig.drop_last());
                    }
                    head.to_owned()
                } else {
                    s
                }
            },
        }
    };
    let l1 = s1.as_str().unicode_len();
    if l1 == 1 {
        let c0 = s1.as_str().get_char(0);
        if c0 == 'b' || c0 == 'B' {
            return (String::new(), true);
        }
    }
    (s1, false)
}

/// First-match lookup in the caller's suffix override table: the computed
/// suffix, when present as a key, is replaced by the mapped string verbatim.
pub open spec fn spec_lookup(tbl: Seq<(String, String)>, key: Seq<char>) -> Option<Seq<char>>
    decreases tbl.len(),
{
    if tbl.len() == 0 {
        None
    } else if tbl[0].0@ == key {
        Some(tbl[0].1@)
    } else {
        spec_lookup(tbl.drop_first(), key)
    }
}

pub fn lookup_override(tbl: &Vec<(String, String)>, key: &String) -> (r: Option<String>)
    ensures
        match r {
            Some(v) => spec_lookup(tbl@, key@) == Some(v@),
            None => spec_lookup(tbl@, key@) is None,
        },
{
    let mut i: usize = 0;
    proof {
        assert(tbl@.skip(0) =~= tbl@);
    }
    while i < tbl.len()
        invariant
            i <= tbl@.len(),
            spec_lookup(tbl@.skip(i as int), key@) == spec_lookup(tbl@, key@),
        decreases tbl@.len() - i,
    {
        proof {
            assert(tbl@.skip(i as int)[0] == tbl@[i as int]);
            assert(tbl@.skip(i as int).drop_first() =~= tbl@.skip(i as int + 1));
        }
        if tbl[i].0 == *key {
            return Some(tbl[i].1.clone());
        }
        i = i + 1;
    }
    proof {
        assert(tbl@.skip(i as int).len() == 0);
    }
    None
}

/// The applied suffix: the override when the computed suffix is a key of the
/// caller's table, else the computed suffix itself.
pub open spec fn spec_override(tbl: Seq<(String, String)>, s: Seq<char>) -> Seq<char> {
    match spec_lookup(tbl, s) {
        Some(v) => v,
        None => s,
    }
}

pub fn apply_override(tbl: &Vec<(String, String)>, s: String) -> (r: String)
    ensures
        r@ == spec_override(tbl@, s@),
{
    match lookup_override(tbl, &s) {
        Some(v) => v,
        None => s,
    }
}

/// The spelled-out unit name: the caller's per-tier override when one is
/// supplied, else the magnitude prefix followed by "bit"/"byte", with a
/// plural "s" unless the rendered numeric text is exactly "1".
pub open spec fn spec_fullform_name(
    overrides: Seq<String>,
    std: Standard,
    bits: bool,
    t: nat,
    rendered: Seq<char>,
) -> Seq<char> {
    if t < overrides.len() {
        overrides[t as int]@
    } else {
        spec_prefix(std, t) + (if bits {
            "bit"@
        } else {
            "byte"@
        }) + (if rendered.len() == 1 && rendered[0] == '1' {
            Seq::<char>::empty()
        } else {
            "s"@
        })
    }
}

pub fn fullform_name(
    overrides: &Vec<String>,
    std: Standard,
    bits: bool,
    t: u32,
    rendered: &String,
) -> (r: String)
    requires
        t <= 8,
    ensures
        r@ == spec_fullform_name(overrides@, std, bits, t as nat, rendered@),
{
    if (t as usize) < overrides.len() {
        overrides[t as usize].clone()
    } else {
        let mut s: String = prefix_str(std, t).to_owned();
        if bits {
            s.append("bit");
        } else {
            s.append("byte");
        }
        let l = rendered.as_str().unicode_len();
        let one = l == 1 && rendered.as_str().get_char(0) == '1';
        if !one {
            s.append("s");
        } else {
            proof {
                assert(s@ + Seq::<char>::empty() =~= s@);
            }
        }
        s
    }
}

} // verus!
