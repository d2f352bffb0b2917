//! Option resolution: a sparse caller-supplied configuration becomes a fully
//! resolved, immutable set of formatting options. Resolution never fails:
//! a missing field falls back to its documented default, and the defaults of
//! `round` and `spacer` depend on `unix`.

use vstd::prelude::*;

verus! {

/// Unit naming convention. An unrecognized requested standard falls back to
/// JEDEC (the documented policy), and any non-binary base forces JEDEC.
#[derive(Clone, Copy, PartialEq, Eq, Structural, Debug)]
pub enum Standard {
    Iec,
    Jedec,
}

/// The shape of a formatting result.
#[derive(Clone, Copy, PartialEq, Eq, Structural, Debug)]
pub enum Output {
    Text,
    Array,
    Object,
    Exponent,
}

/// Locale-style digit grouping: off, on with the default conventions, or on
/// with a named locale. A named locale is rendered with the same default
/// conventions (grouping by thousands with a comma, point as the decimal
/// mark): that fallback is this library's documented policy, so no locale
/// name is ever rejected.
#[derive(Clone, PartialEq, Eq, Debug)]
pub enum LocaleChoice {
    Off,
    On,
    Named(String),
}

/// A sparse caller-supplied configuration. Every field is optional; an empty
/// override table stands for an absent one, which resolves identically.
#[derive(Debug)]
pub struct Config {
    pub base: Option<u32>,
    pub bits: Option<bool>,
    pub exponent: Option<u32>,
    pub fullform: Option<bool>,
    pub fullforms: Vec<String>,
    pub locale: LocaleChoice,
    pub output: Option<String>,
    pub round: Option<u32>,
    pub separator: Option<String>,
    pub spacer: Option<String>,
    pub standard: Option<String>,
    pub symbols: Vec<(String, String)>,
    pub unix: Option<bool>,
}

impl Default for Config {
    /// The all-absent configuration: every field resolves to its default.
    fn default() -> (c: Config)
        ensures
            c.base is None,
            c.bits is None,
            c.exponent is None,
            c.fullform is None,
            c.fullforms@.len() == 0,
            c.locale == LocaleChoice::Off,
            c.output is None,
            c.round is None,
            c.separator is None,
            c.spacer is None,
            c.standard is None,
            c.symbols@.len() == 0,
            c.unix is None,
    {
        Config {
            base: None,
            bits: None,
            exponent: None,
            fullform: None,
            fullforms: Vec::new(),
            locale: LocaleChoice::Off,
            output: None,
            round: None,
            separator: None,
            spacer: None,
            standard: None,
            symbols: Vec::new(),
            unix: None,
        }
    }
}

/// The fully resolved options a formatting call runs with.
pub struct ResolvedOptions {
    pub base: u32,
    pub bits: bool,
    pub exponent: Option<u32>,
    pub fullform: bool,
    pub fullforms: Vec<String>,
    pub locale: LocaleChoice,
    pub output: Output,
    pub round: u32,
    pub separator: String,
    pub spacer: String,
    pub standard: Standard,
    pub symbols: Vec<(String, String)>,
    pub unix: bool,
}

pub open spec fn spec_bits(c: Config) -> bool {
    match c.bits {
        Some(b) => b,
        None => false,
    }
}

pub open spec fn spec_unix(c: Config) -> bool {
    match c.unix {
        Some(b) => b,
        None => false,
    }
}

pub open spec fn spec_fullform(c: Config) -> bool {
    match c.fullform {
        Some(b) => b,
        None => false,
    }
}

/// Default base 2; a supplied 0 is treated as 2 (division-by-zero guard).
pub open spec fn spec_base(c: Config) -> u32 {
    match c.base {
        Some(b) => if b == 0 {
            2
        } else {
            b
        },
        None => 2,
    }
}

/// Default precision: 1 in unix mode, else 2, unless explicitly supplied.
pub open spec fn spec_round(c: Config) -> u32 {
    match c.round {
        Some(r) => r,
        None => if spec_unix(c) {
            1
        } else {
            2
        },
    }
}

/// Default spacer: empty in unix mode, else one space, unless supplied.
pub open spec fn spec_spacer(c: Config) -> Seq<char> {
    match c.spacer {
        Some(s) => s@,
        None => if spec_unix(c) {
            ""@
        } else {
            " "@
        },
    }
}

pub open spec fn spec_separator(c: Config) -> Seq<char> {
    match c.separator {
        Some(s) => s@,
        None => ""@,
    }
}

/// The standard is only consulted for base 2; any other base forces JEDEC,
/// and an unrecognized name falls back to JEDEC.
pub open spec fn spec_standard(c: Config) -> Standard {
    if spec_base(c) != 2 {
        Standard::Jedec
    } else {
        match c.standard {
            Some(s) => if s@ == "iec"@ {
                Standard::Iec
            } else {
                Standard::Jedec
            },
            None => Standard::Jedec,
        }
    }
}

/// An unrecognized output name falls back to the plain string shape.
pub open spec fn spec_output(c: Config) -> Output {
    match c.output {
        Some(s) => if s@ == "array"@ {
            Output::Array
        } else if s@ == "object"@ {
            Output::Object
        } else if s@ == "exponent"@ {
            Output::Exponent
        } else {
            Output::Text
        },
        None => Output::Text,
    }
}

/// Whether a supplied string equals a literal, decided without allocation
/// surprises: used to recognize option keywords.
fn str_is(s: &String, lit: &str) -> (r: bool)
    ensures
        r == (s@ == lit@),
{
    let o: String = lit.to_owned();
    *s == o
}

/// Build the resolved options from a sparse configuration. This stage never
/// fails; every field of the result is pinned by its resolution function.
pub fn resolve_options(cfg: Config) -> (o: ResolvedOptions)
    ensures
        o.base == spec_base(cfg),
        o.bits == spec_bits(cfg),
        o.exponent == cfg.exponent,
        o.fullform == spec_fullform(cfg),
        o.fullforms == cfg.fullforms,
        o.locale == cfg.locale,
        o.output == spec_output(cfg),
        o.round == spec_round(cfg),
        o.separator@ == spec_separator(cfg),
        o.spacer@ == spec_spacer(cfg),
        o.standard == spec_standard(cfg),
        o.symbols == cfg.symbols,
        o.unix == spec_unix(cfg),
{
    let Config {
        base: c_base,
        bits: c_bits,
        exponent: c_exponent,
        fullform: c_fullform,
        fullforms: c_fullforms,
        locale: c_locale,
        output: c_output,
        round: c_round,
        separator: c_separator,
        spacer: c_spacer,
        standard: c_standard,
        symbols: c_symbols,
        unix: c_unix,
    } = cfg;
    let unix = match c_unix {
        Some(b) => b,
        None => false,
    };
    let bits = match c_bits {
        Some(b) => b,
        None => false,
    };
    let fullform = match c_fullform {
        Some(b) => b,
        None => false,
    };
    let base = match c_base {
        Some(b) => if b == 0 {
            2
        } else {
            b
        },
        None => 2,
    };
    let round = match c_round {
        Some(r) => r,
        None => if unix {
            1
        } else {
            2
        },
    };
    let spacer = match c_spacer {
        Some(s) => s,
        None => if unix {
            "".to_owned()
        } else {
            " ".to_owned()
        },
    };
    let separator = match c_separator {
        Some(s) => s,
        None => "".to_owned(),
    };
    let standard = if base != 2 {
        Standard::Jedec
    } else {
        match c_standard {
            Some(s) => if str_is(&s, "iec") {
                Standard::Iec
            } else {
                Standard::Jedec
            },
            None => Standard::Jedec,
        }
    };
    let output = match c_output {
        Some(s) => if str_is(&s, "array") {
            Output::Array
        } else if str_is(&s, "object") {
            Output::Object
        } else if str_is(&s, "exponent") {
            Output::Exponent
        } else {
            Output::Text
        },
        None => Output::Text,
    };
    ResolvedOptions {
        base,
        bits,
        exponent: c_exponent,
        fullform,
        fullforms: c_fullforms,
        locale: c_locale,
        output,
        round,
        separator,
        spacer,
        standard,
        symbols: c_symbols,
        unix,
    }
}

} // verus!
