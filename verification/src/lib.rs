//! Human-readable file-size formatting.
//!
//! Converts a byte count into a human-readable size string (or a structured
//! value), following configurable unit standards (IEC / JEDEC, binary or
//! decimal tiers, bit or byte units), precision, separators, locale-style
//! digit grouping, symbol overrides, full-form unit names and a compact
//! POSIX-like rendering. All numeric work is exact integer arithmetic.

pub mod arith;
pub mod decimal;
pub mod format;
pub mod options;
pub mod parse;
pub mod suffix;
pub mod text;
pub mod tier;

pub use format::filesize;
pub use format::FormatResult;
pub use options::Config;
pub use parse::filesize_str;
