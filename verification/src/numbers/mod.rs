//! Persian number ↔ word conversion and formatting.
//!
//! - [`to_words`]   — `1234`         → `"یک هزار و دویست و سی و چهار"`
//! - [`from_words`] — `"دو میلیون"`   → `Some(2_000_000)`
//! - [`format()`]   — `1_234_567`    → `"۱،۲۳۴،۵۶۷"`
//! - [`ordinal`]    — `5`            → `"پنجم"`

pub mod from_words;
pub mod round_trip;
pub mod word_shape;
pub mod to_words;

pub use from_words::from_words;
pub use to_words::{ordinal, to_words};

use vstd::prelude::*;
use crate::decimal::{decimal_string, spec_decimal};
use crate::normalizer::digits::{persian_digit_char, persian_digit_of};
use crate::text::{chars_of, push_char};
use crate::numbers::to_words::{abs_i64, unsigned_abs};

verus! {

/// The Persian thousands separator (ARABIC COMMA).
pub const THOUSANDS_SEPARATOR: char = '،';

/// The first `k` digits of `raw` in Persian, with a separator before each
/// digit that starts a group of three counted from the right.
pub open spec fn grouped(raw: Seq<char>, k: int) -> Seq<char>
    decreases k,
{
    if k <= 0 {
        seq![]
    } else {
        let prev = grouped(raw, k - 1);
        let i = k - 1;
        let with_sep = if i > 0 && (raw.len() - i) % 3 == 0 {
            prev.push(THOUSANDS_SEPARATOR)
        } else {
            prev
        };
        with_sep.push(persian_digit_of(raw[i]))
    }
}

/// `n` with Persian digits and thousands separators.
pub open spec fn spec_format(n: i64) -> Seq<char> {
    let raw = spec_decimal(abs_i64(n));
    let body = grouped(raw, raw.len() as int);
    if n < 0 {
        seq!['-'] + body
    } else {
        body
    }
}

/// Format an integer with Persian thousand separators (`،`) and Persian
/// digits.
pub fn format(n: i64) -> (s: String)
    ensures
        s@ == spec_format(n),
{
    let raw = chars_of(decimal_string(unsigned_abs(n)).as_str());
    let len = raw.len();
    let mut out = String::new();
    let ghost start = out@;
    if n < 0 {
        push_char(&mut out, '-');
    }
    let ghost lead = out@;
    let mut i: usize = 0;
    while i < len
        invariant
            0 <= i <= len,
            len == raw.len(),
            out@ == lead + grouped(raw@, i as int),
        decreases len - i,
    {
        if i > 0 && (len - i) % 3 == 0 {
            push_char(&mut out, THOUSANDS_SEPARATOR);
        }
        push_char(&mut out, persian_digit_char(raw[i]));
        assert(lead + grouped(raw@, i + 1) =~= out@);
        i += 1;
    }
    assert(out@ =~= spec_format(n));
    out
}

} // verus!
