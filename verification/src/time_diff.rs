//! Persian relative-time descriptions ("۲ روز پیش", "۳ ساعت دیگر").
//!
//! [`describe`] takes a signed offset in seconds (positive = future,
//! negative = past); [`describe_between`] reports `to - from`.  The largest
//! unit that fits wins: minute (60 s), hour, day, week (7 d), month (30 d),
//! year (365 d).

use vstd::prelude::*;
use crate::decimal::{decimal_string, spec_decimal};
use crate::normalizer::digits::{persian_digit_of, to_persian};
use crate::numbers::to_words::{abs_i64, unsigned_abs};
use crate::text::push_char;

verus! {

pub const MINUTE: u64 = 60;
pub const HOUR: u64 = 3600;
pub const DAY: u64 = 86400;
pub const WEEK: u64 = 604800;
pub const MONTH: u64 = 2592000;
pub const YEAR: u64 = 31536000;

pub const JUST_NOW: &'static str = "همین الان";
pub const AGO: &'static str = "پیش";
pub const LATER: &'static str = "دیگر";

/// The count and the unit word for a magnitude of at least one minute.
pub open spec fn spec_pick_unit(a: nat) -> (nat, Seq<char>) {
    if a >= YEAR {
        (a / YEAR as nat, "سال"@)
    } else if a >= MONTH {
        (a / MONTH as nat, "ماه"@)
    } else if a >= WEEK {
        (a / WEEK as nat, "هفته"@)
    } else if a >= DAY {
        (a / DAY as nat, "روز"@)
    } else if a >= HOUR {
        (a / HOUR as nat, "ساعت"@)
    } else {
        (a / MINUTE as nat, "دقیقه"@)
    }
}

/// `n` in decimal with Persian digits.
pub open spec fn spec_persian_number(n: nat) -> Seq<char> {
    spec_decimal(n).map_values(|c: char| persian_digit_of(c))
}

/// The phrase for an offset of `seconds`.
pub open spec fn spec_describe(seconds: i64) -> Seq<char> {
    let a = abs_i64(seconds);
    if a < MINUTE {
        JUST_NOW@
    } else {
        let (n, unit) = spec_pick_unit(a);
        let suffix = if seconds < 0 {
            AGO@
        } else {
            LATER@
        };
        spec_persian_number(n) + seq![' '] + unit + seq![' '] + suffix
    }
}

/// `to - from`, clamped to the `i64` range.
pub open spec fn saturating_diff(from: i64, to: i64) -> i64 {
    let d = to - from;
    if d > i64::MAX {
        i64::MAX
    } else if d < i64::MIN {
        i64::MIN
    } else {
        d as i64
    }
}

fn pick_unit(a: u64) -> (r: (u64, &'static str))
    requires
        a >= MINUTE,
    ensures
        r.0 == spec_pick_unit(a as nat).0,
        r.1@ == spec_pick_unit(a as nat).1,
{
    if a >= YEAR {
        (a / YEAR, "سال")
    } else if a >= MONTH {
        (a / MONTH, "ماه")
    } else if a >= WEEK {
        (a / WEEK, "هفته")
    } else if a >= DAY {
        (a / DAY, "روز")
    } else if a >= HOUR {
        (a / HOUR, "ساعت")
    } else {
        (a / MINUTE, "دقیقه")
    }
}

/// `n` written with Persian digits.
pub fn to_persian_digits(n: u64) -> (s: String)
    ensures
        s@ == spec_persian_number(n as nat),
{
    let latin = decimal_string(n);
    to_persian(latin.as_str())
}

/// Describe a signed `seconds` offset as a Persian relative-time phrase:
/// `دیگر` for the future, `پیش` for the past, `همین الان` under a minute.
pub fn describe(seconds: i64) -> (s: String)
    ensures
        s@ == spec_describe(seconds),
{
    let a = unsigned_abs(seconds);
    if a < MINUTE {
        return JUST_NOW.to_owned();
    }
    let (n, unit) = pick_unit(a);
    let suffix = if seconds < 0 {
        AGO
    } else {
        LATER
    };
    let mut out = to_persian_digits(n);
    push_char(&mut out, ' ');
    out.append(unit);
    push_char(&mut out, ' ');
    out.append(suffix);
    out
}

/// Describe `to - from`, both in epoch seconds; the difference saturates at
/// the `i64` range.
pub fn describe_between(from: i64, to: i64) -> (s: String)
    ensures
        s@ == spec_describe(saturating_diff(from, to)),
{
    let d = if from >= 0 {
        if to < i64::MIN + from {
            i64::MIN
        } else {
            to - from
        }
    } else {
        if to > i64::MAX + from {
            i64::MAX
        } else {
            to - from
        }
    };
    describe(d)
}

} // verus!
