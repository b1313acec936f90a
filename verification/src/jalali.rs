//! Jalali (Shamsi) date parsing from numeric (`1402/03/15`, `۱۴۰۲-۰۳-۱۵`)
//! and textual (`۱۵ تیر ۱۴۰۲`) forms, validated as real calendar dates by
//! the `jalali-calendar` crate.

use vstd::prelude::*;
use crate::normalizer::digits::{latin_digit_char, latin_digit_of};
use crate::text::{
    chars_eq, chars_of, split_whitespace, split_ws, spec_trim, string_from_chars, trim_chars,
    views,
};

verus! {

/// The Persian month names, Farvardin first.
pub const PERSIAN_MONTHS: [&'static str; 12] = [
    "فروردین",
    "اردیبهشت",
    "خرداد",
    "تیر",
    "مرداد",
    "شهریور",
    "مهر",
    "آبان",
    "آذر",
    "دی",
    "بهمن",
    "اسفند",
];

/// A Jalali calendar date.
#[derive(Debug, Clone, Copy, PartialEq, Eq, Structural)]
pub struct JalaliDate {
    year: i32,
    month: u32,
    day: u32,
}

impl View for JalaliDate {
    type V = (i32, u32, u32);

    closed spec fn view(&self) -> (i32, u32, u32) {
        (self.year, self.month, self.day)
    }
}

impl JalaliDate {
    /// The year.
    pub fn year(&self) -> (y: i32)
        ensures
            y == self@.0,
    {
        self.year
    }

    /// The month, `1..=12` (1 = Farvardin).
    pub fn month(&self) -> (m: u32)
        ensures
            m == self@.1,
    {
        self.month
    }

    /// The day of the month.
    pub fn day(&self) -> (d: u32)
        ensures
            d == self@.2,
    {
        self.day
    }
}

// ── the calendar ─────────────────────────────────────────────────────────────

/// Rust's `/` on integers (truncating toward zero), for `b > 0`.
pub open spec fn trunc_div(a: int, b: int) -> int {
    if a >= 0 {
        a / b
    } else {
        -((-a) / b)
    }
}

/// Rust's `%` on integers, for `b > 0`.
pub open spec fn trunc_rem(a: int, b: int) -> int {
    a - b * trunc_div(a, b)
}

/// Leap days before year `y` of the cycle count `(y/33)*8 + ((y%33)+3)/4`.
pub open spec fn leap_count(y: int) -> int {
    trunc_div(y, 33) * 8 + trunc_div(trunc_rem(y, 33) + 3, 4)
}

/// `jalali_calendar::is_leap_year`.
pub open spec fn is_leap_year(jy: int) -> bool {
    let y = jy + 1595;
    leap_count(y + 1) - leap_count(y) == 1
}

/// `jalali_calendar::days_in_month`.
pub open spec fn days_in_month(jy: int, m: int) -> int {
    if 1 <= m <= 6 {
        31
    } else if 7 <= m <= 11 {
        30
    } else if m == 12 {
        if is_leap_year(jy) {
            30
        } else {
            29
        }
    } else {
        0
    }
}

/// What `JalaliDate::new` accepts.
pub open spec fn valid_jalali(y: i32, m: u32, d: u32) -> bool {
    1 <= m <= 12 && 1 <= d && d <= days_in_month(y as int, m as int)
}

/// The inputs on which `JalaliDate::new` overflows computing the leap year.
pub open spec fn new_overflows(y: i32, m: u32, d: u32) -> bool {
    m == 12 && d >= 1 && y > i32::MAX - 1596
}

/// `jalali_calendar::JalaliDate::new(y, m, d)`: accepted exactly when the
/// month is in `1..=12` and the day is between 1 and the month's length
/// (Esfand has 30 days in leap years), as the source shows; the date's
/// components are the arguments.  The leap-year test adds 1596 to the year,
/// so a year within 1596 of `i32::MAX` is excluded for Esfand.
#[verifier::external_body]
fn jalali_new(y: i32, m: u32, d: u32) -> (r: Option<(i32, u32, u32)>)
    requires
        !new_overflows(y, m, d),
    ensures
        r == (if valid_jalali(y, m, d) {
            Some((y, m, d))
        } else {
            None::<(i32, u32, u32)>
        }),
{
    jalali_calendar::JalaliDate::new(y, m, d).ok().map(|x| (x.year(), x.month(), x.day()))
}

// ── integers as `str::parse` reads them ──────────────────────────────────────

/// A non-empty run of ASCII digits, as a number.
pub open spec fn ascii_number(s: Seq<char>) -> Option<int>
    decreases s.len(),
{
    if s.len() == 0 {
        None
    } else if !('0' <= s.last() <= '9') {
        None
    } else if s.len() == 1 {
        Some((s.last() as u32) as int - 48)
    } else {
        match ascii_number(s.drop_last()) {
            Some(v) => Some(v * 10 + ((s.last() as u32) as int - 48)),
            None => None,
        }
    }
}

/// `str::parse::<u32>`: an optional `+`, then digits, in range.
pub open spec fn parse_u32(s: Seq<char>) -> Option<u32> {
    let body = if s.len() > 0 && s[0] == '+' {
        s.skip(1)
    } else {
        s
    };
    match ascii_number(body) {
        Some(v) => if v <= u32::MAX {
            Some(v as u32)
        } else {
            None
        },
        None => None,
    }
}

/// `str::parse::<i32>`: an optional sign, then digits, in range.
pub open spec fn parse_i32(s: Seq<char>) -> Option<i32> {
    if s.len() > 0 && s[0] == '-' {
        match ascii_number(s.skip(1)) {
            Some(v) => if -v >= i32::MIN {
                Some((-v) as i32)
            } else {
                None
            },
            None => None,
        }
    } else {
        let body = if s.len() > 0 && s[0] == '+' {
            s.skip(1)
        } else {
            s
        };
        match ascii_number(body) {
            Some(v) => if v <= i32::MAX {
                Some(v as i32)
            } else {
                None
            },
            None => None,
        }
    }
}

proof fn lemma_ascii_number_nonneg(s: Seq<char>)
    ensures
        ascii_number(s) matches Some(v) ==> v >= 0,
    decreases s.len(),
{
    if s.len() > 1 {
        lemma_ascii_number_nonneg(s.drop_last());
    }
}

proof fn lemma_ascii_number_prefix(s: Seq<char>, i: int)
    requires
        1 <= i <= s.len(),
        ascii_number(s) is Some,
    ensures
        ascii_number(s.take(i)) is Some,
        ascii_number(s.take(i))->0 <= ascii_number(s)->0,
    decreases s.len() - i,
{
    if i < s.len() {
        assert(s.drop_last().take(i) =~= s.take(i));
        if s.len() > 1 {
            lemma_ascii_number_prefix(s.drop_last(), i);
            lemma_ascii_number_nonneg(s.drop_last());
        }
    } else {
        assert(s.take(i) =~= s);
    }
}

/// Digits of `v[lo..]` as a number, if at most `bound`.
fn ascii_number_bounded(v: &Vec<char>, lo: usize, bound: u64) -> (r: Option<u64>)
    requires
        lo <= v.len(),
        bound <= 0x8000_0000_0000,
    ensures
        r matches Some(x) ==> ascii_number(v@.skip(lo as int)) == Some(x as int) && x <= bound,
        r is None ==> match ascii_number(v@.skip(lo as int)) {
            Some(x) => x > bound,
            None => true,
        },
{
    let ghost s = v@.skip(lo as int);
    if lo == v.len() {
        return None;
    }
    let mut acc: u64 = 0;
    let mut i = lo;
    while i < v.len()
        invariant
            lo <= i <= v.len(),
            lo < v.len(),
            bound <= 0x8000_0000_0000,
            s == v@.skip(lo as int),
            i == lo || ascii_number(s.take(i - lo)) == Some(acc as int),
            i == lo ==> acc == 0,
            acc <= bound,
        decreases v.len() - i,
    {
        let c = v[i];
        assert(s.take(i + 1 - lo).drop_last() =~= s.take(i - lo));
        assert(s.take(i + 1 - lo).last() == c);
        if !('0' <= c && c <= '9') {
            proof {
                lemma_ascii_number_none_ext(s, i + 1 - lo);
            }
            return None;
        }
        let next = acc * 10 + (c as u32 - 48) as u64;
        if next > bound {
            proof {
                if ascii_number(s) is Some {
                    lemma_ascii_number_prefix(s, i + 1 - lo);
                }
            }
            return None;
        }
        acc = next;
        i += 1;
    }
    assert(s.take(v.len() - lo) =~= s);
    Some(acc)
}

/// A failure on a prefix is a failure on the whole.
proof fn lemma_ascii_number_none_ext(s: Seq<char>, i: int)
    requires
        1 <= i <= s.len(),
        ascii_number(s.take(i)) is None,
    ensures
        ascii_number(s) is None,
    decreases s.len() - i,
{
    if i < s.len() {
        assert(s.take(i + 1).drop_last() =~= s.take(i));
        lemma_ascii_number_none_ext(s, i + 1);
    } else {
        assert(s.take(i) =~= s);
    }
}

fn parse_u32_exec(v: &Vec<char>) -> (r: Option<u32>)
    ensures
        r == parse_u32(v@),
{
    let lo: usize = if v.len() > 0 && v[0] == '+' {
        1
    } else {
        0
    };
    assert(lo == 0 ==> v@.skip(0) =~= v@);
    match ascii_number_bounded(v, lo, 4_294_967_295) {
        Some(x) => Some(x as u32),
        None => None,
    }
}

fn parse_i32_exec(v: &Vec<char>) -> (r: Option<i32>)
    ensures
        r == parse_i32(v@),
{
    if v.len() > 0 && v[0] == '-' {
        match ascii_number_bounded(v, 1, 2_147_483_648) {
            Some(x) => Some((0i64 - x as i64) as i32),
            None => None,
        }
    } else {
        let lo: usize = if v.len() > 0 && v[0] == '+' {
            1
        } else {
            0
        };
        assert(lo == 0 ==> v@.skip(0) =~= v@);
        match ascii_number_bounded(v, lo, 2_147_483_647) {
            Some(x) => Some(x as i32),
            None => None,
        }
    }
}

// ── JalaliDate::parse ────────────────────────────────────────────────────────

/// Pieces closed so far and the piece being read, splitting on `sep`.
pub open spec fn split_scan(s: Seq<char>, sep: char) -> (Seq<Seq<char>>, Seq<char>)
    decreases s.len(),
{
    if s.len() == 0 {
        (seq![], seq![])
    } else {
        let (done, cur) = split_scan(s.drop_last(), sep);
        if s.last() == sep {
            (done.push(cur), seq![])
        } else {
            (done, cur.push(s.last()))
        }
    }
}

/// `str::split(sep)`: the pieces between separators, empty ones included.
pub open spec fn split_char(s: Seq<char>, sep: char) -> Seq<Seq<char>> {
    split_scan(s, sep).0.push(split_scan(s, sep).1)
}

/// The three trimmed fields of `s` split on `sep`, read as numbers.
pub open spec fn parse_fields(s: Seq<char>, sep: char) -> Option<(i32, u32, u32)> {
    let parts = split_char(s.map_values(|c: char| latin_digit_of(c)), sep);
    if parts.len() != 3 {
        None
    } else {
        match (
            parse_i32(spec_trim(parts[0])),
            parse_u32(spec_trim(parts[1])),
            parse_u32(spec_trim(parts[2])),
        ) {
            (Some(y), Some(m), Some(d)) => Some((y, m, d)),
            _ => None,
        }
    }
}

/// What `JalaliDate::parse(s, sep)` returns.
pub open spec fn spec_jalali_parse(s: Seq<char>, sep: char) -> Option<(i32, u32, u32)> {
    match parse_fields(s, sep) {
        Some((y, m, d)) => if valid_jalali(y, m, d) {
            Some((y, m, d))
        } else {
            None
        },
        None => None,
    }
}

/// The inputs on which `JalaliDate::parse` overflows.
pub open spec fn parse_overflows(s: Seq<char>, sep: char) -> bool {
    match parse_fields(s, sep) {
        Some((y, m, d)) => new_overflows(y, m, d),
        None => false,
    }
}

/// `jalali_calendar::JalaliDate::parse(s, sep)`: Persian and Arabic-Indic
/// digits read as Latin, the text split on `sep` into exactly three
/// fields, each trimmed and read with `str::parse` (year `i32`, month and
/// day `u32`), then checked by `JalaliDate::new` — as the source shows.
#[verifier::external_body]
fn jalali_parse(s: &str, sep: char) -> (r: Option<(i32, u32, u32)>)
    requires
        !parse_overflows(s@, sep),
    ensures
        r == spec_jalali_parse(s@, sep),
{
    jalali_calendar::JalaliDate::parse(s, sep).ok().map(|x| (x.year(), x.month(), x.day()))
}

// ── the two forms ────────────────────────────────────────────────────────────

/// Index of the month named `w`, from `i` on.
pub open spec fn month_index(w: Seq<char>, i: int) -> Option<int>
    decreases 12 - i,
{
    if i < 0 || i >= 12 {
        None
    } else if PERSIAN_MONTHS[i]@ == w {
        Some(i)
    } else {
        month_index(w, i + 1)
    }
}

/// The fields of a textual date: day, month name, year.
pub open spec fn textual_fields(text: Seq<char>) -> Option<(i32, u32, u32)> {
    let parts = split_ws(text);
    if parts.len() != 3 {
        None
    } else {
        match (
            parse_u32(parts[0].map_values(|c: char| latin_digit_of(c))),
            parse_i32(parts[2].map_values(|c: char| latin_digit_of(c))),
            month_index(parts[1], 0),
        ) {
            (Some(d), Some(y), Some(mi)) => Some((y, (mi + 1) as u32, d)),
            _ => None,
        }
    }
}

/// A textual date.
pub open spec fn spec_parse_textual(text: Seq<char>) -> Option<(i32, u32, u32)> {
    match textual_fields(text) {
        Some((y, m, d)) => if valid_jalali(y, m, d) {
            Some((y, m, d))
        } else {
            None
        },
        None => None,
    }
}

/// The numeric form: the text with digits in Latin, trimmed.
pub open spec fn numeric_input(text: Seq<char>) -> Seq<char> {
    spec_trim(text.map_values(|c: char| latin_digit_of(c)))
}

/// A date in either form.
pub open spec fn spec_parse(text: Seq<char>) -> Option<(i32, u32, u32)> {
    match spec_parse_textual(text) {
        Some(d) => Some(d),
        None => match spec_jalali_parse(numeric_input(text), '/') {
            Some(d) => Some(d),
            None => spec_jalali_parse(numeric_input(text), '-'),
        },
    }
}

/// The inputs on which parsing overflows inside the calendar crate: a year
/// within 1596 of `i32::MAX` with an Esfand day, in whichever form is tried.
pub open spec fn parse_panics(text: Seq<char>) -> bool {
    let n = numeric_input(text);
    ||| (textual_fields(text) matches Some((y, m, d)) && new_overflows(y, m, d))
    ||| (spec_parse_textual(text) is None && (parse_overflows(n, '/') || (spec_jalali_parse(n, '/') is None
        && parse_overflows(n, '-'))))
}

fn latin_digits(v: &Vec<char>) -> (r: Vec<char>)
    ensures
        r@ == v@.map_values(|c: char| latin_digit_of(c)),
{
    let mut r: Vec<char> = Vec::new();
    let mut i: usize = 0;
    while i < v.len()
        invariant
            0 <= i <= v.len(),
            r@ == v@.take(i as int).map_values(|c: char| latin_digit_of(c)),
        decreases v.len() - i,
    {
        r.push(latin_digit_char(v[i]));
        assert(v@.take(i + 1).map_values(|c: char| latin_digit_of(c)) =~= v@.take(
            i as int,
        ).map_values(|c: char| latin_digit_of(c)).push(latin_digit_of(v@[i as int])));
        i += 1;
    }
    assert(v@.take(v.len() as int) =~= v@);
    r
}

/// The month number (1 = Farvardin) of a month name.
fn month_number(name: &Vec<char>) -> (r: Option<u32>)
    ensures
        r == (match month_index(name@, 0) {
            Some(i) => Some((i + 1) as u32),
            None => None::<u32>,
        }),
{
    let mut i: usize = 0;
    while i < 12
        invariant
            0 <= i <= 12,
            month_index(name@, 0) == month_index(name@, i as int),
        decreases 12 - i,
    {
        if chars_eq(&chars_of(PERSIAN_MONTHS[i]), name) {
            return Some((i + 1) as u32);
        }
        i += 1;
    }
    None
}

fn textual(text: &str) -> (r: Option<(i32, u32, u32)>)
    ensures
        r == textual_fields(text@),
{
    let parts = split_whitespace(&chars_of(text));
    if parts.len() != 3 {
        return None;
    }
    assert(parts@[0]@ == views(parts@)[0] && parts@[1]@ == views(parts@)[1] && parts@[2]@ == views(
        parts@,
    )[2]);
    let day = match parse_u32_exec(&latin_digits(&chars_of(parts[0].as_str()))) {
        Some(d) => d,
        None => return None,
    };
    let year = match parse_i32_exec(&latin_digits(&chars_of(parts[2].as_str()))) {
        Some(y) => y,
        None => return None,
    };
    match month_number(&chars_of(parts[1].as_str())) {
        Some(m) => Some((year, m, day)),
        None => None,
    }
}

/// Parse a Jalali date from a textual form (`۱۵ تیر ۱۴۰۲`) or, failing
/// that, a numeric one (`1402/03/15`, `۱۴۰۲-۰۳-۱۵`).  `None` when the parts
/// cannot be read or do not name a real date (e.g. 30 Esfand of a
/// non-leap year).
pub fn parse(text: &str) -> (r: Option<JalaliDate>)
    requires
        !parse_panics(text@),
    ensures
        r matches Some(d) ==> spec_parse(text@) == Some(d@),
        r is None ==> spec_parse(text@) is None,
{
    match textual(text) {
        Some((y, m, d)) => {
            match jalali_new(y, m, d) {
                Some((y, m, d)) => return Some(JalaliDate { year: y, month: m, day: d }),
                None => {},
            }
        },
        None => {},
    }
    let s = string_from_chars(&trim_chars(&latin_digits(&chars_of(text))));
    match jalali_parse(s.as_str(), '/') {
        Some((y, m, d)) => return Some(JalaliDate { year: y, month: m, day: d }),
        None => {},
    }
    match jalali_parse(s.as_str(), '-') {
        Some((y, m, d)) => Some(JalaliDate { year: y, month: m, day: d }),
        None => None,
    }
}

} // verus!
