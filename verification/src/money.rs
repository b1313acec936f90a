//! Structured parsing of Persian money expressions.
//!
//! Recognises numeric (`۲ میلیون تومان`, `1500000 ریال`) and written
//! (`دو میلیون و پانصد هزار تومان`) amounts and returns a [`MoneyAmount`]
//! with its unit (`Toman` or `Rial`).  1 Toman = 10 Rials.

use vstd::prelude::*;
use crate::numbers::{format as format_persian, spec_format};
use crate::numbers::from_words::{from_words, spec_from_words};
use crate::text::{
    chars_eq, chars_of, contains_char, matches_at, join_sep, join_strings, push_char, split_whitespace,
    split_ws, spec_trim, string_from_chars, subvec, trim_chars, views,
};
use crate::validators::{all_digits, ascii_digits, dec_value, digit_seq, digit_values};
use crate::normalizer::digits::LATIN_DIGITS;
use vstd::arithmetic::power::pow;

verus! {

/// Iranian currency units.
#[derive(Debug, Clone, Copy, PartialEq, Eq, Structural)]
pub enum MoneyUnit {
    /// تومان — 10 Rials.
    Toman,
    /// ریال — base currency unit.
    Rial,
}

impl MoneyUnit {
    /// The unit's English name.
    pub open spec fn spec_name(self) -> Seq<char> {
        match self {
            MoneyUnit::Toman => "Toman"@,
            MoneyUnit::Rial => "Rial"@,
        }
    }

    /// The unit's English name, `"Toman"` or `"Rial"`.
    pub fn to_string(&self) -> (s: String)
        ensures
            s@ == self.spec_name(),
    {
        match self {
            MoneyUnit::Toman => "Toman".to_owned(),
            MoneyUnit::Rial => "Rial".to_owned(),
        }
    }
}

/// A parsed monetary value.
#[derive(Debug, Clone, PartialEq, Eq)]
pub struct MoneyAmount {
    /// The amount in the original unit (`unit`).
    pub value: i64,
    /// The currency unit named in the input.
    pub unit: MoneyUnit,
    /// The original (trimmed) text this was parsed from.
    pub raw: String,
}

/// `v` clamped to the `i64` range.
pub open spec fn saturate(v: int) -> i64 {
    if v > i64::MAX {
        i64::MAX
    } else if v < i64::MIN {
        i64::MIN
    } else {
        v as i64
    }
}

/// Integer division truncated toward zero, as Rust's `/` does.
pub open spec fn div_trunc(v: int, d: int) -> int {
    if v >= 0 {
        v / d
    } else {
        -((-v) / d)
    }
}

impl MoneyAmount {
    /// The value in Rials.
    pub open spec fn spec_rials(&self) -> i64 {
        match self.unit {
            MoneyUnit::Toman => saturate(self.value * 10),
            MoneyUnit::Rial => self.value,
        }
    }

    /// The value in Tomans.
    pub open spec fn spec_tomans(&self) -> i64 {
        match self.unit {
            MoneyUnit::Toman => self.value,
            MoneyUnit::Rial => div_trunc(self.value as int, 10) as i64,
        }
    }

    /// Value expressed in Rials (times 10 for Toman, saturating).
    pub fn as_rials(&self) -> (r: i64)
        ensures
            r == self.spec_rials(),
    {
        match self.unit {
            MoneyUnit::Toman => {
                if self.value > i64::MAX / 10 {
                    i64::MAX
                } else if self.value < i64::MIN / 10 {
                    i64::MIN
                } else {
                    self.value * 10
                }
            },
            MoneyUnit::Rial => self.value,
        }
    }

    /// Value expressed in Tomans (Rials divided by 10, truncated toward zero).
    pub fn as_tomans(&self) -> (r: i64)
        ensures
            r == self.spec_tomans(),
    {
        match self.unit {
            MoneyUnit::Toman => self.value,
            MoneyUnit::Rial => {
                if self.value >= 0 {
                    self.value / 10
                } else {
                    let m = (0i128 - self.value as i128) / 10;
                    (0i128 - m) as i64
                }
            },
        }
    }

    /// The amount with Persian digits and separators, then the unit's name.
    pub fn to_string(&self) -> (s: String)
        ensures
            s@ == spec_format(self.value) + seq![' '] + self.unit.spec_name(),
    {
        let mut s = format_persian(self.value);
        push_char(&mut s, ' ');
        let u = self.unit.to_string();
        s.append(u.as_str());
        s
    }
}

/// The Persian word for a unit.
pub open spec fn unit_word(unit: MoneyUnit) -> Seq<char> {
    match unit {
        MoneyUnit::Toman => "تومان"@,
        MoneyUnit::Rial => "ریال"@,
    }
}

/// Format an integer amount with Persian separators and the unit's word.
pub fn format(value: i64, unit: MoneyUnit) -> (s: String)
    ensures
        s@ == spec_format(value) + seq![' '] + unit_word(unit),
{
    let mut s = format_persian(value);
    push_char(&mut s, ' ');
    match unit {
        MoneyUnit::Toman => s.append("تومان"),
        MoneyUnit::Rial => s.append("ریال"),
    }
    s
}

/// One Toman is ten Rials: converting a Toman amount to Rials and reading
/// that back in Tomans gives the original value (when the Rial value fits).
pub proof fn law_toman_rial_round_trip(m: MoneyAmount)
    requires
        m.unit == MoneyUnit::Toman,
        -922_337_203_685_477_580 <= m.value <= 922_337_203_685_477_580,
    ensures
        (MoneyAmount { value: m.spec_rials(), unit: MoneyUnit::Rial, raw: m.raw }).spec_tomans()
            == m.value,
{
    let v = m.value as int;
    assert(m.spec_rials() == v * 10);
    if v >= 0 {
        assert((v * 10) / 10 == v);
    } else {
        assert((-(v * 10)) / 10 == -v);
    }
}

// ── parsing ──────────────────────────────────────────────────────────────────

/// The unit suffixes, searched in this order.
pub const UNIT_SUFFIXES: [&'static str; 3] = ["تومان", "تومن", "ریال"];

/// The unit each suffix names.
pub open spec fn suffix_unit(i: int) -> MoneyUnit {
    if i == 2 {
        MoneyUnit::Rial
    } else {
        MoneyUnit::Toman
    }
}

/// Start of the last occurrence of `p` in `s` at or before `i`.
pub open spec fn last_match(s: Seq<char>, p: Seq<char>, i: int) -> Option<int>
    decreases i + 1,
{
    if i < 0 {
        None
    } else if i + p.len() <= s.len() && s.subrange(i, i + p.len()) == p {
        Some(i)
    } else {
        last_match(s, p, i - 1)
    }
}

/// `str::rfind`: start of the last occurrence of `p` in `s`.
pub open spec fn spec_rfind(s: Seq<char>, p: Seq<char>) -> Option<int> {
    last_match(s, p, s.len() - p.len())
}

/// The text before the last occurrence of the first unit suffix that
/// occurs, and that suffix's unit.
pub open spec fn spec_strip_unit(s: Seq<char>) -> Option<(Seq<char>, MoneyUnit)> {
    match spec_rfind(s, UNIT_SUFFIXES[0]@) {
        Some(i) => Some((s.take(i), suffix_unit(0))),
        None => match spec_rfind(s, UNIT_SUFFIXES[1]@) {
            Some(i) => Some((s.take(i), suffix_unit(1))),
            None => match spec_rfind(s, UNIT_SUFFIXES[2]@) {
                Some(i) => Some((s.take(i), suffix_unit(2))),
                None => None,
            },
        },
    }
}

/// `a * b` when it fits an `i64`.
pub open spec fn checked_mul(a: int, b: int) -> Option<int> {
    if i64::MIN <= a * b <= i64::MAX {
        Some(a * b)
    } else {
        None
    }
}

/// `str::parse::<i64>` of a non-empty run of Latin digits.
pub open spec fn parse_digits(d: Seq<u8>) -> Option<int> {
    if dec_value(d) <= i64::MAX {
        Some(dec_value(d))
    } else {
        None
    }
}

/// A decimal separator: ASCII period or ARABIC DECIMAL SEPARATOR.
pub open spec fn is_decimal_sep(c: char) -> bool {
    c == '.' || c == '٫'
}

/// Index of the first decimal separator in `s` at or after `i`.
pub open spec fn first_decimal_sep(s: Seq<char>, i: int) -> Option<int>
    decreases s.len() - i,
{
    if i < 0 || i >= s.len() {
        None
    } else if is_decimal_sep(s[i]) {
        Some(i)
    } else {
        first_decimal_sep(s, i + 1)
    }
}

/// A fractional amount such as `۱.۵` times `mult`, truncated.
pub open spec fn spec_parse_fractional(s: Seq<char>, mult: int) -> Option<int> {
    match first_decimal_sep(s, 0) {
        None => None,
        Some(sep) => {
            let int_d = digit_seq(s.take(sep));
            let frac_d = digit_seq(s.skip(sep + 1));
            if int_d.len() == 0 && frac_d.len() == 0 {
                None
            } else {
                let int_part = if int_d.len() == 0 {
                    Some(0int)
                } else {
                    parse_digits(int_d)
                };
                let flen = (frac_d.len() as u32) as nat;
                let frac_part = if frac_d.len() == 0 {
                    Some(0int)
                } else {
                    parse_digits(frac_d)
                };
                match (int_part, frac_part) {
                    (Some(ip), Some(fp)) => if flen > 18 {
                        None
                    } else {
                        match (checked_mul(ip, mult), checked_mul(fp, mult)) {
                            (Some(a), Some(b)) => {
                                let v = a + b / pow10_int(flen);
                                if v <= i64::MAX {
                                    Some(v)
                                } else {
                                    None
                                }
                            },
                            _ => None,
                        }
                    },
                    _ => None,
                }
            }
        },
    }
}

pub open spec fn pow10_int(n: nat) -> int
    decreases n,
{
    if n == 0 {
        1
    } else {
        10 * pow10_int((n - 1) as nat)
    }
}

/// The digits of `s` as an integer times `mult`, or a fractional form.
pub open spec fn spec_parse_digit_value(s: Seq<char>, mult: int) -> Option<int> {
    let cleaned = digit_seq(s);
    if cleaned.len() == 0 {
        spec_parse_fractional(s, mult)
    } else if !s.contains('.') && !s.contains('٫') {
        match parse_digits(cleaned) {
            Some(v) => checked_mul(v, mult),
            None => None,
        }
    } else {
        spec_parse_fractional(s, mult)
    }
}

/// Multiplier of a trailing scale word.
pub open spec fn multiplier_of(w: Seq<char>) -> Option<int> {
    if w == "هزار"@ {
        Some(1_000)
    } else if w == "میلیون"@ {
        Some(1_000_000)
    } else if w == "میلیارد"@ {
        Some(1_000_000_000)
    } else {
        None
    }
}

/// The amount spelled by `body` (without its unit).
pub open spec fn spec_parse_value(body0: Seq<char>) -> Option<i64> {
    let body = spec_trim(body0);
    if body.len() == 0 {
        None
    } else {
        let words = split_ws(body);
        let (num_part, mult) = if words.len() > 0 && multiplier_of(words.last()) is Some {
            (join_sep(words.drop_last(), seq![' ']), multiplier_of(words.last())->0)
        } else {
            (body, 1int)
        };
        let ns = spec_trim(num_part);
        if ns.len() == 0 {
            Some(mult as i64)
        } else {
            match spec_parse_digit_value(ns, mult) {
                Some(n) => Some(n as i64),
                None => match spec_from_words(body) {
                    Some(n) => Some(n),
                    None => match spec_from_words(ns) {
                        Some(n) => match checked_mul(n as int, mult) {
                            Some(v) => Some(v as i64),
                            None => None,
                        },
                        None => None,
                    },
                },
            }
        }
    }
}

/// The value and unit of a money expression.
pub open spec fn spec_parse(text: Seq<char>) -> Option<(i64, MoneyUnit)> {
    match spec_strip_unit(spec_trim(text)) {
        Some((before, unit)) => match spec_parse_value(spec_trim(before)) {
            Some(v) => Some((v, unit)),
            None => None,
        },
        None => None,
    }
}

fn rfind(s: &Vec<char>, p: &Vec<char>) -> (r: Option<usize>)
    ensures
        r matches Some(i) ==> spec_rfind(s@, p@) == Some(i as int) && i <= s.len(),
        r is None ==> spec_rfind(s@, p@) is None,
{
    if p.len() > s.len() {
        assert(s.len() - p.len() < 0);
        return None;
    }
    let mut i = s.len() - p.len();
    loop
        invariant
            p.len() <= s.len(),
            i <= s.len() - p.len(),
            spec_rfind(s@, p@) == last_match(s@, p@, i as int),
        decreases i,
    {
        if matches_at(s, i, p) {
            return Some(i);
        }
        if i == 0 {
            return None;
        }
        i -= 1;
    }
}

fn strip_unit(s: &Vec<char>) -> (r: Option<(Vec<char>, MoneyUnit)>)
    ensures
        r matches Some(x) ==> spec_strip_unit(s@) == Some((x.0@, x.1)),
        r is None ==> spec_strip_unit(s@) is None,
{
    let p0 = chars_of(UNIT_SUFFIXES[0]);
    if let Some(i) = rfind(s, &p0) {
        let before = subvec(s, 0, i);
        assert(before@ =~= s@.take(i as int));
        return Some((before, MoneyUnit::Toman));
    }
    let p1 = chars_of(UNIT_SUFFIXES[1]);
    if let Some(i) = rfind(s, &p1) {
        let before = subvec(s, 0, i);
        assert(before@ =~= s@.take(i as int));
        return Some((before, MoneyUnit::Toman));
    }
    let p2 = chars_of(UNIT_SUFFIXES[2]);
    if let Some(i) = rfind(s, &p2) {
        let before = subvec(s, 0, i);
        assert(before@ =~= s@.take(i as int));
        return Some((before, MoneyUnit::Rial));
    }
    None
}

/// `dec_value` of a prefix never exceeds that of the whole.
proof fn lemma_dec_value_prefix(d: Seq<u8>, i: int)
    requires
        0 <= i <= d.len(),
        all_digits(d),
    ensures
        dec_value(d.take(i)) <= dec_value(d),
    decreases d.len() - i,
{
    if i < d.len() {
        lemma_dec_value_prefix(d, i + 1);
        assert(d.take(i + 1).drop_last() =~= d.take(i));
        lemma_dec_value_nonneg(d.take(i));
    } else {
        assert(d.take(i) =~= d);
    }
}

proof fn lemma_dec_value_nonneg(d: Seq<u8>)
    ensures
        dec_value(d) >= 0,
    decreases d.len(),
{
    if d.len() > 0 {
        lemma_dec_value_nonneg(d.drop_last());
    }
}

/// `str::parse::<i64>` of digit values.
fn parse_i64(d: &Vec<u8>) -> (r: Option<i64>)
    requires
        all_digits(d@),
    ensures
        r matches Some(v) ==> parse_digits(d@) == Some(v as int),
        r is None ==> parse_digits(d@) is None,
{
    let mut v: i64 = 0;
    let mut i: usize = 0;
    while i < d.len()
        invariant
            0 <= i <= d.len(),
            all_digits(d@),
            v == dec_value(d@.take(i as int)),
        decreases d.len() - i,
    {
        assert(d@.take(i + 1).drop_last() =~= d@.take(i as int));
        let x = d[i] as i64;
        proof {
            lemma_dec_value_nonneg(d@.take(i as int));
        }
        if v > (i64::MAX - x) / 10 {
            proof {
                lemma_dec_value_prefix(d@, i + 1);
                assert(v * 10 + x > i64::MAX) by (nonlinear_arith)
                    requires
                        v > (i64::MAX - x) / 10,
                        0 <= x <= 9,
                ;
            }
            return None;
        }
        assert(v * 10 + x <= i64::MAX) by (nonlinear_arith)
            requires
                v <= (i64::MAX - x) / 10,
                0 <= x <= 9,
        ;
        assert(v * 10 <= i64::MAX);
        v = v * 10 + x;
        i += 1;
    }
    assert(d@.take(d.len() as int) =~= d@);
    Some(v)
}

/// `10^n` for `n <= 18`.
fn pow10_i64(n: u32) -> (r: i64)
    requires
        n <= 18,
    ensures
        r == pow10_int(n as nat),
{
    let mut r: i64 = 1;
    let mut k: u32 = 0;
    while k < n
        invariant
            0 <= k <= n <= 18,
            r == pow10_int(k as nat),
        decreases n - k,
    {
        proof {
            lemma_pow10_int_mono((k + 1) as nat, 18);
            reveal_with_fuel(pow10_int, 19);
        }
        r = r * 10;
        k += 1;
    }
    r
}

proof fn lemma_pow10_int_mono(a: nat, b: nat)
    requires
        a <= b,
    ensures
        pow10_int(a) <= pow10_int(b),
    decreases b,
{
    if a < b {
        lemma_pow10_int_mono(a, (b - 1) as nat);
        lemma_pow10_int_pos((b - 1) as nat);
    }
}

proof fn lemma_pow10_int_pos(n: nat)
    ensures
        pow10_int(n) >= 1,
    decreases n,
{
    if n > 0 {
        lemma_pow10_int_pos((n - 1) as nat);
    }
}

fn checked_mul_i64(a: i64, b: i64) -> (r: Option<i64>)
    ensures
        r matches Some(v) ==> checked_mul(a as int, b as int) == Some(v as int),
        r is None ==> checked_mul(a as int, b as int) is None,
{
    assert(-0x8000_0000_0000_0000_0000_0000_0000_0000 < a * b < 0x8000_0000_0000_0000_0000_0000_0000_0000)
        by (nonlinear_arith)
        requires
            i64::MIN <= a <= i64::MAX,
            i64::MIN <= b <= i64::MAX,
    ;
    let p = a as i128 * b as i128;
    if p > i64::MAX as i128 || p < i64::MIN as i128 {
        None
    } else {
        Some(p as i64)
    }
}

fn find_decimal_sep(s: &Vec<char>) -> (r: Option<usize>)
    ensures
        r matches Some(i) ==> first_decimal_sep(s@, 0) == Some(i as int) && i < s.len(),
        r is None ==> first_decimal_sep(s@, 0) is None,
{
    let mut i: usize = 0;
    while i < s.len()
        invariant
            0 <= i <= s.len(),
            first_decimal_sep(s@, 0) == first_decimal_sep(s@, i as int),
        decreases s.len() - i,
    {
        if s[i] == '.' || s[i] == '٫' {
            return Some(i);
        }
        i += 1;
    }
    None
}

fn digits_of_chars(v: &Vec<char>) -> (d: Vec<u8>)
    ensures
        d@ == digit_seq(v@),
        all_digits(d@),
{
    let s = string_from_chars(v);
    digit_values(s.as_str())
}

fn parse_fractional(s: &Vec<char>, mult: i64) -> (r: Option<i64>)
    requires
        mult >= 1,
    ensures
        r matches Some(v) ==> spec_parse_fractional(s@, mult as int) == Some(v as int),
        r is None ==> spec_parse_fractional(s@, mult as int) is None,
{
    let sep = match find_decimal_sep(s) {
        Some(i) => i,
        None => return None,
    };
    let head = subvec(s, 0, sep);
    let tail = subvec(s, sep + 1, s.len());
    assert(head@ =~= s@.take(sep as int));
    assert(tail@ =~= s@.skip(sep + 1));
    let int_d = digits_of_chars(&head);
    let frac_d = digits_of_chars(&tail);
    if int_d.len() == 0 && frac_d.len() == 0 {
        return None;
    }
    let int_part = if int_d.len() == 0 {
        0
    } else {
        match parse_i64(&int_d) {
            Some(v) => v,
            None => return None,
        }
    };
    let flen = frac_d.len() as u32;
    let frac_part = if frac_d.len() == 0 {
        0
    } else {
        match parse_i64(&frac_d) {
            Some(v) => v,
            None => return None,
        }
    };
    if flen > 18 {
        return None;
    }
    let denom = pow10_i64(flen);
    let a = match checked_mul_i64(int_part, mult) {
        Some(a) => a,
        None => return None,
    };
    let b = match checked_mul_i64(frac_part, mult) {
        Some(b) => b,
        None => return None,
    };
    proof {
        lemma_pow10_int_pos(flen as nat);
        lemma_dec_value_nonneg(frac_d@);
    }
    assert(frac_part >= 0);
    let q = if b >= 0 {
        b / denom
    } else {
        return None;
    };
    if a > i64::MAX - q {
        return None;
    }
    Some(a + q)
}

fn parse_digit_value(s: &Vec<char>, mult: i64) -> (r: Option<i64>)
    requires
        mult >= 1,
    ensures
        r matches Some(v) ==> spec_parse_digit_value(s@, mult as int) == Some(v as int),
        r is None ==> spec_parse_digit_value(s@, mult as int) is None,
{
    let cleaned = digits_of_chars(s);
    if cleaned.len() == 0 {
        return parse_fractional(s, mult);
    }
    if !contains_char(s, '.') && !contains_char(s, '٫') {
        return match parse_i64(&cleaned) {
            Some(v) => checked_mul_i64(v, mult),
            None => None,
        };
    }
    parse_fractional(s, mult)
}

fn multiplier_word(w: &String) -> (r: Option<i64>)
    ensures
        r matches Some(m) ==> multiplier_of(w@) == Some(m as int),
        r is None ==> multiplier_of(w@) is None,
{
    let wc = chars_of(w.as_str());
    if chars_eq(&wc, &chars_of("هزار")) {
        Some(1_000)
    } else if chars_eq(&wc, &chars_of("میلیون")) {
        Some(1_000_000)
    } else if chars_eq(&wc, &chars_of("میلیارد")) {
        Some(1_000_000_000)
    } else {
        None
    }
}

fn parse_value(body0: &Vec<char>) -> (r: Option<i64>)
    ensures
        r == spec_parse_value(body0@),
{
    let body = trim_chars(body0);
    if body.len() == 0 {
        return None;
    }
    let mut words = split_whitespace(&body);
    let ghost wv = views(words@);
    let mut mult: i64 = 1;
    let mut num_part: Vec<char> = Vec::new();
    let mut has_mult = false;
    if words.len() > 0 {
        let last = words.len() - 1;
        assert(words@[last as int]@ == wv.last());
        match multiplier_word(&words[last]) {
            Some(m) => {
                mult = m;
                has_mult = true;
            },
            None => {},
        }
    }
    if has_mult {
        let ghost before = words@;
        words.pop();
        assert(views(words@) =~= wv.drop_last());
        let joined = join_strings(&words, " ");
        proof {
            reveal_strlit(" ");
            assert(" "@ =~= seq![' ']);
        }
        num_part = chars_of(joined.as_str());
    } else {
        num_part = subvec(&body, 0, body.len());
        assert(num_part@ =~= body@);
    }
    let ns = trim_chars(&num_part);
    if ns.len() == 0 {
        return Some(mult);
    }
    match parse_digit_value(&ns, mult) {
        Some(n) => return Some(n),
        None => {},
    }
    let body_s = string_from_chars(&body);
    match from_words(body_s.as_str()) {
        Some(n) => return Some(n),
        None => {},
    }
    let ns_s = string_from_chars(&ns);
    match from_words(ns_s.as_str()) {
        Some(n) => checked_mul_i64(n, mult),
        None => None,
    }
}

/// Parse a Persian monetary expression: a number (digits, a fraction such
/// as `۱.۵`, or words), an optional scale word (هزار / میلیون / میلیارد) and
/// a unit (تومان / تومن / ریال).  `None` if the unit is missing or the
/// amount cannot be read.
pub fn parse(text: &str) -> (r: Option<MoneyAmount>)
    ensures
        r matches Some(m) ==> spec_parse(text@) == Some((m.value, m.unit)) && m.raw@ == spec_trim(
            text@,
        ),
        r is None ==> spec_parse(text@) is None,
{
    let chars = chars_of(text);
    let t = trim_chars(&chars);
    let (before, unit) = match strip_unit(&t) {
        Some(x) => x,
        None => return None,
    };
    let b = trim_chars(&before);
    let value = match parse_value(&b) {
        Some(v) => v,
        None => return None,
    };
    let raw = string_from_chars(&t);
    Some(MoneyAmount { value, unit, raw })
}

// ── formatting then parsing ─────────────────────────────────────────────────

proof fn lemma_latin_digit(d: int)
    requires
        0 <= d <= 9,
    ensures
        crate::normalizer::digits::digit_value(crate::decimal::digit_char(d)) == Some(d),
        '0' <= crate::decimal::digit_char(d) <= '9',
{
    let l = crate::normalizer::digits::LATIN_DIGITS;
    assert(l[0] == '0' && l[1] == '1' && l[2] == '2' && l[3] == '3' && l[4] == '4' && l[5] == '5'
        && l[6] == '6' && l[7] == '7' && l[8] == '8' && l[9] == '9');
}

proof fn lemma_digit_seq_push(s: Seq<char>, c: char)
    ensures
        digit_seq(s.push(c)) == match crate::normalizer::digits::digit_value(c) {
            Some(d) => digit_seq(s).push(d as u8),
            None => digit_seq(s),
        },
{
    assert(s.push(c).drop_last() =~= s);
}

proof fn lemma_dec_value_push(d: Seq<u8>, x: u8)
    ensures
        dec_value(d.push(x)) == dec_value(d) * 10 + x,
{
    assert(d.push(x).drop_last() =~= d);
}

/// The decimal form of `n` is ASCII digits whose value is `n`.
proof fn lemma_decimal_digits(n: nat)
    ensures
        forall|i: int|
            0 <= i < crate::decimal::spec_decimal(n).len() ==> '0' <= #[trigger] crate::decimal::spec_decimal(
                n,
            )[i] <= '9',
        digit_seq(crate::decimal::spec_decimal(n)).len() > 0,
        dec_value(digit_seq(crate::decimal::spec_decimal(n))) == n,
    decreases n,
{
    let d = crate::decimal::spec_decimal(n);
    if n < 10 {
        lemma_latin_digit(n as int);
        lemma_digit_seq_push(Seq::<char>::empty(), crate::decimal::digit_char(n as int));
        assert(seq![crate::decimal::digit_char(n as int)] =~= Seq::<char>::empty().push(
            crate::decimal::digit_char(n as int),
        ));
        lemma_dec_value_push(Seq::<u8>::empty(), n as u8);
    } else {
        lemma_decimal_digits(n / 10);
        let prev = crate::decimal::spec_decimal(n / 10);
        let c = crate::decimal::digit_char((n % 10) as int);
        lemma_latin_digit((n % 10) as int);
        assert(d == prev.push(c));
        lemma_digit_seq_push(prev, c);
        lemma_dec_value_push(digit_seq(prev), (n % 10) as u8);
        assert forall|i: int| 0 <= i < d.len() implies '0' <= #[trigger] d[i] <= '9' by {
            if i < prev.len() {
                assert(d[i] == prev[i]);
            }
        }
    }
}

/// A Persian digit or the thousands separator.
spec fn grouped_char(c: char) -> bool {
    (0x06F0 <= (c as u32) <= 0x06F9) || c == '،'
}

/// Grouping keeps the digit values and writes only Persian digits and
/// separators, starting with a digit.
proof fn lemma_grouped(raw: Seq<char>, k: int)
    requires
        0 <= k <= raw.len(),
        forall|i: int| 0 <= i < raw.len() ==> '0' <= #[trigger] raw[i] <= '9',
    ensures
        digit_seq(crate::numbers::grouped(raw, k)) == digit_seq(raw.take(k)),
        forall|i: int|
            0 <= i < crate::numbers::grouped(raw, k).len() ==> grouped_char(
                #[trigger] crate::numbers::grouped(raw, k)[i],
            ),
        k >= 1 ==> crate::numbers::grouped(raw, k).len() >= 1 && 0x06F0 <= (crate::numbers::grouped(
            raw,
            k,
        )[0] as u32) <= 0x06F9,
    decreases k,
{
    if k > 0 {
        lemma_grouped(raw, k - 1);
        let prev = crate::numbers::grouped(raw, k - 1);
        let i = k - 1;
        let with_sep = if i > 0 && (raw.len() - i) % 3 == 0 {
            prev.push(crate::numbers::THOUSANDS_SEPARATOR)
        } else {
            prev
        };
        let x = raw[i];
        let y = crate::normalizer::digits::persian_digit_of(x);
        let p = crate::normalizer::digits::PERSIAN_DIGITS;
        assert(p[0] == '۰' && p[1] == '۱' && p[2] == '۲' && p[3] == '۳' && p[4] == '۴' && p[5] == '۵'
            && p[6] == '۶' && p[7] == '۷' && p[8] == '۸' && p[9] == '۹');
        assert(crate::normalizer::digits::digit_value(y) == crate::normalizer::digits::digit_value(x));
        let g = crate::numbers::grouped(raw, k);
        assert(g == with_sep.push(y));
        if i > 0 && (raw.len() - i) % 3 == 0 {
            lemma_digit_seq_push(prev, '،');
        }
        lemma_digit_seq_push(with_sep, y);
        crate::validators::lemma_digit_seq_step(raw, i);
        assert forall|j: int| 0 <= j < g.len() implies grouped_char(#[trigger] g[j]) by {
            if j < prev.len() {
                assert(g[j] == prev[j]);
            }
        }
        if k >= 2 {
            assert(g[0] == prev[0]);
        }
    }
}

/// A non-empty run with no whitespace is its own trim and its only word.
proof fn lemma_single_word(s: Seq<char>)
    requires
        s.len() > 0,
        forall|i: int| 0 <= i < s.len() ==> !crate::text::spec_is_whitespace(#[trigger] s[i]),
    ensures
        spec_trim(s) == s,
        split_ws(s) == seq![s],
{
    assert(crate::text::skip_ws(s, 0) == 0);
    assert(crate::text::skip_ws_back(s, 0, s.len() as int) == s.len());
    assert(s.subrange(0, s.len() as int) =~= s);
    lemma_ws_scan_single(s, s.len() as int);
    assert(s.take(s.len() as int) =~= s);
}

proof fn lemma_ws_scan_single(s: Seq<char>, n: int)
    requires
        0 <= n <= s.len(),
        forall|i: int| 0 <= i < s.len() ==> !crate::text::spec_is_whitespace(#[trigger] s[i]),
    ensures
        crate::text::ws_scan(s.take(n)) == (Seq::<Seq<char>>::empty(), s.take(n)),
    decreases n,
{
    if n > 0 {
        lemma_ws_scan_single(s, n - 1);
        assert(s.take(n).drop_last() =~= s.take(n - 1));
        assert(s.take(n - 1).push(s[n - 1]) =~= s.take(n));
    }
}

/// No occurrence of `p` when its first character occurs nowhere in `s`.
proof fn lemma_no_match(s: Seq<char>, p: Seq<char>, i: int)
    requires
        p.len() > 0,
        forall|j: int| 0 <= j < s.len() ==> #[trigger] s[j] != p[0],
    ensures
        last_match(s, p, i) is None,
    decreases i + 1,
{
    if i >= 0 {
        if i + p.len() <= s.len() {
            assert(s.subrange(i, i + p.len())[0] == s[i]);
        }
        lemma_no_match(s, p, i - 1);
    }
}

/// Formatting a non-negative amount with its unit and parsing the text
/// back gives the amount and the unit, and the formatted text is its own
/// trim, so [`parse`] keeps all of it as `raw`.  (A negative amount's minus
/// sign is not read back: the digits are.)
pub proof fn law_format_then_parse(value: i64, unit: MoneyUnit)
    requires
        value >= 0,
    ensures
        spec_parse(spec_format(value) + seq![' '] + unit_word(unit)) == Some((value, unit)),
        spec_trim(spec_format(value) + seq![' '] + unit_word(unit)) == spec_format(value) + seq![
            ' ',
        ] + unit_word(unit),
{
    let n = value as nat;
    let raw = crate::decimal::spec_decimal(n);
    lemma_decimal_digits(n);
    lemma_grouped(raw, raw.len() as int);
    assert(raw.take(raw.len() as int) =~= raw);
    let body = spec_format(value);
    assert(body == crate::numbers::grouped(raw, raw.len() as int));
    let w = unit_word(unit);
    let text = body + seq![' '] + w;
    reveal_strlit("تومان");
    reveal_strlit("تومن");
    reveal_strlit("ریال");
    reveal_strlit("هزار");
    reveal_strlit("میلیون");
    reveal_strlit("میلیارد");
    assert(UNIT_SUFFIXES[0]@ == "تومان"@ && UNIT_SUFFIXES[1]@ == "تومن"@ && UNIT_SUFFIXES[2]@
        == "ریال"@);
    // the body: Persian digits and separators, no whitespace or decimal point
    assert forall|i: int| 0 <= i < body.len() implies !crate::text::spec_is_whitespace(
        #[trigger] body[i],
    ) && body[i] != '.' && body[i] != '٫' && body[i] != 'ت' by {
        assert(grouped_char(body[i]));
    }
    // the text is already trimmed
    assert(text.len() == body.len() + 1 + w.len());
    assert(text[0] == body[0]);
    assert(text.last() == w.last());
    assert(crate::text::skip_ws(text, 0) == 0);
    assert(crate::text::skip_ws_back(text, 0, text.len() as int) == text.len());
    assert(spec_trim(text) =~= text);
    // the unit is found at the end
    let before = body + seq![' '];
    match unit {
        MoneyUnit::Toman => {
            let i = text.len() - 5;
            assert(text.subrange(i, i + 5) =~= "تومان"@);
            assert(spec_rfind(text, UNIT_SUFFIXES[0]@) == Some(i));
            assert(text.take(i) =~= before);
        },
        MoneyUnit::Rial => {
            assert forall|j: int| 0 <= j < text.len() implies #[trigger] text[j] != 'ت' by {
                if j < body.len() {
                    assert(text[j] == body[j]);
                }
            }
            lemma_no_match(text, "تومان"@, text.len() - 5);
            lemma_no_match(text, "تومن"@, text.len() - 4);
            let i = text.len() - 4;
            assert(text.subrange(i, i + 4) =~= "ریال"@);
            assert(spec_rfind(text, UNIT_SUFFIXES[2]@) == Some(i));
            assert(text.take(i) =~= before);
        },
    }
    assert(spec_strip_unit(text) == Some((before, unit)));
    // trimming drops the space
    assert(crate::text::skip_ws(before, 0) == 0);
    assert(crate::text::skip_ws_back(before, 0, before.len() - 1) == before.len() - 1);
    assert(crate::text::skip_ws_back(before, 0, before.len() as int) == before.len() - 1);
    assert(before.subrange(0, before.len() - 1) =~= body);
    assert(spec_trim(before) == body);
    // the body is one word, not a scale word
    lemma_single_word(body);
    assert(split_ws(body).last() == body);
    assert(body[0] != "هزار"@[0] && body[0] != "میلیون"@[0] && body[0] != "میلیارد"@[0]);
    assert(multiplier_of(body) is None);
    assert(!body.contains('.') && !body.contains('٫'));
    assert(digit_seq(body) == digit_seq(raw));
    assert(parse_digits(digit_seq(body)) == Some(value as int));
    assert(checked_mul(value as int, 1) == Some(value as int));
    assert(spec_parse_digit_value(body, 1) == Some(value as int));
}


/// `s` holds one of the unit suffixes somewhere.
pub open spec fn has_unit_word(s: Seq<char>) -> bool {
    exists|k: int, i: int|
        0 <= k < 3 && 0 <= i && i + UNIT_SUFFIXES[k]@.len() <= s.len() && #[trigger] s.subrange(
            i,
            i + UNIT_SUFFIXES[k]@.len(),
        ) == UNIT_SUFFIXES[k]@
}

proof fn lemma_last_match_found(s: Seq<char>, p: Seq<char>, i: int)
    ensures
        last_match(s, p, i) matches Some(j) ==> 0 <= j && j + p.len() <= s.len() && s.subrange(
            j,
            j + p.len(),
        ) == p,
    decreases i + 1,
{
    if i >= 0 {
        lemma_last_match_found(s, p, i - 1);
    }
}

proof fn lemma_unit_found_in_text(text: Seq<char>, k: int)
    requires
        0 <= k < 3,
        spec_rfind(spec_trim(text), UNIT_SUFFIXES[k]@) is Some,
    ensures
        has_unit_word(text),
{
    let t = spec_trim(text);
    let u = UNIT_SUFFIXES[k]@;
    crate::text::lemma_skip_ws_bounds(text, 0);
    let lo = crate::text::skip_ws(text, 0);
    crate::text::lemma_skip_ws_back_bounds(text, lo, text.len() as int);
    lemma_last_match_found(t, u, t.len() - u.len());
    let j = spec_rfind(t, u)->0;
    assert(text.subrange(lo + j, lo + j + u.len()) =~= t.subrange(j, j + u.len()));
    assert(text.subrange(lo + j, lo + j + UNIT_SUFFIXES[k]@.len()) == UNIT_SUFFIXES[k]@);
}

/// An amount needs its unit: text holding none of تومان, تومن, ریال is
/// never read as money.
pub proof fn law_parse_needs_unit(text: Seq<char>)
    requires
        !has_unit_word(text),
    ensures
        spec_parse(text) is None,
{
    let t = spec_trim(text);
    if spec_rfind(t, UNIT_SUFFIXES[0]@) is Some {
        lemma_unit_found_in_text(text, 0);
    } else if spec_rfind(t, UNIT_SUFFIXES[1]@) is Some {
        lemma_unit_found_in_text(text, 1);
    } else if spec_rfind(t, UNIT_SUFFIXES[2]@) is Some {
        lemma_unit_found_in_text(text, 2);
    }
}

proof fn lemma_pow10_int_is_pow(n: nat)
    ensures
        pow10_int(n) == pow(10, n),
    decreases n,
{
    reveal(pow);
    if n > 0 {
        lemma_pow10_int_is_pow((n - 1) as nat);
    }
}

proof fn lemma_first_sep_at(s: Seq<char>, i: int, j: int)
    requires
        0 <= i <= j < s.len(),
        is_decimal_sep(s[j]),
        forall|k: int| i <= k < j ==> !is_decimal_sep(#[trigger] s[k]),
    ensures
        first_decimal_sep(s, i) == Some(j),
    decreases j - i,
{
    if i < j {
        assert(!is_decimal_sep(s[i]));
        lemma_first_sep_at(s, i + 1, j);
    }
}

/// A fractional amount `a.f` scaled by `mult` is `a·mult` plus
/// `f·mult / 10^len(f)` rounded down: each further fractional digit counts
/// a tenth as much as the one before it.  (Written with Latin digits; the
/// integer part may be empty.)
pub proof fn law_fractional_amount(a: Seq<u8>, f: Seq<u8>, mult: int)
    requires
        all_digits(a),
        all_digits(f),
        1 <= f.len() <= 18,
        mult >= 1,
        dec_value(a) * mult + dec_value(f) * mult <= i64::MAX,
    ensures
        spec_parse_fractional(ascii_digits(a) + seq!['.'] + ascii_digits(f), mult) == Some(
            dec_value(a) * mult + (dec_value(f) * mult) / pow(10, f.len()),
        ),
{
    let s = ascii_digits(a) + seq!['.'] + ascii_digits(f);
    let n = a.len() as int;
    assert(LATIN_DIGITS[0] == '0' && LATIN_DIGITS[1] == '1' && LATIN_DIGITS[2] == '2'
        && LATIN_DIGITS[3] == '3' && LATIN_DIGITS[4] == '4' && LATIN_DIGITS[5] == '5'
        && LATIN_DIGITS[6] == '6' && LATIN_DIGITS[7] == '7' && LATIN_DIGITS[8] == '8'
        && LATIN_DIGITS[9] == '9');
    assert forall|k: int| 0 <= k < n implies !is_decimal_sep(#[trigger] s[k]) by {
        assert(s[k] == LATIN_DIGITS[a[k] as int]);
        assert(a[k] <= 9);
    }
    assert(s[n] == '.');
    lemma_first_sep_at(s, 0, n);
    assert(s.take(n) =~= ascii_digits(a));
    assert(s.skip(n + 1) =~= ascii_digits(f));
    crate::validators::lemma_digit_seq_ascii(a);
    crate::validators::lemma_digit_seq_ascii(f);
    lemma_dec_value_nonneg(a);
    lemma_dec_value_nonneg(f);
    let da = dec_value(a);
    let df = dec_value(f);
    assert(da <= da * mult && df <= df * mult && 0 <= da * mult && 0 <= df * mult) by (nonlinear_arith)
        requires
            da >= 0,
            df >= 0,
            mult >= 1,
    ;
    if a.len() == 0 {
        assert(da == 0);
        assert(0 * mult == 0);
    }
    let flen = f.len();
    assert(((f.len() as u32) as nat) == flen);
    lemma_pow10_int_pos(flen);
    lemma_pow10_int_is_pow(flen);
    let p = pow10_int(flen);
    let b = df * mult;
    assert(b / p <= b) by (nonlinear_arith)
        requires
            b >= 0,
            p >= 1,
    ;
}
} // verus!
