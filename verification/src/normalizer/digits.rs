//! Digit-script unification.
//!
//! Three digit systems appear in Persian texts: Latin `0-9` (U+0030..),
//! Arabic-Indic `٠-٩` (U+0660..) and Persian `۰-۹` (U+06F0..).

use vstd::prelude::*;
use crate::text::{chars_of, cp, lemma_take_full, push_char};

verus! {

/// Persian digits ۰..۹ (U+06F0..=U+06F9).
pub const PERSIAN_DIGITS: [char; 10] = ['۰', '۱', '۲', '۳', '۴', '۵', '۶', '۷', '۸', '۹'];

/// Latin digits 0..9.
pub const LATIN_DIGITS: [char; 10] = ['0', '1', '2', '3', '4', '5', '6', '7', '8', '9'];

/// Decimal value of a Latin, Arabic-Indic or Persian digit.
pub open spec fn digit_value(c: char) -> Option<int> {
    if 0x30 <= cp(c) <= 0x39 {
        Some(cp(c) - 0x30)
    } else if 0x0660 <= cp(c) <= 0x0669 {
        Some(cp(c) - 0x0660)
    } else if 0x06F0 <= cp(c) <= 0x06F9 {
        Some(cp(c) - 0x06F0)
    } else {
        None
    }
}

/// Latin and Arabic-Indic digits become Persian; everything else is kept.
pub open spec fn persian_digit_of(c: char) -> char {
    if 0x30 <= cp(c) <= 0x39 {
        PERSIAN_DIGITS[cp(c) - 0x30]
    } else if 0x0660 <= cp(c) <= 0x0669 {
        PERSIAN_DIGITS[cp(c) - 0x0660]
    } else {
        c
    }
}

/// Persian and Arabic-Indic digits become Latin; everything else is kept.
pub open spec fn latin_digit_of(c: char) -> char {
    if 0x06F0 <= cp(c) <= 0x06F9 {
        LATIN_DIGITS[cp(c) - 0x06F0]
    } else if 0x0660 <= cp(c) <= 0x0669 {
        LATIN_DIGITS[cp(c) - 0x0660]
    } else {
        c
    }
}

pub fn persian_digit_char(c: char) -> (r: char)
    ensures
        r == persian_digit_of(c),
{
    let u = c as u32;
    if 0x30 <= u && u <= 0x39 {
        PERSIAN_DIGITS[(u - 0x30) as usize]
    } else if 0x0660 <= u && u <= 0x0669 {
        PERSIAN_DIGITS[(u - 0x0660) as usize]
    } else {
        c
    }
}

pub fn latin_digit_char(c: char) -> (r: char)
    ensures
        r == latin_digit_of(c),
{
    let u = c as u32;
    if 0x06F0 <= u && u <= 0x06F9 {
        LATIN_DIGITS[(u - 0x06F0) as usize]
    } else if 0x0660 <= u && u <= 0x0669 {
        LATIN_DIGITS[(u - 0x0660) as usize]
    } else {
        c
    }
}

/// Converts Latin (0–9) and Arabic-Indic (٠–٩) digits to Persian (۰–۹).
pub fn to_persian(text: &str) -> (r: String)
    ensures
        r@ == text@.map_values(|c: char| persian_digit_of(c)),
{
    let chars = chars_of(text);
    let mut out = String::new();
    let mut i: usize = 0;
    while i < chars.len()
        invariant
            0 <= i <= chars.len(),
            out@ == chars@.take(i as int).map_values(|c: char| persian_digit_of(c)),
        decreases chars.len() - i,
    {
        push_char(&mut out, persian_digit_char(chars[i]));
        assert(chars@.take(i + 1).map_values(|c: char| persian_digit_of(c)) =~= chars@.take(
            i as int,
        ).map_values(|c: char| persian_digit_of(c)).push(persian_digit_of(chars@[i as int])));
        i += 1;
    }
    proof {
        lemma_take_full(chars@);
    }
    out
}

/// Converts Persian (۰–۹) and Arabic-Indic (٠–٩) digits to Latin (0–9).
pub fn to_latin(text: &str) -> (r: String)
    ensures
        r@ == text@.map_values(|c: char| latin_digit_of(c)),
{
    let chars = chars_of(text);
    let mut out = String::new();
    let mut i: usize = 0;
    while i < chars.len()
        invariant
            0 <= i <= chars.len(),
            out@ == chars@.take(i as int).map_values(|c: char| latin_digit_of(c)),
        decreases chars.len() - i,
    {
        push_char(&mut out, latin_digit_char(chars[i]));
        assert(chars@.take(i + 1).map_values(|c: char| latin_digit_of(c)) =~= chars@.take(
            i as int,
        ).map_values(|c: char| latin_digit_of(c)).push(latin_digit_of(chars@[i as int])));
        i += 1;
    }
    proof {
        lemma_take_full(chars@);
    }
    out
}

/// Converting to Latin after converting to Persian is the same as converting
/// to Latin directly, and vice versa: the two passes only ever change which
/// script a digit is written in.
pub proof fn law_digit_scripts_round_trip(s: Seq<char>)
    ensures
        s.map_values(|c: char| persian_digit_of(c)).map_values(|c: char| latin_digit_of(c))
            == s.map_values(|c: char| latin_digit_of(c)),
        s.map_values(|c: char| latin_digit_of(c)).map_values(|c: char| persian_digit_of(c))
            == s.map_values(|c: char| persian_digit_of(c)),
{
    assert forall|i: int| 0 <= i < s.len() implies latin_digit_of(persian_digit_of(s[i]))
        == latin_digit_of(s[i]) && persian_digit_of(latin_digit_of(s[i])) == persian_digit_of(
        s[i],
    ) by {
        let c = s[i];
        assert(PERSIAN_DIGITS[0] as u32 == 0x06F0);
        assert(PERSIAN_DIGITS[9] as u32 == 0x06F9);
    }
    assert(s.map_values(|c: char| persian_digit_of(c)).map_values(|c: char| latin_digit_of(c))
        =~= s.map_values(|c: char| latin_digit_of(c)));
    assert(s.map_values(|c: char| latin_digit_of(c)).map_values(|c: char| persian_digit_of(c))
        =~= s.map_values(|c: char| persian_digit_of(c)));
}

} // verus!
